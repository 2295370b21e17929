//! A string-keyed map stored as an ordered list of pairs, with a `Map` view.
use vstd::prelude::*;
use vstd::string::StringExecFns;

use crate::strutil::str_eq;

verus! {

/// The map that an ordered list of pairs denotes: later entries override
/// earlier ones.
pub open spec fn assoc_map(s: Seq<(String, String)>) -> Map<Seq<char>, Seq<char>>
    decreases s.len(),
{
    if s.len() == 0 {
        Map::empty()
    } else {
        assoc_map(s.drop_last()).insert(s.last().0@, s.last().1@)
    }
}

/// The list with every binding of `k` dropped.
pub open spec fn spec_remove_key(s: Seq<(String, String)>, k: Seq<char>) -> Seq<(String, String)>
    decreases s.len(),
{
    if s.len() == 0 {
        s
    } else if s.last().0@ == k {
        spec_remove_key(s.drop_last(), k)
    } else {
        spec_remove_key(s.drop_last(), k).push(s.last())
    }
}

/// Dropping a key's bindings from the list removes it from the map.
proof fn lemma_remove_key_map(s: Seq<(String, String)>, k: Seq<char>)
    ensures
        assoc_map(spec_remove_key(s, k)) == assoc_map(s).remove(k),
    decreases s.len(),
{
    if s.len() == 0 {
        assert(assoc_map(spec_remove_key(s, k)) =~= assoc_map(s).remove(k));
    } else {
        lemma_remove_key_map(s.drop_last(), k);
        if s.last().0@ == k {
            assert(assoc_map(spec_remove_key(s, k)) =~= assoc_map(s).remove(k));
        } else {
            assert(spec_remove_key(s, k).drop_last() =~= spec_remove_key(s.drop_last(), k));
            assert(spec_remove_key(s, k).last() == s.last());
            assert(assoc_map(spec_remove_key(s, k)) =~= assoc_map(s).remove(k));
        }
    }
}

pub struct StrMap {
    pub entries: Vec<(String, String)>,
}

impl StrMap {
    pub open spec fn view(&self) -> Map<Seq<char>, Seq<char>> {
        assoc_map(self.entries@)
    }

    pub fn new() -> (r: StrMap)
        ensures
            r@ == Map::<Seq<char>, Seq<char>>::empty(),
    {
        StrMap { entries: Vec::new() }
    }

    /// Binds `key` to `value`: the earlier binding of the key, if any, is
    /// dropped, so each name stays in the list at most once.
    pub fn set(&mut self, key: &str, value: String)
        ensures
            final(self)@ == old(self)@.insert(key@, value@),
            forall|j: int|
                0 <= j < final(self).entries@.len() - 1
                    ==> (#[trigger] final(self).entries@[j]).0@ != key@,
            final(self).entries@.len() > 0 && final(self).entries@.last().0@ == key@,
    {
        let mut kept: Vec<(String, String)> = Vec::new();
        let mut i: usize = 0;
        proof {
            assert(self.entries@.subrange(0, 0) =~= Seq::<(String, String)>::empty());
        }
        while i < self.entries.len()
            invariant
                0 <= i <= self.entries@.len(),
                kept@ == spec_remove_key(self.entries@.subrange(0, i as int), key@),
                forall|j: int| 0 <= j < kept@.len() ==> (#[trigger] kept@[j]).0@ != key@,
            decreases self.entries@.len() - i,
        {
            proof {
                assert(self.entries@.subrange(0, i + 1).drop_last() =~= self.entries@.subrange(
                    0,
                    i as int,
                ));
                assert(self.entries@.subrange(0, i + 1).last() == self.entries@[i as int]);
            }
            if !str_eq(self.entries[i].0.as_str(), key) {
                let pair = (self.entries[i].0.clone(), self.entries[i].1.clone());
                kept.push(pair);
            }
            i += 1;
        }
        proof {
            assert(self.entries@.subrange(0, self.entries@.len() as int) =~= self.entries@);
            lemma_remove_key_map(self.entries@, key@);
        }
        let ghost removed = kept@;
        kept.push((key.to_owned(), value));
        self.entries = kept;
        proof {
            assert(self.entries@.drop_last() =~= removed);
            assert(self@ =~= old(self)@.insert(key@, value@));
        }
    }

    /// Looks the key up; the result agrees with the map view.
    pub fn get(&self, key: &str) -> (r: Option<&String>)
        ensures
            match r {
                Some(v) => self@.contains_key(key@) && v@ == self@[key@],
                None => !self@.contains_key(key@),
            },
    {
        let n = self.entries.len();
        proof {
            assert(self.entries@.subrange(0, n as int) =~= self.entries@);
        }
        let mut i: usize = n;
        while i > 0
            invariant
                0 <= i <= n,
                n == self.entries@.len(),
                forall|j: int| i <= j < n ==> #[trigger] self.entries@[j].0@ != key@,
                assoc_map(self.entries@.subrange(0, i as int)).contains_key(key@) == self@.contains_key(key@),
                assoc_map(self.entries@.subrange(0, i as int)).contains_key(key@) ==> assoc_map(
                    self.entries@.subrange(0, i as int),
                )[key@] == self@[key@],
            decreases i,
        {
            proof {
                assert(self.entries@.subrange(0, i as int).drop_last() =~= self.entries@.subrange(
                    0,
                    i - 1,
                ));
                assert(self.entries@.subrange(0, i as int).last() == self.entries@[i - 1]);
            }
            if str_eq(self.entries[i - 1].0.as_str(), key) {
                return Some(&self.entries[i - 1].1);
            }
            i -= 1;
        }
        proof {
            assert(self.entries@.subrange(0, 0) =~= Seq::<(String, String)>::empty());
        }
        None
    }

    /// The entries, copied.
    pub fn snapshot(&self) -> (r: Vec<(String, String)>)
        ensures
            r.deep_view() == self.entries.deep_view(),
    {
        let mut r: Vec<(String, String)> = Vec::new();
        let mut i: usize = 0;
        while i < self.entries.len()
            invariant
                0 <= i <= self.entries@.len(),
                r@.len() == i,
                forall|j: int|
                    0 <= j < i ==> (#[trigger] r@[j]).0@ == self.entries@[j].0@ && r@[j].1@
                        == self.entries@[j].1@,
            decreases self.entries@.len() - i,
        {
            r.push((self.entries[i].0.clone(), self.entries[i].1.clone()));
            i += 1;
        }
        proof {
            assert forall|j: int| 0 <= j < r@.len() implies r.deep_view()[j]
                == self.entries.deep_view()[j] by {
                assert(r.deep_view()[j] == (r@[j].0@, r@[j].1@));
                assert(self.entries.deep_view()[j] == (self.entries@[j].0@, self.entries@[j].1@));
            }
            assert(r.deep_view() =~= self.entries.deep_view());
        }
        r
    }
}

} // verus!
