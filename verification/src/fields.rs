//! Field splitting: turning the expanded pieces of a word into argv tokens.
//! Pieces that came from quoting or literal text are inert; pieces that came
//! from an expansion are split at blanks, and empty fields are dropped.
use vstd::prelude::*;

use crate::strutil::{is_blank, spec_is_blank, string_of};

verus! {

/// One expanded piece of a word, with whether field splitting applies to it.
pub struct Fragment {
    pub text: String,
    pub splittable: bool,
}

pub open spec fn spec_frag_views(frags: Seq<Fragment>) -> Seq<(Seq<char>, bool)> {
    frags.map_values(|f: Fragment| (f.text@, f.splittable))
}

/// The characters of all fragments in order, each carrying its fragment's
/// splittability.
pub open spec fn spec_flatten_frags(frags: Seq<(Seq<char>, bool)>) -> Seq<(char, bool)>
    decreases frags.len(),
{
    if frags.len() == 0 {
        Seq::empty()
    } else {
        frags[0].0.map_values(|c: char| (c, frags[0].1)) + spec_flatten_frags(frags.drop_first())
    }
}

pub proof fn lemma_flatten_snoc(frags: Seq<(Seq<char>, bool)>)
    requires
        frags.len() > 0,
    ensures
        spec_flatten_frags(frags) == spec_flatten_frags(frags.drop_last()) + frags.last().0.map_values(
            |c: char| (c, frags.last().1),
        ),
    decreases frags.len(),
{
    if frags.len() == 1 {
        assert(frags.drop_first().len() == 0);
        assert(spec_flatten_frags(frags.drop_first()) == Seq::<(char, bool)>::empty());
        assert(frags.drop_last().len() == 0);
        assert(spec_flatten_frags(frags.drop_last()) == Seq::<(char, bool)>::empty());
        assert(frags.last() == frags[0]);
        assert(spec_flatten_frags(frags) =~= spec_flatten_frags(frags.drop_last())
            + frags.last().0.map_values(|c: char| (c, frags.last().1)));
    } else {
        lemma_flatten_snoc(frags.drop_first());
        assert(frags.drop_first().drop_last() =~= frags.drop_last().drop_first());
        assert(frags.drop_first().last() == frags.last());
        assert(frags.drop_last()[0] == frags[0]);
        assert(spec_flatten_frags(frags) =~= spec_flatten_frags(frags.drop_last())
            + frags.last().0.map_values(|c: char| (c, frags.last().1)));
    }
}

/// Field splitting over a flattened character stream: a splittable blank ends
/// the current field (dropping it when empty); every other character extends
/// the current field; a non-empty final field is kept.
pub open spec fn spec_split_chars(
    chars: Seq<(char, bool)>,
    cur: Seq<char>,
    acc: Seq<Seq<char>>,
) -> Seq<Seq<char>>
    decreases chars.len(),
{
    if chars.len() == 0 {
        if cur.len() > 0 {
            acc.push(cur)
        } else {
            acc
        }
    } else {
        let c = chars[0].0;
        let splittable = chars[0].1;
        if splittable && spec_is_blank(c) {
            if cur.len() > 0 {
                spec_split_chars(chars.drop_first(), Seq::empty(), acc.push(cur))
            } else {
                spec_split_chars(chars.drop_first(), cur, acc)
            }
        } else {
            spec_split_chars(chars.drop_first(), cur.push(c), acc)
        }
    }
}

/// The fields that a sequence of fragments denotes.
pub open spec fn spec_split_fragments(frags: Seq<(Seq<char>, bool)>) -> Seq<Seq<char>> {
    spec_split_chars(spec_flatten_frags(frags), Seq::empty(), Seq::empty())
}

fn flatten_fragments(frags: &Vec<Fragment>) -> (r: Vec<(char, bool)>)
    ensures
        r@ == spec_flatten_frags(spec_frag_views(frags@)),
{
    let mut r: Vec<(char, bool)> = Vec::new();
    let mut k: usize = 0;
    while k < frags.len()
        invariant
            0 <= k <= frags@.len(),
            r@ == spec_flatten_frags(spec_frag_views(frags@.subrange(0, k as int))),
        decreases frags@.len() - k,
    {
        let text = &frags[k].text;
        let splittable = frags[k].splittable;
        let n = vstd::string::StrSliceExecFns::unicode_len(text.as_str());
        let mut j: usize = 0;
        while j < n
            invariant
                0 <= j <= n,
                n == text@.len(),
                text == &frags@[k as int].text,
                splittable == frags@[k as int].splittable,
                0 <= k < frags@.len(),
                r@ == spec_flatten_frags(spec_frag_views(frags@.subrange(0, k as int)))
                    + text@.subrange(0, j as int).map_values(|c: char| (c, splittable)),
            decreases n - j,
        {
            let c = vstd::string::StrSliceExecFns::get_char(text.as_str(), j);
            r.push((c, splittable));
            j += 1;
            proof {
                assert(text@.subrange(0, j as int).map_values(|c: char| (c, splittable))
                    =~= text@.subrange(0, j - 1).map_values(|c: char| (c, splittable)).push(
                    (text@[j - 1], splittable),
                ));
                assert(r@ =~= spec_flatten_frags(spec_frag_views(frags@.subrange(0, k as int)))
                    + text@.subrange(0, j as int).map_values(|c: char| (c, splittable)));
            }
        }
        k += 1;
        proof {
            let views = spec_frag_views(frags@.subrange(0, k as int));
            assert(views.len() > 0);
            lemma_flatten_snoc(views);
            assert(views.drop_last() =~= spec_frag_views(frags@.subrange(0, k - 1)));
            assert(views.last() == (frags@[k - 1].text@, frags@[k - 1].splittable));
            assert(text@.subrange(0, n as int) =~= text@);
            assert(r@ =~= spec_flatten_frags(spec_frag_views(frags@.subrange(0, k as int))));
        }
    }
    proof {
        assert(frags@.subrange(0, frags@.len() as int) =~= frags@);
    }
    r
}

/// Splits the fragments of one word into fields, exactly as
/// `spec_split_fragments` says.
pub fn split_fragments(frags: &Vec<Fragment>) -> (r: Vec<String>)
    ensures
        r.deep_view() == spec_split_fragments(spec_frag_views(frags@)),
{
    let flat = flatten_fragments(frags);
    let ghost target = spec_split_fragments(spec_frag_views(frags@));
    proof {
        assert(flat@.subrange(0, flat@.len() as int) =~= flat@);
    }
    let mut out: Vec<String> = Vec::new();
    let mut cur: Vec<char> = Vec::new();
    proof {
        assert(out.deep_view() =~= Seq::<Seq<char>>::empty());
    }
    let mut i: usize = 0;
    while i < flat.len()
        invariant
            0 <= i <= flat@.len(),
            spec_split_chars(flat@.subrange(i as int, flat@.len() as int), cur@, out.deep_view())
                == target,
        decreases flat@.len() - i,
    {
        proof {
            assert(flat@.subrange(i as int, flat@.len() as int).drop_first() =~= flat@.subrange(
                i + 1,
                flat@.len() as int,
            ));
            assert(flat@.subrange(i as int, flat@.len() as int)[0] == flat@[i as int]);
        }
        let (c, splittable) = flat[i];
        if splittable && is_blank(c) {
            if cur.len() > 0 {
                let field = string_of(&cur);
                let ghost prev = out.deep_view();
                out.push(field);
                cur = Vec::new();
                proof {
                    assert(out.deep_view() =~= prev.push(field@));
                }
            }
        } else {
            cur.push(c);
        }
        i += 1;
    }
    proof {
        assert(flat@.subrange(flat@.len() as int, flat@.len() as int) =~= Seq::<(
            char,
            bool,
        )>::empty());
    }
    if cur.len() > 0 {
        let field = string_of(&cur);
        let ghost prev = out.deep_view();
        out.push(field);
        proof {
            assert(out.deep_view() =~= prev.push(field@));
        }
    }
    out
}

} // verus!
