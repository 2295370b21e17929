//! Field access for joining sorted files on a common column: splitting a line
//! into fields and picking or dropping one of them.
use vstd::prelude::*;
use vstd::string::StrSliceExecFns;
use vstd::string::StringExecFns;

use crate::strutil::{is_blank, spec_is_blank, string_of};

verus! {

/// Splitting at every separator, keeping empty fields — a line is always at
/// least one field.
pub open spec fn spec_split_keep(
    s: Seq<char>,
    sep: char,
    cur: Seq<char>,
    acc: Seq<Seq<char>>,
) -> Seq<Seq<char>>
    decreases s.len(),
{
    if s.len() == 0 {
        acc.push(cur)
    } else if s[0] == sep {
        spec_split_keep(s.drop_first(), sep, Seq::empty(), acc.push(cur))
    } else {
        spec_split_keep(s.drop_first(), sep, cur.push(s[0]), acc)
    }
}

/// Splitting at blank runs, dropping empty fields.
pub open spec fn spec_split_blanks(s: Seq<char>, cur: Seq<char>, acc: Seq<Seq<char>>) -> Seq<
    Seq<char>,
>
    decreases s.len(),
{
    if s.len() == 0 {
        if cur.len() > 0 {
            acc.push(cur)
        } else {
            acc
        }
    } else if spec_is_blank(s[0]) {
        if cur.len() > 0 {
            spec_split_blanks(s.drop_first(), Seq::empty(), acc.push(cur))
        } else {
            spec_split_blanks(s.drop_first(), cur, acc)
        }
    } else {
        spec_split_blanks(s.drop_first(), cur.push(s[0]), acc)
    }
}

/// The fields of a line: split at the separator when one is given, keeping
/// empty fields; split at blanks otherwise, dropping them.
pub open spec fn spec_fields(line: Seq<char>, sep: Option<char>) -> Seq<Seq<char>> {
    match sep {
        Some(c) => spec_split_keep(line, c, Seq::empty(), Seq::empty()),
        None => spec_split_blanks(line, Seq::empty(), Seq::empty()),
    }
}

/// Splits a line into its fields.
pub fn split_line(line: &str, sep: &Option<char>) -> (r: Vec<String>)
    ensures
        r.deep_view() == spec_fields(line@, *sep),
{
    let chars = crate::strutil::chars_of(line);
    let mut out: Vec<String> = Vec::new();
    let mut cur: Vec<char> = Vec::new();
    proof {
        assert(out.deep_view() =~= Seq::<Seq<char>>::empty());
        assert(chars@.subrange(0, chars@.len() as int) =~= chars@);
    }
    let mut i: usize = 0;
    while i < chars.len()
        invariant
            0 <= i <= chars@.len(),
            chars@ == line@,
            match *sep {
                Some(c) => spec_split_keep(
                    chars@.subrange(i as int, chars@.len() as int),
                    c,
                    cur@,
                    out.deep_view(),
                ) == spec_fields(line@, *sep),
                None => spec_split_blanks(
                    chars@.subrange(i as int, chars@.len() as int),
                    cur@,
                    out.deep_view(),
                ) == spec_fields(line@, *sep),
            },
        decreases chars@.len() - i,
    {
        proof {
            assert(chars@.subrange(i as int, chars@.len() as int).drop_first() =~= chars@.subrange(
                i + 1,
                chars@.len() as int,
            ));
            assert(chars@.subrange(i as int, chars@.len() as int)[0] == chars@[i as int]);
        }
        let c = chars[i];
        let is_field_sep = match sep {
            Some(s) => c == *s,
            None => is_blank(c),
        };
        if is_field_sep {
            let keep_empty = match sep {
                Some(s) => true,
                None => false,
            };
            if keep_empty || cur.len() > 0 {
                let field = string_of(&cur);
                let ghost prev = out.deep_view();
                out.push(field);
                cur = Vec::new();
                proof {
                    assert(out.deep_view() =~= prev.push(field@));
                }
            }
        } else {
            cur.push(c);
        }
        i += 1;
    }
    proof {
        assert(chars@.subrange(chars@.len() as int, chars@.len() as int) =~= Seq::<char>::empty());
    }
    let tail_keep = match sep {
        Some(s) => true,
        None => cur.len() > 0,
    };
    if tail_keep {
        let field = string_of(&cur);
        let ghost prev = out.deep_view();
        out.push(field);
        proof {
            assert(out.deep_view() =~= prev.push(field@));
        }
    }
    out
}

/// The 1-based field of a line, or the empty string past the end.
pub fn get_field(line: &str, field: usize, sep: &Option<char>) -> (r: String)
    requires
        field >= 1,
    ensures
        r@ == {
            let fs = spec_fields(line@, *sep);
            if field <= fs.len() {
                fs[field - 1]
            } else {
                Seq::<char>::empty()
            }
        },
{
    let fields = split_line(line, sep);
    if field <= fields.len() {
        proof {
            assert(fields.deep_view()[field - 1] == fields@[field - 1]@);
        }
        fields[field - 1].clone()
    } else {
        String::new()
    }
}

/// Every field of the line but the 1-based `field`, in order.
pub fn get_other_fields(line: &str, field: usize, sep: &Option<char>) -> (r: Vec<String>)
    ensures
        r.deep_view() == {
            let fs = spec_fields(line@, *sep);
            if 1 <= field <= fs.len() {
                fs.subrange(0, field - 1) + fs.subrange(field as int, fs.len() as int)
            } else {
                fs
            }
        },
{
    let fields = split_line(line, sep);
    let mut out: Vec<String> = Vec::new();
    let mut i: usize = 0;
    while i < fields.len()
        invariant
            0 <= i <= fields@.len(),
            fields.deep_view() == spec_fields(line@, *sep),
            out.deep_view() == {
                let fs = fields.deep_view();
                if 1 <= field <= i {
                    fs.subrange(0, field - 1) + fs.subrange(field as int, i as int)
                } else {
                    fs.subrange(0, i as int)
                }
            },
        decreases fields@.len() - i,
    {
        if i + 1 != field {
            let ghost prev = out.deep_view();
            out.push(fields[i].clone());
            proof {
                assert(out.deep_view() =~= prev.push(fields.deep_view()[i as int]));
            }
        }
        i += 1;
        proof {
            let fs = fields.deep_view();
            if 1 <= field <= i {
                assert(out.deep_view() =~= fs.subrange(0, field - 1) + fs.subrange(
                    field as int,
                    i as int,
                ));
            } else {
                assert(out.deep_view() =~= fs.subrange(0, i as int));
            }
        }
    }
    proof {
        let fs = fields.deep_view();
        assert(fs.subrange(0, fs.len() as int) =~= fs);
        if 1 <= field <= fs.len() {
            assert(out.deep_view() =~= fs.subrange(0, field - 1) + fs.subrange(
                field as int,
                fs.len() as int,
            ));
        }
    }
    out
}

} // verus!
