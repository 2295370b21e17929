//! Text helpers for stream editing scripts: replacement-escape handling and
//! locating the delimiter of a substitution command.
use vstd::prelude::*;

use crate::strutil::{chars_of, string_of};

verus! {

/// Replacement text with `\n` and `\t` turned into the characters they name;
/// every other escaped character stays escaped for later handling.
pub open spec fn spec_unescape_replacement(s: Seq<char>) -> Seq<char>
    decreases s.len(),
{
    if s.len() == 0 {
        Seq::empty()
    } else if s[0] == '\\' && s.len() >= 2 {
        let mapped: Seq<char> = if s[1] == 'n' {
            seq!['\n']
        } else if s[1] == 't' {
            seq!['\t']
        } else {
            seq!['\\', s[1]]
        };
        mapped + spec_unescape_replacement(s.subrange(2, s.len() as int))
    } else {
        seq![s[0]] + spec_unescape_replacement(s.drop_first())
    }
}

/// Unescapes the literal escapes of a replacement text.
pub fn unescape_replacement(s: &str) -> (r: String)
    ensures
        r@ == spec_unescape_replacement(s@),
{
    let chars = chars_of(s);
    let mut out: Vec<char> = Vec::new();
    let mut i: usize = 0;
    proof {
        assert(chars@.subrange(0, chars@.len() as int) =~= chars@);
    }
    while i < chars.len()
        invariant
            0 <= i <= chars@.len(),
            chars@ == s@,
            out@ + spec_unescape_replacement(chars@.subrange(i as int, chars@.len() as int))
                == spec_unescape_replacement(s@),
        decreases chars@.len() - i,
    {
        proof {
            assert(chars@.subrange(i as int, chars@.len() as int).drop_first() =~= chars@.subrange(
                i + 1,
                chars@.len() as int,
            ));
            if i + 2 <= chars@.len() {
                assert(chars@.subrange(i as int, chars@.len() as int).subrange(
                    2,
                    chars@.subrange(i as int, chars@.len() as int).len() as int,
                ) =~= chars@.subrange(i + 2, chars@.len() as int));
            }
            assert(chars@.subrange(i as int, chars@.len() as int)[0] == chars@[i as int]);
            assert(i + 1 < chars@.len() ==> chars@.subrange(i as int, chars@.len() as int)[1]
                == chars@[i + 1]);
        }
        if chars[i] == '\\' && i + 1 < chars.len() {
            if chars[i + 1] == 'n' {
                out.push('\n');
            } else if chars[i + 1] == 't' {
                out.push('\t');
            } else {
                out.push('\\');
                out.push(chars[i + 1]);
            }
            i += 2;
        } else {
            out.push(chars[i]);
            i += 1;
        }
        proof {
            assert(out@ + spec_unescape_replacement(
                chars@.subrange(i as int, chars@.len() as int),
            ) =~= spec_unescape_replacement(s@));
        }
    }
    proof {
        assert(chars@.subrange(chars@.len() as int, chars@.len() as int) =~= Seq::<char>::empty());
        assert(out@ + Seq::<char>::empty() =~= out@);
    }
    string_of(&out)
}

/// The position of the first delimiter not protected by a backslash, where a
/// backslash always consumes the character after it.
pub open spec fn spec_find_unescaped_delim(s: Seq<char>, delim: char, i: int) -> Option<int>
    decreases s.len() + 2 - i,
{
    if i < 0 || i >= s.len() {
        None
    } else if s[i] == '\\' {
        spec_find_unescaped_delim(s, delim, i + 2)
    } else if s[i] == delim {
        Some(i)
    } else {
        spec_find_unescaped_delim(s, delim, i + 1)
    }
}

/// Finds the first unescaped occurrence of the delimiter, as a character
/// position.
pub fn find_unescaped_delim(s: &str, delim: char) -> (r: Option<usize>)
    ensures
        match r {
            Some(i) => spec_find_unescaped_delim(s@, delim, 0) == Some(i as int),
            None => spec_find_unescaped_delim(s@, delim, 0) is None,
        },
{
    let chars = chars_of(s);
    let mut i: usize = 0;
    loop
        invariant
            0 <= i,
            chars@ == s@,
            spec_find_unescaped_delim(s@, delim, 0) == spec_find_unescaped_delim(
                s@,
                delim,
                i as int,
            ),
        decreases chars@.len() + 2 - i,
    {
        if i >= chars.len() {
            return None;
        }
        if chars[i] == '\\' {
            proof {
                assert(spec_find_unescaped_delim(s@, delim, i as int)
                    == spec_find_unescaped_delim(s@, delim, i + 2));
            }
            i += 1;
            if i < chars.len() {
                i += 1;
            } else {
                proof {
                    assert(spec_find_unescaped_delim(s@, delim, i as int + 1) is None);
                }
                return None;
            }
        } else if chars[i] == delim {
            return Some(i);
        } else {
            i += 1;
        }
    }
}

} // verus!
