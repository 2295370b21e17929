//! Line comparison for computing differences: whitespace normalization, the
//! configurable equality test, and range headers.
use vstd::prelude::*;
use vstd::string::StrSliceExecFns;
use vstd::string::StringExecFns;

use crate::strutil::{
    chars_of, format_decimal, is_blank, spec_decimal, spec_is_blank, string_of,
};

verus! {

/// Whitespace runs collapsed to a single blank.
pub open spec fn spec_collapse_blanks(s: Seq<char>, in_space: bool) -> Seq<char>
    decreases s.len(),
{
    if s.len() == 0 {
        Seq::empty()
    } else if spec_is_blank(s[0]) {
        if in_space {
            spec_collapse_blanks(s.drop_first(), true)
        } else {
            seq![' '] + spec_collapse_blanks(s.drop_first(), true)
        }
    } else {
        seq![s[0]] + spec_collapse_blanks(s.drop_first(), false)
    }
}

pub open spec fn spec_trim_spaces(s: Seq<char>) -> Seq<char> {
    let t = if s.len() > 0 && s[0] == ' ' {
        s.drop_first()
    } else {
        s
    };
    if t.len() > 0 && t.last() == ' ' {
        t.drop_last()
    } else {
        t
    }
}

/// Whitespace runs collapsed to single blanks, with the ends trimmed.
pub open spec fn spec_normalize_whitespace(s: Seq<char>) -> Seq<char> {
    spec_trim_spaces(spec_collapse_blanks(s, false))
}

/// Collapses every whitespace run to one blank and trims the ends. The
/// collapsed text never holds two adjacent blanks, so trimming one leading
/// and one trailing blank is a full trim.
pub fn normalize_whitespace(s: &str) -> (r: String)
    ensures
        r@ == spec_normalize_whitespace(s@),
{
    let chars = chars_of(s);
    let mut out: Vec<char> = Vec::new();
    let mut in_space = false;
    let mut i: usize = 0;
    proof {
        assert(chars@.subrange(0, chars@.len() as int) =~= chars@);
    }
    while i < chars.len()
        invariant
            0 <= i <= chars@.len(),
            chars@ == s@,
            out@ + spec_collapse_blanks(chars@.subrange(i as int, chars@.len() as int), in_space)
                == spec_collapse_blanks(s@, false),
        decreases chars@.len() - i,
    {
        proof {
            assert(chars@.subrange(i as int, chars@.len() as int).drop_first() =~= chars@.subrange(
                i + 1,
                chars@.len() as int,
            ));
            assert(chars@.subrange(i as int, chars@.len() as int)[0] == chars@[i as int]);
        }
        let c = chars[i];
        if is_blank(c) {
            if !in_space {
                out.push(' ');
                in_space = true;
                proof {
                    assert(out@ + spec_collapse_blanks(
                        chars@.subrange(i + 1, chars@.len() as int),
                        true,
                    ) =~= spec_collapse_blanks(s@, false));
                }
            }
        } else {
            out.push(c);
            in_space = false;
            proof {
                assert(out@ + spec_collapse_blanks(
                    chars@.subrange(i + 1, chars@.len() as int),
                    false,
                ) =~= spec_collapse_blanks(s@, false));
            }
        }
        i += 1;
    }
    proof {
        assert(chars@.subrange(chars@.len() as int, chars@.len() as int) =~= Seq::<char>::empty());
        assert(out@ + Seq::<char>::empty() =~= out@);
    }
    // trim: at most one leading and one trailing blank survive collapsing
    let start: usize = if out.len() > 0 && out[0] == ' ' {
        1
    } else {
        0
    };
    let end: usize = if out.len() > start && out[out.len() - 1] == ' ' {
        out.len() - 1
    } else {
        out.len()
    };
    let mut trimmed: Vec<char> = Vec::new();
    let mut k: usize = start;
    while k < end
        invariant
            start <= k <= end <= out@.len(),
            trimmed@ == out@.subrange(start as int, k as int),
        decreases end - k,
    {
        trimmed.push(out[k]);
        k += 1;
        proof {
            assert(trimmed@ =~= out@.subrange(start as int, k as int));
        }
    }
    proof {
        assert(trimmed@ =~= spec_trim_spaces(out@));
    }
    string_of(&trimmed)
}

/// The lower-case code of an ASCII character; everything else is itself.
pub open spec fn spec_lower_code(c: char) -> int {
    if 65 <= c as u32 <= 90 {
        c as u32 + 32
    } else {
        c as u32 as int
    }
}

/// Case-blind equality over ASCII letters.
pub open spec fn spec_eq_icase(a: Seq<char>, b: Seq<char>) -> bool {
    a.len() == b.len() && forall|i: int|
        0 <= i < a.len() ==> spec_lower_code(#[trigger] a[i]) == spec_lower_code(b[i])
}

fn eq_icase_chars(a: &Vec<char>, b: &Vec<char>) -> (r: bool)
    ensures
        r == spec_eq_icase(a@, b@),
{
    if a.len() != b.len() {
        return false;
    }
    let mut i: usize = 0;
    while i < a.len()
        invariant
            0 <= i <= a@.len(),
            a@.len() == b@.len(),
            forall|j: int| 0 <= j < i ==> spec_lower_code(#[trigger] a@[j]) == spec_lower_code(b@[j]),
        decreases a@.len() - i,
    {
        let ca = a[i] as u32;
        let cb = b[i] as u32;
        let la = if 65 <= ca && ca <= 90 {
            ca + 32
        } else {
            ca
        };
        let lb = if 65 <= cb && cb <= 90 {
            cb + 32
        } else {
            cb
        };
        if la != lb {
            return false;
        }
        i += 1;
    }
    true
}

/// The text with its whitespace removed.
pub open spec fn spec_strip_blanks(s: Seq<char>) -> Seq<char>
    decreases s.len(),
{
    if s.len() == 0 {
        Seq::empty()
    } else if spec_is_blank(s[0]) {
        spec_strip_blanks(s.drop_first())
    } else {
        seq![s[0]] + spec_strip_blanks(s.drop_first())
    }
}

fn strip_blanks(chars: &Vec<char>) -> (r: Vec<char>)
    ensures
        r@ == spec_strip_blanks(chars@),
{
    let mut out: Vec<char> = Vec::new();
    let mut i: usize = 0;
    proof {
        assert(chars@.subrange(0, chars@.len() as int) =~= chars@);
    }
    while i < chars.len()
        invariant
            0 <= i <= chars@.len(),
            out@ + spec_strip_blanks(chars@.subrange(i as int, chars@.len() as int))
                == spec_strip_blanks(chars@),
        decreases chars@.len() - i,
    {
        proof {
            assert(chars@.subrange(i as int, chars@.len() as int).drop_first() =~= chars@.subrange(
                i + 1,
                chars@.len() as int,
            ));
            assert(chars@.subrange(i as int, chars@.len() as int)[0] == chars@[i as int]);
        }
        if !is_blank(chars[i]) {
            out.push(chars[i]);
            proof {
                assert(out@ + spec_strip_blanks(chars@.subrange(i + 1, chars@.len() as int))
                    =~= spec_strip_blanks(chars@));
            }
        }
        i += 1;
    }
    proof {
        assert(chars@.subrange(chars@.len() as int, chars@.len() as int) =~= Seq::<char>::empty());
        assert(out@ + Seq::<char>::empty() =~= out@);
    }
    out
}

/// How two lines are compared.
pub struct CompareOptions {
    pub ignore_all_space: bool,
    pub ignore_space_change: bool,
    pub ignore_case: bool,
}

/// Line equality under the comparison options: ignoring all whitespace
/// compares the stripped lines; ignoring whitespace changes compares the
/// normalized lines; ignoring case compares lower-cased codes; the tests
/// combine in that order of precedence.
pub open spec fn spec_lines_equal(a: Seq<char>, b: Seq<char>, opts: CompareOptions) -> bool {
    if opts.ignore_all_space {
        if opts.ignore_case {
            spec_eq_icase(spec_strip_blanks(a), spec_strip_blanks(b))
        } else {
            spec_strip_blanks(a) == spec_strip_blanks(b)
        }
    } else if opts.ignore_space_change {
        if opts.ignore_case {
            spec_eq_icase(spec_normalize_whitespace(a), spec_normalize_whitespace(b))
        } else {
            spec_normalize_whitespace(a) == spec_normalize_whitespace(b)
        }
    } else if opts.ignore_case {
        spec_eq_icase(a, b)
    } else {
        a == b
    }
}

pub fn lines_equal(a: &str, b: &str, opts: &CompareOptions) -> (r: bool)
    ensures
        r == spec_lines_equal(a@, b@, *opts),
{
    if opts.ignore_all_space {
        let sa = strip_blanks(&chars_of(a));
        let sb = strip_blanks(&chars_of(b));
        if opts.ignore_case {
            eq_icase_chars(&sa, &sb)
        } else {
            crate::strutil::str_eq(string_of(&sa).as_str(), string_of(&sb).as_str())
        }
    } else if opts.ignore_space_change {
        let na = normalize_whitespace(a);
        let nb = normalize_whitespace(b);
        if opts.ignore_case {
            eq_icase_chars(&chars_of(na.as_str()), &chars_of(nb.as_str()))
        } else {
            crate::strutil::str_eq(na.as_str(), nb.as_str())
        }
    } else if opts.ignore_case {
        eq_icase_chars(&chars_of(a), &chars_of(b))
    } else {
        crate::strutil::str_eq(a, b)
    }
}

/// A hunk range header: the single 1-based line number, or first and last
/// separated by a comma.
pub open spec fn spec_format_range(indices: Seq<int>) -> Seq<char> {
    if indices.len() == 1 {
        spec_decimal((indices[0] + 1) as nat)
    } else {
        spec_decimal((indices[0] + 1) as nat) + seq![','] + spec_decimal(
            (indices.last() + 1) as nat,
        )
    }
}

/// Formats the 1-based range that a run of line indices covers.
pub fn format_range(indices: &[usize]) -> (r: String)
    requires
        indices@.len() >= 1,
        forall|i: int| 0 <= i < indices@.len() ==> (#[trigger] indices@[i]) < usize::MAX,
    ensures
        r@ == spec_format_range(indices@.map_values(|v: usize| v as int)),
{
    let ghost ixs = indices@.map_values(|v: usize| v as int);
    if indices.len() == 1 {
        format_decimal((indices[0] + 1) as u64)
    } else {
        let mut out = format_decimal((indices[0] + 1) as u64);
        out.push(',');
        out.append(format_decimal((indices[indices.len() - 1] + 1) as u64).as_str());
        proof {
            assert(ixs.last() == indices@[indices@.len() - 1] as int);
            assert(out@ =~= spec_format_range(ixs));
        }
        out
    }
}

} // verus!
