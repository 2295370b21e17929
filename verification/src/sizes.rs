//! Size arguments for growing and shrinking files: an optional `+`/`-`
//! prefix, a decimal count, and an optional binary-unit suffix.
use vstd::prelude::*;
use vstd::string::StringExecFns;

use crate::numparse::{parse_u64_digits, spec_all_digits, spec_digits_value};
use crate::strutil::chars_of;

verus! {

/// A requested size: absolute, or relative to the current size.
pub enum SizeSpec {
    Absolute(u64),
    Extend(u64),
    Shrink(u64),
}

pub open spec fn spec_size_mode(s: Seq<char>) -> char {
    if s.len() > 0 && s[0] == '+' {
        '+'
    } else if s.len() > 0 && s[0] == '-' {
        '-'
    } else {
        '='
    }
}

pub open spec fn spec_size_body(s: Seq<char>) -> Seq<char> {
    if spec_size_mode(s) == '=' {
        s
    } else {
        s.drop_first()
    }
}

pub open spec fn spec_size_mult(body: Seq<char>) -> int {
    if body.len() > 0 && (body.last() == 'G' || body.last() == 'g') {
        1073741824
    } else if body.len() > 0 && (body.last() == 'M' || body.last() == 'm') {
        1048576
    } else if body.len() > 0 && (body.last() == 'K' || body.last() == 'k') {
        1024
    } else {
        1
    }
}

pub open spec fn spec_size_digits(body: Seq<char>) -> Seq<char> {
    if spec_size_mult(body) == 1 {
        body
    } else {
        body.drop_last()
    }
}

/// The number of bytes a size argument denotes.
pub open spec fn spec_size_bytes(s: Seq<char>) -> int {
    spec_digits_value(spec_size_digits(spec_size_body(s))) * spec_size_mult(spec_size_body(s))
}

/// Whether the argument is a well-formed size that fits the machine word.
pub open spec fn spec_size_ok(s: Seq<char>) -> bool {
    spec_all_digits(spec_size_digits(spec_size_body(s))) && spec_size_bytes(s) <= u64::MAX
}

/// Parses a size argument: `+` asks to extend, `-` to shrink, a bare number
/// sets the size; `K`, `M` and `G` suffixes scale by binary units. A
/// non-numeric count is invalid, and one beyond the machine word is too
/// large.
pub fn parse_size(s: &str) -> (r: Result<SizeSpec, String>)
    ensures
        (r is Ok) <==> spec_size_ok(s@),
        r matches Ok(sz) ==> {
            let bytes = spec_size_bytes(s@);
            &&& (spec_size_mode(s@) == '+' ==> (sz matches SizeSpec::Extend(b) && b as int
                == bytes))
            &&& (spec_size_mode(s@) == '-' ==> (sz matches SizeSpec::Shrink(b) && b as int
                == bytes))
            &&& (spec_size_mode(s@) == '=' ==> (sz matches SizeSpec::Absolute(b) && b as int
                == bytes))
        },
{
    let chars = chars_of(s);
    let from: usize = if chars.len() > 0 && (chars[0] == '+' || chars[0] == '-') {
        1
    } else {
        0
    };
    let mode: char = if from == 1 {
        chars[0]
    } else {
        '='
    };
    proof {
        assert(chars@.subrange(from as int, chars@.len() as int) =~= spec_size_body(s@));
    }
    let mut to: usize = chars.len();
    let mut mult: u64 = 1;
    if to > from {
        let last = chars[to - 1];
        if last == 'G' || last == 'g' {
            mult = 1073741824;
            to -= 1;
        } else if last == 'M' || last == 'm' {
            mult = 1048576;
            to -= 1;
        } else if last == 'K' || last == 'k' {
            mult = 1024;
            to -= 1;
        }
    }
    proof {
        assert(spec_size_body(s@).len() > 0 ==> spec_size_body(s@).last() == chars@[chars@.len()
            - 1]);
        assert(mult as int == spec_size_mult(spec_size_body(s@)));
        assert(chars@.subrange(from as int, to as int) =~= spec_size_digits(spec_size_body(s@)));
    }
    let num = match parse_u64_digits(&chars, from, to) {
        Some(v) => v,
        None => {
            proof {
                if spec_all_digits(spec_size_digits(spec_size_body(s@))) {
                    crate::numparse::lemma_digits_value_nonneg(
                        spec_size_digits(spec_size_body(s@)),
                    );
                    assert(spec_size_bytes(s@) > u64::MAX) by (nonlinear_arith)
                        requires
                            spec_digits_value(spec_size_digits(spec_size_body(s@))) > u64::MAX,
                            spec_size_mult(spec_size_body(s@)) >= 1,
                            spec_size_bytes(s@) == spec_digits_value(
                                spec_size_digits(spec_size_body(s@)),
                            ) * spec_size_mult(spec_size_body(s@)),
                    ;
                }
            }
            return Err("invalid size: ".to_owned().concat(s));
        },
    };
    let bytes: u64 = if mult == 1 {
        num
    } else if mult == 1024 {
        if num > u64::MAX / 1024 {
            return Err("size too large: ".to_owned().concat(s));
        }
        num * 1024
    } else if mult == 1048576 {
        if num > u64::MAX / 1048576 {
            return Err("size too large: ".to_owned().concat(s));
        }
        num * 1048576
    } else {
        if num > u64::MAX / 1073741824 {
            return Err("size too large: ".to_owned().concat(s));
        }
        num * 1073741824
    };
    if mode == '+' {
        Ok(SizeSpec::Extend(bytes))
    } else if mode == '-' {
        Ok(SizeSpec::Shrink(bytes))
    } else {
        Ok(SizeSpec::Absolute(bytes))
    }
}

} // verus!
