//! Small verified helpers for building and inspecting strings.
use vstd::prelude::*;
use vstd::string::StrSliceExecFns;
use vstd::string::StringExecFns;

verus! {

/// Relies on std's `String::push`: appends one character at the end.
pub assume_specification[ String::push ](s: &mut String, c: char)
    ensures
        final(s)@ == old(s)@.push(c),
;

/// The characters of a string as a vector, in order.
pub fn chars_of(s: &str) -> (r: Vec<char>)
    ensures
        r@ == s@,
{
    let n = s.unicode_len();
    let mut r: Vec<char> = Vec::new();
    let mut i: usize = 0;
    while i < n
        invariant
            0 <= i <= n,
            n == s@.len(),
            r@ == s@.subrange(0, i as int),
        decreases n - i,
    {
        r.push(s.get_char(i));
        i += 1;
        proof {
            assert(r@ =~= s@.subrange(0, i as int));
        }
    }
    proof {
        assert(r@ =~= s@);
    }
    r
}

/// A string holding exactly the given characters, in order.
pub fn string_of(v: &Vec<char>) -> (r: String)
    ensures
        r@ == v@,
{
    let mut r = String::new();
    let mut i: usize = 0;
    while i < v.len()
        invariant
            0 <= i <= v@.len(),
            r@ == v@.subrange(0, i as int),
        decreases v@.len() - i,
    {
        r.push(v[i]);
        i += 1;
        proof {
            assert(r@ =~= v@.subrange(0, i as int));
        }
    }
    proof {
        assert(r@ =~= v@);
    }
    r
}

/// Whether two string slices hold the same characters.
pub fn str_eq(a: &str, b: &str) -> (r: bool)
    ensures
        r == (a@ == b@),
{
    let na = a.unicode_len();
    let nb = b.unicode_len();
    if na != nb {
        proof {
            assert(a@ != b@) by {
                if a@ == b@ {
                    assert(a@.len() == b@.len());
                }
            }
        }
        return false;
    }
    let mut i: usize = 0;
    while i < na
        invariant
            0 <= i <= na,
            na == a@.len(),
            na == b@.len(),
            a@.subrange(0, i as int) == b@.subrange(0, i as int),
        decreases na - i,
    {
        let ca = a.get_char(i);
        let cb = b.get_char(i);
        if ca != cb {
            return false;
        }
        i += 1;
        proof {
            assert(a@.subrange(0, i as int) =~= b@.subrange(0, i as int));
        }
    }
    proof {
        assert forall|j: int| 0 <= j < na implies a@[j] == b@[j] by {
            if 0 <= j < na {
                assert(a@.subrange(0, na as int)[j] == b@.subrange(0, na as int)[j]);
            }
        }
        assert(a@ =~= b@);
    }
    true
}

/// The text a byte buffer stands for, one character per byte.
pub open spec fn spec_bytes_text(s: Seq<u8>) -> Seq<char> {
    s.map_values(|b: u8| b as char)
}

/// A string with one character per input byte.
pub fn bytes_to_string(v: &[u8]) -> (r: String)
    ensures
        r@ == spec_bytes_text(v@),
{
    let mut r = String::new();
    let mut i: usize = 0;
    while i < v.len()
        invariant
            0 <= i <= v@.len(),
            r@ == spec_bytes_text(v@.subrange(0, i as int)),
        decreases v@.len() - i,
    {
        r.push(v[i] as char);
        i += 1;
        proof {
            assert(r@ =~= spec_bytes_text(v@.subrange(0, i as int)));
        }
    }
    proof {
        assert(v@.subrange(0, v@.len() as int) =~= v@);
    }
    r
}

pub open spec fn spec_is_blank(c: char) -> bool {
    c == ' ' || c == '\t' || c == '\n' || c == '\r'
}

/// Whether the character separates fields: ASCII whitespace.
pub fn is_blank(c: char) -> (r: bool)
    ensures
        r == spec_is_blank(c),
{
    c == ' ' || c == '\t' || c == '\n' || c == '\r'
}

pub open spec fn spec_strip_one_newline(s: Seq<char>) -> Seq<char> {
    if s.len() > 0 && s.last() == '\n' {
        s.drop_last()
    } else {
        s
    }
}

/// Removes exactly one trailing newline, if the text ends with one.
pub fn strip_one_trailing_newline(s: &str) -> (r: String)
    ensures
        r@ == spec_strip_one_newline(s@),
{
    let n = s.unicode_len();
    if n > 0 && s.get_char(n - 1) == '\n' {
        let t = s.substring_char(0, n - 1);
        proof {
            assert(t@ =~= s@.drop_last());
        }
        t.to_owned()
    } else {
        s.to_owned()
    }
}

/// The decimal digits of `n`, most significant first.
pub open spec fn spec_decimal(n: nat) -> Seq<char>
    decreases n,
{
    let digit = seq![((48u8 + (n % 10) as u8) as char)];
    if n < 10 {
        digit
    } else {
        spec_decimal(n / 10) + digit
    }
}

/// The decimal representation of an integer, without padding.
pub fn format_decimal(n: u64) -> (r: String)
    ensures
        r@ == spec_decimal(n as nat),
    decreases n,
{
    let d = (48u8 + (n % 10) as u8) as char;
    if n < 10 {
        let mut s = String::new();
        s.push(d);
        proof {
            assert(s@ =~= spec_decimal(n as nat));
        }
        s
    } else {
        let mut s = format_decimal(n / 10);
        s.push(d);
        proof {
            assert(s@ =~= spec_decimal(n as nat));
        }
        s
    }
}

/// The digit character for one digit value, letters from ten upward.
pub open spec fn spec_digit_char(d: nat) -> char {
    if d < 10 {
        ((48 + d) as u8) as char
    } else {
        ((87 + d) as u8) as char
    }
}

/// The digits of `n` in the given base, most significant first. A base below
/// two yields a single digit.
pub open spec fn spec_base_digits(n: nat, base: nat) -> Seq<char>
    decreases n,
    via spec_base_digits_decreases
{
    let digit = seq![spec_digit_char(n % base)];
    if n < base || base <= 1 {
        digit
    } else {
        spec_base_digits(n / base, base) + digit
    }
}

#[via_fn]
proof fn spec_base_digits_decreases(n: nat, base: nat) {
    if !(n < base || base <= 1) {
        assert(n / base < n) by (nonlinear_arith)
            requires
                n >= base,
                base >= 2,
        ;
    }
}

/// The representation of an integer in a base up to sixteen.
pub fn format_base(n: u64, base: u64) -> (r: String)
    requires
        2 <= base <= 16,
    ensures
        r@ == spec_base_digits(n as nat, base as nat),
    decreases n,
{
    let dd = n % base;
    let d: char = if dd < 10 {
        ((48 + dd as u8)) as char
    } else {
        ((87 + dd as u8)) as char
    };
    proof {
        assert(n >= base ==> n / base < n) by (nonlinear_arith)
            requires
                2 <= base,
        ;
    }
    if n < base {
        let mut s = String::new();
        s.push(d);
        proof {
            assert(s@ =~= spec_base_digits(n as nat, base as nat));
        }
        s
    } else {
        let mut s = format_base(n / base, base);
        s.push(d);
        proof {
            assert(s@ =~= spec_base_digits(n as nat, base as nat));
        }
        s
    }
}

/// `n` copies of one character.
pub open spec fn spec_repeat_char(c: char, n: nat) -> Seq<char>
    decreases n,
{
    if n == 0 {
        Seq::empty()
    } else {
        spec_repeat_char(c, (n - 1) as nat).push(c)
    }
}

/// Text padded on the left with `fill` up to `width`.
pub open spec fn spec_pad_left(s: Seq<char>, width: nat, fill: char) -> Seq<char> {
    if s.len() >= width {
        s
    } else {
        spec_repeat_char(fill, (width - s.len()) as nat) + s
    }
}

/// Pads the text on the left with the fill character up to the width.
pub fn pad_left(s: &str, width: usize, fill: char) -> (r: String)
    ensures
        r@ == spec_pad_left(s@, width as nat, fill),
{
    let n = s.unicode_len();
    if n >= width {
        return s.to_owned();
    }
    let mut pad = String::new();
    let mut i: usize = 0;
    while i < width - n
        invariant
            n == s@.len(),
            n < width,
            0 <= i <= width - n,
            pad@ == spec_repeat_char(fill, i as nat),
        decreases width - n - i,
    {
        pad.push(fill);
        i += 1;
    }
    pad.append(s);
    pad
}

} // verus!
