//! Parsing unsigned decimal numbers out of character ranges.
use vstd::prelude::*;

verus! {

pub open spec fn spec_is_digit(c: char) -> bool {
    48 <= c as u32 <= 57
}

pub open spec fn spec_all_digits(s: Seq<char>) -> bool {
    s.len() > 0 && forall|i: int| 0 <= i < s.len() ==> spec_is_digit(#[trigger] s[i])
}

/// The number the digit string denotes.
pub open spec fn spec_digits_value(s: Seq<char>) -> int
    decreases s.len(),
{
    if s.len() == 0 {
        0
    } else {
        spec_digits_value(s.drop_last()) * 10 + (s.last() as u32 - 48)
    }
}

pub proof fn lemma_digits_value_nonneg(s: Seq<char>)
    requires
        forall|i: int| 0 <= i < s.len() ==> spec_is_digit(#[trigger] s[i]),
    ensures
        spec_digits_value(s) >= 0,
    decreases s.len(),
{
    if s.len() > 0 {
        assert(forall|i: int|
            0 <= i < s.drop_last().len() ==> spec_is_digit(#[trigger] s.drop_last()[i]));
        lemma_digits_value_nonneg(s.drop_last());
    }
}

/// More digits never shrink the value.
pub proof fn lemma_digits_prefix_bound(s: Seq<char>, i: int)
    requires
        forall|k: int| 0 <= k < s.len() ==> spec_is_digit(#[trigger] s[k]),
        0 <= i <= s.len(),
    ensures
        spec_digits_value(s.subrange(0, i)) <= spec_digits_value(s),
    decreases s.len() - i,
{
    if i == s.len() {
        assert(s.subrange(0, i) =~= s);
    } else {
        lemma_digits_prefix_bound(s, i + 1);
        assert(s.subrange(0, i + 1).drop_last() =~= s.subrange(0, i));
        assert(s.subrange(0, i + 1).last() == s[i]);
        assert(forall|k: int|
            0 <= k < s.subrange(0, i).len() ==> spec_is_digit(#[trigger] s.subrange(0, i)[k]));
        lemma_digits_value_nonneg(s.subrange(0, i));
    }
}

/// Parses the character range as an unsigned decimal number: the digits'
/// value when the range is all digits and fits, and nothing otherwise.
pub fn parse_u64_digits(chars: &Vec<char>, from: usize, to: usize) -> (r: Option<u64>)
    requires
        from <= to <= chars@.len(),
    ensures
        ({
            let s = chars@.subrange(from as int, to as int);
            &&& (r is Some) <==> (spec_all_digits(s) && spec_digits_value(s) <= u64::MAX)
            &&& (r matches Some(v) ==> v as int == spec_digits_value(s))
        }),
{
    let ghost s = chars@.subrange(from as int, to as int);
    if from == to {
        return None;
    }
    let mut value: u64 = 0;
    let mut i: usize = from;
    proof {
        assert(s.subrange(0, 0) =~= Seq::<char>::empty());
    }
    while i < to
        invariant
            from <= i <= to <= chars@.len(),
            s == chars@.subrange(from as int, to as int),
            forall|k: int| 0 <= k < i - from ==> spec_is_digit(#[trigger] s[k]),
            value as int == spec_digits_value(s.subrange(0, i - from)),
        decreases to - i,
    {
        proof {
            assert(s.subrange(0, i - from + 1).drop_last() =~= s.subrange(0, i - from));
            assert(s.subrange(0, i - from + 1).last() == s[i - from]);
            assert(s[i - from] == chars@[i as int]);
        }
        let c = chars[i];
        let code = c as u32;
        if !(48 <= code && code <= 57) {
            return None;
        }
        let d = (code - 48) as u64;
        if value > (u64::MAX - d) / 10 {
            // the digits read so far already exceed the range
            proof {
                assert(value * 10 + d > u64::MAX) by (nonlinear_arith)
                    requires
                        value as int > (u64::MAX - d) as int / 10,
                        0 <= d <= 9,
                ;
                assert(spec_digits_value(s.subrange(0, i - from + 1)) > u64::MAX);
                if spec_all_digits(s) {
                    lemma_digits_prefix_bound(s, i - from + 1);
                }
            }
            return None;
        }
        value = value * 10 + d;
        i += 1;
    }
    proof {
        assert(s.subrange(0, to - from) =~= s);
    }
    Some(value)
}

} // verus!
