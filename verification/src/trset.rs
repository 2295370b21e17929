//! Character-set expansion for translation: a specification string with
//! `a-z` ranges enumerated, invalid ranges kept literally.
use vstd::prelude::*;

use crate::strutil::chars_of;

verus! {

/// Relies on std's `char::from_u32`: a character for every Unicode scalar
/// value, and nothing for surrogates and out-of-range codes.
pub assume_specification[ char::from_u32 ](n: u32) -> (r: Option<char>)
    ensures
        r matches Some(c) ==> c as u32 == n,
        (r is Some) <==> (n < 0xD800 || (0xE000 <= n && n <= 0x10FFFF)),
;

pub open spec fn spec_valid_scalar(n: u32) -> bool {
    n < 0xD800 || (0xE000 <= n && n <= 0x10FFFF)
}

/// The scalar values from `start` to `end`, keeping only valid ones.
pub open spec fn spec_range_codes(start: u32, end: u32) -> Seq<u32>
    decreases end + 1 - start,
{
    if start > end {
        Seq::empty()
    } else {
        let head: Seq<u32> = if spec_valid_scalar(start) {
            seq![start]
        } else {
            Seq::empty()
        };
        if start == end {
            head
        } else {
            head + spec_range_codes((start + 1) as u32, end)
        }
    }
}

/// The codes a set specification expands to: `X-Y` with `X` at most `Y`
/// enumerates the scalar values between them; a backwards range stays
/// literal; everything else stands for itself.
pub open spec fn spec_expand_set_codes(chars: Seq<char>) -> Seq<u32>
    decreases chars.len(),
{
    if chars.len() == 0 {
        Seq::empty()
    } else if chars.len() >= 3 && chars[1] == '-' {
        let s = chars[0] as u32;
        let e = chars[2] as u32;
        let head: Seq<u32> = if s <= e {
            spec_range_codes(s, e)
        } else {
            seq![s, '-' as u32, e]
        };
        head + spec_expand_set_codes(chars.subrange(3, chars.len() as int))
    } else {
        seq![chars[0] as u32] + spec_expand_set_codes(chars.drop_first())
    }
}

/// Expands a set specification into the characters it stands for.
pub fn expand_set(set_spec: &str) -> (r: Vec<char>)
    ensures
        r@.map_values(|c: char| c as u32) == spec_expand_set_codes(set_spec@),
{
    let chars = chars_of(set_spec);
    let mut out: Vec<char> = Vec::new();
    let mut i: usize = 0;
    proof {
        assert(chars@.subrange(0, chars@.len() as int) =~= chars@);
        assert(out@.map_values(|c: char| c as u32) =~= Seq::<u32>::empty());
    }
    while i < chars.len()
        invariant
            0 <= i <= chars@.len(),
            chars@ == set_spec@,
            out@.map_values(|c: char| c as u32) + spec_expand_set_codes(
                chars@.subrange(i as int, chars@.len() as int),
            ) == spec_expand_set_codes(set_spec@),
        decreases chars@.len() - i,
    {
        proof {
            assert(chars@.subrange(i as int, chars@.len() as int).drop_first() =~= chars@.subrange(
                i + 1,
                chars@.len() as int,
            ));
            if i + 3 <= chars@.len() {
                assert(chars@.subrange(i as int, chars@.len() as int).subrange(
                    3,
                    chars@.subrange(i as int, chars@.len() as int).len() as int,
                ) =~= chars@.subrange(i + 3, chars@.len() as int));
            }
            assert(chars@.subrange(i as int, chars@.len() as int)[0] == chars@[i as int]);
            assert(i + 1 < chars@.len() ==> chars@.subrange(i as int, chars@.len() as int)[1]
                == chars@[i + 1]);
            assert(i + 2 < chars@.len() ==> chars@.subrange(i as int, chars@.len() as int)[2]
                == chars@[i + 2]);
        }
        if chars.len() >= 3 && i <= chars.len() - 3 && chars[i + 1] == '-' {
            let start = chars[i] as u32;
            let end = chars[i + 2] as u32;
            if start <= end {
                let mut code = start;
                loop
                    invariant_except_break
                        start <= code <= end,
                        out@.map_values(|c: char| c as u32) + spec_range_codes(code, end)
                            + spec_expand_set_codes(chars@.subrange(i + 3, chars@.len() as int))
                            == spec_expand_set_codes(set_spec@),
                    ensures
                        out@.map_values(|c: char| c as u32) + spec_expand_set_codes(
                            chars@.subrange(i + 3, chars@.len() as int),
                        ) == spec_expand_set_codes(set_spec@),
                    decreases end - code,
                {
                    let ghost prev = out@;
                    match char::from_u32(code) {
                        Some(c) => {
                            out.push(c);
                            proof {
                                assert(out@.map_values(|c: char| c as u32) =~= prev.map_values(
                                    |c: char| c as u32,
                                ).push(code));
                            }
                        },
                        None => {},
                    }
                    proof {
                        let head: Seq<u32> = if spec_valid_scalar(code) {
                            seq![code]
                        } else {
                            Seq::<u32>::empty()
                        };
                        if code < end {
                            assert(spec_range_codes(code, end) == head + spec_range_codes(
                                (code + 1) as u32,
                                end,
                            ));
                            assert(out@.map_values(|c: char| c as u32) + spec_range_codes(
                                (code + 1) as u32,
                                end,
                            ) + spec_expand_set_codes(chars@.subrange(i + 3, chars@.len() as int))
                                =~= spec_expand_set_codes(set_spec@));
                        } else {
                            assert(spec_range_codes(code, end) == head);
                            assert(out@.map_values(|c: char| c as u32) + spec_expand_set_codes(
                                chars@.subrange(i + 3, chars@.len() as int),
                            ) =~= spec_expand_set_codes(set_spec@));
                        }
                    }
                    if code == end {
                        break;
                    }
                    code = code + 1;
                }
            } else {
                let ghost prev = out@;
                out.push(chars[i]);
                out.push('-');
                out.push(chars[i + 2]);
                proof {
                    assert(out@.map_values(|c: char| c as u32) =~= prev.map_values(
                        |c: char| c as u32,
                    ) + seq![chars@[i as int] as u32, '-' as u32, chars@[i + 2] as u32]);
                    assert(out@.map_values(|c: char| c as u32) + spec_expand_set_codes(
                        chars@.subrange(i + 3, chars@.len() as int),
                    ) =~= spec_expand_set_codes(set_spec@));
                }
            }
            i += 3;
        } else {
            let ghost prev = out@;
            out.push(chars[i]);
            proof {
                assert(out@.map_values(|c: char| c as u32) =~= prev.map_values(|c: char| c as u32)
                    + seq![chars@[i as int] as u32]);
                assert(out@.map_values(|c: char| c as u32) + spec_expand_set_codes(
                    chars@.subrange(i + 1, chars@.len() as int),
                ) =~= spec_expand_set_codes(set_spec@));
            }
            i += 1;
        }
    }
    proof {
        assert(chars@.subrange(chars@.len() as int, chars@.len() as int) =~= Seq::<char>::empty());
        assert(out@.map_values(|c: char| c as u32) + Seq::<u32>::empty() =~= out@.map_values(
            |c: char| c as u32,
        ));
    }
    out
}

} // verus!
