//! The small pattern language used to pick split points in context-split
//! sections: `.` matches any character, `X*` matches a run of `X`, `^` and
//! `$` anchor the match.
use vstd::prelude::*;
use vstd::slice::slice_subrange;

use crate::strutil::chars_of;

verus! {

/// Whether a pattern character accepts a text character.
pub open spec fn spec_char_matches(p: char, c: char) -> bool {
    p == '.' || p == c
}

pub fn char_matches(pat: char, ch: char) -> (r: bool)
    ensures
        r == spec_char_matches(pat, ch),
{
    if pat == '.' {
        return true;
    }
    pat == ch
}

/// The length of the run of characters from `start` that the pattern
/// character accepts.
pub open spec fn spec_run_len(p: char, text: Seq<char>, start: int) -> int
    decreases text.len() - start,
{
    if start < 0 || start >= text.len() || !spec_char_matches(p, text[start]) {
        0
    } else {
        1 + spec_run_len(p, text, start + 1)
    }
}

/// Whether the pattern matches the text beginning at `start`: a `X*` pair
/// consumes any prefix of the run of `X`; with `anchored_end` the whole rest
/// of the text must be consumed.
pub open spec fn spec_match_at(
    pat: Seq<char>,
    text: Seq<char>,
    start: int,
    anchored_end: bool,
) -> bool
    decreases pat.len(), 1int, 0int,
{
    if pat.len() == 0 {
        !anchored_end || start == text.len()
    } else if pat.len() >= 2 && pat[1] == '*' {
        spec_star_search(pat, text, start, start + spec_run_len(pat[0], text, start), anchored_end)
    } else if start < 0 || start >= text.len() {
        false
    } else if spec_char_matches(pat[0], text[start]) {
        spec_match_at(pat.drop_first(), text, start + 1, anchored_end)
    } else {
        false
    }
}

/// Whether the pattern after a starred pair matches at some position between
/// `start` and `hi`.
pub open spec fn spec_star_search(
    pat: Seq<char>,
    text: Seq<char>,
    start: int,
    hi: int,
    anchored_end: bool,
) -> bool
    decreases pat.len(), 0int, hi - start,
{
    if hi < start || pat.len() < 2 {
        false
    } else {
        spec_match_at(pat.subrange(2, pat.len() as int), text, hi, anchored_end) || (hi > start
            && spec_star_search(pat, text, start, hi - 1, anchored_end))
    }
}

/// Matches the (already de-anchored) pattern at one position of the text.
pub fn match_at(pat: &[char], text: &[char], start: usize, anchored_end: bool) -> (r: bool)
    requires
        start <= text@.len(),
    ensures
        r == spec_match_at(pat@, text@, start as int, anchored_end),
    decreases pat@.len(),
{
    if pat.len() == 0 {
        return !anchored_end || start == text.len();
    }
    if pat.len() >= 2 && pat[1] == '*' {
        let ch = pat[0];
        let rest = slice_subrange(pat, 2, pat.len());
        proof {
            assert(rest@ =~= pat@.subrange(2, pat@.len() as int));
        }
        // the run of characters the starred pattern character accepts
        let mut run_end: usize = start;
        while run_end < text.len() && char_matches(ch, text[run_end])
            invariant
                start <= run_end <= text@.len(),
                ch == pat@[0],
                start + spec_run_len(ch, text@, start as int) == run_end + spec_run_len(
                    ch,
                    text@,
                    run_end as int,
                ),
            decreases text@.len() - run_end,
        {
            run_end += 1;
        }
        proof {
            assert(spec_run_len(ch, text@, run_end as int) == 0);
        }
        // try every prefix of the run, longest first
        let mut ti: usize = run_end;
        loop
            invariant
                start <= ti <= run_end <= text@.len(),
                pat@.len() >= 2,
                pat@[1] == '*',
                ch == pat@[0],
                rest@ == pat@.subrange(2, pat@.len() as int),
                run_end == start + spec_run_len(ch, text@, start as int),
                spec_star_search(pat@, text@, start as int, run_end as int, anchored_end)
                    == spec_star_search(pat@, text@, start as int, ti as int, anchored_end),
            decreases ti,
        {
            if match_at(rest, text, ti, anchored_end) {
                proof {
                    assert(spec_match_at(
                        pat@.subrange(2, pat@.len() as int),
                        text@,
                        ti as int,
                        anchored_end,
                    ));
                    assert(spec_star_search(pat@, text@, start as int, ti as int, anchored_end));
                    assert(spec_match_at(pat@, text@, start as int, anchored_end));
                }
                return true;
            }
            if ti == start {
                proof {
                    assert(!spec_match_at(
                        pat@.subrange(2, pat@.len() as int),
                        text@,
                        start as int,
                        anchored_end,
                    ));
                    assert(!spec_star_search(pat@, text@, start as int, ti as int, anchored_end));
                    assert(!spec_match_at(pat@, text@, start as int, anchored_end));
                }
                return false;
            }
            proof {
                assert(!spec_match_at(
                    pat@.subrange(2, pat@.len() as int),
                    text@,
                    ti as int,
                    anchored_end,
                ));
                assert(spec_star_search(pat@, text@, start as int, ti as int, anchored_end)
                    == spec_star_search(pat@, text@, start as int, ti - 1, anchored_end));
            }
            ti -= 1;
        }
    }
    if start >= text.len() {
        return false;
    }
    if !char_matches(pat[0], text[start]) {
        return false;
    }
    let tail = slice_subrange(pat, 1, pat.len());
    proof {
        assert(tail@ =~= pat@.drop_first());
    }
    match_at(tail, text, start + 1, anchored_end)
}

/// Whether the pattern matches the line: a `^` prefix anchors the match at
/// the start, a `$` suffix at the end; otherwise the pattern may match at any
/// position.
pub open spec fn spec_regex_match(p: Seq<char>, t: Seq<char>) -> bool {
    if p.len() == 0 {
        true
    } else {
        let anchored_start = p[0] == '^';
        let s: int = if anchored_start {
            1
        } else {
            0
        };
        let anchored_end = p.last() == '$';
        let e: int = if anchored_end {
            p.len() - 1
        } else {
            p.len() as int
        };
        let pat = p.subrange(s, e);
        if anchored_start {
            spec_match_at(pat, t, 0, anchored_end)
        } else {
            spec_search_from(pat, t, 0, anchored_end)
        }
    }
}

/// Whether the pattern matches at this or any later position.
pub open spec fn spec_search_from(pat: Seq<char>, t: Seq<char>, i: int, anchored_end: bool) -> bool
    decreases t.len() - i,
{
    if i > t.len() {
        false
    } else {
        spec_match_at(pat, t, i, anchored_end) || (i < t.len() && spec_search_from(
            pat,
            t,
            i + 1,
            anchored_end,
        ))
    }
}

/// Matches the pattern anywhere in the text, honoring anchors.
pub fn regex_match(pattern: &str, text: &str) -> (r: bool)
    ensures
        r == spec_regex_match(pattern@, text@),
{
    let pat_chars = chars_of(pattern);
    let text_chars = chars_of(text);
    if pat_chars.len() == 0 {
        return true;
    }
    let anchored_start = pat_chars[0] == '^';
    let s: usize = if anchored_start {
        1
    } else {
        0
    };
    let anchored_end = pat_chars[pat_chars.len() - 1] == '$';
    let e: usize = if anchored_end {
        pat_chars.len() - 1
    } else {
        pat_chars.len()
    };
    let (s, e) = if s <= e {
        (s, e)
    } else {
        (s, s)
    };
    proof {
        assert(pattern@[0] == '^' ==> pattern@.last() != '$' || pattern@.len() > 1);
        assert(s <= e);
    }
    let pat = slice_subrange(pat_chars.as_slice(), s, e);
    proof {
        assert(pat@ =~= pattern@.subrange(s as int, e as int));
    }
    if anchored_start {
        return match_at(pat, text_chars.as_slice(), 0, anchored_end);
    }
    let mut i: usize = 0;
    loop
        invariant
            0 <= i <= text_chars@.len(),
            text_chars@ == text@,
            pattern@.len() >= 1,
            pattern@[0] != '^',
            anchored_end == (pattern@.last() == '$'),
            s == 0,
            e as int == (if anchored_end {
                pattern@.len() - 1
            } else {
                pattern@.len() as int
            }),
            pat@ == pattern@.subrange(s as int, e as int),
            spec_search_from(pat@, text@, 0, anchored_end) == spec_search_from(
                pat@,
                text@,
                i as int,
                anchored_end,
            ),
        decreases text_chars@.len() - i,
    {
        if match_at(pat, text_chars.as_slice(), i, anchored_end) {
            proof {
                assert(spec_search_from(pat@, text@, i as int, anchored_end));
                assert(spec_regex_match(pattern@, text@));
            }
            return true;
        }
        if i == text_chars.len() {
            proof {
                assert(!spec_search_from(pat@, text@, i as int, anchored_end));
                assert(!spec_regex_match(pattern@, text@));
            }
            return false;
        }
        proof {
            assert(spec_search_from(pat@, text@, i as int, anchored_end) == spec_search_from(
                pat@,
                text@,
                i + 1,
                anchored_end,
            ));
        }
        i += 1;
    }
}

/// Whether a section pattern selects this line.
pub fn matches_line(pattern: &str, line: &str) -> (r: bool)
    ensures
        r == spec_regex_match(pattern@, line@),
{
    regex_match(pattern, line)
}

} // verus!
