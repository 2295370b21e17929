//! Applying parsed hunks to a file: context and added lines come from the
//! hunk, removed lines skip forward in the original, and untouched lines are
//! copied through.
use vstd::prelude::*;
use vstd::string::StringExecFns;

use crate::joinfields::spec_split_keep;
use crate::patchtext::spec_join;
use crate::strutil::spec_strip_one_newline;

verus! {

/// One line of a hunk body.
pub enum HunkLine {
    Context(String),
    Add(String),
    Remove,
}

/// One hunk: where it starts in the old file (1-based) and its body.
pub struct Hunk {
    pub old_start: usize,
    pub new_lines: Vec<HunkLine>,
}

/// The lines of a text: terminator-separated, with one final terminator not
/// opening a new line.
pub open spec fn spec_lines(s: Seq<char>) -> Seq<Seq<char>> {
    if s.len() == 0 {
        Seq::empty()
    } else {
        spec_split_keep(spec_strip_one_newline(s), '\n', Seq::empty(), Seq::empty())
    }
}

/// The patching state: the lines written so far and the cursor in the old
/// lines.
#[verifier::ext_equal]
pub struct PatchState {
    pub result: Seq<Seq<char>>,
    pub old_idx: int,
}

pub open spec fn spec_apply_hunk_line(st: PatchState, hl: HunkLine) -> PatchState {
    match hl {
        HunkLine::Context(s) => PatchState { result: st.result.push(s@), old_idx: st.old_idx + 1 },
        HunkLine::Add(s) => PatchState { result: st.result.push(s@), old_idx: st.old_idx },
        HunkLine::Remove => PatchState { result: st.result, old_idx: st.old_idx + 1 },
    }
}

pub open spec fn spec_apply_hunk_lines(lines: Seq<HunkLine>, st: PatchState) -> PatchState
    decreases lines.len(),
{
    if lines.len() == 0 {
        st
    } else {
        spec_apply_hunk_lines(lines.drop_first(), spec_apply_hunk_line(st, lines[0]))
    }
}

/// Copying the old lines up to a target position (never backwards, never past
/// the end).
pub open spec fn spec_copy_until(st: PatchState, old_lines: Seq<Seq<char>>, target: int) -> PatchState {
    let upto = if target > old_lines.len() {
        old_lines.len() as int
    } else {
        target
    };
    if st.old_idx < upto {
        PatchState {
            result: st.result + old_lines.subrange(st.old_idx, upto),
            old_idx: upto,
        }
    } else {
        st
    }
}

pub open spec fn spec_hunk_target(h: Hunk) -> int {
    if h.old_start > 0 {
        h.old_start - 1
    } else {
        0
    }
}

pub open spec fn spec_apply_one_hunk(st: PatchState, h: Hunk, old_lines: Seq<Seq<char>>) -> PatchState {
    spec_apply_hunk_lines(h.new_lines@, spec_copy_until(st, old_lines, spec_hunk_target(h)))
}

pub open spec fn spec_apply_hunks_fold(
    hunks: Seq<Hunk>,
    st: PatchState,
    old_lines: Seq<Seq<char>>,
) -> PatchState
    decreases hunks.len(),
{
    if hunks.len() == 0 {
        st
    } else {
        spec_apply_hunks_fold(hunks.drop_first(), spec_apply_one_hunk(st, hunks[0], old_lines), old_lines)
    }
}

/// Whether some hunk's body ends with an added line.
pub open spec fn spec_any_ends_with_add(hunks: Seq<Hunk>) -> bool
    decreases hunks.len(),
{
    if hunks.len() == 0 {
        false
    } else {
        (hunks[0].new_lines@.len() > 0 && hunks[0].new_lines@.last() is Add)
            || spec_any_ends_with_add(hunks.drop_first())
    }
}

/// The patched text: hunks applied in order over the old lines, the tail
/// copied through, joined with newlines; a final newline stands when the
/// original had one or some hunk ends with an addition.
pub open spec fn spec_apply_hunks(original: Seq<char>, hunks: Seq<Hunk>) -> Seq<char> {
    let old_lines = spec_lines(original);
    let st = spec_apply_hunks_fold(hunks, PatchState { result: Seq::empty(), old_idx: 0 }, old_lines);
    let done = spec_copy_until(st, old_lines, old_lines.len() as int);
    let joined = spec_join(done.result, '\n');
    if joined.len() > 0 && (original.len() > 0 && original.last() == '\n' || spec_any_ends_with_add(
        hunks,
    )) {
        joined.push('\n')
    } else {
        joined
    }
}

fn lines_of(s: &str) -> (r: Vec<String>)
    ensures
        r.deep_view() == spec_lines(s@),
{
    let n = vstd::string::StrSliceExecFns::unicode_len(s);
    if n == 0 {
        let r: Vec<String> = Vec::new();
        proof {
            assert(r.deep_view() =~= spec_lines(s@));
        }
        return r;
    }
    let stripped = crate::strutil::strip_one_trailing_newline(s);
    let sep: Option<char> = Some('\n');
    let fields = crate::joinfields::split_line(stripped.as_str(), &sep);
    fields
}

/// Applies the hunks to the original text.
pub fn apply_hunks(original: &str, hunks: &[Hunk]) -> (r: String)
    requires
        original@.len() + 1 + hunks@.len() * 0x10000000 <= usize::MAX,
        forall|j: int| 0 <= j < hunks@.len() ==> (#[trigger] hunks@[j]).new_lines@.len()
            <= 0x10000000,
    ensures
        r@ == spec_apply_hunks(original@, hunks@),
{
    let old_lines = lines_of(original);
    let ghost ol = old_lines.deep_view();
    let mut result: Vec<String> = Vec::new();
    let mut old_idx: usize = 0;
    let ghost st0 = PatchState { result: Seq::empty(), old_idx: 0 };
    proof {
        assert(result.deep_view() =~= Seq::<Seq<char>>::empty());
        assert(ol.len() <= original@.len() + 1) by {
            lemma_split_keep_count(
                spec_strip_one_newline(original@),
                '\n',
                Seq::empty(),
                Seq::empty(),
            );
        }
    }
    proof {
        assert(hunks@.subrange(0, hunks@.len() as int) =~= hunks@);
        assert(ol.len() == old_lines@.len());
    }
    let mut hi: usize = 0;
    while hi < hunks.len()
        invariant
            0 <= hi <= hunks@.len(),
            ol == old_lines.deep_view(),
            ol.len() <= original@.len() + 1,
            original@.len() + 1 + hunks@.len() * 0x10000000 <= usize::MAX,
            forall|j: int| 0 <= j < hunks@.len() ==> (#[trigger] hunks@[j]).new_lines@.len()
                <= 0x10000000,
            old_idx as int <= ol.len() + hi * 0x10000000,
            spec_apply_hunks_fold(
                hunks@.subrange(hi as int, hunks@.len() as int),
                PatchState { result: result.deep_view(), old_idx: old_idx as int },
                ol,
            ) == spec_apply_hunks_fold(hunks@, st0, ol),
        decreases hunks@.len() - hi,
    {
        proof {
            assert(hunks@.subrange(hi as int, hunks@.len() as int).drop_first() =~= hunks@.subrange(
                hi + 1,
                hunks@.len() as int,
            ));
            assert(hunks@.subrange(hi as int, hunks@.len() as int)[0] == hunks@[hi as int]);
            assert((hi + 1) * 0x10000000 == hi * 0x10000000 + 0x10000000) by (nonlinear_arith);
            assert(hunks@.len() * 0x10000000 >= (hi + 1) * 0x10000000) by (nonlinear_arith)
                requires
                    hi + 1 <= hunks@.len(),
            ;
        }
        let hunk = &hunks[hi];
        let hunk_start: usize = if hunk.old_start > 0 {
            hunk.old_start - 1
        } else {
            0
        };
        // copy untouched lines up to where the hunk begins
        let ghost pre_copy = PatchState { result: result.deep_view(), old_idx: old_idx as int };
        let target: usize = if hunk_start > old_lines.len() {
            old_lines.len()
        } else {
            hunk_start
        };
        proof {
            assert(ol.len() == old_lines@.len());
        }
        while old_idx < target
            invariant
                target <= old_lines@.len(),
                ol == old_lines.deep_view(),
                ol.len() == old_lines@.len(),
                0 <= pre_copy.old_idx <= old_idx as int,
                pre_copy.old_idx >= target as int ==> old_idx as int == pre_copy.old_idx
                    && result.deep_view() == pre_copy.result,
                pre_copy.old_idx < target as int ==> old_idx <= target
                    && result.deep_view() == pre_copy.result + ol.subrange(
                    pre_copy.old_idx,
                    old_idx as int,
                ),
            decreases target - old_idx,
        {
            let ghost cur = result.deep_view();
            result.push(old_lines[old_idx].clone());
            old_idx += 1;
            proof {
                assert(result.deep_view() =~= cur.push(old_lines@[old_idx - 1]@));
                assert(ol[old_idx - 1] == old_lines@[old_idx - 1]@);
                assert(ol.subrange(pre_copy.old_idx, old_idx as int) =~~= ol.subrange(
                    pre_copy.old_idx,
                    old_idx - 1,
                ).push(ol[old_idx - 1]));
                assert(result.deep_view() =~= pre_copy.result + ol.subrange(
                    pre_copy.old_idx,
                    old_idx as int,
                ));
            }
        }
        proof {
            assert(PatchState { result: result.deep_view(), old_idx: old_idx as int }
                =~~= spec_copy_until(pre_copy, ol, spec_hunk_target(hunks@[hi as int])));
        }
        proof {
            assert(hunk.new_lines@.subrange(0, hunk.new_lines@.len() as int)
                =~= hunk.new_lines@);
        }
        // play the hunk body
        let ghost body0 = PatchState { result: result.deep_view(), old_idx: old_idx as int };
        let mut li: usize = 0;
        while li < hunk.new_lines.len()
            invariant
                0 <= li <= hunk.new_lines@.len(),
                hunk == &hunks@[hi as int],
                0 <= hi < hunks@.len(),
                ol == old_lines.deep_view(),
                old_idx as int <= body0.old_idx + li,
                body0.old_idx <= old_idx as int,
                forall|j: int| 0 <= j < hunks@.len() ==> (#[trigger] hunks@[j]).new_lines@.len()
                    <= 0x10000000,
                original@.len() + 1 + hunks@.len() * 0x10000000 <= usize::MAX,
                ol.len() <= original@.len() + 1,
                body0.old_idx <= ol.len() + hi * 0x10000000,
                hunk.new_lines@.len() <= 0x10000000,
                body0.old_idx + li <= ol.len() + (hi + 1) * 0x10000000,
                spec_apply_hunk_lines(
                    hunk.new_lines@.subrange(li as int, hunk.new_lines@.len() as int),
                    PatchState { result: result.deep_view(), old_idx: old_idx as int },
                ) == spec_apply_hunk_lines(hunk.new_lines@, body0),
            decreases hunk.new_lines@.len() - li,
        {
            proof {
                assert(hunk.new_lines@.subrange(li as int, hunk.new_lines@.len() as int).drop_first()
                    =~= hunk.new_lines@.subrange(li + 1, hunk.new_lines@.len() as int));
                assert(hunk.new_lines@.subrange(li as int, hunk.new_lines@.len() as int)[0]
                    == hunk.new_lines@[li as int]);
                assert(hunks@.len() * 0x10000000 >= (hi + 1) * 0x10000000) by (nonlinear_arith)
                    requires
                        hi + 1 <= hunks@.len(),
                ;
                assert((hi + 1) * 0x10000000 == hi * 0x10000000 + 0x10000000) by (nonlinear_arith);
            }
            let ghost cur = result.deep_view();
            match &hunk.new_lines[li] {
                HunkLine::Context(s) => {
                    result.push(s.clone());
                    old_idx += 1;
                    proof {
                        assert(result.deep_view() =~= cur.push(s@));
                    }
                },
                HunkLine::Add(s) => {
                    result.push(s.clone());
                    proof {
                        assert(result.deep_view() =~= cur.push(s@));
                    }
                },
                HunkLine::Remove => {
                    old_idx += 1;
                },
            }
            li += 1;
        }
        proof {
            assert(hunk.new_lines@.subrange(
                hunk.new_lines@.len() as int,
                hunk.new_lines@.len() as int,
            ) =~= Seq::<HunkLine>::empty());
        }
        hi += 1;
    }
    proof {
        assert(hunks@.subrange(hunks@.len() as int, hunks@.len() as int) =~= Seq::<Hunk>::empty());
    }
    // copy the remaining old lines
    let ghost pre_tail = PatchState { result: result.deep_view(), old_idx: old_idx as int };
    proof {
        assert(ol.len() == old_lines@.len());
    }
    while old_idx < old_lines.len()
        invariant
            ol == old_lines.deep_view(),
            ol.len() == old_lines@.len(),
            0 <= pre_tail.old_idx <= old_idx as int,
            pre_tail.old_idx >= ol.len() ==> old_idx as int == pre_tail.old_idx
                && result.deep_view() == pre_tail.result,
            pre_tail.old_idx < ol.len() ==> old_idx as int <= ol.len()
                && result.deep_view() == pre_tail.result + ol.subrange(
                pre_tail.old_idx,
                old_idx as int,
            ),
        decreases old_lines@.len() - old_idx,
    {
        let ghost cur = result.deep_view();
        result.push(old_lines[old_idx].clone());
        old_idx += 1;
        proof {
            assert(result.deep_view() =~= cur.push(old_lines@[old_idx - 1]@));
            assert(ol[old_idx - 1] == old_lines@[old_idx - 1]@);
            assert(ol.subrange(pre_tail.old_idx, old_idx as int) =~~= ol.subrange(
                pre_tail.old_idx,
                old_idx - 1,
            ).push(ol[old_idx - 1]));
            assert(result.deep_view() =~= pre_tail.result + ol.subrange(
                pre_tail.old_idx,
                old_idx as int,
            ));
        }
    }
    proof {
        assert(PatchState { result: result.deep_view(), old_idx: old_idx as int }
            =~~= spec_copy_until(pre_tail, ol, ol.len() as int));
    }
    // join and decide the final newline
    let mut out = String::new();
    let mut k: usize = 0;
    if k < result.len() {
        out.append(result[k].as_str());
        proof {
            assert(result.deep_view()[0] == result@[0]@);
        }
        k += 1;
        while k < result.len()
            invariant
                1 <= k <= result@.len(),
                out@ == spec_join(result.deep_view().subrange(0, k as int), '\n'),
            decreases result@.len() - k,
        {
            out.push('\n');
            out.append(result[k].as_str());
            k += 1;
            proof {
                let cur = result.deep_view().subrange(0, k as int);
                assert(result.deep_view()[k - 1] == result@[k - 1]@);
                crate::patchtext::lemma_join_snoc(cur, '\n');
                assert(cur.drop_last() =~= result.deep_view().subrange(0, k - 1));
                assert(cur.last() == result.deep_view()[k - 1]);
            }
        }
    }
    proof {
        assert(result.deep_view().subrange(0, result.deep_view().len() as int)
            =~= result.deep_view());
        assert(out@ == spec_join(result.deep_view(), '\n'));
    }
    let n = vstd::string::StrSliceExecFns::unicode_len(original);
    let original_ends_nl = n > 0 && vstd::string::StrSliceExecFns::get_char(original, n - 1)
        == '\n';
    let mut any_add = false;
    let mut hj: usize = 0;
    proof {
        assert(hunks@.subrange(0, hunks@.len() as int) =~= hunks@);
    }
    while hj < hunks.len()
        invariant
            0 <= hj <= hunks@.len(),
            spec_any_ends_with_add(hunks@) == (any_add || spec_any_ends_with_add(
                hunks@.subrange(hj as int, hunks@.len() as int),
            )),
        decreases hunks@.len() - hj,
    {
        proof {
            assert(hunks@.subrange(hj as int, hunks@.len() as int).drop_first() =~= hunks@.subrange(
                hj + 1,
                hunks@.len() as int,
            ));
            assert(hunks@.subrange(hj as int, hunks@.len() as int)[0] == hunks@[hj as int]);
        }
        let h = &hunks[hj];
        if h.new_lines.len() > 0 {
            match &h.new_lines[h.new_lines.len() - 1] {
                HunkLine::Add(s) => {
                    any_add = true;
                },
                _ => {},
            }
        }
        hj += 1;
    }
    proof {
        assert(hunks@.subrange(hunks@.len() as int, hunks@.len() as int) =~= Seq::<Hunk>::empty());
    }
    let out_len = vstd::string::StrSliceExecFns::unicode_len(out.as_str());
    if out_len > 0 && (original_ends_nl || any_add) {
        out.push('\n');
    }
    out
}

/// Splitting yields at most one field per character plus one.
proof fn lemma_split_keep_count(s: Seq<char>, sep: char, cur: Seq<char>, acc: Seq<Seq<char>>)
    ensures
        spec_split_keep(s, sep, cur, acc).len() <= acc.len() + 1 + s.len(),
    decreases s.len(),
{
    if s.len() > 0 {
        if s[0] == sep {
            lemma_split_keep_count(s.drop_first(), sep, Seq::empty(), acc.push(cur));
        } else {
            lemma_split_keep_count(s.drop_first(), sep, cur.push(s[0]), acc);
        }
    }
}

} // verus!
