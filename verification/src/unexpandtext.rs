//! Converting runs of spaces to tabs: either only in a line's leading
//! whitespace, or everywhere.
use vstd::prelude::*;

use crate::strutil::{chars_of, string_of};

verus! {

/// The running state of leading-space conversion: the text written so far,
/// the current column, pending spaces not yet committed, and whether the scan
/// is still inside the leading whitespace.
#[verifier::ext_equal]
pub struct TabState {
    pub out: Seq<char>,
    pub col: int,
    pub pending: int,
    pub leading: bool,
}

pub open spec fn spec_spaces(n: int) -> Seq<char>
    decreases n,
{
    if n <= 0 {
        Seq::empty()
    } else {
        spec_spaces(n - 1).push(' ')
    }
}

/// One character of leading-space conversion: a leading space is held back
/// and becomes a tab when it completes a tab stop; a leading tab flushes the
/// held spaces and realigns the column; any other character ends the leading
/// region.
pub open spec fn spec_unexpand_leading_step(st: TabState, c: char, ts: int) -> TabState {
    if st.leading && c == ' ' {
        let col = st.col + 1;
        if col % ts == 0 {
            TabState { out: st.out.push('\t'), col, pending: 0, leading: true }
        } else {
            TabState { out: st.out, col, pending: st.pending + 1, leading: true }
        }
    } else if st.leading && c == '\t' {
        TabState {
            out: st.out + spec_spaces(st.pending) + seq!['\t'],
            col: (st.col / ts + 1) * ts,
            pending: 0,
            leading: true,
        }
    } else {
        let flushed = if st.leading {
            st.out + spec_spaces(st.pending)
        } else {
            st.out
        };
        TabState { out: flushed.push(c), col: st.col + 1, pending: 0, leading: false }
    }
}

pub open spec fn spec_unexpand_leading_fold(s: Seq<char>, st: TabState, ts: int) -> TabState
    decreases s.len(),
{
    if s.len() == 0 {
        st
    } else {
        spec_unexpand_leading_fold(s.drop_first(), spec_unexpand_leading_step(st, s[0], ts), ts)
    }
}

/// The line with its leading spaces converted to tabs at the given stops.
pub open spec fn spec_unexpand_leading(line: Seq<char>, ts: int) -> Seq<char> {
    let st = spec_unexpand_leading_fold(
        line,
        TabState { out: Seq::empty(), col: 0, pending: 0, leading: true },
        ts,
    );
    if st.leading {
        st.out + spec_spaces(st.pending)
    } else {
        st.out
    }
}

fn push_spaces(out: &mut Vec<char>, n: usize)
    ensures
        final(out)@ == old(out)@ + spec_spaces(n as int),
{
    let mut k: usize = 0;
    while k < n
        invariant
            0 <= k <= n,
            out@ == old(out)@ + spec_spaces(k as int),
        decreases n - k,
    {
        out.push(' ');
        k += 1;
        proof {
            assert(out@ =~= old(out)@ + spec_spaces(k as int));
        }
    }
    proof {
        assert(out@ =~= old(out)@ + spec_spaces(n as int));
    }
}

/// Converts a line's leading spaces to tabs.
pub fn unexpand_leading(line: &str, tab_stop: usize) -> (r: String)
    requires
        tab_stop >= 1,
        line@.len() * tab_stop <= usize::MAX,
    ensures
        r@ == spec_unexpand_leading(line@, tab_stop as int),
{
    let chars = chars_of(line);
    let mut out: Vec<char> = Vec::new();
    let mut col: usize = 0;
    let mut pending: usize = 0;
    let mut leading = true;
    let ghost st0 = TabState { out: Seq::empty(), col: 0, pending: 0, leading: true };
    proof {
        assert(chars@.subrange(0, chars@.len() as int) =~= chars@);
    }
    let mut i: usize = 0;
    while i < chars.len()
        invariant
            0 <= i <= chars@.len(),
            chars@ == line@,
            tab_stop >= 1,
            line@.len() * tab_stop <= usize::MAX,
            col <= i * tab_stop,
            pending <= col,
            spec_unexpand_leading_fold(
                chars@.subrange(i as int, chars@.len() as int),
                TabState { out: out@, col: col as int, pending: pending as int, leading },
                tab_stop as int,
            ) == spec_unexpand_leading_fold(line@, st0, tab_stop as int),
        decreases chars@.len() - i,
    {
        proof {
            assert(chars@.subrange(i as int, chars@.len() as int).drop_first() =~= chars@.subrange(
                i + 1,
                chars@.len() as int,
            ));
            assert(chars@.subrange(i as int, chars@.len() as int)[0] == chars@[i as int]);
            assert((i + 1) * tab_stop == i * tab_stop + tab_stop) by (nonlinear_arith);
            assert((i + 1) * tab_stop <= chars@.len() * tab_stop) by (nonlinear_arith)
                requires
                    0 <= i + 1 <= chars@.len(),
                    tab_stop >= 1,
            ;
            assert(((col as int) / (tab_stop as int) + 1) * (tab_stop as int) <= col as int
                + tab_stop as int) by (nonlinear_arith)
                requires
                    tab_stop as int >= 1,
                    col as int >= 0,
            ;
        }
        let c = chars[i];
        let ghost pre = TabState { out: out@, col: col as int, pending: pending as int, leading };
        if leading && c == ' ' {
            pending += 1;
            col += 1;
            if col % tab_stop == 0 {
                out.push('\t');
                pending = 0;
            }
        } else if leading && c == '\t' {
            push_spaces(&mut out, pending);
            pending = 0;
            out.push('\t');
            col = ((col / tab_stop) + 1) * tab_stop;
        } else {
            if leading {
                push_spaces(&mut out, pending);
                leading = false;
            }
            pending = 0;
            out.push(c);
            col += 1;
        }
        i += 1;
        proof {
            let now = TabState { out: out@, col: col as int, pending: pending as int, leading };
            assert(now =~~= spec_unexpand_leading_step(pre, chars@[i - 1], tab_stop as int));
        }
    }
    proof {
        assert(chars@.subrange(chars@.len() as int, chars@.len() as int) =~= Seq::<char>::empty());
    }
    if leading {
        push_spaces(&mut out, pending);
    }
    string_of(&out)
}

/// The running state of whole-line conversion: no leading region, only the
/// written text, the column and the pending spaces.
pub open spec fn spec_unexpand_all_step(st: TabState, c: char, ts: int) -> TabState {
    if c == ' ' {
        let col = st.col + 1;
        if col % ts == 0 && st.pending + 1 > 1 {
            TabState { out: st.out.push('\t'), col, pending: 0, leading: false }
        } else {
            TabState { out: st.out, col, pending: st.pending + 1, leading: false }
        }
    } else if c == '\t' {
        TabState {
            out: st.out + spec_spaces(st.pending) + seq!['\t'],
            col: (st.col / ts + 1) * ts,
            pending: 0,
            leading: false,
        }
    } else {
        TabState {
            out: (st.out + spec_spaces(st.pending)).push(c),
            col: st.col + 1,
            pending: 0,
            leading: false,
        }
    }
}

pub open spec fn spec_unexpand_all_fold(s: Seq<char>, st: TabState, ts: int) -> TabState
    decreases s.len(),
{
    if s.len() == 0 {
        st
    } else {
        spec_unexpand_all_fold(s.drop_first(), spec_unexpand_all_step(st, s[0], ts), ts)
    }
}

/// The line with every multi-space run ending at a tab stop converted.
pub open spec fn spec_unexpand_all(line: Seq<char>, ts: int) -> Seq<char> {
    let st = spec_unexpand_all_fold(
        line,
        TabState { out: Seq::empty(), col: 0, pending: 0, leading: false },
        ts,
    );
    st.out + spec_spaces(st.pending)
}

/// Converts space runs to tabs across the whole line.
pub fn unexpand_all(line: &str, tab_stop: usize) -> (r: String)
    requires
        tab_stop >= 1,
        line@.len() * tab_stop <= usize::MAX,
    ensures
        r@ == spec_unexpand_all(line@, tab_stop as int),
{
    let chars = chars_of(line);
    let mut out: Vec<char> = Vec::new();
    let mut col: usize = 0;
    let mut pending: usize = 0;
    let ghost st0 = TabState { out: Seq::empty(), col: 0, pending: 0, leading: false };
    proof {
        assert(chars@.subrange(0, chars@.len() as int) =~= chars@);
    }
    let mut i: usize = 0;
    while i < chars.len()
        invariant
            0 <= i <= chars@.len(),
            chars@ == line@,
            tab_stop >= 1,
            line@.len() * tab_stop <= usize::MAX,
            col <= i * tab_stop,
            pending <= col,
            spec_unexpand_all_fold(
                chars@.subrange(i as int, chars@.len() as int),
                TabState { out: out@, col: col as int, pending: pending as int, leading: false },
                tab_stop as int,
            ) == spec_unexpand_all_fold(line@, st0, tab_stop as int),
        decreases chars@.len() - i,
    {
        proof {
            assert(chars@.subrange(i as int, chars@.len() as int).drop_first() =~= chars@.subrange(
                i + 1,
                chars@.len() as int,
            ));
            assert(chars@.subrange(i as int, chars@.len() as int)[0] == chars@[i as int]);
            assert((i + 1) * tab_stop == i * tab_stop + tab_stop) by (nonlinear_arith);
            assert((i + 1) * tab_stop <= chars@.len() * tab_stop) by (nonlinear_arith)
                requires
                    0 <= i + 1 <= chars@.len(),
                    tab_stop >= 1,
            ;
            assert(((col as int) / (tab_stop as int) + 1) * (tab_stop as int) <= col as int
                + tab_stop as int) by (nonlinear_arith)
                requires
                    tab_stop as int >= 1,
                    col as int >= 0,
            ;
        }
        let c = chars[i];
        let ghost pre = TabState {
            out: out@,
            col: col as int,
            pending: pending as int,
            leading: false,
        };
        if c == ' ' {
            pending += 1;
            col += 1;
            if col % tab_stop == 0 && pending > 1 {
                out.push('\t');
                pending = 0;
            }
        } else if c == '\t' {
            push_spaces(&mut out, pending);
            pending = 0;
            out.push('\t');
            col = ((col / tab_stop) + 1) * tab_stop;
        } else {
            push_spaces(&mut out, pending);
            pending = 0;
            out.push(c);
            col += 1;
        }
        i += 1;
        proof {
            let now = TabState {
                out: out@,
                col: col as int,
                pending: pending as int,
                leading: false,
            };
            assert(now =~~= spec_unexpand_all_step(pre, chars@[i - 1], tab_stop as int));
        }
    }
    proof {
        assert(chars@.subrange(chars@.len() as int, chars@.len() as int) =~= Seq::<char>::empty());
    }
    push_spaces(&mut out, pending);
    string_of(&out)
}

} // verus!
