//! Two-phase redirect resolution around a spawn. Phase one decides the stdin
//! that the program will see; phase two distributes the program's stdout and
//! stderr between files and the in-memory buffers. Both phases are
//! left-to-right folds over the redirect list: a later redirect of the same
//! class overrides an earlier one.
use vstd::prelude::*;
use vstd::string::StringExecFns;

use crate::ast::{Redirect, RedirectType};
use crate::control::ShellError;
use crate::host::{HostEvent, HostInterface, WriteMode, spec_write_file};
use crate::state::{ShellState, spec_resolve_path};

verus! {

pub open spec fn spec_is_input_redirect(rt: RedirectType) -> bool {
    match rt {
        RedirectType::StdinFrom(p) => true,
        RedirectType::Heredoc(c) => true,
        RedirectType::HeredocStrip(c) => true,
        RedirectType::HereString(w) => true,
        _ => false,
    }
}

/// The input redirect that decides stdin: the last one in declaration order.
pub open spec fn spec_last_input_redirect(rs: Seq<Redirect>) -> Option<RedirectType>
    decreases rs.len(),
{
    if rs.len() == 0 {
        None
    } else if spec_is_input_redirect(rs.last().redirect_type) {
        Some(rs.last().redirect_type)
    } else {
        spec_last_input_redirect(rs.drop_last())
    }
}

fn is_input_redirect(rt: &RedirectType) -> (r: bool)
    ensures
        r == spec_is_input_redirect(*rt),
{
    match rt {
        RedirectType::StdinFrom(p) => true,
        RedirectType::Heredoc(c) => true,
        RedirectType::HeredocStrip(c) => true,
        RedirectType::HereString(w) => true,
        _ => false,
    }
}

fn find_last_input_redirect(redirects: &Vec<Redirect>) -> (r: Option<&Redirect>)
    ensures
        match r {
            Some(rd) => spec_last_input_redirect(redirects@) == Some(rd.redirect_type),
            None => spec_last_input_redirect(redirects@) == None::<RedirectType>,
        },
{
    let mut i: usize = redirects.len();
    proof {
        assert(redirects@.subrange(0, redirects@.len() as int) =~= redirects@);
    }
    while i > 0
        invariant
            0 <= i <= redirects@.len(),
            spec_last_input_redirect(redirects@.subrange(0, i as int)) == spec_last_input_redirect(
                redirects@,
            ),
        decreases i,
    {
        proof {
            assert(redirects@.subrange(0, i as int).last() == redirects@[i - 1]);
            assert(redirects@.subrange(0, i as int).drop_last() =~= redirects@.subrange(0, i - 1));
        }
        if is_input_redirect(&redirects[i - 1].redirect_type) {
            return Some(&redirects[i - 1]);
        }
        i -= 1;
    }
    proof {
        assert(redirects@.subrange(0, 0) =~= Seq::<Redirect>::empty());
    }
    None
}

/// What `spec_last_input_redirect` returns is always an input redirect.
pub proof fn lemma_last_input_redirect_is_input(rs: Seq<Redirect>)
    ensures
        spec_last_input_redirect(rs) matches Some(rt) ==> spec_is_input_redirect(rt),
    decreases rs.len(),
{
    if rs.len() > 0 && !spec_is_input_redirect(rs.last().redirect_type) {
        lemma_last_input_redirect_is_input(rs.drop_last());
    }
}

/// Phase one: the stdin handed to the spawn, decided by the last input
/// redirect; without one, the pipeline's stdin flows through. Only a
/// `StdinFrom` touches the host: one read of the named file, resolved against
/// the working directory; its failure aborts the command.
pub fn compute_stdin<H: HostInterface>(
    state: &ShellState,
    host: &mut H,
    redirects: &Vec<Redirect>,
    pipe_stdin: &str,
) -> (r: Result<String, ShellError>)
    ensures
        match spec_last_input_redirect(redirects@) {
            None => final(host).log() == old(host).log() && final(host).files() == old(host).files()
                && (r matches Ok(s) && s@ == pipe_stdin@),
            Some(rt) => match rt {
                RedirectType::Heredoc(c) => final(host).log() == old(host).log()
                    && final(host).files() == old(host).files()
                    && (r matches Ok(s) && s@ == c@),
                RedirectType::HeredocStrip(c) => final(host).log() == old(host).log()
                    && final(host).files() == old(host).files()
                    && (r matches Ok(s) && s@ == c@),
                RedirectType::HereString(w) => final(host).log() == old(host).log()
                    && final(host).files() == old(host).files()
                    && (r matches Ok(s) && s@ == w@.push('\n')),
                RedirectType::StdinFrom(p) => {
                    let resolved = spec_resolve_path(state.cwd@, p@);
                    &&& final(host).files() == old(host).files()
                    &&& final(host).log() == old(host).log().push(HostEvent::Read { path: resolved })
                    &&& (r matches Ok(s) ==> old(host).files().contains_key(resolved)
                        && s@ == old(host).files()[resolved])
                },
                _ => false,
            },
        },
{
    proof {
        lemma_last_input_redirect_is_input(redirects@);
    }
    match find_last_input_redirect(redirects) {
        None => Ok(pipe_stdin.to_owned()),
        Some(rd) => match &rd.redirect_type {
            RedirectType::StdinFrom(path) => {
                let resolved = state.resolve_path(path.as_str());
                match host.read_file(resolved.as_str()) {
                    Ok(content) => Ok(content),
                    Err(e) => Err(ShellError::HostError(e)),
                }
            },
            RedirectType::Heredoc(content) => Ok(content.clone()),
            RedirectType::HeredocStrip(content) => Ok(content.clone()),
            RedirectType::HereString(word) => {
                let mut s = word.clone();
                s.push('\n');
                Ok(s)
            },
            RedirectType::StdoutOverwrite(p) => Ok(pipe_stdin.to_owned()),
            RedirectType::StdoutAppend(p) => Ok(pipe_stdin.to_owned()),
            RedirectType::StderrOverwrite(p) => Ok(pipe_stdin.to_owned()),
            RedirectType::StderrAppend(p) => Ok(pipe_stdin.to_owned()),
            RedirectType::StderrToStdout => Ok(pipe_stdin.to_owned()),
            RedirectType::BothOverwrite(p) => Ok(pipe_stdin.to_owned()),
        },
    }
}

/// The state that phase two folds over: the residual buffers, the stored
/// files, the writes made so far, and the target of the last stdout redirect.
#[verifier::ext_equal]
pub struct OutModel {
    pub stdout: Seq<char>,
    pub stderr: Seq<char>,
    pub files: Map<Seq<char>, Seq<char>>,
    pub writes: Seq<HostEvent>,
    pub last_stdout_path: Option<Seq<char>>,
}

pub open spec fn spec_out_init(
    stdout: Seq<char>,
    stderr: Seq<char>,
    files: Map<Seq<char>, Seq<char>>,
) -> OutModel {
    OutModel { stdout, stderr, files, writes: Seq::empty(), last_stdout_path: None }
}

/// One phase-two step, assuming the write (if any) succeeds.
pub open spec fn spec_out_step(m: OutModel, cwd: Seq<char>, rt: RedirectType) -> OutModel {
    match rt {
        RedirectType::StdoutOverwrite(p) => {
            let rp = spec_resolve_path(cwd, p@);
            OutModel {
                stdout: Seq::empty(),
                files: spec_write_file(m.files, rp, m.stdout, WriteMode::Truncate),
                writes: m.writes.push(
                    HostEvent::Write { path: rp, data: m.stdout, mode: WriteMode::Truncate },
                ),
                last_stdout_path: Some(rp),
                ..m
            }
        },
        RedirectType::StdoutAppend(p) => {
            let rp = spec_resolve_path(cwd, p@);
            OutModel {
                stdout: Seq::empty(),
                files: spec_write_file(m.files, rp, m.stdout, WriteMode::Append),
                writes: m.writes.push(
                    HostEvent::Write { path: rp, data: m.stdout, mode: WriteMode::Append },
                ),
                last_stdout_path: Some(rp),
                ..m
            }
        },
        RedirectType::StderrOverwrite(p) => {
            let rp = spec_resolve_path(cwd, p@);
            OutModel {
                stderr: Seq::empty(),
                files: spec_write_file(m.files, rp, m.stderr, WriteMode::Truncate),
                writes: m.writes.push(
                    HostEvent::Write { path: rp, data: m.stderr, mode: WriteMode::Truncate },
                ),
                ..m
            }
        },
        RedirectType::StderrAppend(p) => {
            let rp = spec_resolve_path(cwd, p@);
            OutModel {
                stderr: Seq::empty(),
                files: spec_write_file(m.files, rp, m.stderr, WriteMode::Append),
                writes: m.writes.push(
                    HostEvent::Write { path: rp, data: m.stderr, mode: WriteMode::Append },
                ),
                ..m
            }
        },
        RedirectType::StderrToStdout => {
            match m.last_stdout_path {
                Some(fp) => {
                    if m.stderr.len() == 0 {
                        OutModel { stderr: Seq::empty(), ..m }
                    } else {
                        OutModel {
                            stderr: Seq::empty(),
                            files: spec_write_file(m.files, fp, m.stderr, WriteMode::Append),
                            writes: m.writes.push(
                                HostEvent::Write {
                                    path: fp,
                                    data: m.stderr,
                                    mode: WriteMode::Append,
                                },
                            ),
                            ..m
                        }
                    }
                },
                None => OutModel { stdout: m.stdout + m.stderr, stderr: Seq::empty(), ..m },
            }
        },
        RedirectType::BothOverwrite(p) => {
            let rp = spec_resolve_path(cwd, p@);
            OutModel {
                stdout: Seq::empty(),
                stderr: Seq::empty(),
                files: spec_write_file(m.files, rp, m.stdout + m.stderr, WriteMode::Truncate),
                writes: m.writes.push(
                    HostEvent::Write {
                        path: rp,
                        data: m.stdout + m.stderr,
                        mode: WriteMode::Truncate,
                    },
                ),
                ..m
            }
        },
        _ => m,
    }
}

pub open spec fn spec_out_fold(m: OutModel, cwd: Seq<char>, rs: Seq<Redirect>) -> OutModel
    decreases rs.len(),
{
    if rs.len() == 0 {
        m
    } else {
        spec_out_fold(spec_out_step(m, cwd, rs[0].redirect_type), cwd, rs.drop_first())
    }
}

/// Phase two: distributes the spawned program's stdout and stderr over the
/// output redirects, in declaration order. On success the residual buffers,
/// the stored files and the writes made are exactly what `spec_out_fold`
/// says. Only a failed host write aborts the command: with no output
/// redirect there is nothing to fail, so success is owed; and an abort can
/// have put nothing in the log but writes.
pub fn apply_output_redirects<H: HostInterface>(
    state: &ShellState,
    host: &mut H,
    redirects: &Vec<Redirect>,
    stdout: String,
    stderr: String,
) -> (r: Result<(String, String), ShellError>)
    ensures
        r matches Ok(buffers) ==> {
            let m = spec_out_fold(
                spec_out_init(stdout@, stderr@, old(host).files()),
                state.cwd@,
                redirects@,
            );
            &&& buffers.0@ == m.stdout
            &&& buffers.1@ == m.stderr
            &&& final(host).files() == m.files
            &&& final(host).log() == old(host).log() + m.writes
        },
        (forall|j: int|
            0 <= j < redirects@.len() ==> spec_is_input_redirect(
                (#[trigger] redirects@[j]).redirect_type,
            )) ==> r is Ok,
        r is Err ==> final(host).log().len() >= old(host).log().len() && final(host).log().subrange(
            0,
            old(host).log().len() as int,
        ) == old(host).log() && (forall|j: int|
            old(host).log().len() <= j < final(host).log().len()
                ==> (#[trigger] final(host).log()[j]) is Write),
{
    let ghost target = spec_out_fold(
        spec_out_init(stdout@, stderr@, old(host).files()),
        state.cwd@,
        redirects@,
    );
    let mut cur_out = stdout;
    let mut cur_err = stderr;
    let mut last_path: Option<String> = None;
    let ghost mut writes = Seq::<HostEvent>::empty();
    proof {
        assert(redirects@.subrange(0, redirects@.len() as int) =~= redirects@);
    }
    let mut i: usize = 0;
    while i < redirects.len()
        invariant
            0 <= i <= redirects@.len(),
            host.log() == old(host).log() + writes,
            forall|j: int| 0 <= j < writes.len() ==> (#[trigger] writes[j]) is Write,
            spec_out_fold(
                OutModel {
                    stdout: cur_out@,
                    stderr: cur_err@,
                    files: host.files(),
                    writes,
                    last_stdout_path: match last_path {
                        Some(p) => Some(p@),
                        None => None,
                    },
                },
                state.cwd@,
                redirects@.subrange(i as int, redirects@.len() as int),
            ) == target,
        decreases redirects@.len() - i,
    {
        proof {
            assert(redirects@.subrange(i as int, redirects@.len() as int).drop_first()
                =~= redirects@.subrange(i + 1, redirects@.len() as int));
            assert(redirects@.subrange(i as int, redirects@.len() as int)[0] == redirects@[
                i as int]);
        }
        match &redirects[i].redirect_type {
            RedirectType::StdoutOverwrite(p) => {
                let resolved = state.resolve_path(p.as_str());
                match host.write_file(resolved.as_str(), cur_out.as_str(), WriteMode::Truncate) {
                    Ok(u) => {
                        proof {
                            writes = writes.push(
                                HostEvent::Write {
                                    path: resolved@,
                                    data: cur_out@,
                                    mode: WriteMode::Truncate,
                                },
                            );
                        }
                        cur_out = String::new();
                        last_path = Some(resolved);
                    },
                    Err(e) => {
                        return Err(ShellError::HostError(e));
                    },
                }
            },
            RedirectType::StdoutAppend(p) => {
                let resolved = state.resolve_path(p.as_str());
                match host.write_file(resolved.as_str(), cur_out.as_str(), WriteMode::Append) {
                    Ok(u) => {
                        proof {
                            writes = writes.push(
                                HostEvent::Write {
                                    path: resolved@,
                                    data: cur_out@,
                                    mode: WriteMode::Append,
                                },
                            );
                        }
                        cur_out = String::new();
                        last_path = Some(resolved);
                    },
                    Err(e) => {
                        return Err(ShellError::HostError(e));
                    },
                }
            },
            RedirectType::StderrOverwrite(p) => {
                let resolved = state.resolve_path(p.as_str());
                match host.write_file(resolved.as_str(), cur_err.as_str(), WriteMode::Truncate) {
                    Ok(u) => {
                        proof {
                            writes = writes.push(
                                HostEvent::Write {
                                    path: resolved@,
                                    data: cur_err@,
                                    mode: WriteMode::Truncate,
                                },
                            );
                        }
                        cur_err = String::new();
                    },
                    Err(e) => {
                        return Err(ShellError::HostError(e));
                    },
                }
            },
            RedirectType::StderrAppend(p) => {
                let resolved = state.resolve_path(p.as_str());
                match host.write_file(resolved.as_str(), cur_err.as_str(), WriteMode::Append) {
                    Ok(u) => {
                        proof {
                            writes = writes.push(
                                HostEvent::Write {
                                    path: resolved@,
                                    data: cur_err@,
                                    mode: WriteMode::Append,
                                },
                            );
                        }
                        cur_err = String::new();
                    },
                    Err(e) => {
                        return Err(ShellError::HostError(e));
                    },
                }
            },
            RedirectType::StderrToStdout => {
                let mut took_file = false;
                match &last_path {
                    Some(fp) => {
                        if cur_err.as_str().unicode_len() > 0 {
                            match host.write_file(
                                fp.as_str(),
                                cur_err.as_str(),
                                WriteMode::Append,
                            ) {
                                Ok(u) => {
                                    proof {
                                        writes = writes.push(
                                            HostEvent::Write {
                                                path: fp@,
                                                data: cur_err@,
                                                mode: WriteMode::Append,
                                            },
                                        );
                                    }
                                },
                                Err(e) => {
                                    return Err(ShellError::HostError(e));
                                },
                            }
                        }
                        cur_err = String::new();
                        took_file = true;
                    },
                    None => {},
                }
                if !took_file {
                    cur_out.append(cur_err.as_str());
                    cur_err = String::new();
                }
            },
            RedirectType::BothOverwrite(p) => {
                let resolved = state.resolve_path(p.as_str());
                let combined = cur_out.clone().concat(cur_err.as_str());
                match host.write_file(resolved.as_str(), combined.as_str(), WriteMode::Truncate) {
                    Ok(u) => {
                        cur_out = String::new();
                        cur_err = String::new();
                        proof {
                            writes = writes.push(
                                HostEvent::Write {
                                    path: resolved@,
                                    data: combined@,
                                    mode: WriteMode::Truncate,
                                },
                            );
                        }
                    },
                    Err(e) => {
                        return Err(ShellError::HostError(e));
                    },
                }
            },
            RedirectType::StdinFrom(p) => {},
            RedirectType::Heredoc(c) => {},
            RedirectType::HeredocStrip(c) => {},
            RedirectType::HereString(w) => {},
        }
        i += 1;
    }
    proof {
        assert(redirects@.subrange(redirects@.len() as int, redirects@.len() as int) =~= Seq::<
            Redirect,
        >::empty());
    }
    Ok((cur_out, cur_err))
}

/// The residual buffers of phase two, together with whether a stdout file
/// target is on record — a function of the redirect list and the spawned
/// output alone, independent of the stored files and the working directory.
pub open spec fn spec_residual_step(
    t: (Seq<char>, Seq<char>, bool),
    rt: RedirectType,
) -> (Seq<char>, Seq<char>, bool) {
    match rt {
        RedirectType::StdoutOverwrite(p) => (Seq::empty(), t.1, true),
        RedirectType::StdoutAppend(p) => (Seq::empty(), t.1, true),
        RedirectType::StderrOverwrite(p) => (t.0, Seq::empty(), t.2),
        RedirectType::StderrAppend(p) => (t.0, Seq::empty(), t.2),
        RedirectType::StderrToStdout => if t.2 {
            (t.0, Seq::empty(), t.2)
        } else {
            (t.0 + t.1, Seq::empty(), t.2)
        },
        RedirectType::BothOverwrite(p) => (Seq::empty(), Seq::empty(), t.2),
        _ => t,
    }
}

pub open spec fn spec_residual_fold(
    t: (Seq<char>, Seq<char>, bool),
    rs: Seq<Redirect>,
) -> (Seq<char>, Seq<char>, bool)
    decreases rs.len(),
{
    if rs.len() == 0 {
        t
    } else {
        spec_residual_fold(spec_residual_step(t, rs[0].redirect_type), rs.drop_first())
    }
}

/// What of the spawned output stays in the returned buffers after the
/// redirects: the bytes no file redirect captured.
pub open spec fn spec_residual(stdout: Seq<char>, stderr: Seq<char>, rs: Seq<Redirect>) -> (
    Seq<char>,
    Seq<char>,
) {
    let t = spec_residual_fold((stdout, stderr, false), rs);
    (t.0, t.1)
}

/// The buffers of the phase-two fold depend only on the spawned output and
/// the redirect list, never on the stored files or the working directory.
pub proof fn lemma_out_fold_residual(
    m: OutModel,
    cwd: Seq<char>,
    rs: Seq<Redirect>,
    t: (Seq<char>, Seq<char>, bool),
)
    requires
        t.0 == m.stdout,
        t.1 == m.stderr,
        t.2 == (m.last_stdout_path is Some),
    ensures
        ({
            let mf = spec_out_fold(m, cwd, rs);
            let tf = spec_residual_fold(t, rs);
            mf.stdout == tf.0 && mf.stderr == tf.1 && (mf.last_stdout_path is Some) == tf.2
        }),
    decreases rs.len(),
{
    if rs.len() > 0 {
        lemma_out_fold_residual(
            spec_out_step(m, cwd, rs[0].redirect_type),
            cwd,
            rs.drop_first(),
            spec_residual_step(t, rs[0].redirect_type),
        );
    }
}

} // verus!
