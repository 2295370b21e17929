//! Top-level dispatch: executing a parsed command against a host. A simple
//! command runs through expansion, phase-one redirects, one spawn and
//! phase-two redirects; a pipeline threads each stage's residual stdout into
//! the next stage's stdin and applies the pipefail policy; the unimplemented
//! compound form is a defined no-op.
use vstd::prelude::*;
use vstd::string::StringExecFns;

use crate::ast::{Command, Redirect, RedirectType, cmd_height, lemma_cmds_height_bound};
use crate::control::{ControlFlow, RunResult, ShellError, spec_is_empty_result};
use crate::expand::{expand_argv, spec_literal_argv, spec_plain_argv, spec_words_inert};
use crate::host::{HostEvent, HostInterface, spec_log_extends, spec_same_host};
use crate::redirect::{
    apply_output_redirects, compute_stdin, lemma_last_input_redirect_is_input,
    lemma_out_fold_residual, spec_last_input_redirect, spec_out_fold, spec_out_init,
    spec_residual,
};
use crate::state::{ShellFlag, ShellState, spec_depth_measure, spec_resolve_path,
    spec_same_session};

verus! {

fn clone_tail(argv: &Vec<String>) -> (r: Vec<String>)
    requires
        argv@.len() >= 1,
    ensures
        r.deep_view() == argv.deep_view().drop_first(),
{
    let mut r: Vec<String> = Vec::new();
    let mut i: usize = 1;
    proof {
        assert(r.deep_view() =~= argv.deep_view().subrange(1, 1));
    }
    while i < argv.len()
        invariant
            1 <= i <= argv@.len(),
            r.deep_view() == argv.deep_view().subrange(1, i as int),
        decreases argv@.len() - i,
    {
        let ghost cur = r.deep_view();
        r.push(argv[i].clone());
        i += 1;
        proof {
            assert(r.deep_view() =~= cur.push(argv@[i - 1]@));
            assert(argv.deep_view()[i - 1] == argv@[i - 1]@);
            assert(r.deep_view() =~= argv.deep_view().subrange(1, i as int));
        }
    }
    proof {
        assert(argv.deep_view().subrange(1, argv.deep_view().len() as int)
            =~= argv.deep_view().drop_first());
    }
    r
}

/// Every write the phase-two fold records is a `Write` event.
proof fn lemma_out_fold_writes(
    m: crate::redirect::OutModel,
    cwd: Seq<char>,
    rs: Seq<Redirect>,
)
    requires
        forall|j: int| 0 <= j < m.writes.len() ==> (#[trigger] m.writes[j]) is Write,
    ensures
        forall|j: int|
            0 <= j < spec_out_fold(m, cwd, rs).writes.len() ==> (#[trigger] spec_out_fold(
                m,
                cwd,
                rs,
            ).writes[j]) is Write,
    decreases rs.len(),
{
    if rs.len() > 0 {
        let m1 = crate::redirect::spec_out_step(m, cwd, rs[0].redirect_type);
        assert(forall|j: int| 0 <= j < m1.writes.len() ==> (#[trigger] m1.writes[j]) is Write);
        lemma_out_fold_writes(m1, cwd, rs.drop_first());
    }
}

/// How many reads phase one performs: one for a `StdinFrom`, none otherwise.
pub open spec fn spec_stage_reads(last: Option<RedirectType>) -> nat {
    match last {
        Some(rt) => match rt {
            RedirectType::StdinFrom(p) => 1,
            _ => 0,
        },
        None => 0,
    }
}

/// The stdin a stage's spawn sees: the content named by the last input
/// redirect, or the pipeline's stdin when there is none.
pub open spec fn spec_stage_stdin(
    last: Option<RedirectType>,
    pipe: Seq<char>,
    files: Map<Seq<char>, Seq<char>>,
    cwd: Seq<char>,
) -> Seq<char> {
    match last {
        None => pipe,
        Some(rt) => match rt {
            RedirectType::Heredoc(c) => c@,
            RedirectType::HeredocStrip(c) => c@,
            RedirectType::HereString(w) => w@.push('\n'),
            RedirectType::StdinFrom(p) => files[spec_resolve_path(cwd, p@)],
            _ => pipe,
        },
    }
}

/// The shape of the host log after a successful stage, and what the stage
/// returned: the old log stands untouched; at most one read follows it — of
/// the file named by the last input redirect and of no other file; then the
/// one spawn, whose stdin is exactly what `spec_stage_stdin` says; everything
/// after it is a write. The stage's result carries the exit code the spawn
/// event recorded, and its buffers are the recorded output's residue under
/// the redirects.
pub open spec fn spec_stage_log(
    pre: Seq<HostEvent>,
    post: Seq<HostEvent>,
    files: Map<Seq<char>, Seq<char>>,
    cwd: Seq<char>,
    argv: Seq<Seq<char>>,
    env: Seq<(Seq<char>, Seq<char>)>,
    rs: Seq<Redirect>,
    pipe: Seq<char>,
    rr: RunResult,
) -> bool {
    let last = spec_last_input_redirect(rs);
    let spos = pre.len() + spec_stage_reads(last);
    &&& post.len() > spos
    &&& post.subrange(0, pre.len() as int) == pre
    &&& (spec_stage_reads(last) == 1 ==> (last matches Some(rt) && rt matches
        RedirectType::StdinFrom(p) && post[pre.len() as int] == (HostEvent::Read {
        path: spec_resolve_path(cwd, p@),
    })))
    &&& (post[spos as int] matches HostEvent::Spawn {
        program,
        args,
        env: e,
        cwd: c,
        stdin,
        outcome,
    } && program == argv[0] && args == argv.drop_first() && e == env && c == cwd && stdin
        == spec_stage_stdin(last, pipe, files, cwd) && (outcome matches Some(t) && rr.exit_code
        as int == t.0 && rr.stdout@ == spec_residual(t.1, t.2, rs).0 && rr.stderr@
        == spec_residual(t.1, t.2, rs).1))
    &&& forall|j: int| spos < j < post.len() ==> (#[trigger] post[j]) is Write
}

/// The shape of the host log after an aborted stage: either the one read of
/// the last input redirect's file happened and nothing else — the spawn was
/// never reached — or the stage got as far as its one spawn and everything
/// after it is a write.
pub open spec fn spec_stage_abort_log(
    pre: Seq<HostEvent>,
    post: Seq<HostEvent>,
    cwd: Seq<char>,
    rs: Seq<Redirect>,
) -> bool {
    let last = spec_last_input_redirect(rs);
    let spos = pre.len() + spec_stage_reads(last);
    ||| (last matches Some(rt) && rt matches RedirectType::StdinFrom(p) && post == pre.push(
        HostEvent::Read { path: spec_resolve_path(cwd, p@) },
    ))
    ||| (post.len() > spos && post.subrange(0, pre.len() as int) == pre && (spec_stage_reads(last)
        == 1 ==> post[pre.len() as int] is Read) && post[spos as int] is Spawn && (forall|j: int|
        spos < j < post.len() ==> (#[trigger] post[j]) is Write))
}

/// Executes one simple-command stage: phase-one stdin resolution, one spawn,
/// phase-two output redirection. The last exit code is updated from the spawn
/// result unconditionally; the returned buffers are the residual output that
/// no file redirect captured. A host failure aborts the stage.
pub fn run_stage<H: HostInterface>(
    state: &mut ShellState,
    host: &mut H,
    argv: &Vec<String>,
    redirects: &Vec<Redirect>,
    pipe_stdin: &str,
) -> (r: Result<RunResult, ShellError>)
    requires
        argv@.len() >= 1,
    ensures
        spec_same_session(*old(state), *final(state)),
        r matches Ok(rr) ==> final(state).last_exit_code == rr.exit_code && rr.execution_time_ms
            == 0,
        r matches Ok(rr) ==> spec_stage_log(
            old(host).log(),
            final(host).log(),
            old(host).files(),
            old(state).cwd@,
            argv.deep_view(),
            old(state).env.entries.deep_view(),
            redirects@,
            pipe_stdin@,
            rr,
        ),
        r is Err ==> spec_stage_abort_log(
            old(host).log(),
            final(host).log(),
            old(state).cwd@,
            redirects@,
        ),
        spec_log_extends(old(host).log(), final(host).log()),
{
    proof {
        lemma_last_input_redirect_is_input(redirects@);
    }
    let stdin_data = match compute_stdin(state, host, redirects, pipe_stdin) {
        Ok(s) => s,
        Err(e) => {
            proof {
                // only a failed read errs here, and it left exactly one event
                assert(spec_stage_abort_log(
                    old(host).log(),
                    host.log(),
                    old(state).cwd@,
                    redirects@,
                ));
            }
            return Err(e);
        },
    };
    let ghost log_after_stdin = host.log();
    let args = clone_tail(argv);
    let env_pairs = state.env_snapshot();
    let spawn_outcome = host.spawn(
        argv[0].as_str(),
        &args,
        &env_pairs,
        state.cwd.as_str(),
        stdin_data.as_str(),
    );
    let ghost log_after_spawn = host.log();
    let ghost files_after_spawn = host.files();
    let sr = match spawn_outcome {
        Ok(sr) => sr,
        Err(e) => {
            proof {
                assert(log_after_stdin.len() == old(host).log().len() + spec_stage_reads(
                    spec_last_input_redirect(redirects@),
                ));
                assert(host.log().subrange(0, old(host).log().len() as int) =~= old(host).log());
                assert(spec_stage_abort_log(
                    old(host).log(),
                    host.log(),
                    old(state).cwd@,
                    redirects@,
                ));
            }
            return Err(ShellError::HostError(e));
        },
    };
    state.last_exit_code = sr.exit_code;
    let ghost so = sr.stdout@;
    let ghost se = sr.stderr@;
    let exit_code = sr.exit_code;
    let buffers = match apply_output_redirects(state, host, redirects, sr.stdout, sr.stderr) {
        Ok(b) => b,
        Err(e) => {
            proof {
                let pre = old(host).log();
                let spos = pre.len() + spec_stage_reads(spec_last_input_redirect(redirects@));
                assert(log_after_stdin.len() == spos);
                assert(host.log().subrange(0, pre.len() as int) =~= pre);
                assert(host.log()[spos as int] == log_after_spawn[spos as int]);
                let cur = host.log();
                assert forall|j: int| spos < j < cur.len() implies (#[trigger] cur[j]) is Write by {
                    if j < log_after_spawn.len() {
                        assert(cur[j] == log_after_spawn[j]);
                    }
                }
                assert(spec_stage_abort_log(pre, host.log(), old(state).cwd@, redirects@));
            }
            return Err(e);
        },
    };
    proof {
        let pre = old(host).log();
        let cwd = old(state).cwd@;
        let last = spec_last_input_redirect(redirects@);
        let rc = spec_stage_reads(last);
        let spos = pre.len() + rc;
        let post = host.log();
        let ev = HostEvent::Spawn {
            program: argv.deep_view()[0],
            args: argv.deep_view().drop_first(),
            env: old(state).env.entries.deep_view(),
            cwd,
            stdin: spec_stage_stdin(last, pipe_stdin@, old(host).files(), cwd),
            outcome: Some((exit_code as int, so, se)),
        };
        assert(argv.deep_view()[0] == argv@[0]@);
        assert(stdin_data@ == spec_stage_stdin(last, pipe_stdin@, old(host).files(), cwd))
            by {
            match last {
                None => {},
                Some(rt) => {
                    match rt {
                        RedirectType::Heredoc(c) => {},
                        RedirectType::HeredocStrip(c) => {},
                        RedirectType::HereString(w) => {},
                        RedirectType::StdinFrom(p) => {},
                        _ => {
                            assert(false);
                        },
                    }
                },
            }
        }
        assert(log_after_stdin.len() == spos);
        assert(log_after_spawn == log_after_stdin.push(ev));
        let m = spec_out_fold(spec_out_init(so, se, files_after_spawn), cwd, redirects@);
        assert(post == log_after_spawn + m.writes);
        lemma_out_fold_writes(spec_out_init(so, se, files_after_spawn), cwd, redirects@);
        assert(post.subrange(0, pre.len() as int) =~= pre);
        assert(post[spos as int] == ev);
        if rc == 1 {
            assert(post[pre.len() as int] == log_after_stdin[pre.len() as int]);
        }
        assert forall|j: int| spos < j < post.len() implies (#[trigger] post[j]) is Write by {
            assert(post[j] == m.writes[j - spos - 1]);
        }
        lemma_out_fold_residual(
            spec_out_init(so, se, files_after_spawn),
            cwd,
            redirects@,
            (so, se, false),
        );
    }
    Ok(
        RunResult {
            exit_code,
            stdout: buffers.0,
            stderr: buffers.1,
            execution_time_ms: 0,
        },
    )
}

/// The exit codes that the spawn events of a log stretch reported, in order.
pub open spec fn spec_spawn_codes(log: Seq<HostEvent>) -> Seq<int>
    decreases log.len(),
{
    if log.len() == 0 {
        Seq::empty()
    } else {
        spec_spawn_codes(log.drop_last()) + (match log.last() {
            HostEvent::Spawn { program, args, env, cwd, stdin, outcome } => match outcome {
                Some(t) => seq![t.0],
                None => Seq::<int>::empty(),
            },
            _ => Seq::<int>::empty(),
        })
    }
}

proof fn lemma_spawn_codes_concat(a: Seq<HostEvent>, b: Seq<HostEvent>)
    ensures
        spec_spawn_codes(a + b) == spec_spawn_codes(a) + spec_spawn_codes(b),
    decreases b.len(),
{
    if b.len() == 0 {
        assert(a + b =~= a);
        assert(spec_spawn_codes(a) + spec_spawn_codes(b) =~= spec_spawn_codes(a));
    } else {
        lemma_spawn_codes_concat(a, b.drop_last());
        assert((a + b).drop_last() =~= a + b.drop_last());
        assert((a + b).last() == b.last());
        assert(spec_spawn_codes(a + b) =~= spec_spawn_codes(a) + spec_spawn_codes(b));
    }
}

proof fn lemma_spawn_codes_writes(w: Seq<HostEvent>)
    requires
        forall|j: int| 0 <= j < w.len() ==> (#[trigger] w[j]) is Write,
    ensures
        spec_spawn_codes(w) == Seq::<int>::empty(),
    decreases w.len(),
{
    if w.len() > 0 {
        lemma_spawn_codes_writes(w.drop_last());
        assert(spec_spawn_codes(w) =~= Seq::<int>::empty());
    }
}

/// A plain stage appends exactly one spawn code to the log stretch the
/// pipeline has produced so far: its own reported exit code.
proof fn lemma_stage_appends_one_code(
    pre0: Seq<HostEvent>,
    log_iter: Seq<HostEvent>,
    log_call: Seq<HostEvent>,
    post: Seq<HostEvent>,
    cwd: Seq<char>,
    argv: Seq<Seq<char>>,
    env: Seq<(Seq<char>, Seq<char>)>,
    rs: Seq<Redirect>,
    pipe: Seq<char>,
    rr: RunResult,
    files: Map<Seq<char>, Seq<char>>,
    codes: Seq<int>,
)
    requires
        log_iter == log_call,
        pre0.len() <= log_iter.len(),
        codes == spec_spawn_codes(log_iter.subrange(pre0.len() as int, log_iter.len() as int)),
        spec_last_input_redirect(rs) is None,
        spec_stage_log(log_call, post, files, cwd, argv, env, rs, pipe, rr),
    ensures
        spec_spawn_codes(post.subrange(pre0.len() as int, post.len() as int)) == codes.push(
            rr.exit_code as int,
        ),
{
    let ext_old = log_iter.subrange(pre0.len() as int, log_iter.len() as int);
    let spos = log_call.len() as int;
    let stage_ext = post.subrange(spos, post.len() as int);
    assert(post.subrange(0, log_call.len() as int) == log_call);
    assert forall|j: int| 0 <= j < log_call.len() implies post[j] == log_call[j] by {
        assert(post.subrange(0, log_call.len() as int)[j] == post[j]);
    }
    assert(post.subrange(pre0.len() as int, post.len() as int) =~= ext_old + stage_ext);
    lemma_spawn_codes_concat(ext_old, stage_ext);
    let ev = post[spos];
    let rest = stage_ext.subrange(1, stage_ext.len() as int);
    assert(stage_ext =~= seq![ev] + rest);
    assert forall|j: int| 0 <= j < rest.len() implies (#[trigger] rest[j]) is Write by {
        assert(rest[j] == post[spos + 1 + j]);
    }
    lemma_spawn_codes_writes(rest);
    lemma_spawn_codes_concat(seq![ev], rest);
    assert(seq![ev].drop_last() =~= Seq::<HostEvent>::empty());
    match ev {
        HostEvent::Spawn { program, args, env: e2, cwd: c2, stdin, outcome } => {
            match outcome {
                Some(t) => {
                    assert(rr.exit_code as int == t.0);
                    assert(seq![ev].drop_last() =~= Seq::<HostEvent>::empty());
                    assert(spec_spawn_codes(seq![ev].drop_last()) == Seq::<int>::empty());
                    assert(seq![ev].last() == ev);
                    assert(spec_spawn_codes(seq![ev]) =~= seq![t.0]);
                },
                None => {
                    assert(false);
                },
            }
        },
        _ => {
            assert(false);
        },
    }
    assert(spec_spawn_codes(post.subrange(pre0.len() as int, post.len() as int)) =~= codes.push(
        rr.exit_code as int,
    ));
}

/// The spawns of a plain pipeline, threaded: position `spots[k]` of the log
/// holds stage `k`'s spawn; its stdin is the running pipe, and the recorded
/// output's residual stdout under that stage's redirects feeds the next
/// stage. Past the last stage the running pipe is the final pipe.
pub open spec fn spec_threaded_spawns(
    commands: Seq<Command>,
    log: Seq<HostEvent>,
    spots: Seq<int>,
    k: int,
    upto: int,
    pipe: Seq<char>,
    final_pipe: Seq<char>,
    env: Seq<(Seq<char>, Seq<char>)>,
    cwd: Seq<char>,
) -> bool
    decreases upto - k,
{
    if k >= upto {
        pipe == final_pipe
    } else {
        &&& 0 <= spots[k] < log.len()
        &&& commands[k] matches Command::Simple { words, redirects, assignments } && (log[spots[k]]
            matches HostEvent::Spawn { program, args, env: e, cwd: c, stdin, outcome } && program
            == spec_literal_argv(words@)[0] && args == spec_literal_argv(words@).drop_first() && e
            == env && c == cwd && stdin == pipe && (outcome matches Some(t)
            && spec_threaded_spawns(
            commands,
            log,
            spots,
            k + 1,
            upto,
            spec_residual(t.1, t.2, redirects@).0,
            final_pipe,
            env,
            cwd,
        )))
    }
}

/// The threaded-spawns trace carries over to a longer log and to any spot
/// list that agrees on the stages it covers.
proof fn lemma_threaded_carry(
    commands: Seq<Command>,
    log1: Seq<HostEvent>,
    log2: Seq<HostEvent>,
    spots1: Seq<int>,
    spots2: Seq<int>,
    k: int,
    upto: int,
    pipe: Seq<char>,
    final_pipe: Seq<char>,
    env: Seq<(Seq<char>, Seq<char>)>,
    cwd: Seq<char>,
)
    requires
        spec_threaded_spawns(commands, log1, spots1, k, upto, pipe, final_pipe, env, cwd),
        spec_log_extends(log1, log2),
        forall|j: int| k <= j < upto ==> spots2[j] == spots1[j],
    ensures
        spec_threaded_spawns(commands, log2, spots2, k, upto, pipe, final_pipe, env, cwd),
    decreases upto - k,
{
    if k < upto {
        assert(log2[spots1[k]] == log1[spots1[k]]);
        match commands[k] {
            Command::Simple { words, redirects, assignments } => {
                match log1[spots1[k]] {
                    HostEvent::Spawn { program, args, env: e, cwd: c, stdin, outcome } => {
                        match outcome {
                            Some(t) => {
                                lemma_threaded_carry(
                                    commands,
                                    log1,
                                    log2,
                                    spots1,
                                    spots2,
                                    k + 1,
                                    upto,
                                    spec_residual(t.1, t.2, redirects@).0,
                                    final_pipe,
                                    env,
                                    cwd,
                                );
                            },
                            None => {
                                assert(false);
                            },
                        }
                    },
                    _ => {
                        assert(false);
                    },
                }
            },
            _ => {
                assert(false);
            },
        }
    }
}

/// One more threaded stage extends the trace by one.
proof fn lemma_threaded_snoc(
    commands: Seq<Command>,
    log: Seq<HostEvent>,
    spots: Seq<int>,
    k: int,
    upto: int,
    pipe: Seq<char>,
    old_fp: Seq<char>,
    new_fp: Seq<char>,
    env: Seq<(Seq<char>, Seq<char>)>,
    cwd: Seq<char>,
)
    requires
        0 <= k <= upto < commands.len(),
        spec_threaded_spawns(commands, log, spots, k, upto, pipe, old_fp, env, cwd),
        0 <= spots[upto] < log.len(),
        commands[upto] matches Command::Simple { words, redirects, assignments } && (log[spots[upto]]
            matches HostEvent::Spawn { program, args, env: e, cwd: c, stdin, outcome } && program
            == spec_literal_argv(words@)[0] && args == spec_literal_argv(words@).drop_first() && e
            == env && c == cwd && stdin == old_fp && (outcome matches Some(t) && new_fp
            == spec_residual(t.1, t.2, redirects@).0)),
    ensures
        spec_threaded_spawns(commands, log, spots, k, upto + 1, pipe, new_fp, env, cwd),
    decreases upto - k,
{
    if k >= upto {
        assert(pipe == old_fp);
        match commands[upto] {
            Command::Simple { words, redirects, assignments } => {
                match log[spots[upto]] {
                    HostEvent::Spawn { program, args, env: e, cwd: c, stdin, outcome } => {
                        match outcome {
                            Some(t) => {
                                assert(spec_threaded_spawns(
                                    commands,
                                    log,
                                    spots,
                                    k + 1,
                                    upto + 1,
                                    spec_residual(t.1, t.2, redirects@).0,
                                    new_fp,
                                    env,
                                    cwd,
                                ));
                                assert(spec_threaded_spawns(
                                    commands,
                                    log,
                                    spots,
                                    k,
                                    upto + 1,
                                    pipe,
                                    new_fp,
                                    env,
                                    cwd,
                                ));
                            },
                            None => {
                                assert(false);
                            },
                        }
                    },
                    _ => {
                        assert(false);
                    },
                }
            },
            _ => {
                assert(false);
            },
        }
    } else {
        match commands[k] {
            Command::Simple { words, redirects, assignments } => {
                match log[spots[k]] {
                    HostEvent::Spawn { program, args, env: e, cwd: c, stdin, outcome } => {
                        match outcome {
                            Some(t) => {
                                lemma_threaded_snoc(
                                    commands,
                                    log,
                                    spots,
                                    k + 1,
                                    upto,
                                    spec_residual(t.1, t.2, redirects@).0,
                                    old_fp,
                                    new_fp,
                                    env,
                                    cwd,
                                );
                            },
                            None => {
                                assert(false);
                            },
                        }
                    },
                    _ => {
                        assert(false);
                    },
                }
            },
            _ => {
                assert(false);
            },
        }
    }
}

/// A pipeline stage the expansion stages pass through verbatim: a simple
/// command of inert words, plain fields, something to run, and no input
/// redirect of its own, so the pipe decides its stdin.
pub open spec fn spec_plain_stage(c: Command) -> bool {
    c matches Command::Simple { words, redirects, assignments } && spec_words_inert(words@)
        && spec_plain_argv(spec_literal_argv(words@)) && spec_literal_argv(words@).len() > 0
        && spec_last_input_redirect(redirects@) is None
}

pub open spec fn spec_plain_pipeline(cs: Seq<Command>) -> bool {
    forall|k: int| 0 <= k < cs.len() ==> spec_plain_stage(#[trigger] cs[k])
}

/// The exit code a pipeline reports under pipefail: the right-most non-zero
/// stage code, and 0 only when every stage succeeded.
pub open spec fn spec_rightmost_nonzero(codes: Seq<int>) -> int
    decreases codes.len(),
{
    if codes.len() == 0 {
        0
    } else if codes.last() != 0 {
        codes.last()
    } else {
        spec_rightmost_nonzero(codes.drop_last())
    }
}

/// The exit code a pipeline reports: the last stage's code, or under pipefail
/// the right-most non-zero one.
pub open spec fn spec_pipeline_exit(codes: Seq<int>, pipefail: bool) -> int {
    if pipefail {
        spec_rightmost_nonzero(codes)
    } else if codes.len() == 0 {
        0
    } else {
        codes.last()
    }
}

/// The pipefail policy, characterized: when every stage exits 0 the reported
/// code is 0; otherwise it is the code of the last failing stage — every
/// stage after that one succeeded. A zero final stage never masks an earlier
/// failure.
pub proof fn lemma_pipefail_policy(codes: Seq<int>)
    ensures
        (forall|j: int| 0 <= j < codes.len() ==> codes[j] == 0) ==> spec_rightmost_nonzero(codes)
            == 0,
        (exists|j: int| 0 <= j < codes.len() && codes[j] != 0) ==> exists|j: int|
            0 <= j < codes.len() && codes[j] != 0 && spec_rightmost_nonzero(codes) == codes[j]
                && (forall|l: int| j < l < codes.len() ==> codes[l] == 0),
    decreases codes.len(),
{
    if codes.len() > 0 {
        lemma_pipefail_policy(codes.drop_last());
        if codes.last() != 0 {
            let j = codes.len() - 1;
            assert(codes[j] != 0 && spec_rightmost_nonzero(codes) == codes[j] && (forall|l: int|
                j < l < codes.len() ==> codes[l] == 0));
        } else {
            if exists|j: int| 0 <= j < codes.len() && codes[j] != 0 {
                let w = choose|j: int| 0 <= j < codes.len() && codes[j] != 0;
                assert(codes.drop_last()[w] == codes[w]);
                let j = choose|j: int|
                    0 <= j < codes.drop_last().len() && codes.drop_last()[j] != 0
                        && spec_rightmost_nonzero(codes.drop_last()) == codes.drop_last()[j] && (
                    forall|l: int| j < l < codes.drop_last().len() ==> codes.drop_last()[l] == 0);
                assert(codes[j] != 0 && spec_rightmost_nonzero(codes) == codes[j] && (forall|l: int|
                    j < l < codes.len() ==> codes[l] == 0)) by {
                    assert(forall|l: int|
                        j < l < codes.len() - 1 ==> codes[l] == codes.drop_last()[l]);
                };
            }
        }
    }
}

/// The single entry point: dispatch over the command forms.
///
/// A `Simple` command with no words short-circuits to an empty successful
/// result without touching expansion, redirects or the host. Otherwise the
/// expanded argv is spawned between the two redirect phases; an expansion
/// that yields no tokens also spawns nothing. A `Pipeline` of one command is
/// the command itself; a longer one runs its stages in order, threading each
/// stage's residual stdout into the next stage's stdin and reporting the exit
/// code that the pipefail policy picks. The unimplemented compound form is a
/// defined no-op with an empty successful result. Session state other than
/// the last exit code — environment, working directory, flags and the
/// substitution depth — always returns to its entry value, and the host log
/// only ever grows.
///
/// For a simple command whose words are inert and whose fields are plain
/// tokens, the whole stage contract holds at this entry point: the host log
/// gains the one read, the one spawn of exactly `spec_literal_argv` with
/// empty stdin (or the redirected stdin), and the redirect writes; the result
/// carries the exit code the spawn event recorded, its buffers are the
/// recorded output's residue under the redirects, and the last exit code
/// equals it. An abort on such a command leaves only the abort-shaped log.
pub fn exec_command<H: HostInterface>(
    state: &mut ShellState,
    host: &mut H,
    cmd: &Command,
) -> (r: Result<ControlFlow, ShellError>)
    ensures
        spec_same_session(*old(state), *final(state)),
        spec_log_extends(old(host).log(), final(host).log()),
        r matches Ok(f) ==> f is Normal,
        (*cmd) matches Command::Simple { words, redirects, assignments } ==> (spec_words_inert(
            words@,
        ) && spec_plain_argv(spec_literal_argv(words@)) && spec_literal_argv(words@).len() > 0
            ==> (r matches Ok(f) ==> (f matches ControlFlow::Normal(rr) && spec_stage_log(
            old(host).log(),
            final(host).log(),
            old(host).files(),
            old(state).cwd@,
            spec_literal_argv(words@),
            old(state).env.entries.deep_view(),
            redirects@,
            Seq::<char>::empty(),
            rr,
        ) && final(state).last_exit_code == rr.exit_code))),
        (*cmd) matches Command::Simple { words, redirects, assignments } ==> (spec_words_inert(
            words@,
        ) && spec_plain_argv(spec_literal_argv(words@)) ==> (r is Err ==> spec_stage_abort_log(
            old(host).log(),
            final(host).log(),
            old(state).cwd@,
            redirects@,
        ))),
        (*cmd) matches Command::Pipeline { commands } ==> (commands@.len() != 1 ==> (r matches Ok(
            f,
        ) ==> (f matches ControlFlow::Normal(rr) && final(state).last_exit_code == rr.exit_code))),
        (*cmd) matches Command::Pipeline { commands } ==> (commands@.len() != 1
            && spec_plain_pipeline(commands@) ==> (r matches Ok(f) ==> (f matches
        ControlFlow::Normal(rr) && {
            let ext = final(host).log().subrange(
                old(host).log().len() as int,
                final(host).log().len() as int,
            );
            &&& spec_spawn_codes(ext).len() == commands@.len()
            &&& rr.exit_code as int == spec_pipeline_exit(
                spec_spawn_codes(ext),
                old(state).flags.has(ShellFlag::Pipefail),
            )
        }))),
        (*cmd) matches Command::Pipeline { commands } ==> (commands@.len() != 1
            && spec_plain_pipeline(commands@) ==> (r matches Ok(f) ==> (f matches
        ControlFlow::Normal(rr) && exists|spots: Seq<int>|
            {
                &&& spots.len() == commands@.len()
                &&& (forall|k: int| 0 <= k < spots.len() ==> old(host).log().len() <= #[trigger] spots[k])
                &&& #[trigger] spec_threaded_spawns(
                    commands@,
                    final(host).log(),
                    spots,
                    0,
                    commands@.len() as int,
                    Seq::<char>::empty(),
                    rr.stdout@,
                    old(state).env.entries.deep_view(),
                    old(state).cwd@,
                )
            }))),
        ((*cmd) matches Command::Simple { words, redirects, assignments } && words@.len() == 0)
            ==> (r matches Ok(f) && f matches ControlFlow::Normal(rr) && spec_is_empty_result(rr)
            && *final(state) == *old(state) && spec_same_host(*old(host), *final(host))),
        (*cmd) is Other ==> (r matches Ok(f) && f matches ControlFlow::Normal(rr)
            && spec_is_empty_result(rr) && *final(state) == *old(state) && spec_same_host(
            *old(host),
            *final(host),
        )),
        r matches Ok(f) ==> (f matches ControlFlow::Normal(rr) ==> final(state).last_exit_code
            == rr.exit_code || rr.exit_code == 0),
    decreases spec_depth_measure(state.substitution_depth), cmd_height(*cmd), 4nat,
{
    match cmd {
        Command::Simple { words, redirects, assignments } => {
            if words.len() == 0 {
                return Ok(ControlFlow::Normal(RunResult::empty()));
            }
            let ghost plain = spec_words_inert(words@) && spec_plain_argv(
                spec_literal_argv(words@),
            );
            let argv = expand_argv(state, host, words, true);
            if argv.len() == 0 {
                proof {
                    if plain {
                        assert(argv.deep_view().len() == argv@.len());
                    }
                }
                return Ok(ControlFlow::Normal(RunResult::empty()));
            }
            let empty_stdin = String::new();
            let outcome = run_stage(state, host, &argv, redirects, empty_stdin.as_str());
            proof {
                if plain {
                    assert(argv.deep_view() == spec_literal_argv(words@));
                    match &outcome {
                        Ok(rr) => {
                            assert(spec_stage_log(
                                old(host).log(),
                                host.log(),
                                old(host).files(),
                                old(state).cwd@,
                                spec_literal_argv(words@),
                                old(state).env.entries.deep_view(),
                                redirects@,
                                Seq::<char>::empty(),
                                *rr,
                            ));
                        },
                        Err(e) => {
                            assert(spec_stage_abort_log(
                                old(host).log(),
                                host.log(),
                                old(state).cwd@,
                                redirects@,
                            ));
                        },
                    }
                }
            }
            match outcome {
                Ok(rr) => Ok(ControlFlow::Normal(rr)),
                Err(e) => Err(e),
            }
        },
        Command::Pipeline { commands } => {
            if commands.len() == 1 {
                proof {
                    lemma_cmds_height_bound(commands@, 0);
                }
                return exec_command(state, host, &commands[0]);
            }
            let pipefail = state.flags.contains(ShellFlag::Pipefail);
            let mut pipefail_code: i32 = 0;
            let mut last_result = RunResult::empty();
            let mut stdin_data = String::new();
            let ghost mut codes = Seq::<int>::empty();
            let ghost mut spots = Seq::<int>::empty();
            let mut idx: usize = 0;
            proof {
                assert(host.log().subrange(
                    old(host).log().len() as int,
                    host.log().len() as int,
                ) =~= Seq::<HostEvent>::empty());
            }
            while idx < commands.len()
                invariant
                    0 <= idx <= commands@.len(),
                    spec_same_session(*old(state), *state),
                    spec_log_extends(old(host).log(), host.log()),
                    cmd matches Command::Pipeline { commands: cs } && cs@ == commands@,
                    pipefail == old(state).flags.has(ShellFlag::Pipefail),
                    pipefail ==> pipefail_code as int == spec_rightmost_nonzero(codes),
                    codes.len() > 0 ==> codes.last() == last_result.exit_code as int,
                    codes.len() == 0 ==> last_result.exit_code == 0,
                    codes.len() == idx as int,
                    spec_plain_pipeline(commands@) ==> codes == spec_spawn_codes(
                        host.log().subrange(old(host).log().len() as int, host.log().len() as int),
                    ),
                    stdin_data@ == last_result.stdout@,
                    spec_plain_pipeline(commands@) ==> spots.len() == idx as int && (forall|k: int|
                        0 <= k < spots.len() ==> old(host).log().len() <= #[trigger] spots[k]
                            < host.log().len()) && spec_threaded_spawns(
                        commands@,
                        host.log(),
                        spots,
                        0,
                        idx as int,
                        Seq::<char>::empty(),
                        stdin_data@,
                        old(state).env.entries.deep_view(),
                        old(state).cwd@,
                    ),
                decreases commands@.len() - idx,
            {
                proof {
                    lemma_cmds_height_bound(commands@, idx as int);
                }
                let ghost log_iter = host.log();
                let stage = &commands[idx];
                match stage {
                    Command::Simple { words, redirects, assignments } => {
                        if words.len() == 0 {
                            proof {
                                if spec_plain_pipeline(commands@) {
                                    assert(spec_plain_stage(commands@[idx as int]));
                                    assert(false);
                                }
                            }
                            last_result = RunResult::empty();
                        } else {
                            let argv = expand_argv(state, host, words, true);
                            if argv.len() == 0 {
                                proof {
                                    if spec_plain_pipeline(commands@) {
                                        assert(spec_plain_stage(commands@[idx as int]));
                                        assert(argv.deep_view().len() == argv@.len());
                                        assert(false);
                                    }
                                }
                                last_result = RunResult::empty();
                            } else {
                                let ghost log_call = host.log();
                                match run_stage(state, host, &argv, redirects, stdin_data.as_str())
                                {
                                    Ok(rr) => {
                                        proof {
                                            if spec_plain_pipeline(commands@) {
                                                assert(spec_plain_stage(commands@[idx as int]));
                                                lemma_stage_appends_one_code(
                                                    old(host).log(),
                                                    log_iter,
                                                    log_call,
                                                    host.log(),
                                                    old(state).cwd@,
                                                    argv.deep_view(),
                                                    old(state).env.entries.deep_view(),
                                                    redirects@,
                                                    stdin_data@,
                                                    rr,
                                                    old(host).files(),
                                                    codes,
                                                );
                                                let env_dv = old(state).env.entries.deep_view();
                                                let cwd = old(state).cwd@;
                                                let pos = log_call.len() as int;
                                                let prev_spots = spots;
                                                spots = spots.push(pos);
                                                lemma_threaded_carry(
                                                    commands@,
                                                    log_iter,
                                                    host.log(),
                                                    prev_spots,
                                                    spots,
                                                    0,
                                                    idx as int,
                                                    Seq::<char>::empty(),
                                                    stdin_data@,
                                                    env_dv,
                                                    cwd,
                                                );
                                                assert(spots[idx as int] == pos);
                                                assert(host.log()[pos] matches HostEvent::Spawn {
                                                    program,
                                                    args,
                                                    env: e,
                                                    cwd: c,
                                                    stdin,
                                                    outcome,
                                                } && program == spec_literal_argv(
                                                    commands@[idx as int]->Simple_words@,
                                                )[0]);
                                                lemma_threaded_snoc(
                                                    commands@,
                                                    host.log(),
                                                    spots,
                                                    0,
                                                    idx as int,
                                                    Seq::<char>::empty(),
                                                    stdin_data@,
                                                    rr.stdout@,
                                                    env_dv,
                                                    cwd,
                                                );
                                            }
                                        }
                                        last_result = rr;
                                    },
                                    Err(e) => {
                                        return Err(e);
                                    },
                                }
                            }
                        }
                    },
                    _ => {
                        proof {
                            if spec_plain_pipeline(commands@) {
                                assert(spec_plain_stage(commands@[idx as int]));
                                assert(false);
                            }
                        }
                        match exec_command(state, host, stage) {
                            Ok(ControlFlow::Normal(rr)) => {
                                state.last_exit_code = rr.exit_code;
                                last_result = rr;
                            },
                            Ok(ControlFlow::Exit(code, out, err)) => {
                                state.last_exit_code = code;
                                last_result = RunResult {
                                    exit_code: code,
                                    stdout: out,
                                    stderr: err,
                                    execution_time_ms: 0,
                                };
                            },
                            Ok(flow) => {
                                return Ok(flow);
                            },
                            Err(e) => {
                                return Err(e);
                            },
                        }
                    },
                }
                proof {
                    let prev = codes;
                    codes = codes.push(last_result.exit_code as int);
                    assert(codes.drop_last() =~= prev);
                }
                if pipefail && last_result.exit_code != 0 {
                    pipefail_code = last_result.exit_code;
                }
                stdin_data = last_result.stdout.clone();
                idx += 1;
            }
            let ghost pre_exit = last_result.exit_code as int;
            if pipefail && pipefail_code != 0 && last_result.exit_code == 0 {
                last_result.exit_code = pipefail_code;
            }
            // the loop maintains the pipefail fold, so the reported code is
            // exactly the policy's choice over the stage codes
            proof {
                if pipefail {
                    if codes.len() == 0 {
                        assert(spec_rightmost_nonzero(codes) == 0);
                    } else if pre_exit != 0 {
                        assert(spec_rightmost_nonzero(codes) == codes.last());
                    }
                }
                assert(last_result.exit_code as int == spec_pipeline_exit(codes, pipefail));
                if spec_plain_pipeline(commands@) {
                    assert(spots.len() == commands@.len());
                    assert(spec_threaded_spawns(
                        commands@,
                        host.log(),
                        spots,
                        0,
                        commands@.len() as int,
                        Seq::<char>::empty(),
                        last_result.stdout@,
                        old(state).env.entries.deep_view(),
                        old(state).cwd@,
                    ));
                }
            }
            state.last_exit_code = last_result.exit_code;
            Ok(ControlFlow::Normal(last_result))
        },
        Command::Other(text) => Ok(ControlFlow::Normal(RunResult::empty())),
    }
}

} // verus!
