use shell_exec::ast::{Command, Word};
use shell_exec::control::ControlFlow;
use shell_exec::exec::exec_command;
use shell_exec::host::SpawnResult;
use shell_exec::mock::MockHost;
use shell_exec::parse::parse;
use shell_exec::state::{ShellFlag, ShellState};

fn result(exit_code: i32, stdout: &str, stderr: &str) -> SpawnResult {
    SpawnResult { exit_code, stdout: stdout.into(), stderr: stderr.into() }
}

#[test]
fn pipeline_two_stage_stdin_threading() {
    // `echo hello | cat` — cat receives "hello\n" as stdin
    let mut host = MockHost::new()
        .with_spawn_result("echo", result(0, "hello\n", ""))
        .with_stdin_echo("cat");
    let mut state = ShellState::new_default();
    let cmd = parse("echo hello | cat");
    let outcome = exec_command(&mut state, &mut host, &cmd);
    let ControlFlow::Normal(run) = outcome.unwrap() else {
        panic!("expected Normal")
    };
    assert_eq!(run.exit_code, 0);
    assert_eq!(run.stdout, "hello\n");

    let calls = host.get_spawn_calls();
    assert_eq!(calls.len(), 2);
    assert_eq!(calls[0].program, "echo");
    assert_eq!(calls[0].stdin, "");
    assert_eq!(calls[1].program, "cat");
    assert_eq!(calls[1].stdin, "hello\n");
}

#[test]
fn pipeline_three_stage() {
    // `echo hello | cat | cat`
    let mut host = MockHost::new()
        .with_spawn_result("echo", result(0, "hello\n", ""))
        .with_stdin_echo("cat");
    let mut state = ShellState::new_default();
    let cmd = parse("echo hello | cat | cat");
    let outcome = exec_command(&mut state, &mut host, &cmd);
    let ControlFlow::Normal(run) = outcome.unwrap() else {
        panic!("expected Normal")
    };
    assert_eq!(run.exit_code, 0);
    assert_eq!(run.stdout, "hello\n");

    let calls = host.get_spawn_calls();
    assert_eq!(calls.len(), 3);
    assert_eq!(calls[0].program, "echo");
    assert_eq!(calls[1].program, "cat");
    assert_eq!(calls[1].stdin, "hello\n");
    assert_eq!(calls[2].program, "cat");
    assert_eq!(calls[2].stdin, "hello\n");
}

#[test]
fn pipeline_exit_code_from_last_stage() {
    // `false | true` reports 0, the last stage's code
    let mut host = MockHost::new()
        .with_spawn_result("false", result(1, "", ""))
        .with_spawn_result("true", result(0, "", ""));
    let mut state = ShellState::new_default();
    let cmd = parse("false | true");
    let outcome = exec_command(&mut state, &mut host, &cmd);
    let ControlFlow::Normal(run) = outcome.unwrap() else {
        panic!("expected Normal")
    };
    assert_eq!(run.exit_code, 0);
}

#[test]
fn pipeline_pipefail() {
    // `false | true` under pipefail reports 1
    let mut host = MockHost::new()
        .with_spawn_result("false", result(1, "", ""))
        .with_spawn_result("true", result(0, "", ""));
    let mut state = ShellState::new_default();
    state.flags.insert(ShellFlag::Pipefail);
    let cmd = parse("false | true");
    let outcome = exec_command(&mut state, &mut host, &cmd);
    let ControlFlow::Normal(run) = outcome.unwrap() else {
        panic!("expected Normal")
    };
    assert_eq!(run.exit_code, 1);
}

#[test]
fn pipeline_pipefail_last_non_zero_wins() {
    // `cmd-exit-2 | cmd-exit-3 | true` under pipefail reports 3
    let mut host = MockHost::new()
        .with_spawn_result("cmd-exit-2", result(2, "a\n", ""))
        .with_spawn_result("cmd-exit-3", result(3, "b\n", ""))
        .with_spawn_result("true", result(0, "", ""));
    let mut state = ShellState::new_default();
    state.flags.insert(ShellFlag::Pipefail);
    let cmd = parse("cmd-exit-2 | cmd-exit-3 | true");
    let outcome = exec_command(&mut state, &mut host, &cmd);
    let ControlFlow::Normal(run) = outcome.unwrap() else {
        panic!("expected Normal")
    };
    assert_eq!(run.exit_code, 3);
}

#[test]
fn pipeline_stderr_does_not_flow_through() {
    // stderr of the first stage never enters the pipe
    let mut host = MockHost::new()
        .with_spawn_result("cmd-with-stderr", result(0, "out\n", "err\n"))
        .with_stdin_echo("cat");
    let mut state = ShellState::new_default();
    let cmd = parse("cmd-with-stderr | cat");
    let outcome = exec_command(&mut state, &mut host, &cmd);
    let ControlFlow::Normal(run) = outcome.unwrap() else {
        panic!("expected Normal")
    };
    assert_eq!(run.stdout, "out\n");
    assert_eq!(run.stderr, "");

    let calls = host.get_spawn_calls();
    assert_eq!(calls[1].stdin, "out\n");
}

#[test]
fn pipeline_stderr_to_stdout_redirect() {
    // `cmd 2>&1 | cat` — the merged bytes flow through the pipe
    let mut host = MockHost::new()
        .with_spawn_result("cmd", result(0, "out\n", "err\n"))
        .with_stdin_echo("cat");
    let mut state = ShellState::new_default();
    let cmd = parse("cmd 2>&1 | cat");
    let outcome = exec_command(&mut state, &mut host, &cmd);
    let ControlFlow::Normal(run) = outcome.unwrap() else {
        panic!("expected Normal")
    };
    assert_eq!(run.stdout, "out\nerr\n");

    let calls = host.get_spawn_calls();
    assert_eq!(calls[1].stdin, "out\nerr\n");
}

#[test]
fn pipeline_single_command_delegates() {
    // A one-stage pipeline behaves exactly like the command itself.
    let mut host = MockHost::new().with_spawn_result("echo", result(0, "hello\n", ""));
    let mut state = ShellState::new_default();
    let cmd = Command::Pipeline {
        commands: vec![Command::Simple {
            words: vec![Word::literal("echo"), Word::literal("hello")],
            redirects: vec![],
            assignments: vec![],
        }],
    };
    let outcome = exec_command(&mut state, &mut host, &cmd);
    let ControlFlow::Normal(run) = outcome.unwrap() else {
        panic!("expected Normal")
    };
    assert_eq!(run.exit_code, 0);
    assert_eq!(run.stdout, "hello\n");
}

#[test]
fn pipeline_last_exit_code_updates_state() {
    let mut host = MockHost::new()
        .with_spawn_result("true", result(0, "", ""))
        .with_spawn_result("exit42", result(42, "", ""));
    let mut state = ShellState::new_default();
    let cmd = parse("true | exit42");
    let _ = exec_command(&mut state, &mut host, &cmd);
    assert_eq!(state.last_exit_code, 42);
}

#[test]
fn pipeline_no_pipefail_ignores_early_failures() {
    let mut host = MockHost::new()
        .with_spawn_result("fail1", result(1, "data\n", ""))
        .with_spawn_result("fail2", result(2, "more\n", ""))
        .with_spawn_result("succeed", result(0, "ok\n", ""));
    let mut state = ShellState::new_default();
    let cmd = parse("fail1 | fail2 | succeed");
    let outcome = exec_command(&mut state, &mut host, &cmd);
    let ControlFlow::Normal(run) = outcome.unwrap() else {
        panic!("expected Normal")
    };
    assert_eq!(run.exit_code, 0);
}
