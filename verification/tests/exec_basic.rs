use shell_exec::control::ControlFlow;
use shell_exec::exec::exec_command;
use shell_exec::host::SpawnResult;
use shell_exec::mock::MockHost;
use shell_exec::parse::parse;
use shell_exec::state::ShellState;

#[test]
fn simple_command_spawns_via_host() {
    let mut host = MockHost::new().with_tool("ls").with_spawn_result(
        "ls",
        SpawnResult { exit_code: 0, stdout: "file.txt\n".into(), stderr: String::new() },
    );
    let mut state = ShellState::new_default();
    let cmd = parse("ls");
    let result = exec_command(&mut state, &mut host, &cmd);
    let ControlFlow::Normal(run) = result.unwrap() else {
        panic!("expected Normal")
    };
    assert_eq!(run.exit_code, 0);
    assert_eq!(run.stdout, "file.txt\n");
}

#[test]
fn unknown_command_returns_127() {
    let mut host = MockHost::new();
    let mut state = ShellState::new_default();
    let cmd = parse("nonexistent");
    let result = exec_command(&mut state, &mut host, &cmd);
    let ControlFlow::Normal(run) = result.unwrap() else {
        panic!("expected Normal")
    };
    assert_eq!(run.exit_code, 127);
    assert!(run.stderr.contains("command not found"));
}

#[test]
fn simple_command_with_args() {
    let mut host = MockHost::new().with_spawn_result(
        "echo-args",
        SpawnResult { exit_code: 0, stdout: "hello world\n".into(), stderr: String::new() },
    );
    let mut state = ShellState::new_default();
    let cmd = parse("echo-args hello world");
    let result = exec_command(&mut state, &mut host, &cmd);
    let ControlFlow::Normal(run) = result.unwrap() else {
        panic!("expected Normal")
    };
    assert_eq!(run.exit_code, 0);
    assert_eq!(run.stdout, "hello world\n");
}

#[test]
fn last_exit_code_is_updated() {
    let mut host = MockHost::new().with_spawn_result(
        "fail",
        SpawnResult { exit_code: 42, stdout: String::new(), stderr: "error\n".into() },
    );
    let mut state = ShellState::new_default();
    let cmd = parse("fail");
    let _ = exec_command(&mut state, &mut host, &cmd);
    assert_eq!(state.last_exit_code, 42);
}

#[test]
fn empty_word_list_succeeds_without_host() {
    let mut host = MockHost::new();
    let mut state = ShellState::new_default();
    state.last_exit_code = 5;
    let cmd = shell_exec::ast::Command::Simple {
        words: Vec::new(),
        redirects: Vec::new(),
        assignments: Vec::new(),
    };
    let result = exec_command(&mut state, &mut host, &cmd);
    let ControlFlow::Normal(run) = result.unwrap() else {
        panic!("expected Normal")
    };
    assert_eq!(run.exit_code, 0);
    assert_eq!(run.stdout, "");
    assert_eq!(run.stderr, "");
    assert_eq!(host.get_spawn_calls().len(), 0);
    assert_eq!(state.last_exit_code, 5);
}

#[test]
fn unimplemented_command_form_is_a_no_op() {
    let mut host = MockHost::new();
    let mut state = ShellState::new_default();
    let cmd = shell_exec::ast::Command::Other("while true; do :; done".into());
    let result = exec_command(&mut state, &mut host, &cmd);
    let ControlFlow::Normal(run) = result.unwrap() else {
        panic!("expected Normal")
    };
    assert_eq!(run.exit_code, 0);
    assert_eq!(run.stdout, "");
    assert_eq!(host.get_spawn_calls().len(), 0);
}
