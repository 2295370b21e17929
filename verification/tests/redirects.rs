use shell_exec::ast::{Command, Redirect, RedirectType, Word};
use shell_exec::control::ControlFlow;
use shell_exec::exec::exec_command;
use shell_exec::host::SpawnResult;
use shell_exec::mock::MockHost;
use shell_exec::parse::parse;
use shell_exec::state::ShellState;

fn simple_cmd_with_redirects(cmd_name: &str, args: &[&str], redirects: Vec<Redirect>) -> Command {
    let mut words = vec![Word::literal(cmd_name)];
    for arg in args {
        words.push(Word::literal(arg));
    }
    Command::Simple { words, redirects, assignments: vec![] }
}

fn redirect(rt: RedirectType) -> Redirect {
    Redirect { redirect_type: rt }
}

#[test]
fn redirect_stdout_overwrite() {
    // `echo hello > /tmp/out.txt`
    let mut host = MockHost::new().with_spawn_result(
        "echo",
        SpawnResult { exit_code: 0, stdout: "hello\n".into(), stderr: String::new() },
    );
    let mut state = ShellState::new_default();
    let cmd = simple_cmd_with_redirects(
        "echo",
        &["hello"],
        vec![redirect(RedirectType::StdoutOverwrite("/tmp/out.txt".into()))],
    );
    let result = exec_command(&mut state, &mut host, &cmd);
    let ControlFlow::Normal(run) = result.unwrap() else {
        panic!("expected Normal")
    };
    assert_eq!(run.stdout, "");
    assert_eq!(run.exit_code, 0);
    assert_eq!(host.get_file("/tmp/out.txt").unwrap(), "hello\n");
}

#[test]
fn redirect_stdout_append() {
    let mut host = MockHost::new().with_file("/tmp/out.txt", b"line1\n").with_spawn_result(
        "echo",
        SpawnResult { exit_code: 0, stdout: "line2\n".into(), stderr: String::new() },
    );
    let mut state = ShellState::new_default();
    let cmd = simple_cmd_with_redirects(
        "echo",
        &["line2"],
        vec![redirect(RedirectType::StdoutAppend("/tmp/out.txt".into()))],
    );
    let result = exec_command(&mut state, &mut host, &cmd);
    let ControlFlow::Normal(run) = result.unwrap() else {
        panic!("expected Normal")
    };
    assert_eq!(run.stdout, "");
    assert_eq!(host.get_file("/tmp/out.txt").unwrap(), "line1\nline2\n");
}

#[test]
fn redirect_stdout_append_creates_new_file() {
    let mut host = MockHost::new().with_spawn_result(
        "echo",
        SpawnResult { exit_code: 0, stdout: "first\n".into(), stderr: String::new() },
    );
    let mut state = ShellState::new_default();
    let cmd = simple_cmd_with_redirects(
        "echo",
        &["first"],
        vec![redirect(RedirectType::StdoutAppend("/tmp/new.txt".into()))],
    );
    let _ = exec_command(&mut state, &mut host, &cmd);
    assert_eq!(host.get_file("/tmp/new.txt").unwrap(), "first\n");
}

#[test]
fn redirect_stdin_from_file() {
    let mut host = MockHost::new().with_file("/tmp/input.txt", b"file content\n").with_stdin_echo(
        "cat",
    );
    let mut state = ShellState::new_default();
    let cmd = simple_cmd_with_redirects(
        "cat",
        &[],
        vec![redirect(RedirectType::StdinFrom("/tmp/input.txt".into()))],
    );
    let result = exec_command(&mut state, &mut host, &cmd);
    let ControlFlow::Normal(run) = result.unwrap() else {
        panic!("expected Normal")
    };
    assert_eq!(run.stdout, "file content\n");
    assert_eq!(run.exit_code, 0);
}

#[test]
fn redirect_stdin_from_relative_path() {
    // `cat < input.txt` resolves relative to the working directory
    let mut host = MockHost::new()
        .with_file("/home/user/input.txt", b"relative content\n")
        .with_stdin_echo("cat");
    let mut state = ShellState::new_default();
    let cmd = simple_cmd_with_redirects(
        "cat",
        &[],
        vec![redirect(RedirectType::StdinFrom("input.txt".into()))],
    );
    let result = exec_command(&mut state, &mut host, &cmd);
    let ControlFlow::Normal(run) = result.unwrap() else {
        panic!("expected Normal")
    };
    assert_eq!(run.stdout, "relative content\n");
}

#[test]
fn redirect_stderr_overwrite() {
    let mut host = MockHost::new().with_spawn_result(
        "cmd",
        SpawnResult { exit_code: 1, stdout: "out\n".into(), stderr: "error msg\n".into() },
    );
    let mut state = ShellState::new_default();
    let cmd = simple_cmd_with_redirects(
        "cmd",
        &[],
        vec![redirect(RedirectType::StderrOverwrite("/tmp/err.txt".into()))],
    );
    let result = exec_command(&mut state, &mut host, &cmd);
    let ControlFlow::Normal(run) = result.unwrap() else {
        panic!("expected Normal")
    };
    assert_eq!(run.stdout, "out\n");
    assert_eq!(run.stderr, "");
    assert_eq!(host.get_file("/tmp/err.txt").unwrap(), "error msg\n");
}

#[test]
fn redirect_stderr_append() {
    let mut host = MockHost::new().with_file("/tmp/err.txt", b"old error\n").with_spawn_result(
        "cmd",
        SpawnResult { exit_code: 1, stdout: String::new(), stderr: "new error\n".into() },
    );
    let mut state = ShellState::new_default();
    let cmd = simple_cmd_with_redirects(
        "cmd",
        &[],
        vec![redirect(RedirectType::StderrAppend("/tmp/err.txt".into()))],
    );
    let _ = exec_command(&mut state, &mut host, &cmd);
    assert_eq!(host.get_file("/tmp/err.txt").unwrap(), "old error\nnew error\n");
}

#[test]
fn redirect_stderr_to_stdout_no_file() {
    // `cmd 2>&1` without a prior stdout redirect merges stderr into stdout
    let mut host = MockHost::new().with_spawn_result(
        "cmd",
        SpawnResult { exit_code: 0, stdout: "out\n".into(), stderr: "err\n".into() },
    );
    let mut state = ShellState::new_default();
    let cmd = simple_cmd_with_redirects("cmd", &[], vec![redirect(RedirectType::StderrToStdout)]);
    let result = exec_command(&mut state, &mut host, &cmd);
    let ControlFlow::Normal(run) = result.unwrap() else {
        panic!("expected Normal")
    };
    assert_eq!(run.stdout, "out\nerr\n");
    assert_eq!(run.stderr, "");
}

#[test]
fn redirect_stderr_to_stdout_with_file_redirect() {
    // `cmd > /tmp/out.txt 2>&1` — stdout to the file, then stderr follows it
    let mut host = MockHost::new().with_spawn_result(
        "cmd",
        SpawnResult { exit_code: 0, stdout: "out\n".into(), stderr: "err\n".into() },
    );
    let mut state = ShellState::new_default();
    let cmd = simple_cmd_with_redirects(
        "cmd",
        &[],
        vec![
            redirect(RedirectType::StdoutOverwrite("/tmp/out.txt".into())),
            redirect(RedirectType::StderrToStdout),
        ],
    );
    let result = exec_command(&mut state, &mut host, &cmd);
    let ControlFlow::Normal(run) = result.unwrap() else {
        panic!("expected Normal")
    };
    assert_eq!(run.stdout, "");
    assert_eq!(run.stderr, "");
    assert_eq!(host.get_file("/tmp/out.txt").unwrap(), "out\nerr\n");
}

#[test]
fn redirect_both_overwrite() {
    // `cmd &> /tmp/all.txt`
    let mut host = MockHost::new().with_spawn_result(
        "cmd",
        SpawnResult { exit_code: 0, stdout: "out\n".into(), stderr: "err\n".into() },
    );
    let mut state = ShellState::new_default();
    let cmd = simple_cmd_with_redirects(
        "cmd",
        &[],
        vec![redirect(RedirectType::BothOverwrite("/tmp/all.txt".into()))],
    );
    let result = exec_command(&mut state, &mut host, &cmd);
    let ControlFlow::Normal(run) = result.unwrap() else {
        panic!("expected Normal")
    };
    assert_eq!(run.stdout, "");
    assert_eq!(run.stderr, "");
    assert_eq!(host.get_file("/tmp/all.txt").unwrap(), "out\nerr\n");
}

#[test]
fn redirect_heredoc() {
    let mut host = MockHost::new().with_stdin_echo("cat");
    let mut state = ShellState::new_default();
    let cmd = simple_cmd_with_redirects(
        "cat",
        &[],
        vec![redirect(RedirectType::Heredoc("heredoc line 1\nheredoc line 2\n".into()))],
    );
    let result = exec_command(&mut state, &mut host, &cmd);
    let ControlFlow::Normal(run) = result.unwrap() else {
        panic!("expected Normal")
    };
    assert_eq!(run.stdout, "heredoc line 1\nheredoc line 2\n");
}

#[test]
fn redirect_heredoc_strip() {
    // tab stripping is the parser's business; the content arrives as given
    let mut host = MockHost::new().with_stdin_echo("cat");
    let mut state = ShellState::new_default();
    let cmd = simple_cmd_with_redirects(
        "cat",
        &[],
        vec![redirect(RedirectType::HeredocStrip("stripped content\n".into()))],
    );
    let result = exec_command(&mut state, &mut host, &cmd);
    let ControlFlow::Normal(run) = result.unwrap() else {
        panic!("expected Normal")
    };
    assert_eq!(run.stdout, "stripped content\n");
}

#[test]
fn redirect_here_string() {
    // `cat <<< "hello"` — stdin becomes "hello\n"
    let mut host = MockHost::new().with_stdin_echo("cat");
    let mut state = ShellState::new_default();
    let cmd = simple_cmd_with_redirects(
        "cat",
        &[],
        vec![redirect(RedirectType::HereString("hello".into()))],
    );
    let result = exec_command(&mut state, &mut host, &cmd);
    let ControlFlow::Normal(run) = result.unwrap() else {
        panic!("expected Normal")
    };
    assert_eq!(run.stdout, "hello\n");
}

#[test]
fn redirect_stdout_overwrite_relative_path() {
    // `echo hello > out.txt` resolves relative to the working directory
    let mut host = MockHost::new().with_spawn_result(
        "echo",
        SpawnResult { exit_code: 0, stdout: "hello\n".into(), stderr: String::new() },
    );
    let mut state = ShellState::new_default();
    let cmd = simple_cmd_with_redirects(
        "echo",
        &["hello"],
        vec![redirect(RedirectType::StdoutOverwrite("out.txt".into()))],
    );
    let _ = exec_command(&mut state, &mut host, &cmd);
    assert_eq!(host.get_file("/home/user/out.txt").unwrap(), "hello\n");
}

#[test]
fn redirect_multiple_output_redirects() {
    // `cmd > /tmp/out.txt 2> /tmp/err.txt`
    let mut host = MockHost::new().with_spawn_result(
        "cmd",
        SpawnResult { exit_code: 0, stdout: "output\n".into(), stderr: "error\n".into() },
    );
    let mut state = ShellState::new_default();
    let cmd = simple_cmd_with_redirects(
        "cmd",
        &[],
        vec![
            redirect(RedirectType::StdoutOverwrite("/tmp/out.txt".into())),
            redirect(RedirectType::StderrOverwrite("/tmp/err.txt".into())),
        ],
    );
    let result = exec_command(&mut state, &mut host, &cmd);
    let ControlFlow::Normal(run) = result.unwrap() else {
        panic!("expected Normal")
    };
    assert_eq!(run.stdout, "");
    assert_eq!(run.stderr, "");
    assert_eq!(host.get_file("/tmp/out.txt").unwrap(), "output\n");
    assert_eq!(host.get_file("/tmp/err.txt").unwrap(), "error\n");
}

#[test]
fn redirect_no_redirects_passes_empty_stdin() {
    let mut host = MockHost::new().with_spawn_result(
        "echo",
        SpawnResult { exit_code: 0, stdout: "hi\n".into(), stderr: String::new() },
    );
    let mut state = ShellState::new_default();
    let cmd = parse("echo hi");
    let result = exec_command(&mut state, &mut host, &cmd);
    let ControlFlow::Normal(run) = result.unwrap() else {
        panic!("expected Normal")
    };
    assert_eq!(run.stdout, "hi\n");
    assert_eq!(host.get_spawn_calls()[0].stdin, "");
}

#[test]
fn redirect_stdin_file_not_found() {
    // `cat < /nonexistent` aborts the command
    let mut host = MockHost::new().with_stdin_echo("cat");
    let mut state = ShellState::new_default();
    let cmd = simple_cmd_with_redirects(
        "cat",
        &[],
        vec![redirect(RedirectType::StdinFrom("/nonexistent".into()))],
    );
    let result = exec_command(&mut state, &mut host, &cmd);
    assert!(result.is_err());
}

#[test]
fn redirect_stderr_to_stdout_empty_stderr() {
    let mut host = MockHost::new().with_spawn_result(
        "cmd",
        SpawnResult { exit_code: 0, stdout: "only out\n".into(), stderr: String::new() },
    );
    let mut state = ShellState::new_default();
    let cmd = simple_cmd_with_redirects("cmd", &[], vec![redirect(RedirectType::StderrToStdout)]);
    let result = exec_command(&mut state, &mut host, &cmd);
    let ControlFlow::Normal(run) = result.unwrap() else {
        panic!("expected Normal")
    };
    assert_eq!(run.stdout, "only out\n");
    assert_eq!(run.stderr, "");
}

#[test]
fn redirect_both_overwrite_empty_outputs() {
    let mut host = MockHost::new().with_spawn_result(
        "cmd",
        SpawnResult { exit_code: 0, stdout: String::new(), stderr: String::new() },
    );
    let mut state = ShellState::new_default();
    let cmd = simple_cmd_with_redirects(
        "cmd",
        &[],
        vec![redirect(RedirectType::BothOverwrite("/tmp/all.txt".into()))],
    );
    let _ = exec_command(&mut state, &mut host, &cmd);
    assert_eq!(host.get_file("/tmp/all.txt").unwrap(), "");
}

#[test]
fn redirect_heredoc_with_output_redirect() {
    let mut host = MockHost::new().with_stdin_echo("cat");
    let mut state = ShellState::new_default();
    let cmd = simple_cmd_with_redirects(
        "cat",
        &[],
        vec![
            redirect(RedirectType::Heredoc("hello world\n".into())),
            redirect(RedirectType::StdoutOverwrite("/tmp/out.txt".into())),
        ],
    );
    let result = exec_command(&mut state, &mut host, &cmd);
    let ControlFlow::Normal(run) = result.unwrap() else {
        panic!("expected Normal")
    };
    assert_eq!(run.stdout, "");
    assert_eq!(host.get_file("/tmp/out.txt").unwrap(), "hello world\n");
}

#[test]
fn redirect_last_stdin_redirect_wins() {
    // Two input redirects: only the file named by the second is read.
    let mut host = MockHost::new()
        .with_file("/tmp/a.txt", b"content a\n")
        .with_file("/tmp/b.txt", b"content b\n")
        .with_stdin_echo("cat");
    let mut state = ShellState::new_default();
    let cmd = simple_cmd_with_redirects(
        "cat",
        &[],
        vec![
            redirect(RedirectType::StdinFrom("/tmp/a.txt".into())),
            redirect(RedirectType::StdinFrom("/tmp/b.txt".into())),
        ],
    );
    let result = exec_command(&mut state, &mut host, &cmd);
    let ControlFlow::Normal(run) = result.unwrap() else {
        panic!("expected Normal")
    };
    assert_eq!(run.stdout, "content b\n");
}
