use shell_exec::ast::{Word, WordPart};
use shell_exec::control::ControlFlow;
use shell_exec::exec::exec_command;
use shell_exec::expand::{expand_word, expand_word_part};
use shell_exec::host::SpawnResult;
use shell_exec::mock::MockHost;
use shell_exec::parse::parse;
use shell_exec::state::{MAX_SUBSTITUTION_DEPTH, ShellState};

#[test]
fn command_substitution_basic() {
    // `echo $(echo hello)`: the inner command's stdout, with its trailing
    // newline stripped, becomes part of the outer command line.
    let mut host = MockHost::new().with_spawn_result(
        "echo",
        SpawnResult { exit_code: 0, stdout: "hello\n".into(), stderr: String::new() },
    );
    let mut state = ShellState::new_default();
    let cmd = parse("echo $(echo hello)");
    let result = exec_command(&mut state, &mut host, &cmd);
    let ControlFlow::Normal(run) = result.unwrap() else {
        panic!("expected Normal")
    };
    assert_eq!(run.exit_code, 0);
    // The outer "echo" also returns "hello\n" since the host matches only on
    // the program name.
    assert_eq!(run.stdout, "hello\n");
}

#[test]
fn command_substitution_strips_trailing_newline() {
    let mut host = MockHost::new().with_spawn_result(
        "echo",
        SpawnResult { exit_code: 0, stdout: "hello\n".into(), stderr: String::new() },
    );
    let mut state = ShellState::new_default();
    let word = Word { parts: vec![WordPart::CommandSub("echo hello".into())] };
    let expanded = expand_word(&mut state, &mut host, &word, true);
    assert_eq!(expanded, "hello");
}

#[test]
fn command_substitution_in_middle_of_word() {
    // `pre$(echo mid)suf` expands to "premidsuf"
    let mut host = MockHost::new().with_spawn_result(
        "echo",
        SpawnResult { exit_code: 0, stdout: "mid\n".into(), stderr: String::new() },
    );
    let mut state = ShellState::new_default();
    let word = Word {
        parts: vec![
            WordPart::Literal("pre".into()),
            WordPart::CommandSub("echo mid".into()),
            WordPart::Literal("suf".into()),
        ],
    };
    let expanded = expand_word(&mut state, &mut host, &word, true);
    assert_eq!(expanded, "premidsuf");
}

#[test]
fn command_substitution_no_exec_returns_empty() {
    let mut host = MockHost::new();
    let mut state = ShellState::new_default();
    let part = WordPart::CommandSub("echo hello".into());
    let result = expand_word_part(&mut state, &mut host, &part, false);
    assert_eq!(result, "");
}

#[test]
fn command_substitution_depth_limit() {
    let mut host = MockHost::new().with_spawn_result(
        "echo",
        SpawnResult { exit_code: 0, stdout: "hello\n".into(), stderr: String::new() },
    );
    let mut state = ShellState::new_default();
    state.substitution_depth = MAX_SUBSTITUTION_DEPTH;
    let part = WordPart::CommandSub("echo hello".into());
    let result = expand_word_part(&mut state, &mut host, &part, true);
    assert_eq!(result, "");
    assert_eq!(host.get_spawn_calls().len(), 0);
}

#[test]
fn command_substitution_increments_and_decrements_depth() {
    let mut host = MockHost::new().with_spawn_result(
        "echo",
        SpawnResult { exit_code: 0, stdout: "hello\n".into(), stderr: String::new() },
    );
    let mut state = ShellState::new_default();
    assert_eq!(state.substitution_depth, 0);
    let part = WordPart::CommandSub("echo hello".into());
    let _ = expand_word_part(&mut state, &mut host, &part, true);
    assert_eq!(state.substitution_depth, 0);
}

#[test]
fn command_substitution_failed_command_returns_empty() {
    // A failing inner command still hands over its stdout.
    let mut host = MockHost::new().with_spawn_result(
        "failing-cmd",
        SpawnResult { exit_code: 1, stdout: "some output\n".into(), stderr: "error\n".into() },
    );
    let mut state = ShellState::new_default();
    let part = WordPart::CommandSub("failing-cmd".into());
    let result = expand_word_part(&mut state, &mut host, &part, true);
    assert_eq!(result, "some output");
}

#[test]
fn command_substitution_unknown_inner_command_returns_empty() {
    let mut host = MockHost::new();
    let mut state = ShellState::new_default();
    let part = WordPart::CommandSub("nonexistent-cmd".into());
    let result = expand_word_part(&mut state, &mut host, &part, true);
    assert_eq!(result, "");
}
