use shell_exec::ast::{Word, WordPart};
use shell_exec::host::{HostInterface, SpawnResult};
use shell_exec::braces::{expand_braces, protect_braces, restore_brace_sentinels};
use shell_exec::expand::{expand_globs, expand_words_with_splitting};
use shell_exec::fields::{Fragment, split_fragments};
use shell_exec::mock::MockHost;
use shell_exec::state::ShellState;
use shell_exec::strutil::{format_base, format_decimal, pad_left, strip_one_trailing_newline};

#[test]
fn field_splitting_rules() {
    // an expansion result splits at blanks and glues to its neighbors
    let frags = vec![
        Fragment { text: "pre".into(), splittable: false },
        Fragment { text: "mid end".into(), splittable: true },
        Fragment { text: "suf".into(), splittable: false },
    ];
    let fields = split_fragments(&frags);
    assert_eq!(fields, vec!["premid".to_string(), "endsuf".to_string()]);

    // quoted text keeps its blanks
    let quoted = vec![Fragment { text: "a b".into(), splittable: false }];
    assert_eq!(split_fragments(&quoted), vec!["a b".to_string()]);

    // a splittable fragment of blanks contributes nothing
    let blank = vec![Fragment { text: "   ".into(), splittable: true }];
    assert_eq!(split_fragments(&blank), Vec::<String>::new());
}

#[test]
fn words_expand_to_argv() {
    let mut host = MockHost::new();
    let mut state = ShellState::new_default();
    let words = vec![
        Word::literal("echo"),
        Word { parts: vec![WordPart::QuotedLiteral("a b".into())] },
        Word { parts: vec![WordPart::Variable("missing".into())] },
    ];
    let argv = expand_words_with_splitting(&mut state, &mut host, &words, true);
    assert_eq!(argv, vec!["echo".to_string(), "a b".to_string()]);
}

#[test]
fn variable_expansion_reads_the_environment() {
    let mut host = MockHost::new();
    let mut state = ShellState::new_default();
    state.env.set("NAME", "value".to_string());
    let words = vec![Word { parts: vec![WordPart::Variable("NAME".into())] }];
    let argv = expand_words_with_splitting(&mut state, &mut host, &words, true);
    assert_eq!(argv, vec!["value".to_string()]);
}

#[test]
fn brace_enumeration() {
    let tokens = vec!["x{a,b}y".to_string(), "plain".to_string()];
    let expanded = expand_braces(&tokens);
    assert_eq!(expanded, vec!["xay".to_string(), "xby".to_string(), "plain".to_string()]);
    // no comma: no group
    let lone = vec!["a{b}c".to_string()];
    assert_eq!(expand_braces(&lone), vec!["a{b}c".to_string()]);
}

#[test]
fn sentinels_protect_quoted_braces() {
    let protected = protect_braces("{a,b}");
    assert!(!protected.contains('{'));
    let restored = restore_brace_sentinels(&vec![protected]);
    assert_eq!(restored, vec!["{a,b}".to_string()]);
}

#[test]
fn globs_pass_plain_tokens_through() {
    let mut host = MockHost::new();
    let tokens = vec!["plain".to_string(), "unmatched*".to_string()];
    let expanded = expand_globs(&mut host, &tokens);
    // this host matches nothing, so the glob token is kept literally
    assert_eq!(expanded, vec!["plain".to_string(), "unmatched*".to_string()]);
}

#[test]
fn trailing_newline_stripping() {
    assert_eq!(strip_one_trailing_newline("hello\n"), "hello");
    assert_eq!(strip_one_trailing_newline("hello\n\n"), "hello\n");
    assert_eq!(strip_one_trailing_newline("hello"), "hello");
    assert_eq!(strip_one_trailing_newline(""), "");
}

#[test]
fn path_resolution() {
    let state = ShellState::new_default();
    assert_eq!(state.resolve_path("/etc/hosts"), "/etc/hosts");
    assert_eq!(state.resolve_path("input.txt"), "/home/user/input.txt");
}

#[test]
fn number_formatting() {
    assert_eq!(format_decimal(0), "0");
    assert_eq!(format_decimal(90210), "90210");
    assert_eq!(format_base(255, 16), "ff");
    assert_eq!(format_base(8, 8), "10");
    assert_eq!(format_base(5, 2), "101");
    assert_eq!(pad_left("7", 3, '0'), "007");
    assert_eq!(pad_left("1234", 3, '0'), "1234");
}

#[test]
fn environment_keeps_one_binding_per_name() {
    let mut state = ShellState::new_default();
    state.env.set("NAME", "first".to_string());
    state.env.set("NAME", "second".to_string());
    let snapshot = state.env_snapshot();
    assert_eq!(snapshot.len(), 1);
    assert_eq!(snapshot[0].0, "NAME");
    assert_eq!(snapshot[0].1, "second");
    assert_eq!(state.env.get("NAME").unwrap(), "second");
}

#[test]
fn mock_host_lookup_precedence() {
    let mut host = MockHost::new()
        .with_spawn_result(
            "x",
            SpawnResult { exit_code: 5, stdout: "fixed\n".into(), stderr: String::new() },
        )
        .with_stdin_echo("x");
    let args: Vec<String> = Vec::new();
    let env: Vec<(String, String)> = Vec::new();
    // an echo registration takes precedence over a canned result
    let sr = host.spawn("x", &args, &env, "/home/user", "piped\n").unwrap();
    assert_eq!(sr.exit_code, 0);
    assert_eq!(sr.stdout, "piped\n");
}
