//! A small best-effort command-line parser. The executor treats parsing as an
//! external collaborator that always produces some command: malformed input
//! yields a command rather than an error. Covered syntax: words split on
//! whitespace, `|` pipelines, `$(...)` command substitution inside words, and
//! the redirection operators `<`, `>`, `>>`, `2>`, `2>>`, `&>` and `2>&1`.
use vstd::prelude::*;

use crate::ast::{Command, Redirect, RedirectType, Word, WordPart};
use crate::strutil::{chars_of, is_blank, string_of};

verus! {

/// Splits the characters into chunks at top-level occurrences of `sep`,
/// where "top level" means outside any `$(...)` group.
fn split_top_level(chars: &Vec<char>, sep: char) -> (r: Vec<Vec<char>>)
    ensures
        r@.len() >= 1,
{
    let mut out: Vec<Vec<char>> = Vec::new();
    let mut cur: Vec<char> = Vec::new();
    let mut depth: usize = 0;
    let mut i: usize = 0;
    while i < chars.len()
        decreases chars@.len() - i,
    {
        let c = chars[i];
        if c == '$' && i + 1 < chars.len() && chars[i + 1] == '(' {
            if depth < usize::MAX {
                depth += 1;
            }
            cur.push('$');
            cur.push('(');
            i += 2;
        } else if c == ')' && depth > 0 {
            depth -= 1;
            cur.push(')');
            i += 1;
        } else if c == sep && depth == 0 {
            out.push(cur);
            cur = Vec::new();
            i += 1;
        } else {
            cur.push(c);
            i += 1;
        }
    }
    out.push(cur);
    out
}

/// Splits a stage into whitespace-separated tokens, keeping `$(...)` groups
/// intact even when they hold spaces.
fn tokenize(chars: &Vec<char>) -> (r: Vec<Vec<char>>) {
    let mut tokens: Vec<Vec<char>> = Vec::new();
    let mut cur: Vec<char> = Vec::new();
    let mut depth: usize = 0;
    let mut i: usize = 0;
    while i < chars.len()
        decreases chars@.len() - i,
    {
        let c = chars[i];
        if c == '$' && i + 1 < chars.len() && chars[i + 1] == '(' {
            if depth < usize::MAX {
                depth += 1;
            }
            cur.push('$');
            cur.push('(');
            i += 2;
        } else if c == ')' && depth > 0 {
            depth -= 1;
            cur.push(')');
            i += 1;
        } else if is_blank(c) && depth == 0 {
            if cur.len() > 0 {
                tokens.push(cur);
                cur = Vec::new();
            }
            i += 1;
        } else {
            cur.push(c);
            i += 1;
        }
    }
    if cur.len() > 0 {
        tokens.push(cur);
    }
    tokens
}

/// Turns one token into a word: literal text with embedded `$(...)` parts.
fn word_from_token(token: &Vec<char>) -> (w: Word) {
    let mut parts: Vec<WordPart> = Vec::new();
    let mut lit: Vec<char> = Vec::new();
    let mut i: usize = 0;
    while i < token.len()
        decreases token@.len() - i,
    {
        let c = token[i];
        if c == '$' && i + 1 < token.len() && token[i + 1] == '(' {
            // find the matching close, counting nested groups
            let mut depth: usize = 1;
            let mut j: usize = i + 2;
            let mut inner: Vec<char> = Vec::new();
            while j < token.len() && depth > 0
                invariant
                    i + 2 <= j <= token@.len(),
                decreases token@.len() - j,
            {
                let d = token[j];
                if d == '$' && j + 1 < token.len() && token[j + 1] == '(' {
                    if depth < usize::MAX {
                        depth += 1;
                    }
                    inner.push('$');
                    inner.push('(');
                    j += 2;
                } else if d == ')' {
                    depth -= 1;
                    if depth > 0 {
                        inner.push(')');
                    }
                    j += 1;
                } else {
                    inner.push(d);
                    j += 1;
                }
            }
            if lit.len() > 0 {
                parts.push(WordPart::Literal(string_of(&lit)));
                lit = Vec::new();
            }
            parts.push(WordPart::CommandSub(string_of(&inner)));
            i = j;
        } else {
            lit.push(c);
            i += 1;
        }
    }
    if lit.len() > 0 {
        parts.push(WordPart::Literal(string_of(&lit)));
    }
    Word { parts }
}

fn token_is(token: &Vec<char>, pat: &[char]) -> (r: bool) {
    if token.len() != pat.len() {
        return false;
    }
    let mut i: usize = 0;
    while i < token.len()
        invariant
            token@.len() == pat@.len(),
            0 <= i <= token@.len(),
        decreases token@.len() - i,
    {
        if token[i] != pat[i] {
            return false;
        }
        i += 1;
    }
    true
}

/// Parses one pipeline stage: words and redirects.
fn parse_stage(chars: &Vec<char>) -> (r: (Vec<Word>, Vec<Redirect>)) {
    let tokens = tokenize(chars);
    let mut words: Vec<Word> = Vec::new();
    let mut redirects: Vec<Redirect> = Vec::new();
    let mut i: usize = 0;
    while i < tokens.len()
        decreases tokens@.len() - i,
    {
        let t = &tokens[i];
        if token_is(t, &['2', '>', '&', '1']) {
            redirects.push(Redirect { redirect_type: RedirectType::StderrToStdout });
            i += 1;
        } else if (token_is(t, &['>']) || token_is(t, &['>', '>']) || token_is(t, &['<'])
            || token_is(t, &['2', '>']) || token_is(t, &['2', '>', '>']) || token_is(
            t,
            &['&', '>'],
        )) && i + 1 < tokens.len() {
            let path = string_of(&tokens[i + 1]);
            let rt = if token_is(t, &['>']) {
                RedirectType::StdoutOverwrite(path)
            } else if token_is(t, &['>', '>']) {
                RedirectType::StdoutAppend(path)
            } else if token_is(t, &['<']) {
                RedirectType::StdinFrom(path)
            } else if token_is(t, &['2', '>']) {
                RedirectType::StderrOverwrite(path)
            } else if token_is(t, &['2', '>', '>']) {
                RedirectType::StderrAppend(path)
            } else {
                RedirectType::BothOverwrite(path)
            };
            redirects.push(Redirect { redirect_type: rt });
            i += 2;
        } else {
            words.push(word_from_token(t));
            i += 1;
        }
    }
    (words, redirects)
}

/// Parses source text into a command: a single stage becomes `Simple`, a
/// `|`-separated sequence becomes a `Pipeline` of simple stages.
pub fn parse(source: &str) -> (r: Command)
    ensures
        !(r is Other),
        r matches Command::Pipeline { commands } ==> commands@.len() >= 2,
{
    let chars = chars_of(source);
    let stages = split_top_level(&chars, '|');
    if stages.len() == 1 {
        let (words, redirects) = parse_stage(&stages[0]);
        Command::Simple { words, redirects, assignments: Vec::new() }
    } else {
        let mut commands: Vec<Command> = Vec::new();
        let mut i: usize = 0;
        while i < stages.len()
            invariant
                commands@.len() == i,
                0 <= i <= stages@.len(),
            decreases stages@.len() - i,
        {
            let (words, redirects) = parse_stage(&stages[i]);
            commands.push(Command::Simple { words, redirects, assignments: Vec::new() });
            i += 1;
        }
        proof {
            assert(stages@.len() >= 2) by {
                assert(stages@.len() != 1);
                assert(stages@.len() >= 1);
            }
        }
        Command::Pipeline { commands }
    }
}

} // verus!
