//! The command syntax tree that the executor consumes.
use vstd::prelude::*;
use vstd::string::StringExecFns;

verus! {

/// One piece of a pre-expansion word.
pub enum WordPart {
    Literal(String),
    QuotedLiteral(String),
    Variable(String),
    CommandSub(String),
    ParamExpansion(String),
    ArithmeticExpansion(String),
    ProcessSub(String),
}

/// A pre-expansion token of the command line.
pub struct Word {
    pub parts: Vec<WordPart>,
}

impl Word {
    /// A word made of a single literal part.
    pub fn literal(text: &str) -> (w: Word)
        ensures
            w.parts@.len() == 1,
            w.parts@[0] matches WordPart::Literal(t) && t@ == text@,
    {
        let mut parts: Vec<WordPart> = Vec::new();
        parts.push(WordPart::Literal(text.to_owned()));
        Word { parts }
    }
}

/// A redirection, carrying a path or inline content. Declaration order is
/// semantically significant.
pub enum RedirectType {
    StdinFrom(String),
    Heredoc(String),
    HeredocStrip(String),
    HereString(String),
    StdoutOverwrite(String),
    StdoutAppend(String),
    StderrOverwrite(String),
    StderrAppend(String),
    StderrToStdout,
    BothOverwrite(String),
}

pub struct Redirect {
    pub redirect_type: RedirectType,
}

/// A parsed command. `Other` stands for the compound forms the executor does
/// not implement; running one is a defined no-op.
pub enum Command {
    Simple { words: Vec<Word>, redirects: Vec<Redirect>, assignments: Vec<(String, String)> },
    Pipeline { commands: Vec<Command> },
    Other(String),
}

/// Nesting height of a command, used as a termination measure for the
/// executor's structural recursion.
pub open spec fn cmd_height(c: Command) -> nat
    decreases c,
{
    match c {
        Command::Pipeline { commands } => cmds_height(commands@) + 1,
        _ => 0,
    }
}

pub open spec fn cmds_height(s: Seq<Command>) -> nat
    decreases s,
{
    if s.len() == 0 {
        0
    } else {
        let h0 = cmd_height(s[0]);
        let hr = cmds_height(s.drop_first());
        if h0 > hr {
            h0
        } else {
            hr
        }
    }
}

/// Every member of a command list sits strictly below the list's height bound.
pub proof fn lemma_cmds_height_bound(s: Seq<Command>, i: int)
    requires
        0 <= i < s.len(),
    ensures
        cmd_height(s[i]) <= cmds_height(s),
    decreases s.len(),
{
    if i == 0 {
    } else {
        lemma_cmds_height_bound(s.drop_first(), i - 1);
        assert(s.drop_first()[i - 1] == s[i]);
    }
}

} // verus!
