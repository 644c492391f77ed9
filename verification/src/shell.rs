//! The command of a rule as one line for the shell.

use crate::grammar::words;
use vstd::prelude::*;
use vstd::string::StrSliceExecFns;

verus! {

/// The line that `shell_words::join` makes of `tokens`: each token quoted
/// so that a Unix shell reads it back as that one token, the tokens set
/// apart by single spaces. The crate leaves the quoting style open, so the
/// line is named rather than spelled out.
pub uninterp spec fn shell_joined(tokens: Seq<Seq<char>>) -> Seq<char>;

/// Calls `shell_words::join` on `tokens`. The result is the line that the
/// crate makes of these tokens; nothing more is claimed of it.
#[verifier::external_body]
fn join_words(tokens: &Vec<String>) -> (line: String)
    ensures
        line@ == shell_joined(words(tokens@)),
{
    shell_words::join(tokens)
}

/// A command as the shell gets it, and whether it is shown before it runs.
#[derive(Debug, PartialEq, Eq)]
pub struct CommandLine {
    /// What is handed to the shell.
    pub text: String,
    /// Whether the line is printed before the shell runs it.
    pub echo: bool,
}

/// A [`CommandLine`] with its text as a sequence of characters.
pub struct CommandLineView {
    pub text: Seq<char>,
    pub echo: bool,
}

impl View for CommandLine {
    type V = CommandLineView;

    open spec fn view(&self) -> CommandLineView {
        CommandLineView { text: self.text@, echo: self.echo }
    }
}

/// The command tokens as one string: a single token as it stands, so that
/// it may hold operators of the shell; several tokens quoted and joined.
pub open spec fn formatted(command: Seq<Seq<char>>) -> Seq<char>
    recommends
        command.len() > 0,
{
    if command.len() > 1 {
        shell_joined(command)
    } else {
        command[0]
    }
}

/// A line that begins with `@` runs without that character and is not
/// shown; every other line runs as it is and is shown.
pub open spec fn echo_policy_spec(line: Seq<char>) -> CommandLineView {
    if line.len() > 0 && line[0] == '@' {
        CommandLineView { text: line.subrange(1, line.len() as int), echo: false }
    } else {
        CommandLineView { text: line, echo: true }
    }
}

/// Formats the tokens of a command as one string.
pub fn format_command(command: &Vec<String>) -> (line: String)
    requires
        command.len() > 0,
    ensures
        line@ == formatted(words(command@)),
{
    if command.len() > 1 {
        join_words(command)
    } else {
        command[0].clone()
    }
}

/// Applies the silent-rule convention to a formatted command.
pub fn echo_policy(line: String) -> (out: CommandLine)
    ensures
        out@ == echo_policy_spec(line@),
{
    let s = line.as_str();
    let n = s.unicode_len();
    if n > 0 && s.get_char(0) == '@' {
        let text = s.substring_char(1, n).to_owned();
        CommandLine { text, echo: false }
    } else {
        CommandLine { text: line, echo: true }
    }
}

} // verus!
