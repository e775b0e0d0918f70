use vstd::prelude::*;

verus! {

/// Every way in which an operation of the shell can fail.
#[derive(Debug, Clone, Copy, PartialEq, Eq, Structural)]
pub enum ShellError {
    /// No home directory is known for the current user.
    HomeNotFound,
    /// The home directory is not valid Unicode.
    HomeNotUnicode,
    /// A path is not valid Unicode.
    PathNotUnicode,
    /// A chain `a && b` with nothing after the `&&`.
    NothingAfterChain,
    /// A chain `a && b` with nothing before the `&&`.
    NothingBeforeChain,
    /// The first command of a chain did not succeed.
    FirstCommandFailed,
    /// The left side of a pipe is handled by the shell itself, or empty.
    CouldNotParse,
    /// A pipe `a | b` with nothing after the `|`.
    NothingAfterPipe,
    /// The prompt color argument is missing.
    MissingPromptColor,
    /// The prompt format argument is missing.
    MissingPromptFormat,
    /// The command name holds a NUL character.
    NulInCommand,
}

impl ShellError {
    /// The text that the shell prints for this error.
    pub fn message(&self) -> (r: &'static str)
        ensures
            r@ == self.message_text(),
    {
        match self {
            ShellError::HomeNotFound => "Could not find home directory",
            ShellError::HomeNotUnicode => "Could not convert home path to string",
            ShellError::PathNotUnicode => "Unable to convert PathBuf to String",
            ShellError::NothingAfterChain => "Nothing provided after &&.",
            ShellError::NothingBeforeChain => "Nothing provided before &&.",
            ShellError::FirstCommandFailed => "First command failed, skipping second.",
            ShellError::CouldNotParse => "Could not parse command.",
            ShellError::NothingAfterPipe => "Nothing provided after pipe.",
            ShellError::MissingPromptColor => "Did not receive prompt color argument.",
            ShellError::MissingPromptFormat => "Did not recieve prompt format argument",
            ShellError::NulInCommand => "data provided contains a nul byte",
        }
    }

    /// The text of `message`, as a sequence of characters.
    pub open spec fn message_text(&self) -> Seq<char> {
        match self {
            ShellError::HomeNotFound => "Could not find home directory"@,
            ShellError::HomeNotUnicode => "Could not convert home path to string"@,
            ShellError::PathNotUnicode => "Unable to convert PathBuf to String"@,
            ShellError::NothingAfterChain => "Nothing provided after &&."@,
            ShellError::NothingBeforeChain => "Nothing provided before &&."@,
            ShellError::FirstCommandFailed => "First command failed, skipping second."@,
            ShellError::CouldNotParse => "Could not parse command."@,
            ShellError::NothingAfterPipe => "Nothing provided after pipe."@,
            ShellError::MissingPromptColor => "Did not receive prompt color argument."@,
            ShellError::MissingPromptFormat => "Did not recieve prompt format argument"@,
            ShellError::NulInCommand => "data provided contains a nul byte"@,
        }
    }
}

} // verus!
