//! Shared basic types: quoting states and the shell's error taxonomy.

use vstd::prelude::*;

verus! {

/// The lexer's quoting state while a word is being read.
#[derive(Debug, Clone, Copy, PartialEq, Eq, Structural)]
pub enum QuoteType {
    /// Inside single quotes: every character is literal.
    Single,
    /// Inside double quotes: a restricted escape set applies.
    Double,
    /// A pending backslash escape.
    Escaped,
    /// Outside any quote.
    Unquoted,
}

/// Everything that can go wrong in the shell core.  System-level failures
/// carry the errno and a few words of context; the rest carry a message.
#[verifier::ext_equal]
#[derive(Debug, Clone, PartialEq)]
pub enum ShellError {
    /// An operating-system input/output failure, by message.
    IoError(String),
    /// A system call failed: errno and the operation that failed.
    NixError(i32, String),
    /// The input line does not follow the grammar.
    ParseError(String),
    /// A command name that resolves to nothing; exit status 127.
    CommandNotFound(String),
    /// Malformed expansion syntax, e.g. a bad `${...}` variable name.
    InvalidSyntax(String),
    /// An invariant violation inside the shell itself.
    InternalError(String),
}

impl ShellError {
    /// The exit status recorded after a statement fails with this error.
    pub open spec fn spec_status(&self) -> i32 {
        match self {
            ShellError::CommandNotFound(_) => 127,
            _ => 1,
        }
    }

    /// The exit status for this error: 127 for an unresolvable command name,
    /// 1 for everything else.
    pub fn status(&self) -> (r: i32)
        ensures
            r == self.spec_status(),
    {
        match self {
            ShellError::CommandNotFound(_) => 127,
            _ => 1,
        }
    }
}

} // verus!
