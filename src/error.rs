use vstd::prelude::*;

verus! {

/// A failure of the lexer.
#[derive(Debug)]
pub enum Error {
    /// A character that starts no token, or a numeral that is not well formed
    /// (in which case the character is the offending `.`).
    InvalidCharacterError(char),
    /// A backslash command outside `\times`, `\div` and `\frac`; holds the
    /// command with its backslash.
    InvalidCommandError(String),
}

/// What a lexer failure says, as a mathematical value.
pub enum LexFailure {
    InvalidCharacter(char),
    InvalidCommand(Seq<char>),
}

impl View for Error {
    type V = LexFailure;

    open spec fn view(&self) -> LexFailure {
        match self {
            Error::InvalidCharacterError(c) => LexFailure::InvalidCharacter(*c),
            Error::InvalidCommandError(s) => LexFailure::InvalidCommand(s@),
        }
    }
}

impl Error {
    /// The category under which a lexer failure is reported.
    pub fn kind(&self) -> (r: String)
        ensures
            r@ == "syntax error"@,
    {
        String::from_str("syntax error")
    }
}

/// A failure of the parser.
#[derive(Debug, Clone, Copy, PartialEq, Eq, Structural)]
pub enum ParseError {
    /// The token at this index does not fit the grammar there, or is left
    /// over after a complete expression.
    UnexpectedToken(usize),
    /// The tokens ended where the grammar asked for one more.
    UnexpectedEnd,
}

impl ParseError {
    /// The category under which a parser failure is reported.
    pub fn kind(&self) -> (r: String)
        ensures
            r@ == "syntax error"@,
    {
        String::from_str("syntax error")
    }
}

} // verus!
