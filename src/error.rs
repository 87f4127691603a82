use vstd::prelude::*;

verus! {

/// The three ways a scan can fail.
#[derive(Clone, Copy, Debug, PartialEq, Eq, Structural)]
pub enum ErrorKind {
    UnexpectedCharacter,
    UnterminatedString,
    UnterminatedComment,
}

/// The short message that goes with each kind of error.
pub open spec fn kind_message(kind: ErrorKind) -> Seq<char> {
    match kind {
        ErrorKind::UnexpectedCharacter => "Unexpected character"@,
        ErrorKind::UnterminatedString => "Unterminated string."@,
        ErrorKind::UnterminatedComment => "Unterminated comment."@,
    }
}

/// A lexical error: what went wrong, and on which 1-based line.
#[derive(Clone, Debug)]
pub struct CfgError {
    pub line: usize,
    pub kind: ErrorKind,
    pub message: String,
}

impl CfgError {
    pub fn error(line: usize, kind: ErrorKind, message: String) -> (r: CfgError)
        ensures
            r.line == line,
            r.kind == kind,
            r.message@ == message@,
    {
        CfgError { line, kind, message }
    }
}

} // verus!
