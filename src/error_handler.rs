//! Compile errors: what went wrong, where, and whether it stops the pass.

use vstd::prelude::*;
use crate::lexer::{Token, TokenType};

verus! {

/// The kinds of compile error.
#[derive(Debug, Clone)]
pub enum ErrorCode {
    /// A number literal failed conversion.
    InvalidNumber,
    /// The lexer met a character that starts no token.
    UnexpectedChar(char),
    /// The parser expected the described thing and found another token.
    ExpectedButFound(String, TokenType),
    /// A literal does not fit its operand's width.
    NumberTooBig(i32),
    /// A call names a macro that is not defined.
    NoSuchMacro(String),
    /// A macro body calls a macro.
    MacroCallsMacro,
    /// An included file does not exist.
    NoSuchFile(String),
    /// The root file has no `main` subroutine.
    NoMainSubroutine,
}

/// A compile error with its source location. A critical error ends the pass
/// that raised it.
#[derive(Debug, Clone)]
pub struct CompilerError {
    pub file: String,
    pub line: i32,
    pub code: ErrorCode,
    pub critical: bool,
}

impl CompilerError {
    /// An error at `file`:`line`.
    pub fn new(code: ErrorCode, file: &String, line: i32, critical: bool) -> (r: CompilerError)
        ensures
            r.file@ == file@,
            r.line == line,
            r.code == code,
            r.critical == critical,
    {
        CompilerError { file: file.clone(), line, code, critical }
    }

    /// "Expected `expected` but found" the kind of `found`, at `found`.
    pub fn expected(expected: &str, found: &Token, critical: bool) -> (r: CompilerError)
        ensures
            r.code matches ErrorCode::ExpectedButFound(e, t) && e@ == expected@ && t == found.token_type,
            r.file@ == found.file@,
            r.line == found.line,
            r.critical == critical,
    {
        CompilerError::from_token(
            ErrorCode::ExpectedButFound(expected.to_owned(), found.token_type.copy()),
            found,
            critical,
        )
    }

    /// An error at the location of `token`.
    pub fn from_token(code: ErrorCode, token: &Token, critical: bool) -> (r: CompilerError)
        ensures
            r.file@ == token.file@,
            r.line == token.line,
            r.code == code,
            r.critical == critical,
    {
        CompilerError::new(code, &token.file, token.line, critical)
    }
}

/// Whether some error in the list is critical.
pub fn has_critical(errors: &Vec<CompilerError>) -> (r: bool)
    ensures
        r == exists|i: int| 0 <= i < errors@.len() && (#[trigger] errors@[i]).critical,
{
    let mut i: usize = 0;
    while i < errors.len()
        invariant
            i <= errors@.len(),
            forall|k: int| 0 <= k < i ==> !(#[trigger] errors@[k]).critical,
        decreases errors@.len() - i,
    {
        if errors[i].critical {
            return true;
        }
        i = i + 1;
    }
    false
}

} // verus!
