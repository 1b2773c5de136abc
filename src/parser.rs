//! The token cursor shared by every parsing routine.

use vstd::prelude::*;
use crate::error_handler::{CompilerError, ErrorCode};
use crate::lexer::{Token, TokenType, allowed, new_line_tokens, newlines, scan_tokens};

verus! {

/// A cursor over a token stream, with the set of files already spliced in.
pub struct Parser {
    pub tokens: Vec<Token>,
    pub current: usize,
    pub files: Vec<String>,
}

impl Parser {
    /// The stream ends with `EndOfFile` and the cursor lies within it.
    pub open spec fn wf(&self) -> bool {
        &&& self.tokens@.len() >= 1
        &&& self.tokens@.last().token_type is EndOfFile
        &&& self.current <= self.tokens@.len()
        &&& self.files@.len() >= 1
    }

    /// The token last consumed; the first token before any is consumed.
    pub open spec fn current_spec(&self) -> Token {
        if self.current == 0 {
            self.tokens@[0]
        } else {
            self.tokens@[self.current - 1]
        }
    }

    /// The next token; the last token once the stream is consumed.
    pub open spec fn peek_spec(&self) -> Token {
        if self.current >= self.tokens@.len() {
            self.tokens@.last()
        } else {
            self.tokens@[self.current as int]
        }
    }

    /// `self` is `prev` with one more token consumed, unless none was left.
    pub open spec fn advanced_from(&self, prev: &Parser) -> bool {
        &&& self.tokens == prev.tokens
        &&& self.files == prev.files
        &&& self.current as int == if prev.current >= prev.tokens@.len() { prev.current as int } else { prev.current + 1 }
    }

    /// `self` has the tokens and files of `prev`, and its cursor has not
    /// moved back.
    pub open spec fn moved_on(&self, prev: &Parser) -> bool {
        &&& self.tokens == prev.tokens
        &&& self.files == prev.files
        &&& prev.current <= self.current <= self.tokens@.len()
    }

    /// A parser at the start of `tokens`, which came from `file`.
    pub fn new(tokens: Vec<Token>, file: String) -> (r: Parser)
        requires
            tokens@.len() >= 1,
            tokens@.last().token_type is EndOfFile,
        ensures
            r.wf(),
            r.tokens == tokens,
            r.current == 0,
            r.files@.len() == 1,
            r.files@[0] == file,
    {
        let mut files: Vec<String> = Vec::new();
        files.push(file);
        Parser { tokens, current: 0, files }
    }

    /// The token last consumed.
    pub fn current(&self) -> (r: &Token)
        requires
            self.wf(),
        ensures
            *r == self.current_spec(),
    {
        if self.current == 0 {
            &self.tokens[0]
        } else {
            &self.tokens[self.current - 1]
        }
    }

    /// The next token.
    pub fn peek(&self) -> (r: &Token)
        requires
            self.wf(),
        ensures
            *r == self.peek_spec(),
    {
        if self.is_at_end() {
            &self.tokens[self.tokens.len() - 1]
        } else {
            &self.tokens[self.current]
        }
    }

    /// Consumes the next token and returns a copy of it.
    pub fn advance(&mut self) -> (r: Token)
        requires
            old(self).wf(),
        ensures
            final(self).wf(),
            final(self).advanced_from(old(self)),
            r == old(self).peek_spec(),
    {
        let t = self.peek().copy();
        let n = self.tokens.len();
        if self.current < n {
            self.current = self.current + 1;
        }
        t
    }

    /// Splices `tokens` into the stream at the cursor, which has not passed
    /// the final token.
    pub fn insert(&mut self, tokens: Vec<Token>)
        requires
            old(self).wf(),
            old(self).current < old(self).tokens@.len(),
        ensures
            final(self).wf(),
            final(self).current == old(self).current,
            final(self).files == old(self).files,
            final(self).tokens@ == old(self).tokens@.subrange(0, old(self).current as int) + tokens@
                + old(self).tokens@.subrange(old(self).current as int, old(self).tokens@.len() as int),
    {
        let ghost before = self.tokens@;
        let mut i: usize = 0;
        while i < tokens.len()
            invariant
                i <= tokens@.len(),
                self.current == old(self).current,
                self.files == old(self).files,
                self.current <= before.len(),
                before == old(self).tokens@,
                self.tokens@ == before.subrange(0, self.current as int) + tokens@.subrange(0, i as int)
                    + before.subrange(self.current as int, before.len() as int),
            decreases tokens@.len() - i,
        {
            let t = tokens[i].copy();
            let n = self.tokens.len();
            assert(self.current + i <= n);
            self.tokens.insert(self.current + i, t);
            i = i + 1;
            assert(self.tokens@ =~= before.subrange(0, self.current as int) + tokens@.subrange(0, i as int)
                + before.subrange(self.current as int, before.len() as int));
        }
        assert(tokens@.subrange(0, i as int) =~= tokens@);
        assert(self.tokens@.last() == before.last());
    }

    /// Whether every token has been consumed.
    pub fn is_at_end(&self) -> (r: bool)
        ensures
            r == (self.current >= self.tokens@.len()),
    {
        self.current >= self.tokens.len()
    }

    /// Whether `file` has already been spliced in (or is the root file).
    pub fn has_file(&self, file: &String) -> (r: bool)
        ensures
            r == exists|i: int| 0 <= i < self.files@.len() && (#[trigger] self.files@[i])@ == file@,
    {
        let mut i: usize = 0;
        while i < self.files.len()
            invariant
                i <= self.files@.len(),
                forall|k: int| 0 <= k < i ==> (#[trigger] self.files@[k])@ != file@,
            decreases self.files@.len() - i,
        {
            if self.files[i] == *file {
                return true;
            }
            i = i + 1;
        }
        false
    }

    /// Splices in the tokens of `file`, whose text is `contents` (`None` when
    /// the file does not exist), at the cursor. A file already loaded is
    /// ignored. A missing file is a critical `NoSuchFile` error; a lexing
    /// error is passed on.
    pub fn add_file(&mut self, file: &String, contents: Option<String>) -> (r: Result<(), CompilerError>)
        requires
            old(self).wf(),
            contents matches Some(c) ==> c@.len() < i32::MAX,
        ensures
            final(self).wf(),
            final(self).current == old(self).current,
            (exists|i: int| 0 <= i < old(self).files@.len() && (#[trigger] old(self).files@[i])@ == file@) ==> r is Ok
                && *final(self) == *old(self),
            !(exists|i: int| 0 <= i < old(self).files@.len() && (#[trigger] old(self).files@[i])@ == file@) ==> {
                &&& contents is None ==> (r matches Err(e) && e.critical && (e.code matches ErrorCode::NoSuchFile(f)
                    && f@ == file@))
                &&& r is Ok ==> final(self).files@.len() == old(self).files@.len() + 1 && final(self).files@.last()@ == file@
                &&& r is Ok && old(self).current < old(self).tokens@.len() ==> exists|spliced: Seq<Token>|
                    #![trigger spliced.len()]
                    final(self).tokens@ == old(self).tokens@.subrange(0, old(self).current as int) + spliced
                        + old(self).tokens@.subrange(old(self).current as int, old(self).tokens@.len() as int)
                        && (forall|i: int| 0 <= i < spliced.len() ==> (#[trigger] spliced[i]).file@ == file@)
                        && (contents matches Some(text) ==> new_line_tokens(spliced) == newlines(text@))
            },
            !(exists|i: int| 0 <= i < old(self).files@.len() && (#[trigger] old(self).files@[i])@ == file@) && (
            contents matches Some(text) && forall|i: int| 0 <= i < text@.len() ==> allowed(#[trigger] text@[i])) ==> r is Ok,
    {
        if self.has_file(file) {
            return Ok(());
        }
        let text = match contents {
            Some(text) => text,
            None => {
                let at = self.current();
                return Err(CompilerError::new(ErrorCode::NoSuchFile(file.clone()), &at.file, at.line, true));
            },
        };
        self.files.push(file.clone());
        let mut tokens = match scan_tokens(text, file.clone()) {
            Ok(t) => t,
            Err(e) => {
                return Err(e);
            },
        };
        let ghost all = tokens@;
        tokens.pop();
        proof {
            assert(tokens@ == all.drop_last());
            assert(all.drop_last().len() == all.len() - 1);
        }
        if !self.is_at_end() {
            self.insert(tokens);
        }
        Ok(())
    }

    /// Consumes newline tokens up to the next other token.
    pub fn skip_new_lines(&mut self)
        requires
            old(self).wf(),
        ensures
            final(self).wf(),
            final(self).moved_on(old(self)),
            !(final(self).peek_spec().token_type is NewLine),
            !(old(self).peek_spec().token_type is NewLine) ==> final(self).current == old(self).current,
            forall|k: int| old(self).current <= k < final(self).current ==> (#[trigger] old(self).tokens@[k]).token_type is NewLine,
    {
        while self.peek().token_type.is_new_line()
            invariant
                self.wf(),
                self.moved_on(old(self)),
                forall|k: int| old(self).current <= k < self.current ==> (#[trigger] self.tokens@[k]).token_type is NewLine,
                self.current == old(self).current || old(self).peek_spec().token_type is NewLine,
            decreases self.tokens@.len() - self.current,
        {
            assert(self.current < self.tokens@.len());
            self.advance();
        }
    }
}

} // verus!
