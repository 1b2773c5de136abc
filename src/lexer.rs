//! The lexer: source text to tokens, each with its line and file.

use vstd::prelude::*;
use vstd::std_specs::iter::IteratorSpec;
use crate::isa::{Instruction, Register};
use crate::error_handler::{CompilerError, ErrorCode};

verus! {

/// The kind of a token, with its payload.
#[derive(PartialEq, Debug, Clone)]
pub enum TokenType {
    Identifier(String),
    Number(String),
    Comma,
    Colon,
    OpenParenthesis,
    CloseParenthesis,
    Macro,
    Include,
    Constant,
    Def,
    Register(Register),
    Instruction(Instruction),
    Indent(String),
    EndOfFile,
    NewLine,
}

impl TokenType {
    /// An equal token kind.
    pub fn copy(&self) -> (r: TokenType)
        ensures
            r == *self,
    {
        match self {
            TokenType::Identifier(s) => TokenType::Identifier(s.clone()),
            TokenType::Number(s) => TokenType::Number(s.clone()),
            TokenType::Comma => TokenType::Comma,
            TokenType::Colon => TokenType::Colon,
            TokenType::OpenParenthesis => TokenType::OpenParenthesis,
            TokenType::CloseParenthesis => TokenType::CloseParenthesis,
            TokenType::Macro => TokenType::Macro,
            TokenType::Include => TokenType::Include,
            TokenType::Constant => TokenType::Constant,
            TokenType::Def => TokenType::Def,
            TokenType::Register(r) => TokenType::Register(*r),
            TokenType::Instruction(i) => TokenType::Instruction(*i),
            TokenType::Indent(s) => TokenType::Indent(s.clone()),
            TokenType::EndOfFile => TokenType::EndOfFile,
            TokenType::NewLine => TokenType::NewLine,
        }
    }

    /// Whether this is a newline token.
    pub fn is_new_line(&self) -> (r: bool)
        ensures
            r == (*self is NewLine),
    {
        match self {
            TokenType::NewLine => true,
            _ => false,
        }
    }
}

/// A token with the line and the file it came from.
#[derive(Debug, Clone, PartialEq)]
pub struct Token {
    pub token_type: TokenType,
    pub line: i32,
    pub file: String,
}

impl Token {
    /// A token of kind `token_type` at `file`:`line`.
    pub fn new(token_type: TokenType, line: i32, file: String) -> (r: Token)
        ensures
            r == (Token { token_type, line, file }),
    {
        Token { token_type, line, file }
    }

    /// An equal token.
    pub fn copy(&self) -> (r: Token)
        ensures
            r == *self,
    {
        Token { token_type: self.token_type.copy(), line: self.line, file: self.file.clone() }
    }
}

/// Relies on `String::push`: appends one character to the string.
#[verifier::external_body]
pub(crate) fn push_char(s: &mut String, c: char)
    ensures
        final(s)@ == old(s)@.push(c),
{
    s.push(c)
}

/// Appends the characters of `t` to `s`.
pub fn append_string(s: &mut String, t: &String)
    ensures
        final(s)@ == old(s)@ + t@,
{
    let chars = chars_of(t);
    let mut i: usize = 0;
    while i < chars.len()
        invariant
            i <= chars@.len(),
            chars@ == t@,
            s@ == old(s)@ + t@.subrange(0, i as int),
        decreases chars@.len() - i,
    {
        push_char(s, chars[i]);
        i = i + 1;
        assert(s@ =~= old(s)@ + t@.subrange(0, i as int));
    }
    assert(t@.subrange(0, i as int) =~= t@);
}

/// The characters of a string, in order.
pub fn chars_of(text: &String) -> (v: Vec<char>)
    ensures
        v@ == text@,
{
    broadcast use vstd::string::axiom_spec_iter, vstd::string::next_postcondition;

    let mut it = text.as_str().chars();
    let mut v: Vec<char> = Vec::new();
    loop
        invariant
            it.remaining() == text@.subrange(v@.len() as int, text@.len() as int),
            v@ == text@.subrange(0, v@.len() as int),
            v@.len() <= text@.len(),
            it.obeys_prophetic_iter_laws(),
        ensures
            v@ == text@,
        decreases text@.len() - v@.len(),
    {
        match it.next() {
            Some(c) => {
                v.push(c);
            },
            None => {
                assert(v@ =~= text@);
                break ;
            },
        }
    }
    v
}

/// A string holding `chars[start..end]`.
pub fn string_of(chars: &Vec<char>, start: usize, end: usize) -> (r: String)
    requires
        start <= end <= chars@.len(),
    ensures
        r@ == chars@.subrange(start as int, end as int),
{
    let mut s = String::new();
    let mut i: usize = start;
    while i < end
        invariant
            start <= i <= end,
            end <= chars@.len(),
            s@ == chars@.subrange(start as int, i as int),
        decreases end - i,
    {
        push_char(&mut s, chars[i]);
        i = i + 1;
        assert(s@ =~= chars@.subrange(start as int, i as int));
    }
    s
}

/// Decimal digit.
pub open spec fn is_decimal(c: char) -> bool {
    '0' <= c <= '9'
}

/// Hexadecimal digit, either case.
pub open spec fn is_hex(c: char) -> bool {
    is_decimal(c) || ('a' <= c <= 'f') || ('A' <= c <= 'F')
}

/// Binary digit.
pub open spec fn is_binary(c: char) -> bool {
    c == '0' || c == '1'
}

/// A character that starts or continues an identifier. The punctuation in
/// the set lets an include path be written as identifiers.
pub open spec fn identifier_char(c: char) -> bool {
    ('a' <= c <= 'z') || ('A' <= c <= 'Z') || c == '_' || c == '@' || c == '.' || c == '\\' || c == '/'
}

/// A character that may start a token, or is skipped, outside a comment.
pub open spec fn allowed(c: char) -> bool {
    c == ',' || c == ':' || c == '(' || c == ')' || c == ';' || c == ' ' || c == '\t' || c == '\r' || c == '\n'
        || is_decimal(c) || identifier_char(c)
}

/// The opcode that a mnemonic names, if `w` is one.
pub open spec fn mnemonic_of(w: Seq<char>) -> Option<Instruction> {
    if w == seq!['N', 'O', 'P'] {
        Some(Instruction::NOP)
    } else if w == seq!['L', 'W'] {
        Some(Instruction::LW)
    } else if w == seq!['S', 'W'] {
        Some(Instruction::SW)
    } else if w == seq!['M', 'W'] {
        Some(Instruction::MW)
    } else if w == seq!['P', 'U', 'S', 'H'] {
        Some(Instruction::PUSH)
    } else if w == seq!['P', 'O', 'P'] {
        Some(Instruction::POP)
    } else if w == seq!['L', 'D', 'A'] {
        Some(Instruction::LDA)
    } else if w == seq!['J', 'M', 'P'] {
        Some(Instruction::JMP)
    } else if w == seq!['J', 'Z'] {
        Some(Instruction::JZ)
    } else if w == seq!['J', 'C'] {
        Some(Instruction::JC)
    } else if w == seq!['A', 'D', 'D'] {
        Some(Instruction::ADD)
    } else if w == seq!['S', 'U', 'B'] {
        Some(Instruction::SUB)
    } else if w == seq!['O', 'U', 'T'] {
        Some(Instruction::OUT)
    } else if w == seq!['H', 'L', 'T'] {
        Some(Instruction::HLT)
    } else {
        None
    }
}

/// The token kind of a reserved word other than a mnemonic.
pub open spec fn reserved_of(w: Seq<char>) -> Option<TokenType> {
    if w == seq!['@', 'm', 'a', 'c', 'r', 'o'] {
        Some(TokenType::Macro)
    } else if w == seq!['@', 'i', 'n', 'c', 'l', 'u', 'd', 'e'] {
        Some(TokenType::Include)
    } else if w == seq!['@', 'c', 'o', 'n', 's', 't'] {
        Some(TokenType::Constant)
    } else if w == seq!['D', 'E', 'F'] {
        Some(TokenType::Def)
    } else {
        register_of_word(w)
    }
}

/// The register token of a one-letter register name.
pub open spec fn register_of_word(w: Seq<char>) -> Option<TokenType> {
    if w == seq!['A'] {
        Some(TokenType::Register(Register::A))
    } else if w == seq!['B'] {
        Some(TokenType::Register(Register::B))
    } else if w == seq!['H'] {
        Some(TokenType::Register(Register::H))
    } else if w == seq!['L'] {
        Some(TokenType::Register(Register::L))
    } else {
        None
    }
}

/// Whether `next` continues a number literal whose text so far is `w`:
/// hexadecimal digits after `0x`, binary digits after `0b`, else decimal
/// digits; `_` may separate digits in each.
pub open spec fn number_continues(w: Seq<char>, next: char) -> bool {
    if w.len() >= 2 && w[0] == '0' && (w[1] == 'x' || w[1] == 'X') {
        is_hex(next) || next == '_'
    } else if w.len() >= 2 && w[0] == '0' && (w[1] == 'b' || w[1] == 'B') {
        is_binary(next) || next == '_'
    } else {
        is_decimal(next) || next == '_'
    }
}

/// The token kind of a reserved word, if `w` is one.
pub open spec fn keyword_of(w: Seq<char>) -> Option<TokenType> {
    match mnemonic_of(w) {
        Some(i) => Some(TokenType::Instruction(i)),
        None => reserved_of(w),
    }
}

/// The token kind that the word `w` lexes to: its keyword, or an identifier
/// holding it.
pub open spec fn word_token(w: Seq<char>, t: TokenType) -> bool {
    match keyword_of(w) {
        Some(k) => t == k,
        None => t matches TokenType::Identifier(s) && s@ == w,
    }
}

fn word_is(w: &Vec<char>, k: &[char]) -> (r: bool)
    ensures
        r == (w@ == k@),
{
    if w.len() != k.len() {
        return false;
    }
    let mut i: usize = 0;
    while i < w.len()
        invariant
            i <= w@.len(),
            w@.len() == k@.len(),
            forall|j: int| 0 <= j < i ==> w@[j] == k@[j],
        decreases w@.len() - i,
    {
        if w[i] != k[i] {
            return false;
        }
        i = i + 1;
    }
    assert(w@ =~= k@);
    true
}

fn mnemonic(w: &Vec<char>) -> (r: Option<Instruction>)
    ensures
        r == mnemonic_of(w@),
{
    if word_is(w, &['N', 'O', 'P']) {
        Some(Instruction::NOP)
    } else if word_is(w, &['L', 'W']) {
        Some(Instruction::LW)
    } else if word_is(w, &['S', 'W']) {
        Some(Instruction::SW)
    } else if word_is(w, &['M', 'W']) {
        Some(Instruction::MW)
    } else if word_is(w, &['P', 'U', 'S', 'H']) {
        Some(Instruction::PUSH)
    } else if word_is(w, &['P', 'O', 'P']) {
        Some(Instruction::POP)
    } else if word_is(w, &['L', 'D', 'A']) {
        Some(Instruction::LDA)
    } else if word_is(w, &['J', 'M', 'P']) {
        Some(Instruction::JMP)
    } else if word_is(w, &['J', 'Z']) {
        Some(Instruction::JZ)
    } else if word_is(w, &['J', 'C']) {
        Some(Instruction::JC)
    } else if word_is(w, &['A', 'D', 'D']) {
        Some(Instruction::ADD)
    } else if word_is(w, &['S', 'U', 'B']) {
        Some(Instruction::SUB)
    } else if word_is(w, &['O', 'U', 'T']) {
        Some(Instruction::OUT)
    } else if word_is(w, &['H', 'L', 'T']) {
        Some(Instruction::HLT)
    } else {
        None
    }
}

fn reserved(w: &Vec<char>) -> (r: Option<TokenType>)
    ensures
        r == reserved_of(w@),
{
    if word_is(w, &['@', 'm', 'a', 'c', 'r', 'o']) {
        Some(TokenType::Macro)
    } else if word_is(w, &['@', 'i', 'n', 'c', 'l', 'u', 'd', 'e']) {
        Some(TokenType::Include)
    } else if word_is(w, &['@', 'c', 'o', 'n', 's', 't']) {
        Some(TokenType::Constant)
    } else if word_is(w, &['D', 'E', 'F']) {
        Some(TokenType::Def)
    } else {
        register_word(w)
    }
}

fn register_word(w: &Vec<char>) -> (r: Option<TokenType>)
    ensures
        r == register_of_word(w@),
{
    if w.len() != 1 {
        return None;
    }
    let c = w[0];
    assert(w@ =~= seq![c]);
    if c == 'A' {
        Some(TokenType::Register(Register::A))
    } else if c == 'B' {
        Some(TokenType::Register(Register::B))
    } else if c == 'H' {
        Some(TokenType::Register(Register::H))
    } else if c == 'L' {
        Some(TokenType::Register(Register::L))
    } else {
        None
    }
}

fn keyword(w: &Vec<char>) -> (r: Option<TokenType>)
    ensures
        r == keyword_of(w@),
{
    match mnemonic(w) {
        Some(i) => Some(TokenType::Instruction(i)),
        None => reserved(w),
    }
}

/// How many line breaks `s` holds.
pub open spec fn newlines(s: Seq<char>) -> nat
    decreases s.len(),
{
    if s.len() == 0 {
        0
    } else {
        newlines(s.drop_last()) + if s.last() == '\n' { 1nat } else { 0nat }
    }
}

/// How many newline tokens `ts` holds.
pub open spec fn new_line_tokens(ts: Seq<Token>) -> nat
    decreases ts.len(),
{
    if ts.len() == 0 {
        0
    } else {
        new_line_tokens(ts.drop_last()) + if ts.last().token_type is NewLine { 1nat } else { 0nat }
    }
}

/// Every indent token is the first token or follows a newline token.
pub open spec fn indents_at_line_starts(ts: Seq<Token>) -> bool {
    forall|i: int| 0 <= i < ts.len() && (#[trigger] ts[i]).token_type is Indent ==> i == 0 || ts[i - 1].token_type is NewLine
}

/// Characters of a run: 0 blanks, 1 hexadecimal digits and `_`, 2 binary
/// digits and `_`, 3 decimal digits and `_`, 4 word characters, 5 anything
/// but a line break.
pub open spec fn run_char(kind: int, c: char) -> bool {
    if kind == 0 {
        c == ' ' || c == '\t'
    } else if kind == 1 {
        is_hex(c) || c == '_'
    } else if kind == 2 {
        is_binary(c) || c == '_'
    } else if kind == 3 {
        is_decimal(c) || c == '_'
    } else if kind == 4 {
        identifier_char(c) || is_decimal(c)
    } else {
        c != '\n'
    }
}

/// Where the run of `kind` characters that starts at `i` ends.
pub open spec fn run_end(cs: Seq<char>, i: int, kind: int) -> int
    decreases cs.len() - i,
{
    if i < 0 || i >= cs.len() || !run_char(kind, cs[i]) {
        i
    } else {
        run_end(cs, i + 1, kind)
    }
}

/// Where the number literal whose first digit is at `i` ends.
pub open spec fn number_end(cs: Seq<char>, i: int) -> int {
    if cs[i] == '0' && i + 1 < cs.len() && (cs[i + 1] == 'x' || cs[i + 1] == 'X') {
        run_end(cs, i + 2, 1)
    } else if cs[i] == '0' && i + 1 < cs.len() && (cs[i + 1] == 'b' || cs[i + 1] == 'B') {
        run_end(cs, i + 2, 2)
    } else {
        run_end(cs, i + 1, 3)
    }
}

proof fn lemma_run_end(cs: Seq<char>, i: int, kind: int)
    requires
        0 <= i <= cs.len(),
    ensures
        i <= run_end(cs, i, kind) <= cs.len(),
    decreases cs.len() - i,
{
    if i < cs.len() && run_char(kind, cs[i]) {
        lemma_run_end(cs, i + 1, kind);
    }
}

/// Whether the next token starts a line: there is none yet, or the last is
/// a newline.
pub open spec fn line_start(ts: Seq<Token>) -> bool {
    ts.len() == 0 || ts.last().token_type is NewLine
}

/// The single-character token of `c`.
pub open spec fn punct(c: char) -> TokenType {
    if c == ',' {
        TokenType::Comma
    } else if c == ':' {
        TokenType::Colon
    } else if c == '(' {
        TokenType::OpenParenthesis
    } else {
        TokenType::CloseParenthesis
    }
}

/// `ts` are the tokens that `cs` lexes to from position `i`, where `ls`
/// says whether a token there starts a line and `line` is the current line:
/// punctuation, newlines, indents at line starts, number literals, words
/// (keywords or identifiers), ending with `EndOfFile`. Comments, `\r` and
/// blanks inside a line give no token.
pub open spec fn lexes(cs: Seq<char>, i: int, ls: bool, line: int, ts: Seq<Token>) -> bool
    decreases cs.len() - i,
{
    if i < 0 || i >= cs.len() {
        ts.len() == 1 && ts[0].token_type is EndOfFile && ts[0].line == line
    } else {
        let c = cs[i];
        if c == ',' || c == ':' || c == '(' || c == ')' {
            ts.len() > 0 && ts[0].token_type == punct(c) && ts[0].line == line && lexes(cs, i + 1, false, line, ts.drop_first())
        } else if c == ';' {
            let e = run_end(cs, i + 1, 5);
            i < e <= cs.len() && lexes(cs, e, ls, line, ts)
        } else if c == ' ' || c == '\t' {
            if ls {
                let e = run_end(cs, i + 1, 0);
                &&& i < e <= cs.len()
                &&& ts.len() > 0
                &&& ts[0].token_type matches TokenType::Indent(w) && w@ == cs.subrange(i, e)
                &&& ts[0].line == line
                &&& lexes(cs, e, false, line, ts.drop_first())
            } else {
                lexes(cs, i + 1, false, line, ts)
            }
        } else if c == '\r' {
            lexes(cs, i + 1, ls, line, ts)
        } else if c == '\n' {
            ts.len() > 0 && ts[0].token_type is NewLine && ts[0].line == line + 1 && lexes(
                cs,
                i + 1,
                true,
                line + 1,
                ts.drop_first(),
            )
        } else if is_decimal(c) {
            let e = number_end(cs, i);
            &&& i < e <= cs.len()
            &&& ts.len() > 0
            &&& ts[0].token_type matches TokenType::Number(w) && w@ == cs.subrange(i, e)
            &&& ts[0].line == line
            &&& lexes(cs, e, false, line, ts.drop_first())
        } else if identifier_char(c) {
            let e = run_end(cs, i + 1, 4);
            &&& i < e <= cs.len()
            &&& ts.len() > 0
            &&& word_token(cs.subrange(i, e), ts[0].token_type)
            &&& ts[0].line == line
            &&& lexes(cs, e, false, line, ts.drop_first())
        } else {
            false
        }
    }
}

/// The position of the first character from `i` that starts no token,
/// outside comments; `None` when there is none.
pub open spec fn lex_error(cs: Seq<char>, i: int, ls: bool) -> Option<int>
    decreases cs.len() - i,
{
    if i < 0 || i >= cs.len() {
        None
    } else {
        let c = cs[i];
        if c == ',' || c == ':' || c == '(' || c == ')' || c == '\n' {
            lex_error(cs, i + 1, c == '\n')
        } else if c == ';' {
            let e = run_end(cs, i + 1, 5);
            if i < e <= cs.len() {
                lex_error(cs, e, ls)
            } else {
                None
            }
        } else if c == ' ' || c == '\t' {
            if ls {
                let e = run_end(cs, i + 1, 0);
                if i < e <= cs.len() {
                    lex_error(cs, e, false)
                } else {
                    None
                }
            } else {
                lex_error(cs, i + 1, false)
            }
        } else if c == '\r' {
            lex_error(cs, i + 1, ls)
        } else if is_decimal(c) {
            let e = number_end(cs, i);
            if i < e <= cs.len() {
                lex_error(cs, e, false)
            } else {
                None
            }
        } else if identifier_char(c) {
            let e = run_end(cs, i + 1, 4);
            if i < e <= cs.len() {
                lex_error(cs, e, false)
            } else {
                None
            }
        } else {
            Some(i)
        }
    }
}

/// Scanning state over one file's characters.
pub struct Tokenizer {
    pub start: usize,
    pub current: usize,
    pub line: i32,
    pub tokens: Vec<Token>,
    pub chars: Vec<char>,
    pub filename: String,
}

impl Tokenizer {
    /// The cursor lies in the text, the line counter cannot overflow before
    /// the end, and every token carries this file's name.
    pub open spec fn wf(&self) -> bool {
        &&& self.start <= self.current <= self.chars@.len()
        &&& 1 <= self.line
        &&& self.line + (self.chars@.len() - self.current) <= i32::MAX
        &&& forall|i: int| 0 <= i < self.tokens@.len() ==> (#[trigger] self.tokens@[i]).file == self.filename
        &&& self.line == 1 + newlines(self.chars@.subrange(0, self.current as int))
        &&& new_line_tokens(self.tokens@) == newlines(self.chars@.subrange(0, self.current as int))
        &&& indents_at_line_starts(self.tokens@)
    }

    /// `self` scans the same text of the same file as `other`, and has kept
    /// the tokens that `other` had.
    pub open spec fn extends(&self, other: &Tokenizer) -> bool {
        &&& self.chars == other.chars
        &&& self.filename == other.filename
        &&& self.start == other.start
        &&& self.current >= other.current
        &&& other.tokens@.is_prefix_of(self.tokens@)
    }

    /// A tokenizer at the start of `text`, on line 1.
    pub fn new(text: String, filename: String) -> (r: Tokenizer)
        requires
            text@.len() < i32::MAX,
        ensures
            r.wf(),
            r.chars@ == text@,
            r.filename == filename,
            r.tokens@.len() == 0,
            r.start == 0,
            r.current == 0,
            r.line == 1,
    {
        Tokenizer { start: 0, current: 0, line: 1, tokens: Vec::new(), chars: chars_of(&text), filename }
    }

    /// The character last consumed.
    pub fn char(&self) -> (r: char)
        requires
            0 < self.current <= self.chars@.len(),
        ensures
            r == self.chars@[self.current - 1],
    {
        self.chars[self.current - 1]
    }

    /// The next character, or `'\0'` at the end.
    pub fn peek(&self) -> (r: char)
        ensures
            r == if self.current < self.chars@.len() { self.chars@[self.current as int] } else { '\0' },
    {
        if self.is_at_end() {
            '\0'
        } else {
            self.chars[self.current]
        }
    }

    /// Consumes and returns the next character.
    pub fn advance(&mut self) -> (r: char)
        requires
            old(self).current < old(self).chars@.len(),
        ensures
            r == old(self).chars@[old(self).current as int],
            final(self).current == old(self).current + 1,
            final(self).start == old(self).start,
            final(self).line == old(self).line,
            final(self).tokens == old(self).tokens,
            final(self).chars == old(self).chars,
            final(self).filename == old(self).filename,
            newlines(final(self).chars@.subrange(0, final(self).current as int)) == newlines(
                old(self).chars@.subrange(0, old(self).current as int),
            ) + if r == '\n' { 1nat } else { 0nat },
    {
        assert(self.chars@.subrange(0, self.current + 1).drop_last() =~= self.chars@.subrange(0, self.current as int));
        let n = self.chars.len();
        let c = self.chars[self.current];
        self.current = self.current + 1;
        c
    }

    /// Whether every character has been consumed.
    pub fn is_at_end(&self) -> (r: bool)
        ensures
            r == (self.current >= self.chars@.len()),
    {
        self.current >= self.chars.len()
    }

    /// Appends a token of kind `token` on the current line.
    pub fn add_token(&mut self, token: TokenType)
        ensures
            final(self).current == old(self).current,
            final(self).start == old(self).start,
            final(self).line == old(self).line,
            final(self).chars == old(self).chars,
            final(self).filename == old(self).filename,
            final(self).tokens@ == old(self).tokens@.push(
                Token { token_type: token, line: old(self).line, file: old(self).filename },
            ),
            new_line_tokens(final(self).tokens@) == new_line_tokens(old(self).tokens@) + if token is NewLine {
                1nat
            } else {
                0nat
            },
    {
        let t = Token::new(token, self.line, self.filename.clone());
        self.tokens.push(t);
        assert(self.tokens@.drop_last() =~= old(self).tokens@);
    }

    /// The text of the current lexeme.
    pub fn get_string(&self) -> (r: String)
        requires
            self.start <= self.current <= self.chars@.len(),
        ensures
            r@ == self.chars@.subrange(self.start as int, self.current as int),
    {
        string_of(&self.chars, self.start, self.current)
    }
}

/// Lexes a file. On success the tokens end with `EndOfFile`, all carry
/// `filename`, hold one newline token per line break, and the final token
/// stands on the last line; the one failure is a character that starts no
/// token outside a comment.
pub fn scan_tokens(text: String, filename: String) -> (r: Result<Vec<Token>, CompilerError>)
    requires
        text@.len() < i32::MAX,
    ensures
        r matches Ok(tokens) ==> {
            &&& tokens@.len() >= 1
            &&& tokens@.last().token_type is EndOfFile
            &&& forall|i: int| 0 <= i < tokens@.len() ==> (#[trigger] tokens@[i]).file@ == filename@
            &&& new_line_tokens(tokens@) == newlines(text@)
            &&& tokens@.last().line == 1 + newlines(text@)
            &&& indents_at_line_starts(tokens@)
            &&& lexes(text@, 0, true, 1, tokens@)
        },
        r is Err <==> lex_error(text@, 0, true) is Some,
        r matches Err(e) ==> lex_error(text@, 0, true) matches Some(k) && e.code == ErrorCode::UnexpectedChar(text@[k])
            && e.line == 1 + newlines(text@.subrange(0, k)),
        r matches Err(e) ==> exists|i: int|
            0 <= i < text@.len() && !allowed(#[trigger] text@[i]) && e.code == ErrorCode::UnexpectedChar(text@[i])
                && e.critical && e.line == 1 + newlines(text@.subrange(0, i)) && e.file@ == filename@,
        (forall|i: int| 0 <= i < text@.len() ==> allowed(#[trigger] text@[i])) ==> r is Ok,
{
    let ghost name = filename;
    let mut tokenizer = Tokenizer::new(text, filename);
    proof {
        assert forall|rest: Seq<Token>|
            #[trigger] lexes(text@, 0, line_start(tokenizer.tokens@), tokenizer.line as int, rest) implies lexes(
            text@,
            0,
            true,
            1,
            tokenizer.tokens@ + rest,
        ) by {
            assert(tokenizer.tokens@ + rest =~= rest);
        }
    }
    while !tokenizer.is_at_end()
        invariant
            tokenizer.wf(),
            tokenizer.chars@ == text@,
            tokenizer.filename == name,
            name@ == filename@,
            forall|rest: Seq<Token>|
                #[trigger] lexes(text@, tokenizer.current as int, line_start(tokenizer.tokens@), tokenizer.line as int, rest)
                    ==> lexes(text@, 0, true, 1, tokenizer.tokens@ + rest),
            lex_error(text@, 0, true) == lex_error(text@, tokenizer.current as int, line_start(tokenizer.tokens@)),
        decreases tokenizer.chars@.len() - tokenizer.current,
    {
        tokenizer.start = tokenizer.current;
        let ghost at = tokenizer.current as int;
        let ghost toks = tokenizer.tokens@;
        match scan_token(&mut tokenizer) {
            Ok(()) => {
                proof {
                    let added = tokenizer.tokens@.subrange(toks.len() as int, tokenizer.tokens@.len() as int);
                    assert(toks + added =~= tokenizer.tokens@);
                    assert forall|rest: Seq<Token>|
                        #[trigger] lexes(text@, tokenizer.current as int, line_start(tokenizer.tokens@), tokenizer.line as int, rest)
                            implies lexes(text@, 0, true, 1, tokenizer.tokens@ + rest) by {
                        assert(toks + (added + rest) =~= tokenizer.tokens@ + rest);
                    }
                }
            },
            Err(e) => {
                assert(!allowed(text@[at]));
                assert(e.line == 1 + newlines(text@.subrange(0, at)));
                assert(e.file@ == name@);
                assert(0 <= at < text@.len() && !allowed(text@[at]) && e.code == ErrorCode::UnexpectedChar(text@[at]));
                return Err(e);
            },
        }
    }
    let eof = Token::new(TokenType::EndOfFile, tokenizer.line, tokenizer.filename.clone());
    let ghost before = tokenizer.tokens@;
    tokenizer.tokens.push(eof);
    proof {
        assert(tokenizer.tokens@.drop_last() =~= before);
        assert(tokenizer.chars@.subrange(0, tokenizer.current as int) =~= text@);
        let last = seq![eof];
        assert(lexes(text@, tokenizer.current as int, line_start(before), tokenizer.line as int, last));
        assert(before + last =~= tokenizer.tokens@);
    }
    Ok(tokenizer.tokens)
}

/// One lexing step: `ts1` extends `ts0` by the tokens read from `i0` to
/// `i1`; whatever lexes from `i1` then lexes from `i0` after them.
proof fn lexer_step_proof(
    cs: Seq<char>,
    i0: int,
    ls0: bool,
    line0: int,
    ts0: Seq<Token>,
    i1: int,
    ts1: Seq<Token>,
    line1: int,
)
    requires
        0 <= i0 < i1 <= cs.len(),
        ts0.is_prefix_of(ts1),
        ts1.len() <= ts0.len() + 1,
        ls0 == line_start(ts0),
        ({
            let c = cs[i0];
            let added = ts1.subrange(ts0.len() as int, ts1.len() as int);
            &&& (c == ',' || c == ':' || c == '(' || c == ')') ==> added.len() == 1 && added[0].token_type == punct(c)
                && added[0].line == line0 && i1 == i0 + 1 && line1 == line0
            &&& c == ';' ==> added.len() == 0 && i1 == run_end(cs, i0 + 1, 5) && line1 == line0
            &&& (c == ' ' || c == '\t') ==> line1 == line0 && if ls0 {
                &&& added.len() == 1
                &&& i1 == run_end(cs, i0 + 1, 0)
                &&& added[0].token_type matches TokenType::Indent(w) && w@ == cs.subrange(i0, i1)
                &&& added[0].line == line0
            } else {
                added.len() == 0 && i1 == i0 + 1
            }
            &&& c == '\r' ==> added.len() == 0 && i1 == i0 + 1 && line1 == line0
            &&& c == '\n' ==> added.len() == 1 && added[0].token_type is NewLine && added[0].line == line0 + 1
                && i1 == i0 + 1 && line1 == line0 + 1
            &&& is_decimal(c) ==> added.len() == 1 && i1 == number_end(cs, i0) && line1 == line0
                && (added[0].token_type matches TokenType::Number(w) && w@ == cs.subrange(i0, i1)) && added[0].line == line0
            &&& !is_decimal(c) && identifier_char(c) ==> added.len() == 1 && i1 == run_end(cs, i0 + 1, 4)
                && line1 == line0 && word_token(cs.subrange(i0, i1), added[0].token_type) && added[0].line == line0
            &&& allowed(c)
        }),
    ensures
        forall|rest: Seq<Token>|
            #[trigger] lexes(cs, i1, line_start(ts1), line1, rest) ==> lexes(
                cs,
                i0,
                ls0,
                line0,
                ts1.subrange(ts0.len() as int, ts1.len() as int) + rest,
            ),
        lex_error(cs, i0, ls0) == lex_error(cs, i1, line_start(ts1)),
{
    let added = ts1.subrange(ts0.len() as int, ts1.len() as int);
    if added.len() == 0 {
        assert(ts1 =~= ts0);
    } else {
        assert(ts1.last() == added[0]);
    }
    assert forall|rest: Seq<Token>|
        #[trigger] lexes(cs, i1, line_start(ts1), line1, rest) implies lexes(cs, i0, ls0, line0, added + rest) by {
        if added.len() == 1 {
            assert((added + rest).drop_first() =~= rest);
            assert((added + rest)[0] == added[0]);
        } else {
            assert(added + rest =~= rest);
        }
    }
}

/// Scans one lexeme starting at `start`.
pub fn scan_token(tokenizer: &mut Tokenizer) -> (r: Result<(), CompilerError>)
    requires
        old(tokenizer).wf(),
        old(tokenizer).start == old(tokenizer).current < old(tokenizer).chars@.len(),
    ensures
        final(tokenizer).wf(),
        final(tokenizer).extends(old(tokenizer)),
        final(tokenizer).current > old(tokenizer).current,
        r matches Err(e) ==> {
            let c = old(tokenizer).chars@[old(tokenizer).current as int];
            &&& !allowed(c)
            &&& e.code == ErrorCode::UnexpectedChar(c)
            &&& e.critical
            &&& e.line == old(tokenizer).line
            &&& e.file@ == old(tokenizer).filename@
        },
        (forall|i: int| 0 <= i < old(tokenizer).chars@.len() ==> allowed(#[trigger] old(tokenizer).chars@[i])) ==> r is Ok,
        ({
            let c = old(tokenizer).chars@[old(tokenizer).current as int];
            let cs = old(tokenizer).chars@;
            let f = final(tokenizer).current as int;
            let here = |t: TokenType| Token { token_type: t, line: old(tokenizer).line, file: old(tokenizer).filename };
            &&& c == ',' ==> final(tokenizer).tokens@ == old(tokenizer).tokens@.push(here(TokenType::Comma))
            &&& c == ':' ==> final(tokenizer).tokens@ == old(tokenizer).tokens@.push(here(TokenType::Colon))
            &&& c == '(' ==> final(tokenizer).tokens@ == old(tokenizer).tokens@.push(here(TokenType::OpenParenthesis))
            &&& c == ')' ==> final(tokenizer).tokens@ == old(tokenizer).tokens@.push(here(TokenType::CloseParenthesis))
            &&& c == '\n' ==> final(tokenizer).line == old(tokenizer).line + 1 && final(tokenizer).tokens@
                == old(tokenizer).tokens@.push(
                Token { token_type: TokenType::NewLine, line: final(tokenizer).line, file: old(tokenizer).filename },
            )
            &&& (c == ';' || c == '\r') ==> final(tokenizer).tokens == old(tokenizer).tokens
            &&& c != '\n' ==> final(tokenizer).line == old(tokenizer).line
            &&& is_decimal(c) ==> final(tokenizer).tokens@.len() == old(tokenizer).tokens@.len() + 1
                && (final(tokenizer).tokens@.last().token_type matches TokenType::Number(text) && text@
                == old(tokenizer).chars@.subrange(old(tokenizer).current as int, final(tokenizer).current as int))
            &&& is_decimal(c) && final(tokenizer).current < old(tokenizer).chars@.len() ==> !number_continues(
                old(tokenizer).chars@.subrange(old(tokenizer).current as int, final(tokenizer).current as int),
                old(tokenizer).chars@[final(tokenizer).current as int],
            )
            &&& identifier_char(c) && final(tokenizer).current < old(tokenizer).chars@.len() ==> !(identifier_char(
                old(tokenizer).chars@[final(tokenizer).current as int],
            ) || is_decimal(old(tokenizer).chars@[final(tokenizer).current as int]))
            &&& (c == ' ' || c == '\t') ==> if old(tokenizer).tokens@.len() == 0 || old(tokenizer).tokens@.last().token_type is NewLine {
                &&& final(tokenizer).tokens@.len() == old(tokenizer).tokens@.len() + 1
                &&& final(tokenizer).tokens@.last().token_type matches TokenType::Indent(w) && w@
                    == old(tokenizer).chars@.subrange(old(tokenizer).current as int, final(tokenizer).current as int)
                &&& final(tokenizer).current < cs.len() ==> !(cs[f] == ' ' || cs[f] == '\t')
            } else {
                final(tokenizer).tokens == old(tokenizer).tokens && final(tokenizer).current == old(tokenizer).current + 1
            }
            &&& identifier_char(c) ==> final(tokenizer).tokens@.len() == old(tokenizer).tokens@.len() + 1
                && word_token(
                old(tokenizer).chars@.subrange(old(tokenizer).current as int, final(tokenizer).current as int),
                final(tokenizer).tokens@.last().token_type,
            )
        }),
        r is Ok ==> forall|rest: Seq<Token>|
            #[trigger] lexes(
                old(tokenizer).chars@,
                final(tokenizer).current as int,
                line_start(final(tokenizer).tokens@),
                final(tokenizer).line as int,
                rest,
            ) ==> lexes(
                old(tokenizer).chars@,
                old(tokenizer).current as int,
                line_start(old(tokenizer).tokens@),
                old(tokenizer).line as int,
                final(tokenizer).tokens@.subrange(old(tokenizer).tokens@.len() as int, final(tokenizer).tokens@.len() as int)
                    + rest,
            ),
        r is Ok ==> lex_error(old(tokenizer).chars@, old(tokenizer).current as int, line_start(old(tokenizer).tokens@))
            == lex_error(old(tokenizer).chars@, final(tokenizer).current as int, line_start(final(tokenizer).tokens@)),
        r is Err ==> lex_error(old(tokenizer).chars@, old(tokenizer).current as int, line_start(old(tokenizer).tokens@))
            == Some(old(tokenizer).current as int),
{
    let ghost cs = tokenizer.chars@;
    let ghost i0 = tokenizer.current as int;
    let ghost ls0 = line_start(tokenizer.tokens@);
    let ghost line0 = tokenizer.line as int;
    let ghost toks0 = tokenizer.tokens@;
    proof {
        lemma_run_end(cs, i0 + 1, 5);
        lemma_run_end(cs, i0 + 1, 0);
        lemma_run_end(cs, i0 + 1, 4);
        lemma_run_end(cs, i0 + 1, 3);
        if i0 + 2 <= cs.len() {
            lemma_run_end(cs, i0 + 2, 1);
            lemma_run_end(cs, i0 + 2, 2);
        }
    }
    let c = tokenizer.advance();
    if c == ',' {
        tokenizer.add_token(TokenType::Comma);
    } else if c == ':' {
        tokenizer.add_token(TokenType::Colon);
    } else if c == '(' {
        tokenizer.add_token(TokenType::OpenParenthesis);
    } else if c == ')' {
        tokenizer.add_token(TokenType::CloseParenthesis);
    } else if c == ';' {
        while tokenizer.peek() != '\n' && !tokenizer.is_at_end()
            invariant
                tokenizer.wf(),
                tokenizer.extends(old(tokenizer)),
                tokenizer.tokens == old(tokenizer).tokens,
                tokenizer.line == old(tokenizer).line,
                tokenizer.chars@ == cs,
                run_end(cs, i0 + 1, 5) == run_end(cs, tokenizer.current as int, 5),
            decreases tokenizer.chars@.len() - tokenizer.current,
        {
            tokenizer.advance();
        }
    } else if c == ' ' || c == '\t' {
        let n = tokenizer.tokens.len();
        let line_start = n == 0 || tokenizer.tokens[n - 1].token_type.is_new_line();
        if line_start {
            while (tokenizer.peek() == ' ' || tokenizer.peek() == '\t') && !tokenizer.is_at_end()
                invariant
                    tokenizer.wf(),
                    tokenizer.extends(old(tokenizer)),
                    tokenizer.tokens == old(tokenizer).tokens,
                    tokenizer.line == old(tokenizer).line,
                    tokenizer.chars@ == cs,
                    run_end(cs, i0 + 1, 0) == run_end(cs, tokenizer.current as int, 0),
                decreases tokenizer.chars@.len() - tokenizer.current,
            {
                tokenizer.advance();
            }
            let text = tokenizer.get_string();
            tokenizer.add_token(TokenType::Indent(text));
        }
    } else if c == '\r' {
    } else if c == '\n' {
        tokenizer.line = tokenizer.line + 1;
        tokenizer.add_token(TokenType::NewLine);
    } else if '0' <= c && c <= '9' {
        let r = number(tokenizer);
        proof {
            lexer_step_proof(cs, i0, ls0, line0, toks0, tokenizer.current as int, tokenizer.tokens@, tokenizer.line as int);
        }
        return r;
    } else if is_alphabetic(c) {
        identifier(tokenizer);
    } else {
        return Err(
            CompilerError::new(ErrorCode::UnexpectedChar(c), &tokenizer.filename, tokenizer.line, true),
        );
    }
    proof {
        lexer_step_proof(cs, i0, ls0, line0, toks0, tokenizer.current as int, tokenizer.tokens@, tokenizer.line as int);
    }
    Ok(())
}

/// Consumes the rest of a number literal whose first digit was just read:
/// hexadecimal after `0x`, binary after `0b`, else decimal; `_` may separate
/// digits. The token holds the literal's text.
pub fn number(tokenizer: &mut Tokenizer) -> (r: Result<(), CompilerError>)
    requires
        old(tokenizer).wf(),
        0 < old(tokenizer).current,
        old(tokenizer).start == old(tokenizer).current - 1,
    ensures
        r is Ok,
        final(tokenizer).wf(),
        final(tokenizer).extends(old(tokenizer)),
        final(tokenizer).line == old(tokenizer).line,
        final(tokenizer).tokens@.len() == old(tokenizer).tokens@.len() + 1,
        final(tokenizer).tokens@.last() == (Token {
            token_type: final(tokenizer).tokens@.last().token_type,
            line: old(tokenizer).line,
            file: old(tokenizer).filename,
        }),
        final(tokenizer).tokens@.last().token_type matches TokenType::Number(s) && s@
            == old(tokenizer).chars@.subrange(old(tokenizer).start as int, final(tokenizer).current as int),
        final(tokenizer).current < final(tokenizer).chars@.len() ==> !number_continues(
            old(tokenizer).chars@.subrange(old(tokenizer).start as int, final(tokenizer).current as int),
            final(tokenizer).chars@[final(tokenizer).current as int],
        ),
        final(tokenizer).current == number_end(old(tokenizer).chars@, old(tokenizer).start as int),
{
    let ghost cs = tokenizer.chars@;
    let ghost st = tokenizer.start as int;
    let first = tokenizer.char();
    let p = tokenizer.peek();
    if first == '0' && (p == 'x' || p == 'X') {
        tokenizer.advance();
        while (is_hex_digit(tokenizer.peek()) || tokenizer.peek() == '_') && !tokenizer.is_at_end()
            invariant
                tokenizer.wf(),
                tokenizer.extends(old(tokenizer)),
                tokenizer.tokens == old(tokenizer).tokens,
                tokenizer.line == old(tokenizer).line,
                tokenizer.chars@ == cs,
                run_end(cs, st + 2, 1) == run_end(cs, tokenizer.current as int, 1),
            decreases tokenizer.chars@.len() - tokenizer.current,
        {
            tokenizer.advance();
        }
    } else if first == '0' && (p == 'b' || p == 'B') {
        tokenizer.advance();
        while (tokenizer.peek() == '0' || tokenizer.peek() == '1' || tokenizer.peek() == '_') && !tokenizer.is_at_end()
            invariant
                tokenizer.wf(),
                tokenizer.extends(old(tokenizer)),
                tokenizer.tokens == old(tokenizer).tokens,
                tokenizer.line == old(tokenizer).line,
                tokenizer.chars@ == cs,
                run_end(cs, st + 2, 2) == run_end(cs, tokenizer.current as int, 2),
            decreases tokenizer.chars@.len() - tokenizer.current,
        {
            tokenizer.advance();
        }
    } else {
        while (('0' <= tokenizer.peek() && tokenizer.peek() <= '9') || tokenizer.peek() == '_') && !tokenizer.is_at_end()
            invariant
                tokenizer.wf(),
                tokenizer.extends(old(tokenizer)),
                tokenizer.tokens == old(tokenizer).tokens,
                tokenizer.line == old(tokenizer).line,
                tokenizer.chars@ == cs,
                run_end(cs, st + 1, 3) == run_end(cs, tokenizer.current as int, 3),
            decreases tokenizer.chars@.len() - tokenizer.current,
        {
            tokenizer.advance();
        }
    }
    let text = tokenizer.get_string();
    tokenizer.add_token(TokenType::Number(text));
    Ok(())
}

/// Consumes the rest of a word whose first character was just read, and
/// appends its keyword token, or an identifier holding it.
pub fn identifier(tokenizer: &mut Tokenizer)
    requires
        old(tokenizer).wf(),
        0 < old(tokenizer).current,
        old(tokenizer).start == old(tokenizer).current - 1,
    ensures
        final(tokenizer).wf(),
        final(tokenizer).extends(old(tokenizer)),
        final(tokenizer).line == old(tokenizer).line,
        final(tokenizer).tokens@.len() == old(tokenizer).tokens@.len() + 1,
        final(tokenizer).tokens@.last() == (Token {
            token_type: final(tokenizer).tokens@.last().token_type,
            line: old(tokenizer).line,
            file: old(tokenizer).filename,
        }),
        word_token(
            old(tokenizer).chars@.subrange(old(tokenizer).start as int, final(tokenizer).current as int),
            final(tokenizer).tokens@.last().token_type,
        ),
        final(tokenizer).current < final(tokenizer).chars@.len() ==> !(identifier_char(
            final(tokenizer).chars@[final(tokenizer).current as int],
        ) || is_decimal(final(tokenizer).chars@[final(tokenizer).current as int])),
        final(tokenizer).current == run_end(old(tokenizer).chars@, old(tokenizer).current as int, 4),
{
    let ghost cs = tokenizer.chars@;
    while is_alphanumeric(tokenizer.peek()) && !tokenizer.is_at_end()
        invariant
            tokenizer.wf(),
            tokenizer.extends(old(tokenizer)),
            tokenizer.tokens == old(tokenizer).tokens,
            tokenizer.line == old(tokenizer).line,
            tokenizer.chars@ == cs,
            run_end(cs, old(tokenizer).current as int, 4) == run_end(cs, tokenizer.current as int, 4),
        decreases tokenizer.chars@.len() - tokenizer.current,
    {
        tokenizer.advance();
    }
    let start = tokenizer.start;
    let current = tokenizer.current;
    let mut word: Vec<char> = Vec::new();
    let mut i: usize = start;
    while i < current
        invariant
            start <= i <= current <= tokenizer.chars@.len(),
            word@ == tokenizer.chars@.subrange(start as int, i as int),
        decreases current - i,
    {
        word.push(tokenizer.chars[i]);
        i = i + 1;
        assert(word@ =~= tokenizer.chars@.subrange(start as int, i as int));
    }
    match keyword(&word) {
        Some(t) => tokenizer.add_token(t),
        None => {
            let text = tokenizer.get_string();
            tokenizer.add_token(TokenType::Identifier(text));
        },
    }
}

fn is_hex_digit(c: char) -> (r: bool)
    ensures
        r == is_hex(c),
{
    ('0' <= c && c <= '9') || ('a' <= c && c <= 'f') || ('A' <= c && c <= 'F')
}

/// Whether `c` may continue an identifier: an identifier character or a
/// decimal digit.
pub fn is_alphanumeric(c: char) -> (r: bool)
    ensures
        r == (identifier_char(c) || is_decimal(c)),
{
    is_alphabetic(c) || ('0' <= c && c <= '9')
}

/// Whether `c` may start an identifier.
pub fn is_alphabetic(c: char) -> (r: bool)
    ensures
        r == identifier_char(c),
{
    ('a' <= c && c <= 'z') || ('A' <= c && c <= 'Z') || c == '_' || c == '@' || c == '.' || c == '\\' || c == '/'
}

} // verus!
