//! Macro definitions, argument substitution and expansion.

use vstd::prelude::*;
use crate::error_handler::{CompilerError, ErrorCode};
use crate::lexer::{Token, TokenType};
use crate::parser::Parser;
use crate::scope::Scope;
use crate::nodes::{InstructionNode, MacroHolder, MacroNode, expanded, plain_body};
use crate::parsing::{all_lines_ok, body_from, fresh, get_instructions, line_node};
use crate::program_node::SubroutineNode;

verus! {

/// A macro definition: its name, its parameters in order, and the captured
/// token body.
#[derive(Debug)]
pub struct Macro {
    pub name: String,
    pub tokens: Vec<Token>,
    pub arguments: Vec<String>,
}

/// The position of the first parameter named `name`.
pub open spec fn param_index(params: Seq<String>, name: Seq<char>) -> Option<int>
    decreases params.len(),
{
    if params.len() == 0 {
        None
    } else {
        match param_index(params.drop_last(), name) {
            Some(i) => Some(i),
            None => if params.last()@ == name {
                Some(params.len() - 1)
            } else {
                None
            },
        }
    }
}

/// A token after substitution: an identifier naming a parameter becomes the
/// caller's argument at that parameter's position.
pub open spec fn substituted(t: Token, params: Seq<String>, args: Seq<Token>) -> Token {
    match t.token_type {
        TokenType::Identifier(name) => match param_index(params, name@) {
            Some(i) => args[i],
            None => t,
        },
        _ => t,
    }
}

/// Every parameter that the body uses has an argument.
pub open spec fn arguments_cover(body: Seq<Token>, params: Seq<String>, args: Seq<Token>) -> bool {
    forall|i: int|
        0 <= i < body.len() ==> match (#[trigger] body[i]).token_type {
            TokenType::Identifier(name) => match param_index(params, name@) {
                Some(p) => p < args.len(),
                None => true,
            },
            _ => true,
        }
}

/// Parameter names are distinct.
pub open spec fn distinct_names(params: Seq<String>) -> bool {
    forall|i: int, j: int| 0 <= i < j < params.len() ==> params[i]@ != params[j]@
}

proof fn lemma_param_index_push(params: Seq<String>, s: String, name: Seq<char>)
    ensures
        param_index(params.push(s), name) == match param_index(params, name) {
            Some(i) => Some(i),
            None => if s@ == name {
                Some(params.len() as int)
            } else {
                None
            },
        },
{
    assert(params.push(s).drop_last() =~= params);
}

proof fn lemma_param_index_bounds(params: Seq<String>, name: Seq<char>)
    ensures
        param_index(params, name) matches Some(i) ==> 0 <= i < params.len() && params[i]@ == name,
        param_index(params, name) is None ==> forall|j: int| 0 <= j < params.len() ==> params[j]@ != name,
    decreases params.len(),
{
    if params.len() > 0 {
        lemma_param_index_bounds(params.drop_last(), name);
        assert forall|j: int| 0 <= j < params.len() - 1 implies params.drop_last()[j] == params[j] by {}
    }
}

fn find_param(params: &Vec<String>, name: &String) -> (r: Option<usize>)
    ensures
        r matches Some(i) ==> param_index(params@, name@) == Some(i as int),
        r is None ==> param_index(params@, name@) is None,
{
    let mut i: usize = 0;
    while i < params.len()
        invariant
            i <= params@.len(),
            param_index(params@.subrange(0, i as int), name@) is None,
        decreases params@.len() - i,
    {
        proof {
            assert(params@.subrange(0, i + 1) =~= params@.subrange(0, i as int).push(params@[i as int]));
            lemma_param_index_push(params@.subrange(0, i as int), params@[i as int], name@);
        }
        if params[i] == *name {
            proof {
                lemma_param_index_prefix(params@, i + 1, name@);
            }
            return Some(i);
        }
        i = i + 1;
    }
    assert(params@.subrange(0, i as int) =~= params@);
    None
}

proof fn lemma_param_index_prefix(params: Seq<String>, k: int, name: Seq<char>)
    requires
        0 <= k <= params.len(),
        param_index(params.subrange(0, k), name) is Some,
    ensures
        param_index(params, name) == param_index(params.subrange(0, k), name),
    decreases params.len() - k,
{
    if k < params.len() {
        assert(params.subrange(0, k + 1) =~= params.subrange(0, k).push(params[k]));
        lemma_param_index_push(params.subrange(0, k), params[k], name);
        lemma_param_index_prefix(params, k + 1, name);
    } else {
        assert(params.subrange(0, k) =~= params);
    }
}

/// `t` is an identifier spelling `s`.
pub open spec fn ident_text(t: Token, s: String) -> bool {
    t.token_type matches TokenType::Identifier(x) && x@ == s@
}

/// The first newline token at or after `c`, or the end of the stream.
pub open spec fn nl_or_end(ts: Seq<Token>, c: int) -> int
    decreases ts.len() - c,
{
    if c < 0 || c >= ts.len() || ts[c].token_type is NewLine {
        c
    } else {
        nl_or_end(ts, c + 1)
    }
}

proof fn lemma_nl_or_end(ts: Seq<Token>, c: int)
    requires
        0 <= c <= ts.len(),
    ensures
        c <= nl_or_end(ts, c) <= ts.len(),
    decreases ts.len() - c,
{
    if c < ts.len() && !(ts[c].token_type is NewLine) {
        lemma_nl_or_end(ts, c + 1);
    }
}

/// Where the captured body of a macro that starts at `c` ends: newlines and
/// indented lines are taken; the first other token at a line start ends it.
pub open spec fn capture_end(ts: Seq<Token>, c: int) -> int
    decreases ts.len() - c,
{
    if c < 0 || c >= ts.len() {
        c
    } else if ts[c].token_type is NewLine {
        capture_end(ts, c + 1)
    } else if ts[c].token_type is Indent {
        let e = nl_or_end(ts, c + 1);
        if c < e <= ts.len() {
            capture_end(ts, e)
        } else {
            c
        }
    } else {
        c
    }
}

/// The tokens from `c` are a macro header `@macro NL name ( p0 .. pk-1 ) : NL`
/// with `k` distinct parameter names.
pub open spec fn header_ok(ts: Seq<Token>, c: int, k: int) -> bool {
    &&& 0 <= c
    &&& 0 <= k
    &&& c + 7 + k <= ts.len()
    &&& ts[c].token_type is Macro
    &&& ts[c + 1].token_type is NewLine
    &&& ts[c + 2].token_type is Identifier
    &&& ts[c + 3].token_type is OpenParenthesis
    &&& forall|i: int| 0 <= i < k ==> (#[trigger] ts[c + 4 + i]).token_type is Identifier
    &&& forall|i: int, j: int|
        0 <= i < j < k ==> #[trigger] header_ok_distinct(ts, c, k, i, j)
    &&& ts[c + 4 + k].token_type is CloseParenthesis
    &&& ts[c + 5 + k].token_type is Colon
    &&& ts[c + 6 + k].token_type is NewLine
}

/// Parameters `i` and `j` of a header are spelled differently.
pub open spec fn header_ok_distinct(ts: Seq<Token>, c: int, k: int, i: int, j: int) -> bool {
    ts[c + 4 + i].token_type->Identifier_0@ != ts[c + 4 + j].token_type->Identifier_0@
}

impl Macro {
    /// Parses `@macro NL name(params): NL` and captures the indented token
    /// lines that follow. A repeated parameter name is rejected like any
    /// token that is neither a name nor `)`. Every error is critical.
    pub fn populate(parser: &mut Parser) -> (r: Result<Macro, CompilerError>)
        requires
            old(parser).wf(),
        ensures
            final(parser).wf(),
            final(parser).moved_on(old(parser)),
            old(parser).current < old(parser).tokens@.len() ==> final(parser).current > old(parser).current,
            r matches Ok(m) ==> distinct_names(m.arguments@),
            r matches Ok(m) ==> ({
                let c = old(parser).current as int;
                let ts = old(parser).tokens@;
                let k = m.arguments@.len() as int;
                &&& header_ok(ts, c, k)
                &&& ts[c + 2].token_type matches TokenType::Identifier(n) && n@ == m.name@
                &&& forall|i: int| 0 <= i < k ==> ident_text(ts[c + 4 + i], #[trigger] m.arguments@[i])
                &&& m.tokens@ == ts.subrange(c + 7 + k, capture_end(ts, c + 7 + k))
                &&& final(parser).current == capture_end(ts, c + 7 + k)
            }),
            forall|k: int| #[trigger] header_ok(old(parser).tokens@, old(parser).current as int, k) ==> r is Ok,
            !(old(parser).peek_spec().token_type is Macro) ==> r is Err,
            r matches Err(e) ==> e.critical && e.code is ExpectedButFound,
    {
        let ghost ts = parser.tokens@;
        let ghost c = parser.current as int;
        let t = parser.advance();
        let ghost mark = parser.current;
        match t.token_type {
            TokenType::Macro => {},
            _ => {
                return Err(CompilerError::expected("@macro", &t, true));
            },
        }
        let t = parser.advance();
        match t.token_type {
            TokenType::NewLine => {},
            _ => {
                return Err(CompilerError::expected("New Line", &t, true));
            },
        }
        let t = parser.advance();
        let name = match &t.token_type {
            TokenType::Identifier(n) => n.clone(),
            _ => {
                return Err(CompilerError::expected("Identifier", &t, true));
            },
        };
        let t = parser.advance();
        match t.token_type {
            TokenType::OpenParenthesis => {},
            _ => {
                return Err(CompilerError::expected("Open Parenthesis", &t, true));
            },
        }
        assert(c + 4 == parser.current);
        let mut arguments: Vec<String> = Vec::new();
        loop
            invariant_except_break
                parser.current == c + 4 + arguments@.len(),
            invariant
                parser.wf(),
                parser.moved_on(old(parser)),
                parser.tokens@ == ts,
                0 <= c,
                c == old(parser).current,
                parser.current >= mark,
                old(parser).current < old(parser).tokens@.len() ==> mark > old(parser).current,
                distinct_names(arguments@),
                ts[c + 2].token_type matches TokenType::Identifier(n) && n@ == name@,
                ts[c].token_type is Macro && ts[c + 1].token_type is NewLine && ts[c + 3].token_type is OpenParenthesis,
                forall|i: int| 0 <= i < arguments@.len() ==> ident_text(ts[c + 4 + i], #[trigger] arguments@[i]),
                forall|k: int| #[trigger] header_ok(ts, c, k) ==> k >= arguments@.len(),
            ensures
                parser.wf(),
                parser.moved_on(old(parser)),
                parser.tokens@ == ts,
                parser.current >= mark,
                distinct_names(arguments@),
                parser.current == c + 5 + arguments@.len(),
                ts[c + 2].token_type matches TokenType::Identifier(n) && n@ == name@,
                ts[c].token_type is Macro && ts[c + 1].token_type is NewLine && ts[c + 3].token_type is OpenParenthesis,
                ts[c + 4 + arguments@.len()].token_type is CloseParenthesis,
                forall|i: int| 0 <= i < arguments@.len() ==> ident_text(ts[c + 4 + i], #[trigger] arguments@[i]),
                forall|k: int| #[trigger] header_ok(ts, c, k) ==> k == arguments@.len(),
            decreases parser.tokens@.len() - parser.current,
        {
            let next = parser.peek().copy();
            match &next.token_type {
                TokenType::CloseParenthesis => {
                    proof {
                        assert(parser.current < ts.len());
                        assert forall|k: int| #[trigger] header_ok(ts, c, k) implies k == arguments@.len() by {
                            if k > arguments@.len() {
                                assert(ts[c + 4 + arguments@.len()].token_type is Identifier);
                            }
                        }
                    }
                    parser.advance();
                    break;
                },
                TokenType::Identifier(arg) => {
                    if find_param(&arguments, arg).is_some() {
                        proof {
                            lemma_param_index_bounds(arguments@, arg@);
                            assert forall|k: int| !#[trigger] header_ok(ts, c, k) by {
                                if header_ok(ts, c, k) {
                                    let p = param_index(arguments@, arg@)->0;
                                    assert(ident_text(ts[c + 4 + p], arguments@[p]));
                                    assert(k > arguments@.len());
                                    assert(header_ok_distinct(ts, c, k, p, arguments@.len() as int));
                                }
                            }
                        }
                        return Err(CompilerError::expected("Close Parenthesis or Identifier", &next, true));
                    }
                    proof {
                        lemma_param_index_bounds(arguments@, arg@);
                    }
                    let ghost before = arguments@;
                    arguments.push(arg.clone());
                    proof {
                        assert forall|k: int| #[trigger] header_ok(ts, c, k) implies k >= arguments@.len() by {
                            if k == before.len() {
                                assert(ts[c + 4 + k].token_type is CloseParenthesis);
                            }
                        }
                        assert forall|i: int| 0 <= i < arguments@.len() implies ident_text(ts[c + 4 + i], #[trigger] arguments@[i]) by {
                            if i < before.len() {
                                assert(arguments@[i] == before[i]);
                            }
                        }
                    }
                    assert(parser.current < parser.tokens@.len());
                    parser.advance();
                },
                _ => {
                    proof {
                        assert forall|k: int| !#[trigger] header_ok(ts, c, k) by {
                            if header_ok(ts, c, k) {
                                if k > arguments@.len() {
                                    assert(ts[c + 4 + arguments@.len()].token_type is Identifier);
                                }
                            }
                        }
                    }
                    return Err(CompilerError::expected("Close Parenthesis or Identifier", &next, true));
                },
            }
        }
        let t = parser.advance();
        match t.token_type {
            TokenType::Colon => {},
            _ => {
                return Err(CompilerError::expected("Colon", &t, true));
            },
        }
        let t = parser.advance();
        match t.token_type {
            TokenType::NewLine => {},
            _ => {
                return Err(CompilerError::expected("New Line", &t, true));
            },
        }
        let ghost b0 = parser.current as int;
        assert(b0 == c + 7 + arguments@.len());
        let mut tokens: Vec<Token> = Vec::new();
        loop
            invariant
                parser.wf(),
                parser.moved_on(old(parser)),
                parser.tokens@ == ts,
                parser.current >= mark,
                old(parser).current < old(parser).tokens@.len() ==> mark > old(parser).current,
                b0 <= parser.current,
                0 <= b0,
                tokens@ == ts.subrange(b0, parser.current as int),
                capture_end(ts, b0) == capture_end(ts, parser.current as int),
            ensures
                parser.wf(),
                parser.moved_on(old(parser)),
                parser.tokens@ == ts,
                parser.current >= mark,
                tokens@ == ts.subrange(b0, parser.current as int),
                capture_end(ts, b0) == parser.current,
            decreases parser.tokens@.len() - parser.current,
        {
            let ghost start = parser.current;
            while parser.peek().token_type.is_new_line()
                invariant
                    parser.wf(),
                    parser.moved_on(old(parser)),
                    parser.tokens@ == ts,
                    parser.current >= start,
                    b0 <= parser.current,
                    0 <= b0,
                    tokens@ == ts.subrange(b0, parser.current as int),
                    capture_end(ts, b0) == capture_end(ts, parser.current as int),
                decreases parser.tokens@.len() - parser.current,
            {
                assert(parser.current < parser.tokens@.len());
                let t = parser.advance();
                tokens.push(t);
                assert(tokens@ =~= ts.subrange(b0, parser.current as int));
            }
            let is_indent = match parser.peek().token_type {
                TokenType::Indent(_) => true,
                _ => false,
            };
            if !is_indent {
                break;
            }
            assert(parser.current < parser.tokens@.len());
            let ghost at = parser.current as int;
            let t = parser.advance();
            tokens.push(t);
            assert(tokens@ =~= ts.subrange(b0, parser.current as int));
            let ghost mark2 = parser.current;
            while !parser.is_at_end() && !parser.peek().token_type.is_new_line()
                invariant
                    parser.wf(),
                    parser.moved_on(old(parser)),
                    parser.tokens@ == ts,
                    parser.current >= mark2,
                    mark2 == at + 1,
                    0 <= at < ts.len(),
                    ts[at].token_type is Indent,
                    b0 <= at,
                    0 <= b0,
                    tokens@ == ts.subrange(b0, parser.current as int),
                    capture_end(ts, b0) == capture_end(ts, at),
                    nl_or_end(ts, at + 1) == nl_or_end(ts, parser.current as int),
                decreases parser.tokens@.len() - parser.current,
            {
                let t = parser.advance();
                tokens.push(t);
                assert(tokens@ =~= ts.subrange(b0, parser.current as int));
            }
            proof {
                lemma_nl_or_end(ts, at + 1);
            }
        }
        proof {
            let k = arguments@.len() as int;
            assert forall|i: int| 0 <= i < k implies (#[trigger] ts[c + 4 + i]).token_type is Identifier by {
                assert(ident_text(ts[c + 4 + i], arguments@[i]));
            }
            assert forall|i: int, j: int| 0 <= i < j < k implies #[trigger] header_ok_distinct(ts, c, k, i, j) by {
                assert(ident_text(ts[c + 4 + i], arguments@[i]));
                assert(ident_text(ts[c + 4 + j], arguments@[j]));
            }
            assert(header_ok(ts, c, k));
        }
        Ok(Macro { name, tokens, arguments })
    }

    /// The body with each parameter replaced by the caller's argument at its
    /// position; `None` when the body uses a parameter that has no argument.
    pub fn expand_tokens(&self, args: &Vec<Token>) -> (r: Option<Vec<Token>>)
        ensures
            r is Some <==> arguments_cover(self.tokens@, self.arguments@, args@),
            r matches Some(v) ==> v@.len() == self.tokens@.len() && forall|i: int|
                0 <= i < v@.len() ==> #[trigger] v@[i] == substituted(self.tokens@[i], self.arguments@, args@),
    {
        let mut out: Vec<Token> = Vec::new();
        let mut i: usize = 0;
        while i < self.tokens.len()
            invariant
                i <= self.tokens@.len(),
                out@.len() == i,
                arguments_cover(self.tokens@.subrange(0, i as int), self.arguments@, args@),
                forall|k: int| 0 <= k < i ==> #[trigger] out@[k] == substituted(self.tokens@[k], self.arguments@, args@),
            decreases self.tokens@.len() - i,
        {
            let token = &self.tokens[i];
            proof {
                assert forall|k: int| 0 <= k < i implies #[trigger] self.tokens@.subrange(0, i + 1)[k] == self.tokens@.subrange(0, i as int)[k] by {}
            }
            match &token.token_type {
                TokenType::Identifier(identifier) => match find_param(&self.arguments, identifier) {
                    Some(p) => {
                        if p >= args.len() {
                            proof {
                                assert(self.tokens@[i as int] == self.tokens@.subrange(0, i as int + 1)[i as int]);
                            }
                            assert(!arguments_cover(self.tokens@, self.arguments@, args@));
                            return None;
                        }
                        out.push(args[p].copy());
                    },
                    None => out.push(token.copy()),
                },
                _ => out.push(token.copy()),
            }
            i = i + 1;
        }
        assert(self.tokens@.subrange(0, i as int) =~= self.tokens@);
        Some(out)
    }
}

/// The tokens a call expands to: the body with arguments substituted,
/// ended by an end-of-file token that names the macro.
pub open spec fn expanded_tokens(def: Macro, args: Seq<Token>) -> Seq<Token> {
    Seq::new(def.tokens@.len(), |i: int| substituted(def.tokens@[i], def.arguments@, args)).push(
        Token { token_type: TokenType::EndOfFile, line: -1i32, file: def.name },
    )
}

/// The instruction lines of an expansion.
pub open spec fn expansion_lines(def: Macro, args: Seq<Token>) -> Seq<Seq<Token>> {
    body_from(expanded_tokens(def, args), 0).0
}

/// The first tokens of the lines that are macro calls, in order.
pub open spec fn call_tokens(lines: Seq<Seq<Token>>) -> Seq<Token>
    decreases lines.len(),
{
    if lines.len() == 0 {
        Seq::empty()
    } else {
        let prev = call_tokens(lines.drop_last());
        if lines.last().len() > 0 && lines.last()[0].token_type is Identifier {
            prev.push(lines.last()[0])
        } else {
            prev
        }
    }
}

/// Dropping lines never adds calls.
pub proof fn lemma_call_tokens_len(lines: Seq<Seq<Token>>)
    ensures
        lines.len() > 0 ==> call_tokens(lines.drop_last()).len() <= call_tokens(lines).len(),
{
}

/// A call of `def` with `args` expands: every parameter used has an
/// argument, every line parses, and no line calls a macro.
pub open spec fn expansion_ok(def: Macro, args: Seq<Token>) -> bool {
    &&& arguments_cover(def.tokens@, def.arguments@, args)
    &&& all_lines_ok(expansion_lines(def, args))
    &&& call_tokens(expansion_lines(def, args)).len() == 0
}

/// `m` is the expansion of a call of `def` with `args`: one instruction per
/// line of the substituted body, and an empty scope.
pub open spec fn is_expansion(def: Macro, args: Seq<Token>, m: MacroNode) -> bool {
    let lines = expansion_lines(def, args);
    &&& m.instructions@.len() == lines.len()
    &&& forall|i: int| 0 <= i < lines.len() ==> line_node(lines[i], #[trigger] m.instructions@[i])
    &&& m.placeholders@.len() == 0
}

impl MacroNode {
    /// Expands a call of `definition` with argument tokens `args`: the body
    /// is substituted and parsed as a subroutine body. A body that calls a
    /// macro gives one non-critical `MacroCallsMacro` per call, at the call;
    /// a body that uses a parameter with no argument gives a critical error.
    pub fn populate(definition: &Macro, args: &Vec<Token>) -> (r: Result<MacroNode, Vec<CompilerError>>)
        ensures
            r is Ok <==> expansion_ok(*definition, args@),
            r matches Ok(m) ==> plain_body(m.instructions@) && is_expansion(*definition, args@, m),
            r matches Err(es) ==> es@.len() > 0,
            !arguments_cover(definition.tokens@, definition.arguments@, args@) ==> r is Err,
            arguments_cover(definition.tokens@, definition.arguments@, args@) && all_lines_ok(
                expansion_lines(*definition, args@),
            ) ==> (r matches Err(es) ==> {
                let calls = call_tokens(expansion_lines(*definition, args@));
                &&& es@.len() == calls.len()
                &&& forall|j: int|
                    0 <= j < es@.len() ==> {
                        &&& (#[trigger] es@[j]).code == ErrorCode::MacroCallsMacro
                        &&& !es@[j].critical
                        &&& es@[j].line == calls[j].line
                        &&& es@[j].file@ == calls[j].file@
                    }
            }),
    {
        let mut tokens = match definition.expand_tokens(args) {
            Some(t) => t,
            None => {
                let at = Token::new(TokenType::Identifier(definition.name.clone()), -1, definition.name.clone());
                return Err(vec![CompilerError::expected("argument for every parameter", &at, true)]);
            },
        };
        tokens.push(Token::new(TokenType::EndOfFile, -1, definition.name.clone()));
        let ghost xs = expanded_tokens(*definition, args@);
        assert(tokens@ =~= xs);
        let ghost lines = expansion_lines(*definition, args@);
        let mut parser = Parser::new(tokens, definition.name.clone());
        let instructions = match get_instructions(&mut parser) {
            Ok(v) => v,
            Err(es) => {
                return Err(es);
            },
        };
        let mut errors: Vec<CompilerError> = Vec::new();
        let mut i: usize = 0;
        assert(lines.subrange(0, 0) =~= Seq::<Seq<Token>>::empty());
        while i < instructions.len()
            invariant
                i <= instructions@.len(),
                instructions@.len() == lines.len(),
                forall|k: int| 0 <= k < lines.len() ==> line_node(lines[k], #[trigger] instructions@[k]),
                forall|k: int| 0 <= k < instructions@.len() ==> fresh(#[trigger] instructions@[k]),
                errors@.len() == 0 ==> forall|k: int| 0 <= k < i ==> !(#[trigger] instructions@[k] is Macro),
                errors@.len() == call_tokens(lines.subrange(0, i as int)).len(),
                forall|j: int|
                    0 <= j < errors@.len() ==> {
                        &&& (#[trigger] errors@[j]).code == ErrorCode::MacroCallsMacro
                        &&& !errors@[j].critical
                        &&& errors@[j].line == call_tokens(lines.subrange(0, i as int))[j].line
                        &&& errors@[j].file@ == call_tokens(lines.subrange(0, i as int))[j].file@
                    },
            decreases instructions@.len() - i,
        {
            let ghost before = call_tokens(lines.subrange(0, i as int));
            proof {
                assert(lines.subrange(0, i + 1).drop_last() =~= lines.subrange(0, i as int));
                assert(line_node(lines[i as int], instructions@[i as int]));
            }
            match &instructions[i] {
                InstructionNode::Macro(MacroHolder::Placeholder(_, _, token)) => {
                    errors.push(CompilerError::from_token(ErrorCode::MacroCallsMacro, token, false));
                },
                _ => {},
            }
            i = i + 1;
        }
        assert(lines.subrange(0, i as int) =~= lines);
        if errors.len() > 0 {
            return Err(errors);
        }
        Ok(MacroNode { instructions, placeholders: Scope::new() })
    }
}

/// The position of the latest definition named `name`.
pub open spec fn latest_macro(macros: Seq<Macro>, name: Seq<char>) -> Option<int>
    decreases macros.len(),
{
    if macros.len() == 0 {
        None
    } else if macros.last().name@ == name {
        Some(macros.len() - 1)
    } else {
        latest_macro(macros.drop_last(), name)
    }
}

/// `n` is a call of a macro that has no definition.
pub open spec fn undefined_call(n: InstructionNode, macros: Seq<Macro>) -> bool {
    n matches InstructionNode::Macro(MacroHolder::Placeholder(name, _, _)) && latest_macro(macros, name@) is None
}

/// `es` is the one non-critical `NoSuchMacro` error for call `n`, at the
/// call's first token.
pub open spec fn no_such_macro(es: Seq<CompilerError>, n: InstructionNode) -> bool {
    match n {
        InstructionNode::Macro(MacroHolder::Placeholder(name, _, tok)) => es.len() == 1 && (es[0].code matches ErrorCode::NoSuchMacro(
            x,
        ) && x@ == name@) && !es[0].critical && es[0].line == tok.line && es[0].file@ == tok.file@,
        _ => false,
    }
}

/// A node that is a macro call names a defined macro, and its call of the
/// latest such definition expands.
pub open spec fn call_resolves(n: InstructionNode, macros: Seq<Macro>) -> bool {
    n matches InstructionNode::Macro(MacroHolder::Placeholder(name, args, _)) ==> (latest_macro(macros, name@) matches Some(
        k,
    ) && expansion_ok(macros[k], args@))
}

/// Every macro call in `nodes` names a defined macro, and its call of the
/// latest such definition expands.
pub open spec fn calls_resolve(nodes: Seq<InstructionNode>, macros: Seq<Macro>) -> bool {
    forall|i: int|
        0 <= i < nodes.len() ==> (#[trigger] nodes[i] matches InstructionNode::Macro(
            MacroHolder::Placeholder(name, args, _),
        ) ==> (latest_macro(macros, name@) matches Some(k) && expansion_ok(macros[k], args@)))
}

/// `after` is `before` with every macro call replaced by the expansion of
/// the latest definition of its name.
pub open spec fn calls_expanded(before: Seq<InstructionNode>, after: Seq<InstructionNode>, macros: Seq<Macro>) -> bool {
    &&& after.len() == before.len()
    &&& forall|i: int|
        0 <= i < before.len() ==> match #[trigger] before[i] {
            InstructionNode::Macro(MacroHolder::Placeholder(name, args, _)) => latest_macro(macros, name@) matches Some(
                k,
            ) && (after[i] matches InstructionNode::Macro(MacroHolder::Macro(m)) && is_expansion(
                macros[k],
                args@,
                m,
            )),
            _ => after[i] == before[i],
        }
}

proof fn lemma_latest_bounds(macros: Seq<Macro>, name: Seq<char>)
    ensures
        latest_macro(macros, name) matches Some(k) ==> 0 <= k < macros.len(),
    decreases macros.len(),
{
    if macros.len() > 0 {
        lemma_latest_bounds(macros.drop_last(), name);
    }
}

/// The latest definition named `name`.
fn find_macro(macros: &Vec<Macro>, name: &String) -> (r: Option<usize>)
    ensures
        r matches Some(k) ==> latest_macro(macros@, name@) == Some(k as int) && k < macros@.len(),
        r is None ==> latest_macro(macros@, name@) is None,
{
    let mut i: usize = macros.len();
    assert(macros@.subrange(0, i as int) =~= macros@);
    while i > 0
        invariant
            i <= macros@.len(),
            latest_macro(macros@, name@) == latest_macro(macros@.subrange(0, i as int), name@),
        decreases i,
    {
        assert(macros@.subrange(0, i as int).drop_last() =~= macros@.subrange(0, i - 1));
        if macros[i - 1].name == *name {
            return Some(i - 1);
        }
        i = i - 1;
    }
    None
}

impl SubroutineNode {
    /// Expands every macro call of the body against the definitions; the
    /// latest definition of a name wins. A call of an undefined macro stops
    /// with a non-critical `NoSuchMacro` error; an expansion's errors are
    /// passed on. It succeeds exactly when every call resolves and expands.
    pub fn populate_macros(&mut self, macros: &Vec<Macro>) -> (r: Result<(), Vec<CompilerError>>)
        requires
            forall|i: int| 0 <= i < old(self).instructions@.len() ==> fresh(#[trigger] old(self).instructions@[i]),
        ensures
            final(self).name == old(self).name,
            final(self).placeholders == old(self).placeholders,
            r is Ok <==> calls_resolve(old(self).instructions@, macros@),
            r is Ok ==> expanded(final(self).instructions@) && calls_expanded(
                old(self).instructions@,
                final(self).instructions@,
                macros@,
            ),
            r matches Err(es) ==> es@.len() > 0,
            forall|i: int|
                0 <= i < old(self).instructions@.len() && (forall|j: int|
                    0 <= j < i ==> call_resolves(#[trigger] old(self).instructions@[j], macros@)) ==> (
                undefined_call(#[trigger] old(self).instructions@[i], macros@) ==> (r matches Err(es)
                && no_such_macro(es@, old(self).instructions@[i]))),
    {
        let ghost orig = self.instructions@;
        let mut i: usize = 0;
        while i < self.instructions.len()
            invariant
                i <= self.instructions@.len(),
                self.instructions@.len() == orig.len(),
                orig == old(self).instructions@,
                self.name == old(self).name,
                self.placeholders == old(self).placeholders,
                forall|k: int| i <= k < orig.len() ==> #[trigger] self.instructions@[k] == orig[k],
                forall|k: int| 0 <= k < orig.len() ==> fresh(#[trigger] orig[k]),
                expanded(self.instructions@.subrange(0, i as int)),
                calls_resolve(orig.subrange(0, i as int), macros@),
                calls_expanded(orig.subrange(0, i as int), self.instructions@.subrange(0, i as int), macros@),
            decreases self.instructions@.len() - i,
        {
            let replacement: Option<MacroNode> = match &self.instructions[i] {
                InstructionNode::Macro(MacroHolder::Placeholder(name, args, token)) => match find_macro(macros, name) {
                    Some(k) => match MacroNode::populate(&macros[k], args) {
                        Ok(node) => Some(node),
                        Err(es) => {
                            assert(!calls_resolve(orig, macros@)) by {
                                assert(orig[i as int] == self.instructions@[i as int]);
                            }
                            proof {
                                assert(orig[i as int] == self.instructions@[i as int]);
                                assert(!call_resolves(orig[i as int], macros@));
                                assert forall|i2: int|
                                    0 <= i2 < orig.len() && (forall|j: int|
                                        0 <= j < i2 ==> call_resolves(#[trigger] orig[j], macros@)) implies !undefined_call(
                                    #[trigger] orig[i2],
                                    macros@,
                                ) by {
                                    if i2 < i {
                                        assert(orig.subrange(0, i as int)[i2] == orig[i2]);
                                    } else if i2 > i {
                                        assert(call_resolves(orig[i as int], macros@));
                                    }
                                }
                            }
                            return Err(es);
                        },
                    },
                    None => {
                        assert(orig[i as int] == self.instructions@[i as int]);
                        let errs = vec![CompilerError::from_token(ErrorCode::NoSuchMacro(name.clone()), token, false)];
                        proof {
                            assert(!call_resolves(orig[i as int], macros@));
                            assert(no_such_macro(errs@, orig[i as int]));
                            assert forall|i2: int|
                                0 <= i2 < orig.len() && (forall|j: int|
                                    0 <= j < i2 ==> call_resolves(#[trigger] orig[j], macros@)) && undefined_call(
                                    #[trigger] orig[i2],
                                    macros@,
                                ) implies no_such_macro(errs@, orig[i2]) by {
                                if i2 < i {
                                    assert(orig.subrange(0, i as int)[i2] == orig[i2]);
                                } else if i2 > i {
                                    assert(call_resolves(orig[i as int], macros@));
                                }
                            }
                        }
                        return Err(errs);
                    },
                },
                _ => None,
            };
            let ghost before = self.instructions@;
            match replacement {
                Some(node) => {
                    self.instructions.set(i, InstructionNode::Macro(MacroHolder::Macro(node)));
                },
                None => {},
            }
            proof {
                assert(orig[i as int] == before[i as int]);
                assert forall|k: int| 0 <= k < i + 1 implies #[trigger] self.instructions@.subrange(0, i + 1)[k] == (if k < i {
                    before.subrange(0, i as int)[k]
                } else {
                    self.instructions@[i as int]
                }) by {}
                assert forall|k: int| 0 <= k < i + 1 implies #[trigger] orig.subrange(0, i + 1)[k] == (if k < i {
                    orig.subrange(0, i as int)[k]
                } else {
                    orig[i as int]
                }) by {}
            }
            i = i + 1;
        }
        assert(self.instructions@.subrange(0, i as int) =~= self.instructions@);
        assert(orig.subrange(0, i as int) =~= orig);
        Ok(())
    }
}

} // verus!
