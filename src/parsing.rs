//! Parsing: instructions, macro definitions and instances, subroutines.

use vstd::prelude::*;
use crate::isa::Instruction;
use crate::error_handler::{CompilerError, ErrorCode};
use crate::lexer::{Token, TokenType};
use crate::parser::Parser;
use crate::number_nodes::{Imm8, Imm16, literal_value};
use crate::scope::Scope;
use crate::program_node::SubroutineNode;
use crate::nodes::{
    InstructionNode, MacroHolder, MacroNode, PlaceholderNode, PlaceholderOrImm16Node, PlaceholderOrImm8Node,
    RegOrImmNode, RegisterNode, opcode_node, plain_body,
};

verus! {

fn token_is_identifier(t: &TokenType) -> (r: bool)
    ensures
        r == (*t is Identifier),
{
    match t {
        TokenType::Identifier(_) => true,
        _ => false,
    }
}

fn token_is_number(t: &TokenType) -> (r: bool)
    ensures
        r == (*t is Number),
{
    match t {
        TokenType::Number(_) => true,
        _ => false,
    }
}

fn ends_line(t: &TokenType) -> (r: bool)
    ensures
        r == (*t is NewLine || *t is EndOfFile),
{
    match t {
        TokenType::NewLine | TokenType::EndOfFile => true,
        _ => false,
    }
}

/// A token that ends a line.
pub open spec fn ends(t: Token) -> bool {
    t.token_type is NewLine || t.token_type is EndOfFile
}

/// The position of the first line-ending token at or after `c`.
pub open spec fn line_end(ts: Seq<Token>, c: int) -> int
    decreases ts.len() - c,
{
    if c < 0 || c >= ts.len() || ends(ts[c]) {
        c
    } else {
        line_end(ts, c + 1)
    }
}

/// The tokens of the line that starts at `c`, without its line ending.
pub open spec fn line_at(ts: Seq<Token>, c: int) -> Seq<Token> {
    ts.subrange(c, line_end(ts, c))
}

/// `t` is a register token naming `r`.
pub open spec fn reg_tok(t: Token, r: RegisterNode) -> bool {
    t.token_type == TokenType::Register(r.0)
}

/// `t` is the 16-bit operand `p`: a name, or a literal of that value.
pub open spec fn imm16_tok(t: Token, p: PlaceholderOrImm16Node) -> bool {
    match p {
        PlaceholderOrImm16Node::PlaceholderNode(n) => t.token_type matches TokenType::Identifier(s) && s@ == n.name@,
        PlaceholderOrImm16Node::Imm16(v) => t.token_type matches TokenType::Number(s) && literal_value(s@) == Some(
            v.0 as int,
        ),
    }
}

/// `t` is the 8-bit operand `p`.
pub open spec fn imm8_tok(t: Token, p: PlaceholderOrImm8Node) -> bool {
    match p {
        PlaceholderOrImm8Node::PlaceholderNode(n) => t.token_type matches TokenType::Identifier(s) && s@ == n.name@,
        PlaceholderOrImm8Node::Imm8(v) => t.token_type matches TokenType::Number(s) && literal_value(s@) == Some(
            v.0 as int,
        ),
    }
}

/// `t` is the register-or-8-bit operand `o`.
pub open spec fn regimm_tok(t: Token, o: RegOrImmNode) -> bool {
    match o {
        RegOrImmNode::Register(r) => reg_tok(t, r),
        RegOrImmNode::Immediate(p) => imm8_tok(t, p),
    }
}

/// The tokens from `i` on are the optional 16-bit operand `a`.
pub open spec fn opt_addr_tok(ts: Seq<Token>, i: int, a: Option<PlaceholderOrImm16Node>) -> bool {
    match a {
        None => ts.len() == i,
        Some(p) => ts.len() == i + 1 && imm16_tok(ts[i], p),
    }
}

/// `ts` are exactly the tokens of instruction `n`.
pub open spec fn line_node(ts: Seq<Token>, n: InstructionNode) -> bool {
    ts.len() >= 1 && match n {
        InstructionNode::NOP => ts.len() == 1 && ts[0].token_type == TokenType::Instruction(Instruction::NOP),
        InstructionNode::HLT => ts.len() == 1 && ts[0].token_type == TokenType::Instruction(Instruction::HLT),
        InstructionNode::LW(r, a) => ts.len() >= 2 && ts[0].token_type == TokenType::Instruction(Instruction::LW)
            && reg_tok(ts[1], r) && opt_addr_tok(ts, 2, a),
        InstructionNode::SW(r, a) => ts.len() >= 2 && ts[0].token_type == TokenType::Instruction(Instruction::SW)
            && reg_tok(ts[1], r) && opt_addr_tok(ts, 2, a),
        InstructionNode::JZ(r, a) => ts.len() >= 2 && ts[0].token_type == TokenType::Instruction(Instruction::JZ)
            && reg_tok(ts[1], r) && opt_addr_tok(ts, 2, a),
        InstructionNode::JMP(a) => ts[0].token_type == TokenType::Instruction(Instruction::JMP) && opt_addr_tok(ts, 1, a),
        InstructionNode::JC(a) => ts[0].token_type == TokenType::Instruction(Instruction::JC) && opt_addr_tok(ts, 1, a),
        InstructionNode::MW(r, o) => ts.len() == 3 && ts[0].token_type == TokenType::Instruction(Instruction::MW)
            && reg_tok(ts[1], r) && regimm_tok(ts[2], o),
        InstructionNode::ADD(r, o) => ts.len() == 3 && ts[0].token_type == TokenType::Instruction(Instruction::ADD)
            && reg_tok(ts[1], r) && regimm_tok(ts[2], o),
        InstructionNode::SUB(r, o) => ts.len() == 3 && ts[0].token_type == TokenType::Instruction(Instruction::SUB)
            && reg_tok(ts[1], r) && regimm_tok(ts[2], o),
        InstructionNode::PUSH(o) => ts.len() == 2 && ts[0].token_type == TokenType::Instruction(Instruction::PUSH)
            && regimm_tok(ts[1], o),
        InstructionNode::OUT(o) => ts.len() == 2 && ts[0].token_type == TokenType::Instruction(Instruction::OUT)
            && regimm_tok(ts[1], o),
        InstructionNode::POP(r) => ts.len() == 2 && ts[0].token_type == TokenType::Instruction(Instruction::POP)
            && reg_tok(ts[1], r),
        InstructionNode::LDA(p) => ts.len() == 2 && ts[0].token_type == TokenType::Instruction(Instruction::LDA)
            && imm16_tok(ts[1], p),
        InstructionNode::DEF(name) => ts.len() == 2 && ts[0].token_type is Def && (ts[1].token_type matches TokenType::Identifier(
            s,
        ) && s@ == name@),
        InstructionNode::Macro(MacroHolder::Placeholder(name, args, tok)) => (ts[0].token_type matches TokenType::Identifier(
            s,
        ) && s@ == name@) && tok == ts[0] && args@ == ts.drop_first(),
        InstructionNode::Macro(MacroHolder::Macro(_)) => false,
    }
}

/// A 16-bit operand token that parses: a name, or a literal that fits.
pub open spec fn imm16_ok(t: Token) -> bool {
    t.token_type is Identifier || (t.token_type matches TokenType::Number(s) && literal_value(s@) matches Some(v)
        && 0 <= v <= 65535)
}

/// An 8-bit operand token that parses.
pub open spec fn imm8_ok(t: Token) -> bool {
    t.token_type is Identifier || (t.token_type matches TokenType::Number(s) && literal_value(s@) matches Some(v)
        && 0 <= v <= 255)
}

/// A register or 8-bit operand token that parses.
pub open spec fn regimm_ok(t: Token) -> bool {
    t.token_type is Register || imm8_ok(t)
}

/// The tokens from `i` on are a valid optional 16-bit operand.
pub open spec fn opt_addr_ok(ts: Seq<Token>, i: int) -> bool {
    ts.len() == i || (ts.len() == i + 1 && imm16_ok(ts[i]))
}

/// The tokens of a line form one instruction with nothing left over.
pub open spec fn line_ok(ts: Seq<Token>) -> bool {
    ts.len() >= 1 && match ts[0].token_type {
        TokenType::Instruction(op) => match op {
            Instruction::NOP | Instruction::HLT => ts.len() == 1,
            Instruction::LW | Instruction::SW | Instruction::JZ => ts.len() >= 2 && ts[1].token_type is Register
                && opt_addr_ok(ts, 2),
            Instruction::JMP | Instruction::JC => opt_addr_ok(ts, 1),
            Instruction::MW | Instruction::ADD | Instruction::SUB => ts.len() == 3 && ts[1].token_type is Register
                && regimm_ok(ts[2]),
            Instruction::PUSH | Instruction::OUT => ts.len() == 2 && regimm_ok(ts[1]),
            Instruction::POP => ts.len() == 2 && ts[1].token_type is Register,
            Instruction::LDA => ts.len() == 2 && imm16_ok(ts[1]),
        },
        TokenType::Def => ts.len() == 2 && ts[1].token_type is Identifier,
        TokenType::Identifier(_) => true,
        _ => false,
    }
}

/// Facts about where a line ends.
pub proof fn lemma_line_end(ts: Seq<Token>, c: int)
    requires
        0 <= c <= ts.len(),
    ensures
        c <= line_end(ts, c) <= ts.len(),
        forall|k: int| c <= k < line_end(ts, c) ==> !ends(#[trigger] ts[k]),
        line_end(ts, c) < ts.len() ==> ends(ts[line_end(ts, c)]),
    decreases ts.len() - c,
{
    if c < ts.len() && !ends(ts[c]) {
        lemma_line_end(ts, c + 1);
    }
}

/// A line that runs from `c` to a line ending at `p` ends at `p`.
pub proof fn lemma_line_end_at(ts: Seq<Token>, c: int, p: int)
    requires
        0 <= c <= p < ts.len(),
        ends(ts[p]),
        forall|k: int| c <= k < p ==> !ends(#[trigger] ts[k]),
    ensures
        line_end(ts, c) == p,
    decreases p - c,
{
    if c < p {
        lemma_line_end_at(ts, c + 1, p);
    }
}

/// How many tokens an instruction parsed at the start of `line` takes, or
/// `None` when it does not parse. An optional address is read whenever the
/// next token is a number or a name.
pub open spec fn parse_len(line: Seq<Token>) -> Option<int> {
    if line.len() == 0 {
        None
    } else {
        match line[0].token_type {
            TokenType::Instruction(op) => match op {
                Instruction::NOP | Instruction::HLT => Some(1),
                Instruction::LW | Instruction::SW | Instruction::JZ => if line.len() >= 2
                    && line[1].token_type is Register {
                    address_len(line, 2)
                } else {
                    None
                },
                Instruction::JMP | Instruction::JC => address_len(line, 1),
                Instruction::MW | Instruction::ADD | Instruction::SUB => if line.len() >= 3
                    && line[1].token_type is Register && regimm_ok(line[2]) {
                    Some(3)
                } else {
                    None
                },
                Instruction::PUSH | Instruction::OUT => if line.len() >= 2 && regimm_ok(line[1]) {
                    Some(2)
                } else {
                    None
                },
                Instruction::POP => if line.len() >= 2 && line[1].token_type is Register {
                    Some(2)
                } else {
                    None
                },
                Instruction::LDA => if line.len() >= 2 && imm16_ok(line[1]) {
                    Some(2)
                } else {
                    None
                },
            },
            TokenType::Def => if line.len() >= 2 && line[1].token_type is Identifier {
                Some(2)
            } else {
                None
            },
            TokenType::Identifier(_) => Some(line.len() as int),
            _ => None,
        }
    }
}

/// The length taken up to and including an optional address at `i`.
pub open spec fn address_len(line: Seq<Token>, i: int) -> Option<int> {
    if line.len() > i && (line[i].token_type is Number || line[i].token_type is Identifier) {
        if imm16_ok(line[i]) {
            Some(i + 1)
        } else {
            None
        }
    } else {
        Some(i)
    }
}

/// The optional address of LW, SW, JZ, JMP and JC is present exactly when
/// the token after the mnemonic (and register) is a number or a name.
pub open spec fn address_rule(ts: Seq<Token>, c: int, n: InstructionNode) -> bool {
    match n {
        InstructionNode::LW(_, a) | InstructionNode::SW(_, a) | InstructionNode::JZ(_, a) => c + 2 < ts.len() ==> ((
        ts[c + 2].token_type is Number || ts[c + 2].token_type is Identifier) <==> a is Some),
        InstructionNode::JMP(a) | InstructionNode::JC(a) => c + 1 < ts.len() ==> ((ts[c + 1].token_type is Number
            || ts[c + 1].token_type is Identifier) <==> a is Some),
        _ => true,
    }
}

/// A line holds exactly one instruction when the parse takes all of it.
pub proof fn lemma_parse_len_line_ok(line: Seq<Token>)
    ensures
        line_ok(line) <==> parse_len(line) == Some(line.len() as int),
{
}

/// Tokens an instruction at the start of a line reads.
pub proof fn lemma_parse_len_bounds(line: Seq<Token>)
    ensures
        parse_len(line) matches Some(k) ==> 1 <= k <= line.len(),
{
}

impl RegisterNode {
    /// Consumes a register token.
    pub fn populate(parser: &mut Parser) -> (r: Result<RegisterNode, CompilerError>)
        requires
            old(parser).wf(),
        ensures
            final(parser).wf(),
            final(parser).advanced_from(old(parser)),
            match old(parser).peek_spec().token_type {
                TokenType::Register(reg) => r == Ok::<RegisterNode, CompilerError>(RegisterNode(reg)),
                _ => r matches Err(e) && !e.critical,
            },
    {
        let token = parser.advance();
        match token.token_type {
            TokenType::Register(reg) => Ok(RegisterNode(reg)),
            _ => Err(CompilerError::expected("Register", &token, false)),
        }
    }
}

impl PlaceholderNode {
    /// Consumes an identifier used as a value.
    pub fn populate(parser: &mut Parser) -> (r: Result<PlaceholderNode, CompilerError>)
        requires
            old(parser).wf(),
        ensures
            final(parser).wf(),
            final(parser).advanced_from(old(parser)),
            match old(parser).peek_spec().token_type {
                TokenType::Identifier(name) => r matches Ok(p) && p.name@ == name@,
                _ => r matches Err(e) && !e.critical,
            },
    {
        let token = parser.advance();
        match &token.token_type {
            TokenType::Identifier(name) => Ok(PlaceholderNode { name: name.clone() }),
            _ => Err(CompilerError::expected("Identifier", &token, false)),
        }
    }
}

impl PlaceholderOrImm16Node {
    /// Reads a 16-bit operand: a name or a number literal.
    pub fn populate(parser: &mut Parser) -> (r: Result<PlaceholderOrImm16Node, CompilerError>)
        requires
            old(parser).wf(),
        ensures
            final(parser).wf(),
            final(parser).moved_on(old(parser)),
            r matches Err(e) ==> !e.critical,
            old(parser).peek_spec().token_type is Identifier ==> r matches Ok(PlaceholderOrImm16Node::PlaceholderNode(_)),
            r matches Ok(PlaceholderOrImm16Node::Imm16(_)) ==> old(parser).peek_spec().token_type is Number,
            r matches Ok(p) ==> final(parser).advanced_from(old(parser)) && imm16_tok(old(parser).peek_spec(), p),
            imm16_ok(old(parser).peek_spec()) ==> r is Ok,
    {
        if token_is_identifier(&parser.peek().token_type) {
            match PlaceholderNode::populate(parser) {
                Ok(p) => Ok(PlaceholderOrImm16Node::PlaceholderNode(p)),
                Err(e) => Err(e),
            }
        } else if token_is_number(&parser.peek().token_type) {
            match Imm16::populate(parser) {
                Ok(v) => Ok(PlaceholderOrImm16Node::Imm16(v)),
                Err(e) => Err(e),
            }
        } else {
            Err(CompilerError::expected("Identifier or number", parser.peek(), false))
        }
    }
}

impl PlaceholderOrImm8Node {
    /// Reads an 8-bit operand: a name or a number literal.
    pub fn populate(parser: &mut Parser) -> (r: Result<PlaceholderOrImm8Node, CompilerError>)
        requires
            old(parser).wf(),
        ensures
            final(parser).wf(),
            final(parser).moved_on(old(parser)),
            r matches Err(e) ==> !e.critical,
            old(parser).peek_spec().token_type is Identifier ==> r matches Ok(PlaceholderOrImm8Node::PlaceholderNode(_)),
            r matches Ok(PlaceholderOrImm8Node::Imm8(_)) ==> old(parser).peek_spec().token_type is Number,
            r matches Ok(p) ==> final(parser).advanced_from(old(parser)) && imm8_tok(old(parser).peek_spec(), p),
            imm8_ok(old(parser).peek_spec()) ==> r is Ok,
    {
        if token_is_identifier(&parser.peek().token_type) {
            match PlaceholderNode::populate(parser) {
                Ok(p) => Ok(PlaceholderOrImm8Node::PlaceholderNode(p)),
                Err(e) => Err(e),
            }
        } else if token_is_number(&parser.peek().token_type) {
            match Imm8::populate(parser) {
                Ok(v) => Ok(PlaceholderOrImm8Node::Imm8(v)),
                Err(e) => Err(e),
            }
        } else {
            Err(CompilerError::expected("Identifier or number", parser.peek(), false))
        }
    }
}

impl RegOrImmNode {
    /// Reads a register or an 8-bit operand.
    pub fn populate(parser: &mut Parser) -> (r: Result<RegOrImmNode, CompilerError>)
        requires
            old(parser).wf(),
        ensures
            final(parser).wf(),
            final(parser).moved_on(old(parser)),
            r matches Err(e) ==> !e.critical,
            old(parser).peek_spec().token_type matches TokenType::Register(reg) ==> r == Ok::<
                RegOrImmNode,
                CompilerError,
            >(RegOrImmNode::Register(RegisterNode(reg))),
            r matches Ok(RegOrImmNode::Immediate(_)) ==> (old(parser).peek_spec().token_type is Number
                || old(parser).peek_spec().token_type is Identifier),
            r matches Ok(o) ==> final(parser).advanced_from(old(parser)) && regimm_tok(old(parser).peek_spec(), o),
            regimm_ok(old(parser).peek_spec()) ==> r is Ok,
    {
        match &parser.peek().token_type {
            TokenType::Register(_) => match RegisterNode::populate(parser) {
                Ok(reg) => Ok(RegOrImmNode::Register(reg)),
                Err(e) => Err(e),
            },
            TokenType::Number(_) | TokenType::Identifier(_) => match PlaceholderOrImm8Node::populate(parser) {
                Ok(v) => Ok(RegOrImmNode::Immediate(v)),
                Err(e) => Err(e),
            },
            _ => Err(CompilerError::expected("Register or imm8", parser.peek(), false)),
        }
    }
}

/// Reads an optional 16-bit operand: present when the next token is a
/// number or a name.
fn optional_address(parser: &mut Parser) -> (r: Result<Option<PlaceholderOrImm16Node>, CompilerError>)
    requires
        old(parser).wf(),
    ensures
        final(parser).wf(),
        final(parser).moved_on(old(parser)),
        r matches Err(e) ==> !e.critical,
        !(old(parser).peek_spec().token_type is Number || old(parser).peek_spec().token_type is Identifier) ==> r
            == Ok::<Option<PlaceholderOrImm16Node>, CompilerError>(None),
        old(parser).peek_spec().token_type is Identifier ==> r matches Ok(Some(_)),
        r == Ok::<Option<PlaceholderOrImm16Node>, CompilerError>(None) ==> *final(parser) == *old(parser),
        r matches Ok(Some(p)) ==> final(parser).advanced_from(old(parser)) && imm16_tok(old(parser).peek_spec(), p),
        imm16_ok(old(parser).peek_spec()) ==> r matches Ok(Some(_)),
        r == Ok::<Option<PlaceholderOrImm16Node>, CompilerError>(None) ==> !(old(parser).peek_spec().token_type is Number
            || old(parser).peek_spec().token_type is Identifier),
        (old(parser).peek_spec().token_type is Number && !imm16_ok(old(parser).peek_spec())) ==> r is Err,
{
    if token_is_number(&parser.peek().token_type) || token_is_identifier(&parser.peek().token_type) {
        match PlaceholderOrImm16Node::populate(parser) {
            Ok(v) => Ok(Some(v)),
            Err(e) => Err(e),
        }
    } else {
        Ok(None)
    }
}

impl InstructionNode {
    /// Parses one instruction. A mnemonic reads its operands; `DEF` reads a
    /// label name; any other identifier starts a macro call whose arguments
    /// are the tokens up to the end of the line. No error is critical.
    pub fn populate(parser: &mut Parser) -> (r: Result<InstructionNode, CompilerError>)
        requires
            old(parser).wf(),
        ensures
            final(parser).wf(),
            final(parser).moved_on(old(parser)),
            r matches Err(e) ==> !e.critical,
            r matches Ok(n) ==> match old(parser).peek_spec().token_type {
                TokenType::Instruction(op) => opcode_node(n) == Some(op),
                TokenType::Def => n is DEF,
                TokenType::Identifier(name) => n matches InstructionNode::Macro(MacroHolder::Placeholder(m, _, _))
                    && m@ == name@,
                _ => false,
            },
            old(parser).peek_spec().token_type is Identifier ==> r is Ok,
            r matches Ok(n) ==> old(parser).current < final(parser).current && line_node(
                old(parser).tokens@.subrange(old(parser).current as int, final(parser).current as int),
                n,
            ),
            line_ok(line_at(old(parser).tokens@, old(parser).current as int)) ==> r is Ok && final(parser).current
                == line_end(old(parser).tokens@, old(parser).current as int),
            r is Ok <==> parse_len(line_at(old(parser).tokens@, old(parser).current as int)) is Some,
            r is Ok ==> final(parser).current == old(parser).current + parse_len(
                line_at(old(parser).tokens@, old(parser).current as int),
            )->0,
            r matches Ok(n) ==> address_rule(old(parser).tokens@, old(parser).current as int, n),
            old(parser).peek_spec().token_type == TokenType::Instruction(Instruction::NOP) ==> r matches Ok(
                InstructionNode::NOP,
            ),
            old(parser).peek_spec().token_type == TokenType::Instruction(Instruction::HLT) ==> r matches Ok(
                InstructionNode::HLT,
            ),
            old(parser).peek_spec().token_type is Def && old(parser).current + 1 < old(parser).tokens@.len() ==> (
            match old(parser).tokens@[old(parser).current + 1].token_type {
                TokenType::Identifier(name) => r matches Ok(InstructionNode::DEF(label)) && label@ == name@,
                _ => r is Err,
            }),
    {
        proof {
            lemma_line_end(parser.tokens@, parser.current as int);
        }
        let ghost c = parser.current as int;
        let ghost ts = parser.tokens@;
        let token = parser.advance();
        match &token.token_type {
            TokenType::Instruction(op) => {
                let op = *op;
                match op {
                    Instruction::NOP => Ok(InstructionNode::NOP),
                    Instruction::HLT => Ok(InstructionNode::HLT),
                    Instruction::LW | Instruction::SW | Instruction::JZ => {
                        let register = match RegisterNode::populate(parser) {
                            Ok(reg) => reg,
                            Err(e) => {
                                return Err(e);
                            },
                        };
                        let address = match optional_address(parser) {
                            Ok(a) => a,
                            Err(e) => {
                                return Err(e);
                            },
                        };
                        match op {
                            Instruction::LW => Ok(InstructionNode::LW(register, address)),
                            Instruction::SW => Ok(InstructionNode::SW(register, address)),
                            _ => Ok(InstructionNode::JZ(register, address)),
                        }
                    },
                    Instruction::JMP | Instruction::JC => {
                        let address = match optional_address(parser) {
                            Ok(a) => a,
                            Err(e) => {
                                return Err(e);
                            },
                        };
                        match op {
                            Instruction::JMP => Ok(InstructionNode::JMP(address)),
                            _ => Ok(InstructionNode::JC(address)),
                        }
                    },
                    Instruction::MW | Instruction::ADD | Instruction::SUB => {
                        let register = match RegisterNode::populate(parser) {
                            Ok(reg) => reg,
                            Err(e) => {
                                return Err(e);
                            },
                        };
                        let operand = match RegOrImmNode::populate(parser) {
                            Ok(o) => o,
                            Err(e) => {
                                return Err(e);
                            },
                        };
                        match op {
                            Instruction::MW => Ok(InstructionNode::MW(register, operand)),
                            Instruction::ADD => Ok(InstructionNode::ADD(register, operand)),
                            _ => Ok(InstructionNode::SUB(register, operand)),
                        }
                    },
                    Instruction::PUSH | Instruction::OUT => {
                        let operand = match RegOrImmNode::populate(parser) {
                            Ok(o) => o,
                            Err(e) => {
                                return Err(e);
                            },
                        };
                        match op {
                            Instruction::PUSH => Ok(InstructionNode::PUSH(operand)),
                            _ => Ok(InstructionNode::OUT(operand)),
                        }
                    },
                    Instruction::POP => match RegisterNode::populate(parser) {
                        Ok(reg) => Ok(InstructionNode::POP(reg)),
                        Err(e) => Err(e),
                    },
                    Instruction::LDA => match PlaceholderOrImm16Node::populate(parser) {
                        Ok(a) => Ok(InstructionNode::LDA(a)),
                        Err(e) => Err(e),
                    },
                }
            },
            TokenType::Def => {
                let name_token = parser.advance();
                match &name_token.token_type {
                    TokenType::Identifier(name) => Ok(InstructionNode::DEF(name.clone())),
                    _ => Err(CompilerError::expected("Identifier", &name_token, false)),
                }
            },
            TokenType::Identifier(name) => {
                let mut arguments: Vec<Token> = Vec::new();
                while !ends_line(&parser.peek().token_type)
                    invariant
                        parser.wf(),
                        parser.moved_on(old(parser)),
                        parser.tokens@ == ts,
                        0 <= c < ts.len(),
                        c + 1 <= parser.current,
                        c == old(parser).current,
                        arguments@ == ts.subrange(c + 1, parser.current as int),
                        forall|k: int| c <= k < parser.current ==> !ends(#[trigger] ts[k]),
                    decreases parser.tokens@.len() - parser.current,
                {
                    assert(parser.current < parser.tokens@.len());
                    let t = parser.advance();
                    arguments.push(t);
                    assert(arguments@ =~= ts.subrange(c + 1, parser.current as int));
                }
                proof {
                    assert(parser.current < ts.len()) by {
                        if parser.current >= ts.len() {
                            assert(!ends(ts[ts.len() - 1]));
                        }
                    }
                    lemma_line_end_at(ts, c, parser.current as int);
                    assert(ts.subrange(c, parser.current as int).drop_first() =~= ts.subrange(c + 1, parser.current as int));
                }
                Ok(InstructionNode::Macro(MacroHolder::Placeholder(name.clone(), arguments, token.copy())))
            },
            _ => Err(CompilerError::expected("Instruction", &token, false)),
        }
    }
}

/// An instruction as the parser builds it: a macro call is not expanded yet.
pub open spec fn fresh(n: InstructionNode) -> bool {
    !(n matches InstructionNode::Macro(MacroHolder::Macro(_)))
}

/// Every instruction of a list is as the parser builds it.
pub open spec fn all_fresh(nodes: Seq<InstructionNode>) -> bool {
    forall|i: int| 0 <= i < nodes.len() ==> fresh(#[trigger] nodes[i])
}

fn is_indent(t: &TokenType) -> (r: bool)
    ensures
        r == (*t is Indent),
{
    match t {
        TokenType::Indent(_) => true,
        _ => false,
    }
}

/// The non-blank indented lines of a body that starts at `c`, each without
/// its indent and line ending, and the position where the body ends: the
/// first token after any newlines that is not an indent.
pub open spec fn body_from(ts: Seq<Token>, c: int) -> (Seq<Seq<Token>>, int)
    decreases ts.len() - c,
{
    if c < 0 || c >= ts.len() {
        (Seq::empty(), c)
    } else if ts[c].token_type is NewLine {
        body_from(ts, c + 1)
    } else if ts[c].token_type is Indent {
        if c + 1 < ts.len() && ts[c + 1].token_type is NewLine {
            body_from(ts, c + 1)
        } else {
            let e = line_end(ts, c + 1);
            if c < e <= ts.len() {
                let rest = body_from(ts, e);
                (seq![ts.subrange(c + 1, e)] + rest.0, rest.1)
            } else {
                (Seq::empty(), c)
            }
        }
    } else {
        (Seq::empty(), c)
    }
}

/// Every line of a body parses.
pub open spec fn all_lines_ok(lines: Seq<Seq<Token>>) -> bool {
    forall|i: int| 0 <= i < lines.len() ==> line_ok(#[trigger] lines[i])
}

/// Skipping newline tokens does not change the body.
proof fn lemma_body_skip(ts: Seq<Token>, a: int, b: int)
    requires
        0 <= a <= b,
        forall|k: int| a <= k < b ==> (#[trigger] ts[k]).token_type is NewLine,
        b <= ts.len(),
    ensures
        body_from(ts, a) == body_from(ts, b),
    decreases b - a,
{
    if a < b {
        lemma_body_skip(ts, a + 1, b);
    }
}

/// The tokens of an instruction other than a macro call end no line, and
/// a line holding exactly an instruction parses.
proof fn lemma_line_node(ts: Seq<Token>, n: InstructionNode)
    requires
        line_node(ts, n),
    ensures
        line_ok(ts),
        !(n is Macro) ==> forall|k: int| 0 <= k < ts.len() ==> !ends(#[trigger] ts[k]),
{
}

/// The errors a line gives: one when it does not parse, else one for each
/// token after the instruction.
pub open spec fn line_errors(line: Seq<Token>) -> nat {
    match parse_len(line) {
        Some(k) => (line.len() - k) as nat,
        None => 1,
    }
}

/// The errors a body gives, line by line.
pub open spec fn body_errors(lines: Seq<Seq<Token>>) -> nat
    decreases lines.len(),
{
    if lines.len() == 0 {
        0
    } else {
        body_errors(lines.drop_last()) + line_errors(lines.last())
    }
}

fn find_line_end(parser: &Parser) -> (r: usize)
    requires
        parser.wf(),
    ensures
        r == line_end(parser.tokens@, parser.current as int),
{
    let mut i = parser.current;
    while i < parser.tokens.len() && !ends_line(&parser.tokens[i].token_type)
        invariant
            parser.current <= i <= parser.tokens@.len(),
            line_end(parser.tokens@, parser.current as int) == line_end(parser.tokens@, i as int),
        decreases parser.tokens@.len() - i,
    {
        i = i + 1;
    }
    i
}

/// Parses the indented lines of a body: each is one instruction; blank
/// lines are skipped; the first line that is not indented ends the body.
/// A line that does not parse gives one error, and each token after an
/// instruction one "expected New Line" error; parsing goes on at the next
/// line. No error is critical.
pub fn get_instructions(parser: &mut Parser) -> (r: Result<Vec<InstructionNode>, Vec<CompilerError>>)
    requires
        old(parser).wf(),
    ensures
        final(parser).wf(),
        final(parser).moved_on(old(parser)),
        !(final(parser).peek_spec().token_type is Indent),
        !(final(parser).peek_spec().token_type is NewLine),
        final(parser).current == body_from(old(parser).tokens@, old(parser).current as int).1,
        r is Ok <==> all_lines_ok(body_from(old(parser).tokens@, old(parser).current as int).0),
        r matches Ok(v) ==> {
            let b = body_from(old(parser).tokens@, old(parser).current as int);
            &&& v@.len() == b.0.len()
            &&& forall|i: int| 0 <= i < v@.len() ==> line_node(b.0[i], #[trigger] v@[i])
        },
        r matches Ok(v) ==> forall|i: int| 0 <= i < v@.len() ==> fresh(#[trigger] v@[i]),
        r matches Err(es) ==> es@.len() == body_errors(body_from(old(parser).tokens@, old(parser).current as int).0),
        r matches Err(es) ==> es@.len() > 0 && forall|i: int| 0 <= i < es@.len() ==> !(#[trigger] es@[i]).critical,
{
    let ghost ts = parser.tokens@;
    let ghost c0 = parser.current as int;
    let ghost full = body_from(ts, c0);
    let ghost mut done: Seq<Seq<Token>> = Seq::empty();
    let mut instructions: Vec<InstructionNode> = Vec::new();
    let mut errors: Vec<CompilerError> = Vec::new();
    proof {
        assert(full.0 =~= done + body_from(ts, parser.current as int).0);
    }
    loop
        invariant
            parser.wf(),
            parser.moved_on(old(parser)),
            parser.tokens@ == ts,
            0 <= c0,
            c0 == old(parser).current,
            full == body_from(ts, c0),
            full.0 == done + body_from(ts, parser.current as int).0,
            full.1 == body_from(ts, parser.current as int).1,
            forall|i: int| 0 <= i < instructions@.len() ==> fresh(#[trigger] instructions@[i]),
            forall|i: int| 0 <= i < errors@.len() ==> !(#[trigger] errors@[i]).critical,
            errors@.len() == body_errors(done),
            all_lines_ok(done) ==> {
                &&& instructions@.len() == done.len()
                &&& forall|i: int| 0 <= i < done.len() ==> line_node(done[i], #[trigger] instructions@[i])
            },
        ensures
            !(parser.peek_spec().token_type is Indent),
            !(parser.peek_spec().token_type is NewLine),
            parser.wf(),
            parser.moved_on(old(parser)),
            parser.tokens@ == ts,
            forall|i: int| 0 <= i < instructions@.len() ==> fresh(#[trigger] instructions@[i]),
            forall|i: int| 0 <= i < errors@.len() ==> !(#[trigger] errors@[i]).critical,
            full.0 == done,
            full.1 == parser.current,
            errors@.len() == body_errors(done),
            all_lines_ok(done) ==> {
                &&& instructions@.len() == done.len()
                &&& forall|i: int| 0 <= i < done.len() ==> line_node(done[i], #[trigger] instructions@[i])
            },
        decreases parser.tokens@.len() - parser.current,
    {
        let ghost start = parser.current as int;
        parser.skip_new_lines();
        proof {
            lemma_body_skip(ts, start, parser.current as int);
        }
        if !is_indent(&parser.peek().token_type) {
            proof {
                if parser.current < ts.len() {
                    assert(body_from(ts, parser.current as int) == (Seq::<Seq<Token>>::empty(), parser.current as int));
                }
                assert(done + Seq::<Seq<Token>>::empty() =~= done);
            }
            break;
        }
        assert(parser.current < parser.tokens@.len());
        let ghost at = parser.current as int;
        parser.advance();
        if parser.peek().token_type.is_new_line() {
            continue;
        }
        proof {
            lemma_line_end(ts, at + 1);
        }
        let e = find_line_end(parser);
        let ghost line = ts.subrange(at + 1, e as int);
        proof {
            assert(e < ts.len()) by {
                if e >= ts.len() {
                    assert(!ends(ts[ts.len() - 1]));
                }
            }
            assert(line == line_at(ts, at + 1));
            let rest = body_from(ts, e as int);
            assert(body_from(ts, at) == (seq![line] + rest.0, rest.1));
            lemma_parse_len_line_ok(line);
            lemma_parse_len_bounds(line);
        }
        let ghost before = done;
        match InstructionNode::populate(parser) {
            Ok(i) => {
                let ghost p = parser.current as int;
                let ghost had = errors@.len();
                proof {
                    if p == e {
                        assert(ts.subrange(at + 1, p) == line);
                        lemma_line_node(line, i);
                    }
                }
                instructions.push(i);
                while parser.current < e
                    invariant
                        parser.wf(),
                        parser.moved_on(old(parser)),
                        parser.tokens@ == ts,
                        p <= parser.current <= e,
                        e < ts.len(),
                        errors@.len() == had + (parser.current - p),
                        forall|i: int| 0 <= i < errors@.len() ==> !(#[trigger] errors@[i]).critical,
                    decreases e - parser.current,
                {
                    let t = parser.advance();
                    errors.push(CompilerError::expected("New Line", &t, false));
                }
            },
            Err(err) => {
                errors.push(err);
                parser.current = e;
            },
        }
        proof {
            done = done.push(line);
            let rest = body_from(ts, e as int);
            assert(full.0 =~= done + rest.0);
            assert(done.drop_last() == before);
            if all_lines_ok(done) {
                assert(all_lines_ok(before)) by {
                    assert forall|k: int| 0 <= k < before.len() implies line_ok(#[trigger] before[k]) by {
                        assert(before[k] == done[k]);
                    }
                }
                assert(line_ok(done[done.len() - 1]));
            }
        }
    }
    proof {
        assert(body_errors(done) == 0 <==> all_lines_ok(done)) by {
            lemma_body_errors(done);
        }
    }
    if errors.len() == 0 {
        Ok(instructions)
    } else {
        Err(errors)
    }
}

proof fn lemma_body_errors(lines: Seq<Seq<Token>>)
    ensures
        body_errors(lines) == 0 <==> all_lines_ok(lines),
    decreases lines.len(),
{
    if lines.len() > 0 {
        lemma_body_errors(lines.drop_last());
        lemma_parse_len_line_ok(lines.last());
        lemma_parse_len_bounds(lines.last());
        if all_lines_ok(lines) {
            assert forall|k: int| 0 <= k < lines.drop_last().len() implies line_ok(#[trigger] lines.drop_last()[k]) by {
                assert(lines.drop_last()[k] == lines[k]);
            }
            assert(line_ok(lines[lines.len() - 1]));
        }
        if all_lines_ok(lines.drop_last()) && line_ok(lines.last()) {
            assert forall|k: int| 0 <= k < lines.len() implies line_ok(#[trigger] lines[k]) by {
                if k < lines.len() - 1 {
                    assert(lines.drop_last()[k] == lines[k]);
                }
            }
        }
    }
}

impl SubroutineNode {
    /// Parses `name ':' NL` and the indented body. A malformed header is a
    /// critical error.
    pub fn populate(parser: &mut Parser) -> (r: Result<SubroutineNode, Vec<CompilerError>>)
        requires
            old(parser).wf(),
        ensures
            final(parser).wf(),
            final(parser).moved_on(old(parser)),
            old(parser).current < old(parser).tokens@.len() ==> final(parser).current > old(parser).current,
            r matches Ok(s) ==> {
                &&& forall|i: int| 0 <= i < s.instructions@.len() ==> fresh(#[trigger] s.instructions@[i])
                &&& s.placeholders@.len() == 0
                &&& old(parser).peek_spec().token_type matches TokenType::Identifier(n) ==> s.name@ == n@
            },
            r matches Err(es) ==> es@.len() > 0,
            ({
                let ts = old(parser).tokens@;
                let c = old(parser).current as int;
                let header = old(parser).peek_spec().token_type is Identifier && c + 2 < ts.len()
                    && ts[c + 1].token_type is Colon && ts[c + 2].token_type is NewLine;
                let b = body_from(ts, c + 3);
                &&& old(parser).peek_spec().token_type is Identifier && !header ==> r is Err
                &&& header ==> (r is Ok <==> all_lines_ok(b.0))
                &&& header ==> (r matches Ok(s) ==> {
                    &&& s.instructions@.len() == b.0.len()
                    &&& forall|i: int| 0 <= i < b.0.len() ==> line_node(b.0[i], #[trigger] s.instructions@[i])
                    &&& final(parser).current == b.1
                })
            }),
    {
        parser.skip_new_lines();
        let ghost skipped = parser.current;
        proof {
            if parser.current >= parser.tokens@.len() {
                assert(parser.peek_spec() == parser.tokens@.last());
            }
        }
        let identifier = parser.advance();
        let name = match &identifier.token_type {
            TokenType::Identifier(n) => n.clone(),
            _ => {
                return Err(vec![CompilerError::expected("Identifier", &identifier, true)]);
            },
        };
        let colon = parser.advance();
        match colon.token_type {
            TokenType::Colon => {},
            _ => {
                return Err(vec![CompilerError::expected("Colon", &colon, true)]);
            },
        }
        let new_line = parser.advance();
        match new_line.token_type {
            TokenType::NewLine => {},
            _ => {
                return Err(vec![CompilerError::expected("New Line", &new_line, true)]);
            },
        }
        let instructions = match get_instructions(parser) {
            Ok(v) => v,
            Err(es) => {
                return Err(es);
            },
        };
        Ok(SubroutineNode { name, instructions, placeholders: Scope::new() })
    }

    /// Whether the body is non-empty and does not end in HLT or JMP, which
    /// deserves a warning.
    pub fn lacks_final_jump(&self) -> (r: bool)
        ensures
            r == (self.instructions@.len() > 0 && !(self.instructions@.last() is HLT
                || self.instructions@.last() is JMP)),
    {
        let n = self.instructions.len();
        if n == 0 {
            return false;
        }
        match &self.instructions[n - 1] {
            InstructionNode::HLT | InstructionNode::JMP(_) => false,
            _ => true,
        }
    }

    /// Whether the body is empty, which deserves a warning.
    pub fn is_empty(&self) -> (r: bool)
        ensures
            r == (self.instructions@.len() == 0),
    {
        self.instructions.len() == 0
    }
}

} // verus!
