//! The instruction tree: operands, instruction nodes and macro instances,
//! with their encoded sizes and bytes.

use vstd::prelude::*;
use crate::isa::{Instruction, Register, opcode_of, register_index};
use crate::compiler::{Compiler, first_byte_of, register_bits, second_byte_of};
use crate::number_nodes::{Imm8, Imm16, be_bytes};
use crate::scope::{Scope, lookup};
use crate::lexer::Token;
use vstd::arithmetic::div_mod::{lemma_add_mod_noop, lemma_small_mod};

verus! {

/// A register operand.
#[derive(Debug, Clone, Copy, PartialEq, Eq)]
pub struct RegisterNode(pub Register);

/// A name used where a number is expected, bound at emit time.
#[derive(Debug)]
pub struct PlaceholderNode {
    pub name: String,
}

/// A 16-bit operand: a name or a literal.
#[derive(Debug)]
pub enum PlaceholderOrImm16Node {
    PlaceholderNode(PlaceholderNode),
    Imm16(Imm16),
}

/// An 8-bit operand: a name (its value's low byte is used) or a literal.
#[derive(Debug)]
pub enum PlaceholderOrImm8Node {
    PlaceholderNode(PlaceholderNode),
    Imm8(Imm8),
}

/// A second operand that is a register or an 8-bit value.
#[derive(Debug)]
pub enum RegOrImmNode {
    Immediate(PlaceholderOrImm8Node),
    Register(RegisterNode),
}

/// One line of a subroutine or macro body.
#[derive(Debug)]
pub enum InstructionNode {
    NOP,
    LW(RegisterNode, Option<PlaceholderOrImm16Node>),
    SW(RegisterNode, Option<PlaceholderOrImm16Node>),
    MW(RegisterNode, RegOrImmNode),
    PUSH(RegOrImmNode),
    POP(RegisterNode),
    LDA(PlaceholderOrImm16Node),
    JMP(Option<PlaceholderOrImm16Node>),
    JZ(RegisterNode, Option<PlaceholderOrImm16Node>),
    JC(Option<PlaceholderOrImm16Node>),
    ADD(RegisterNode, RegOrImmNode),
    SUB(RegisterNode, RegOrImmNode),
    OUT(RegOrImmNode),
    HLT,
    Macro(MacroHolder),
    DEF(String),
}

/// A macro call: unresolved (name, argument tokens, the call's first
/// token), or expanded.
#[derive(Debug)]
pub enum MacroHolder {
    Placeholder(String, Vec<Token>, Token),
    Macro(MacroNode),
}

/// An expanded macro: its instructions and the scope they are emitted in.
#[derive(Debug)]
pub struct MacroNode {
    pub instructions: Vec<InstructionNode>,
    pub placeholders: Scope,
}

/// A node of the instruction tree that knows its encoded size.
pub trait Node {
    /// The encoded size in bytes.
    spec fn size(&self) -> nat;

    /// Whether the size can be asked: an unexpanded macro call has none.
    spec fn sized(&self) -> bool;

    /// The encoded size in bytes, modulo 2^16.
    fn get_size(&self) -> (r: u16)
        requires
            self.sized(),
        ensures
            r == self.size() % 65536,
    ;
}

/// The value of a 16-bit operand in `scope`; `None` for an unbound name.
pub open spec fn value16(p: PlaceholderOrImm16Node, scope: Seq<(Seq<char>, u16)>) -> Option<u16> {
    match p {
        PlaceholderOrImm16Node::PlaceholderNode(n) => lookup(scope, n.name@),
        PlaceholderOrImm16Node::Imm16(v) => Some(v.0),
    }
}

/// The byte of an 8-bit operand in `scope`: a name gives the low byte of
/// its value; `None` for an unbound name.
pub open spec fn value8(p: PlaceholderOrImm8Node, scope: Seq<(Seq<char>, u16)>) -> Option<u8> {
    match p {
        PlaceholderOrImm8Node::PlaceholderNode(n) => match lookup(scope, n.name@) {
            Some(v) => Some((v % 256) as u8),
            None => None,
        },
        PlaceholderOrImm8Node::Imm8(v) => Some(v.0),
    }
}

/// The opcode of an instruction node; DEF and macro nodes have none.
pub open spec fn opcode_node(n: InstructionNode) -> Option<Instruction> {
    match n {
        InstructionNode::NOP => Some(Instruction::NOP),
        InstructionNode::LW(_, _) => Some(Instruction::LW),
        InstructionNode::SW(_, _) => Some(Instruction::SW),
        InstructionNode::MW(_, _) => Some(Instruction::MW),
        InstructionNode::PUSH(_) => Some(Instruction::PUSH),
        InstructionNode::POP(_) => Some(Instruction::POP),
        InstructionNode::LDA(_) => Some(Instruction::LDA),
        InstructionNode::JMP(_) => Some(Instruction::JMP),
        InstructionNode::JZ(_, _) => Some(Instruction::JZ),
        InstructionNode::JC(_) => Some(Instruction::JC),
        InstructionNode::ADD(_, _) => Some(Instruction::ADD),
        InstructionNode::SUB(_, _) => Some(Instruction::SUB),
        InstructionNode::OUT(_) => Some(Instruction::OUT),
        InstructionNode::HLT => Some(Instruction::HLT),
        InstructionNode::Macro(_) => None,
        InstructionNode::DEF(_) => None,
    }
}

/// An opcode byte and an optional 16-bit operand in big-endian order.
pub open spec fn with_address(
    op: Instruction,
    reg: Option<Register>,
    operand: Option<PlaceholderOrImm16Node>,
    scope: Seq<(Seq<char>, u16)>,
) -> Option<Seq<u8>> {
    match operand {
        None => Some(seq![first_byte_of(op, false, reg)]),
        Some(p) => match value16(p, scope) {
            Some(v) => Some(seq![first_byte_of(op, true, reg)] + be_bytes(v)),
            None => None,
        },
    }
}

/// MW, ADD, SUB: the two-register form, or the register and an 8-bit value.
pub open spec fn with_second(
    op: Instruction,
    reg: Register,
    operand: RegOrImmNode,
    scope: Seq<(Seq<char>, u16)>,
) -> Option<Seq<u8>> {
    match operand {
        RegOrImmNode::Register(b) => Some(seq![first_byte_of(op, false, Some(reg)), second_byte_of(b.0)]),
        RegOrImmNode::Immediate(p) => match value8(p, scope) {
            Some(v) => Some(seq![first_byte_of(op, true, Some(reg)), v]),
            None => None,
        },
    }
}

/// PUSH, OUT: a register, or an 8-bit value after a register-less byte.
pub open spec fn with_source(op: Instruction, operand: RegOrImmNode, scope: Seq<(Seq<char>, u16)>) -> Option<
    Seq<u8>,
> {
    match operand {
        RegOrImmNode::Register(r) => Some(seq![first_byte_of(op, false, Some(r.0))]),
        RegOrImmNode::Immediate(p) => match value8(p, scope) {
            Some(v) => Some(seq![first_byte_of(op, true, None), v]),
            None => None,
        },
    }
}

/// The bytes of an instruction that is not a macro call, in `scope`;
/// `None` when an operand names nothing bound there, or for a macro call.
pub open spec fn encode_plain(n: InstructionNode, scope: Seq<(Seq<char>, u16)>) -> Option<Seq<u8>> {
    match n {
        InstructionNode::NOP => Some(seq![first_byte_of(Instruction::NOP, false, None)]),
        InstructionNode::LW(r, a) => with_address(Instruction::LW, Some(r.0), a, scope),
        InstructionNode::SW(r, a) => with_address(Instruction::SW, Some(r.0), a, scope),
        InstructionNode::MW(r, o) => with_second(Instruction::MW, r.0, o, scope),
        InstructionNode::PUSH(o) => with_source(Instruction::PUSH, o, scope),
        InstructionNode::POP(r) => Some(seq![first_byte_of(Instruction::POP, false, Some(r.0))]),
        InstructionNode::LDA(a) => with_address(Instruction::LDA, None, Some(a), scope),
        InstructionNode::JMP(a) => with_address(Instruction::JMP, None, a, scope),
        InstructionNode::JZ(r, a) => with_address(Instruction::JZ, Some(r.0), a, scope),
        InstructionNode::JC(a) => with_address(Instruction::JC, None, a, scope),
        InstructionNode::ADD(r, o) => with_second(Instruction::ADD, r.0, o, scope),
        InstructionNode::SUB(r, o) => with_second(Instruction::SUB, r.0, o, scope),
        InstructionNode::OUT(o) => with_source(Instruction::OUT, o, scope),
        InstructionNode::HLT => Some(seq![first_byte_of(Instruction::HLT, false, None)]),
        InstructionNode::Macro(_) => None,
        InstructionNode::DEF(_) => Some(Seq::empty()),
    }
}

/// The bytes of a macro body, each instruction in `scope`.
pub open spec fn encode_body(nodes: Seq<InstructionNode>, scope: Seq<(Seq<char>, u16)>) -> Option<Seq<u8>>
    decreases nodes.len(),
{
    if nodes.len() == 0 {
        Some(Seq::empty())
    } else {
        match (encode_body(nodes.drop_last(), scope), encode_plain(nodes.last(), scope)) {
            (Some(a), Some(b)) => Some(a + b),
            _ => None,
        }
    }
}

/// The bytes of an instruction in `scope`; an expanded macro is emitted in
/// its own scope.
pub open spec fn encode(n: InstructionNode, scope: Seq<(Seq<char>, u16)>) -> Option<Seq<u8>> {
    match n {
        InstructionNode::Macro(MacroHolder::Macro(m)) => encode_body(m.instructions@, m.placeholders@),
        _ => encode_plain(n, scope),
    }
}

/// The bytes of a subroutine body, each instruction in `scope`.
pub open spec fn encode_list(nodes: Seq<InstructionNode>, scope: Seq<(Seq<char>, u16)>) -> Option<Seq<u8>>
    decreases nodes.len(),
{
    if nodes.len() == 0 {
        Some(Seq::empty())
    } else {
        match (encode_list(nodes.drop_last(), scope), encode(nodes.last(), scope)) {
            (Some(a), Some(b)) => Some(a + b),
            _ => None,
        }
    }
}

/// The encoded size of an instruction that is not a macro call.
pub open spec fn size_plain(n: InstructionNode) -> nat {
    match n {
        InstructionNode::LW(_, a) | InstructionNode::SW(_, a) | InstructionNode::JMP(a) | InstructionNode::JZ(_, a)
        | InstructionNode::JC(a) => if a is Some { 3 } else { 1 },
        InstructionNode::MW(_, _) | InstructionNode::ADD(_, _) | InstructionNode::SUB(_, _) => 2,
        InstructionNode::PUSH(o) | InstructionNode::OUT(o) => if o is Register { 1 } else { 2 },
        InstructionNode::LDA(_) => 3,
        InstructionNode::DEF(_) | InstructionNode::Macro(_) => 0,
        _ => 1,
    }
}

/// The encoded size of a macro body.
pub open spec fn body_size(nodes: Seq<InstructionNode>) -> nat
    decreases nodes.len(),
{
    if nodes.len() == 0 {
        0
    } else {
        body_size(nodes.drop_last()) + size_plain(nodes.last())
    }
}

/// The encoded size of an instruction; an expanded macro is the sum of its
/// body.
pub open spec fn size_of(n: InstructionNode) -> nat {
    match n {
        InstructionNode::Macro(MacroHolder::Macro(m)) => body_size(m.instructions@),
        _ => size_plain(n),
    }
}

/// The encoded size of a subroutine body.
pub open spec fn list_size(nodes: Seq<InstructionNode>) -> nat
    decreases nodes.len(),
{
    if nodes.len() == 0 {
        0
    } else {
        list_size(nodes.drop_last()) + size_of(nodes.last())
    }
}

/// An instruction is not an unexpanded macro call.
pub open spec fn populated(n: InstructionNode) -> bool {
    !(n matches InstructionNode::Macro(MacroHolder::Placeholder(..)))
}

/// A macro body holds no macro call.
pub open spec fn plain_body(nodes: Seq<InstructionNode>) -> bool {
    forall|i: int| 0 <= i < nodes.len() ==> !(#[trigger] nodes[i] is Macro)
}

/// Every macro call in a list is expanded, and no expansion holds a macro.
pub open spec fn expanded(nodes: Seq<InstructionNode>) -> bool {
    forall|i: int|
        0 <= i < nodes.len() ==> populated(#[trigger] nodes[i]) && (nodes[i] matches InstructionNode::Macro(
            MacroHolder::Macro(m),
        ) ==> plain_body(m.instructions@))
}

/// The bytes of a well-formed instruction are as many as its size.
pub proof fn lemma_plain_size(n: InstructionNode, scope: Seq<(Seq<char>, u16)>)
    ensures
        encode_plain(n, scope) matches Some(b) ==> b.len() == size_plain(n),
{
}

/// The bytes of a macro body are as many as its size.
pub proof fn lemma_body_size(nodes: Seq<InstructionNode>, scope: Seq<(Seq<char>, u16)>)
    ensures
        encode_body(nodes, scope) matches Some(b) ==> b.len() == body_size(nodes),
    decreases nodes.len(),
{
    if nodes.len() > 0 {
        lemma_body_size(nodes.drop_last(), scope);
        lemma_plain_size(nodes.last(), scope);
    }
}

/// The bytes of a subroutine body are as many as its size.
pub proof fn lemma_list_size(nodes: Seq<InstructionNode>, scope: Seq<(Seq<char>, u16)>)
    ensures
        encode_list(nodes, scope) matches Some(b) ==> b.len() == list_size(nodes),
    decreases nodes.len(),
{
    if nodes.len() > 0 {
        lemma_list_size(nodes.drop_last(), scope);
        lemma_plain_size(nodes.last(), scope);
        if let InstructionNode::Macro(MacroHolder::Macro(m)) = nodes.last() {
            lemma_body_size(m.instructions@, m.placeholders@);
        }
    }
}

impl PlaceholderNode {
    /// Emits the value bound to this name: two bytes, high first, or only
    /// the low byte when `imm8`. An unbound name is an error carrying it.
    pub fn compile(&self, compiler: &mut Compiler, imm8: bool) -> (r: Result<(), String>)
        ensures
            final(compiler).scope == old(compiler).scope,
            r is Ok <==> lookup(old(compiler).scope@, self.name@) is Some,
            r matches Ok(_) ==> {
                let v = lookup(old(compiler).scope@, self.name@)->0;
                final(compiler).bytes@ == old(compiler).bytes@ + if imm8 {
                    seq![(v % 256) as u8]
                } else {
                    be_bytes(v)
                }
            },
            r matches Err(name) ==> name@ == self.name@ && final(compiler).bytes == old(compiler).bytes,
    {
        match compiler.scope.get(&self.name) {
            Some(value) => {
                if imm8 {
                    Imm8::from_imm16(Imm16(value)).compile(compiler);
                    assert(compiler.bytes@ =~= old(compiler).bytes@ + seq![(value % 256) as u8]);
                } else {
                    Imm16(value).compile(compiler);
                }
                Ok(())
            },
            None => Err(self.name.clone()),
        }
    }
}

impl PlaceholderOrImm16Node {
    /// A 16-bit operand occupies two bytes.
    pub fn get_size(&self) -> (r: u16)
        ensures
            r == 2,
    {
        2
    }

    /// Emits the operand's value, high byte first.
    pub fn compile(&self, compiler: &mut Compiler) -> (r: Result<(), String>)
        ensures
            final(compiler).scope == old(compiler).scope,
            r is Ok <==> value16(*self, old(compiler).scope@) is Some,
            r is Ok ==> final(compiler).bytes@ == old(compiler).bytes@ + be_bytes(
                value16(*self, old(compiler).scope@)->0,
            ),
    {
        match self {
            PlaceholderOrImm16Node::PlaceholderNode(node) => node.compile(compiler, false),
            PlaceholderOrImm16Node::Imm16(node) => {
                node.compile(compiler);
                Ok(())
            },
        }
    }
}

impl PlaceholderOrImm8Node {
    /// An 8-bit operand occupies one byte.
    pub fn get_size(&self) -> (r: u16)
        ensures
            r == 1,
    {
        1
    }

    /// Emits the operand's byte.
    pub fn compile(&self, compiler: &mut Compiler) -> (r: Result<(), String>)
        ensures
            final(compiler).scope == old(compiler).scope,
            r is Ok <==> value8(*self, old(compiler).scope@) is Some,
            r is Ok ==> final(compiler).bytes@ == old(compiler).bytes@.push(value8(*self, old(compiler).scope@)->0),
    {
        match self {
            PlaceholderOrImm8Node::PlaceholderNode(node) => {
                let r = node.compile(compiler, true);
                assert(r is Ok ==> compiler.bytes@ =~= old(compiler).bytes@.push(value8(*self, old(compiler).scope@)->0));
                r
            },
            PlaceholderOrImm8Node::Imm8(node) => {
                node.compile(compiler);
                Ok(())
            },
        }
    }
}

/// The opcode of an instruction node that has one.
pub fn node_to_instr(node: &InstructionNode) -> (r: Instruction)
    requires
        opcode_node(*node) is Some,
    ensures
        opcode_node(*node) == Some(r),
{
    match node {
        InstructionNode::NOP => Instruction::NOP,
        InstructionNode::LW(_, _) => Instruction::LW,
        InstructionNode::SW(_, _) => Instruction::SW,
        InstructionNode::MW(_, _) => Instruction::MW,
        InstructionNode::PUSH(_) => Instruction::PUSH,
        InstructionNode::POP(_) => Instruction::POP,
        InstructionNode::LDA(_) => Instruction::LDA,
        InstructionNode::JMP(_) => Instruction::JMP,
        InstructionNode::JZ(_, _) => Instruction::JZ,
        InstructionNode::JC(_) => Instruction::JC,
        InstructionNode::ADD(_, _) => Instruction::ADD,
        InstructionNode::SUB(_, _) => Instruction::SUB,
        InstructionNode::OUT(_) => Instruction::OUT,
        InstructionNode::HLT => Instruction::HLT,
        _ => Instruction::NOP,
    }
}

fn compile_address(
    compiler: &mut Compiler,
    op: Instruction,
    reg: Option<Register>,
    operand: &Option<PlaceholderOrImm16Node>,
) -> (r: Result<(), String>)
    ensures
        final(compiler).scope == old(compiler).scope,
        r is Ok <==> with_address(op, reg, *operand, old(compiler).scope@) is Some,
        r is Ok ==> final(compiler).bytes@ == old(compiler).bytes@ + with_address(op, reg, *operand, old(compiler).scope@)->0,
{
    match operand {
        None => {
            compiler.first_byte(op, false, reg);
            assert(compiler.bytes@ =~= old(compiler).bytes@ + seq![first_byte_of(op, false, reg)]);
            Ok(())
        },
        Some(val) => {
            compiler.first_byte(op, true, reg);
            let r = val.compile(compiler);
            assert(r is Ok ==> compiler.bytes@ =~= old(compiler).bytes@ + (seq![first_byte_of(op, true, reg)] + be_bytes(value16(*val, old(compiler).scope@)->0)));
            r
        },
    }
}

fn compile_second(compiler: &mut Compiler, op: Instruction, reg: Register, operand: &RegOrImmNode) -> (r: Result<(), String>)
    ensures
        final(compiler).scope == old(compiler).scope,
        r is Ok <==> with_second(op, reg, *operand, old(compiler).scope@) is Some,
        r is Ok ==> final(compiler).bytes@ == old(compiler).bytes@ + with_second(op, reg, *operand, old(compiler).scope@)->0,
{
    match operand {
        RegOrImmNode::Register(reg_b) => {
            compiler.two_bytes(op, false, reg, reg_b.0);
            assert(compiler.bytes@ =~= old(compiler).bytes@ + seq![first_byte_of(op, false, Some(reg)), second_byte_of(reg_b.0)]);
            Ok(())
        },
        RegOrImmNode::Immediate(imm) => {
            compiler.first_byte(op, true, Some(reg));
            let r = imm.compile(compiler);
            assert(r is Ok ==> compiler.bytes@ =~= old(compiler).bytes@ + seq![first_byte_of(op, true, Some(reg)), value8(*imm, old(compiler).scope@)->0]);
            r
        },
    }
}

fn compile_source(compiler: &mut Compiler, op: Instruction, operand: &RegOrImmNode) -> (r: Result<(), String>)
    ensures
        final(compiler).scope == old(compiler).scope,
        r is Ok <==> with_source(op, *operand, old(compiler).scope@) is Some,
        r is Ok ==> final(compiler).bytes@ == old(compiler).bytes@ + with_source(op, *operand, old(compiler).scope@)->0,
{
    match operand {
        RegOrImmNode::Register(reg) => {
            compiler.first_byte(op, false, Some(reg.0));
            assert(compiler.bytes@ =~= old(compiler).bytes@ + seq![first_byte_of(op, false, Some(reg.0))]);
            Ok(())
        },
        RegOrImmNode::Immediate(imm) => {
            compiler.first_byte(op, true, None);
            let r = imm.compile(compiler);
            assert(r is Ok ==> compiler.bytes@ =~= old(compiler).bytes@ + seq![first_byte_of(op, true, None), value8(*imm, old(compiler).scope@)->0]);
            r
        },
    }
}

impl InstructionNode {
    /// Whether this is a label.
    pub fn is_def(&self) -> (r: bool)
        ensures
            r == (*self is DEF),
    {
        match self {
            InstructionNode::DEF(_) => true,
            _ => false,
        }
    }

    /// The encoded size in bytes of an instruction that is not a macro call.
    pub fn plain_size(&self) -> (r: u16)
        ensures
            r == size_plain(*self),
    {
        match self {
            InstructionNode::LW(_, a) | InstructionNode::SW(_, a) | InstructionNode::JMP(a) | InstructionNode::JZ(
                _,
                a,
            ) | InstructionNode::JC(a) => if a.is_some() {
                3
            } else {
                1
            },
            InstructionNode::MW(_, _) | InstructionNode::ADD(_, _) | InstructionNode::SUB(_, _) => 2,
            InstructionNode::PUSH(o) | InstructionNode::OUT(o) => match o {
                RegOrImmNode::Register(_) => 1,
                RegOrImmNode::Immediate(_) => 2,
            },
            InstructionNode::LDA(_) => 3,
            InstructionNode::DEF(_) | InstructionNode::Macro(_) => 0,
            _ => 1,
        }
    }

    /// The encoded size in bytes, modulo 2^16 for a large macro.
    pub fn get_size(&self) -> (r: u16)
        requires
            populated(*self),
        ensures
            r == size_of(*self) % 65536,
    {
        match self {
            InstructionNode::Macro(MacroHolder::Macro(m)) => m.get_size(),
            _ => self.plain_size(),
        }
    }

    /// Emits an instruction that is not a macro call, under the active scope.
    pub fn compile_plain(&self, compiler: &mut Compiler) -> (r: Result<(), String>)
        requires
            !(*self is Macro),
        ensures
            final(compiler).scope == old(compiler).scope,
            r is Ok <==> encode_plain(*self, old(compiler).scope@) is Some,
            r is Ok ==> final(compiler).bytes@ == old(compiler).bytes@ + encode_plain(*self, old(compiler).scope@)->0,
    {
        match self {
            InstructionNode::NOP | InstructionNode::HLT => {
                let op = node_to_instr(self);
                compiler.first_byte(op, false, None);
                assert(compiler.bytes@ =~= old(compiler).bytes@ + seq![first_byte_of(op, false, None)]);
                Ok(())
            },
            InstructionNode::LW(reg, a) | InstructionNode::SW(reg, a) | InstructionNode::JZ(reg, a) => {
                compile_address(compiler, node_to_instr(self), Some(reg.0), a)
            },
            InstructionNode::JMP(a) | InstructionNode::JC(a) => compile_address(compiler, node_to_instr(self), None, a),
            InstructionNode::LDA(a) => {
                compiler.first_byte(Instruction::LDA, true, None);
                let r = a.compile(compiler);
                assert(r is Ok ==> compiler.bytes@ =~= old(compiler).bytes@ + (seq![first_byte_of(Instruction::LDA, true, None)] + be_bytes(value16(*a, old(compiler).scope@)->0)));
                r
            },
            InstructionNode::MW(reg, o) | InstructionNode::ADD(reg, o) | InstructionNode::SUB(reg, o) => {
                compile_second(compiler, node_to_instr(self), reg.0, o)
            },
            InstructionNode::PUSH(o) | InstructionNode::OUT(o) => compile_source(compiler, node_to_instr(self), o),
            InstructionNode::POP(reg) => {
                compiler.first_byte(Instruction::POP, false, Some(reg.0));
                assert(compiler.bytes@ =~= old(compiler).bytes@ + seq![first_byte_of(Instruction::POP, false, Some(reg.0))]);
                Ok(())
            },
            InstructionNode::DEF(_) => {
                assert(compiler.bytes@ =~= old(compiler).bytes@ + Seq::<u8>::empty());
                Ok(())
            },
            InstructionNode::Macro(_) => Ok(()),
        }
    }

    /// Emits this instruction; an expanded macro is emitted in its own scope.
    pub fn compile(&self, compiler: &mut Compiler) -> (r: Result<(), String>)
        requires
            populated(*self),
            self matches InstructionNode::Macro(MacroHolder::Macro(m)) ==> plain_body(m.instructions@),
        ensures
            final(compiler).scope == old(compiler).scope,
            r is Ok <==> encode(*self, old(compiler).scope@) is Some,
            r is Ok ==> final(compiler).bytes@ == old(compiler).bytes@ + encode(*self, old(compiler).scope@)->0,
    {
        match self {
            InstructionNode::Macro(MacroHolder::Macro(m)) => m.compile(compiler),
            _ => self.compile_plain(compiler),
        }
    }
}

impl MacroNode {
    /// The body's encoded size, modulo 2^16.
    pub fn get_size(&self) -> (r: u16)
        ensures
            r == body_size(self.instructions@) % 65536,
    {
        let mut size: u16 = 0;
        let mut i: usize = 0;
        while i < self.instructions.len()
            invariant
                i <= self.instructions@.len(),
                size == body_size(self.instructions@.subrange(0, i as int)) % 65536,
            decreases self.instructions@.len() - i,
        {
            let n = &self.instructions[i];
            let s: u16 = n.plain_size();
            proof {
                let prefix = self.instructions@.subrange(0, i + 1);
                assert(prefix.drop_last() =~= self.instructions@.subrange(0, i as int));
                assert(s == size_plain(*n) % 65536);
                lemma_add_mod_noop(body_size(prefix.drop_last()) as int, size_plain(*n) as int, 65536);
                lemma_small_mod(size_plain(*n), 65536);
            }
            size = ((size as u32 + s as u32) % 65536) as u16;
            i = i + 1;
        }
        assert(self.instructions@.subrange(0, i as int) =~= self.instructions@);
        size
    }

    /// Emits the body in this macro's scope; the active scope is restored.
    pub fn compile(&self, compiler: &mut Compiler) -> (r: Result<(), String>)
        requires
            plain_body(self.instructions@),
        ensures
            final(compiler).scope == old(compiler).scope,
            r is Ok <==> encode_body(self.instructions@, self.placeholders@) is Some,
            r is Ok ==> final(compiler).bytes@ == old(compiler).bytes@ + encode_body(
                self.instructions@,
                self.placeholders@,
            )->0,
    {
        let mut scope = self.placeholders.copy();
        std::mem::swap(&mut compiler.scope, &mut scope);
        let mut i: usize = 0;
        while i < self.instructions.len()
            invariant
                i <= self.instructions@.len(),
                plain_body(self.instructions@),
                compiler.scope@ == self.placeholders@,
                scope == old(compiler).scope,
                encode_body(self.instructions@.subrange(0, i as int), self.placeholders@) matches Some(b)
                    && compiler.bytes@ == old(compiler).bytes@ + b,
            decreases self.instructions@.len() - i,
        {
            let ghost before = compiler.bytes@;
            let n = &self.instructions[i];
            proof {
                assert(!(self.instructions@[i as int] is Macro));
                assert(self.instructions@.subrange(0, i + 1).drop_last() =~= self.instructions@.subrange(0, i as int));
            }
            match n.compile_plain(compiler) {
                Ok(()) => {},
                Err(e) => {
                    proof {
                        let k = i as int;
                        lemma_body_none_extends(self.instructions@, self.placeholders@, k + 1);
                    }
                    std::mem::swap(&mut compiler.scope, &mut scope);
                    return Err(e);
                },
            }
            i = i + 1;
            proof {
                let b = encode_body(self.instructions@.subrange(0, i - 1), self.placeholders@)->0;
                assert(compiler.bytes@ =~= old(compiler).bytes@ + (b + encode_plain(*n, self.placeholders@)->0));
            }
        }
        assert(self.instructions@.subrange(0, i as int) =~= self.instructions@);
        std::mem::swap(&mut compiler.scope, &mut scope);
        Ok(())
    }
}

/// The labels of a macro body placed from `start`: each DEF bound to the
/// position it stands at, modulo 2^16.
pub open spec fn body_defs(nodes: Seq<InstructionNode>, start: int) -> Seq<(Seq<char>, u16)>
    decreases nodes.len(),
{
    if nodes.len() == 0 {
        Seq::empty()
    } else {
        let prev = body_defs(nodes.drop_last(), start);
        match nodes.last() {
            InstructionNode::DEF(name) => prev.push((name@, ((start + body_size(nodes.drop_last())) % 65536) as u16)),
            _ => prev,
        }
    }
}

impl MacroNode {
    /// Places this instance at `position`: its scope becomes `placeholders`
    /// followed by its own labels, and `position` moves past its body.
    pub fn calculate_placeholders(&mut self, position: &mut u16, placeholders: &Scope)
        requires
            plain_body(old(self).instructions@),
        ensures
            final(self).instructions == old(self).instructions,
            final(self).placeholders@ == placeholders@ + body_defs(old(self).instructions@, *old(position) as int),
            *final(position) as int == (*old(position) + body_size(old(self).instructions@)) % 65536,
    {
        let ghost start = *position as int;
        self.placeholders = placeholders.copy();
        let mut i: usize = 0;
        proof {
            assert(self.instructions@.subrange(0, 0) =~= Seq::<InstructionNode>::empty());
            assert(self.placeholders@ =~= placeholders@ + Seq::<(Seq<char>, u16)>::empty());
            lemma_small_mod(start as nat, 65536);
        }
        while i < self.instructions.len()
            invariant
                i <= self.instructions@.len(),
                self.instructions == old(self).instructions,
                plain_body(self.instructions@),
                self.placeholders@ == placeholders@ + body_defs(self.instructions@.subrange(0, i as int), start),
                *position as int == (start + body_size(self.instructions@.subrange(0, i as int))) % 65536,
            decreases self.instructions@.len() - i,
        {
            let ghost prefix = self.instructions@.subrange(0, i + 1);
            proof {
                assert(prefix.drop_last() =~= self.instructions@.subrange(0, i as int));
            }
            match &self.instructions[i] {
                InstructionNode::DEF(name) => {
                    self.placeholders.insert(name.clone(), *position);
                    assert(self.placeholders@ =~= placeholders@ + body_defs(prefix, start));
                },
                n => {
                    let s = n.plain_size();
                    proof {
                        lemma_add_mod_noop(start + body_size(prefix.drop_last()), size_plain(*n) as int, 65536);
                        lemma_small_mod(size_plain(*n), 65536);
                    }
                    *position = ((*position as u32 + s as u32) % 65536) as u16;
                },
            }
            i = i + 1;
        }
        assert(self.instructions@.subrange(0, i as int) =~= self.instructions@);
    }
}

/// The immediate flag that an instruction's operand form requires.
pub open spec fn immediate_form(n: InstructionNode) -> bool {
    match n {
        InstructionNode::LW(_, a) | InstructionNode::SW(_, a) | InstructionNode::JMP(a) | InstructionNode::JZ(_, a)
        | InstructionNode::JC(a) => a is Some,
        InstructionNode::MW(_, o) | InstructionNode::ADD(_, o) | InstructionNode::SUB(_, o) | InstructionNode::PUSH(o)
        | InstructionNode::OUT(o) => o is Immediate,
        InstructionNode::LDA(_) => true,
        _ => false,
    }
}

/// The register that an instruction's first byte selects, if any.
pub open spec fn register_operand(n: InstructionNode) -> Option<Register> {
    match n {
        InstructionNode::LW(r, _) | InstructionNode::SW(r, _) | InstructionNode::JZ(r, _) | InstructionNode::POP(r)
        | InstructionNode::MW(r, _) | InstructionNode::ADD(r, _) | InstructionNode::SUB(r, _) => Some(r.0),
        InstructionNode::PUSH(o) | InstructionNode::OUT(o) => match o {
            RegOrImmNode::Register(r) => Some(r.0),
            RegOrImmNode::Immediate(_) => None,
        },
        _ => None,
    }
}

/// The fields of a first byte read back: bits 3-7 are the opcode, bit 2 the
/// immediate flag, bits 0-1 the register selector (0 without a register).
pub proof fn lemma_first_byte_fields(op: Instruction, immediate: bool, reg: Option<Register>)
    ensures
        (first_byte_of(op, immediate, reg) >> 3) & 0x1F == opcode_of(op),
        (first_byte_of(op, immediate, reg) >> 2) & 1 == (if immediate { 1u8 } else { 0u8 }),
        first_byte_of(op, immediate, reg) & 3 == register_bits(reg) as u8,
{
    let o = opcode_of(op);
    let i: u8 = if immediate { 1 } else { 0 };
    let r = register_bits(reg) as u8;
    assert(o < 32 && r < 4);
    let b: u8 = first_byte_of(op, immediate, reg);
    assert(b == o * 8 + i * 4 + r);
    assert((b >> 3) & 0x1F == o && (b >> 2) & 1 == i && b & 3 == r) by (bit_vector)
        requires
            b == o * 8 + i * 4 + r,
            o < 32,
            i < 2,
            r < 4,
    ;
}

/// Every emitted instruction starts with its opcode, the immediate flag its
/// operand form requires, and its register selector (0 if it takes none).
pub proof fn lemma_opcode_packing(n: InstructionNode, scope: Seq<(Seq<char>, u16)>)
    requires
        opcode_node(n) is Some,
        encode_plain(n, scope) is Some,
    ensures
        ({
            let b = encode_plain(n, scope)->0[0];
            &&& (b >> 3) & 0x1F == opcode_of(opcode_node(n)->0)
            &&& (b >> 2) & 1 == (if immediate_form(n) { 1u8 } else { 0u8 })
            &&& b & 3 == register_bits(register_operand(n)) as u8
        }),
{
    let b = encode_plain(n, scope)->0;
    assert(b[0] == first_byte_of(opcode_node(n)->0, immediate_form(n), register_operand(n)));
    lemma_first_byte_fields(opcode_node(n)->0, immediate_form(n), register_operand(n));
}

/// In the two-register form of MW, ADD and SUB, the second byte carries the
/// second register in its top two bits and zeros below.
pub proof fn lemma_two_byte_form(n: InstructionNode, scope: Seq<(Seq<char>, u16)>)
    requires
        n matches InstructionNode::MW(_, RegOrImmNode::Register(_)) || n matches InstructionNode::ADD(
            _,
            RegOrImmNode::Register(_),
        ) || n matches InstructionNode::SUB(_, RegOrImmNode::Register(_)),
    ensures
        ({
            let b = encode_plain(n, scope)->0;
            let rb = match n {
                InstructionNode::MW(_, RegOrImmNode::Register(r)) | InstructionNode::ADD(_, RegOrImmNode::Register(r))
                | InstructionNode::SUB(_, RegOrImmNode::Register(r)) => r.0,
                _ => Register::A,
            };
            &&& encode_plain(n, scope) is Some
            &&& b.len() == 2
            &&& (b[1] >> 6) & 3 == register_index(rb)
            &&& b[1] & 0x3F == 0
        }),
{
    let rb = match n {
        InstructionNode::MW(_, RegOrImmNode::Register(r)) | InstructionNode::ADD(_, RegOrImmNode::Register(r))
        | InstructionNode::SUB(_, RegOrImmNode::Register(r)) => r.0,
        _ => Register::A,
    };
    let x = register_index(rb);
    let y = second_byte_of(rb);
    assert(y == x * 64);
    assert((y >> 6) & 3 == x && y & 0x3F == 0) by (bit_vector)
        requires
            y == x * 64,
            x < 4,
    ;
}

/// A 16-bit address operand naming `name` is emitted as the big-endian bytes
/// of the value `scope` binds it to; an 8-bit operand as that value's low
/// byte.
pub proof fn lemma_placeholder_resolution(name: PlaceholderNode, scope: Seq<(Seq<char>, u16)>, v: u16)
    requires
        lookup(scope, name.name@) == Some(v),
    ensures
        value16(PlaceholderOrImm16Node::PlaceholderNode(name), scope) == Some(v),
        be_bytes(v) == seq![(v >> 8) as u8, (v & 0xFF) as u8],
        value8(PlaceholderOrImm8Node::PlaceholderNode(name), scope) == Some((v & 0xFF) as u8),
{
    assert((v >> 8) == v / 256 && (v & 0xFF) == v % 256) by (bit_vector);
    assert(be_bytes(v) =~= seq![(v >> 8) as u8, (v & 0xFF) as u8]);
}

impl Node for Imm8 {
    open spec fn size(&self) -> nat {
        1
    }

    open spec fn sized(&self) -> bool {
        true
    }

    fn get_size(&self) -> (r: u16) {
        Imm8::get_size(self)
    }
}

impl Node for Imm16 {
    open spec fn size(&self) -> nat {
        2
    }

    open spec fn sized(&self) -> bool {
        true
    }

    fn get_size(&self) -> (r: u16) {
        Imm16::get_size(self)
    }
}

impl Node for PlaceholderOrImm16Node {
    open spec fn size(&self) -> nat {
        2
    }

    open spec fn sized(&self) -> bool {
        true
    }

    fn get_size(&self) -> (r: u16) {
        PlaceholderOrImm16Node::get_size(self)
    }
}

impl Node for PlaceholderOrImm8Node {
    open spec fn size(&self) -> nat {
        1
    }

    open spec fn sized(&self) -> bool {
        true
    }

    fn get_size(&self) -> (r: u16) {
        PlaceholderOrImm8Node::get_size(self)
    }
}

impl Node for InstructionNode {
    open spec fn size(&self) -> nat {
        size_of(*self)
    }

    open spec fn sized(&self) -> bool {
        populated(*self)
    }

    fn get_size(&self) -> (r: u16) {
        InstructionNode::get_size(self)
    }
}

impl Node for MacroNode {
    open spec fn size(&self) -> nat {
        body_size(self.instructions@)
    }

    open spec fn sized(&self) -> bool {
        true
    }

    fn get_size(&self) -> (r: u16) {
        MacroNode::get_size(self)
    }
}

/// When a prefix of a macro body does not encode, neither does the body.
proof fn lemma_body_none_extends(nodes: Seq<InstructionNode>, scope: Seq<(Seq<char>, u16)>, k: int)
    requires
        0 <= k <= nodes.len(),
        encode_body(nodes.subrange(0, k), scope) is None,
    ensures
        encode_body(nodes, scope) is None,
    decreases nodes.len() - k,
{
    if k < nodes.len() {
        assert(nodes.subrange(0, k + 1).drop_last() =~= nodes.subrange(0, k));
        lemma_body_none_extends(nodes, scope, k + 1);
    } else {
        assert(nodes.subrange(0, k) =~= nodes);
    }
}

} // verus!
