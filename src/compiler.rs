//! The byte emitter: a growing image and the scope that placeholders are
//! resolved against.

use vstd::prelude::*;
use crate::isa::{Instruction, Register, opcode_of, register_index};
use crate::scope::Scope;

verus! {

/// The register bits of a first byte: the selector, or 0 without a register.
pub open spec fn register_bits(reg: Option<Register>) -> int {
    match reg {
        Some(r) => register_index(r) as int,
        None => 0,
    }
}

/// The first byte of an instruction, laid out `OOOOO_I_RR`.
pub open spec fn first_byte_of(op: Instruction, immediate: bool, reg: Option<Register>) -> u8 {
    (opcode_of(op) * 8 + (if immediate { 4int } else { 0int }) + register_bits(reg)) as u8
}

/// The second byte of the two-register form, laid out `BB_000000`.
pub open spec fn second_byte_of(reg_b: Register) -> u8 {
    (register_index(reg_b) * 64) as u8
}

/// Emission state: the bytes written so far and the active scope.
pub struct Compiler {
    pub bytes: Vec<u8>,
    pub scope: Scope,
}

impl Compiler {
    /// An emitter with no bytes and an empty scope.
    pub fn new() -> (r: Compiler)
        ensures
            r.bytes@ == Seq::<u8>::empty(),
            r.scope@ == Seq::<(Seq<char>, u16)>::empty(),
    {
        Compiler { bytes: Vec::new(), scope: Scope::new() }
    }

    /// Appends one byte.
    pub fn add_byte(&mut self, byte: u8)
        ensures
            final(self).bytes@ == old(self).bytes@.push(byte),
            final(self).scope == old(self).scope,
    {
        self.bytes.push(byte)
    }

    /// Appends bytes in order.
    pub fn add_bytes(&mut self, bytes: &[u8])
        ensures
            final(self).bytes@ == old(self).bytes@ + bytes@,
            final(self).scope == old(self).scope,
    {
        let mut i: usize = 0;
        while i < bytes.len()
            invariant
                i <= bytes@.len(),
                self.bytes@ == old(self).bytes@ + bytes@.subrange(0, i as int),
                self.scope == old(self).scope,
            decreases bytes@.len() - i,
        {
            self.add_byte(bytes[i]);
            i = i + 1;
            assert(self.bytes@ =~= old(self).bytes@ + bytes@.subrange(0, i as int));
        }
        assert(bytes@.subrange(0, i as int) =~= bytes@);
    }

    /// Appends the first byte of an instruction: opcode, immediate flag and
    /// register selector.
    pub fn first_byte(&mut self, instruction: Instruction, immediate: bool, register: Option<Register>)
        ensures
            final(self).bytes@ == old(self).bytes@.push(first_byte_of(instruction, immediate, register)),
            final(self).scope == old(self).scope,
    {
        let opcode = instruction.opcode();
        let mut byte: u8 = opcode * 8;
        if immediate {
            byte = byte + 4;
        }
        if let Some(reg) = register {
            byte = byte + reg.index();
        }
        self.add_byte(byte);
    }

    /// Appends the two-register form: the first byte with `register_a`, then a
    /// byte whose top two bits select `register_b`.
    pub fn two_bytes(&mut self, instruction: Instruction, immediate: bool, register_a: Register, register_b: Register)
        ensures
            final(self).bytes@ == old(self).bytes@.push(first_byte_of(instruction, immediate, Some(register_a))).push(
                second_byte_of(register_b),
            ),
            final(self).scope == old(self).scope,
    {
        self.first_byte(instruction, immediate, Some(register_a));
        let b_code = register_b.index();
        self.add_byte(b_code * 64);
    }
}

} // verus!
