//! The instruction set: opcodes and register selectors.

use vstd::prelude::*;

verus! {

/// An opcode of the bread computer.
#[derive(PartialEq, Eq, Structural, Clone, Copy, Debug)]
pub enum Instruction {
    LW,
    SW,
    MW,
    PUSH,
    POP,
    LDA,
    JMP,
    JZ,
    JC,
    ADD,
    SUB,
    OUT,
    HLT,
    NOP,
}

/// The 5-bit code of each opcode; NOP is pinned to all ones.
pub open spec fn opcode_of(i: Instruction) -> u8 {
    match i {
        Instruction::LW => 0b00001,
        Instruction::SW => 0b00010,
        Instruction::MW => 0b00011,
        Instruction::PUSH => 0b00100,
        Instruction::POP => 0b00101,
        Instruction::LDA => 0b00110,
        Instruction::JMP => 0b00111,
        Instruction::JZ => 0b01000,
        Instruction::JC => 0b01001,
        Instruction::ADD => 0b01010,
        Instruction::SUB => 0b01011,
        Instruction::OUT => 0b01110,
        Instruction::HLT => 0b01111,
        Instruction::NOP => 0b11111,
    }
}

/// The opcode whose code is `v`, if any.
pub open spec fn instruction_of(v: u32) -> Option<Instruction> {
    if v == 0b00001 {
        Some(Instruction::LW)
    } else if v == 0b00010 {
        Some(Instruction::SW)
    } else if v == 0b00011 {
        Some(Instruction::MW)
    } else if v == 0b00100 {
        Some(Instruction::PUSH)
    } else if v == 0b00101 {
        Some(Instruction::POP)
    } else if v == 0b00110 {
        Some(Instruction::LDA)
    } else if v == 0b00111 {
        Some(Instruction::JMP)
    } else if v == 0b01000 {
        Some(Instruction::JZ)
    } else if v == 0b01001 {
        Some(Instruction::JC)
    } else if v == 0b01010 {
        Some(Instruction::ADD)
    } else if v == 0b01011 {
        Some(Instruction::SUB)
    } else if v == 0b01110 {
        Some(Instruction::OUT)
    } else if v == 0b01111 {
        Some(Instruction::HLT)
    } else if v == 0b11111 {
        Some(Instruction::NOP)
    } else {
        None
    }
}

impl Instruction {
    /// The 5-bit code of this opcode.
    pub fn opcode(self) -> (r: u8)
        ensures
            r == opcode_of(self),
            r < 32,
    {
        match self {
            Instruction::LW => 0b00001,
            Instruction::SW => 0b00010,
            Instruction::MW => 0b00011,
            Instruction::PUSH => 0b00100,
            Instruction::POP => 0b00101,
            Instruction::LDA => 0b00110,
            Instruction::JMP => 0b00111,
            Instruction::JZ => 0b01000,
            Instruction::JC => 0b01001,
            Instruction::ADD => 0b01010,
            Instruction::SUB => 0b01011,
            Instruction::OUT => 0b01110,
            Instruction::HLT => 0b01111,
            Instruction::NOP => 0b11111,
        }
    }

    /// Decodes a 5-bit code; codes that name no opcode give `None`.
    pub fn from_u32(v: u32) -> (r: Option<Instruction>)
        ensures
            r == instruction_of(v),
            r matches Some(i) ==> opcode_of(i) == v,
    {
        if v == 0b00001 {
            Some(Instruction::LW)
        } else if v == 0b00010 {
            Some(Instruction::SW)
        } else if v == 0b00011 {
            Some(Instruction::MW)
        } else if v == 0b00100 {
            Some(Instruction::PUSH)
        } else if v == 0b00101 {
            Some(Instruction::POP)
        } else if v == 0b00110 {
            Some(Instruction::LDA)
        } else if v == 0b00111 {
            Some(Instruction::JMP)
        } else if v == 0b01000 {
            Some(Instruction::JZ)
        } else if v == 0b01001 {
            Some(Instruction::JC)
        } else if v == 0b01010 {
            Some(Instruction::ADD)
        } else if v == 0b01011 {
            Some(Instruction::SUB)
        } else if v == 0b01110 {
            Some(Instruction::OUT)
        } else if v == 0b01111 {
            Some(Instruction::HLT)
        } else if v == 0b11111 {
            Some(Instruction::NOP)
        } else {
            None
        }
    }
}

/// One of the four 8-bit registers.
#[derive(PartialEq, Eq, Structural, Clone, Copy, Debug, Hash)]
pub enum Register {
    A,
    B,
    H,
    L,
}

/// The 2-bit selector of a register.
pub open spec fn register_index(r: Register) -> u8 {
    match r {
        Register::A => 0,
        Register::B => 1,
        Register::H => 2,
        Register::L => 3,
    }
}

/// The register whose selector is the low two bits of `v`.
pub open spec fn register_of(v: u32) -> Register {
    if v % 4 == 0 {
        Register::A
    } else if v % 4 == 1 {
        Register::B
    } else if v % 4 == 2 {
        Register::H
    } else {
        Register::L
    }
}

impl Register {
    /// The 2-bit selector of this register.
    pub fn index(self) -> (r: u8)
        ensures
            r == register_index(self),
            r < 4,
    {
        match self {
            Register::A => 0,
            Register::B => 1,
            Register::H => 2,
            Register::L => 3,
        }
    }

    /// The register selected by a 2-bit value; `None` above 3.
    pub fn from_u32(v: u32) -> (r: Option<Register>)
        ensures
            v < 4 ==> r == Some(register_of(v)),
            v >= 4 ==> r is None,
    {
        if v == 0 {
            Some(Register::A)
        } else if v == 1 {
            Some(Register::B)
        } else if v == 2 {
            Some(Register::H)
        } else if v == 3 {
            Some(Register::L)
        } else {
            None
        }
    }
}

} // verus!
