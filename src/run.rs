//! The reference interpreter: one instruction at a time over the machine
//! state, handing output and halting back to its driver.

use vstd::prelude::*;
use crate::isa::{Instruction, Register, instruction_of, register_index};

verus! {

/// The machine: registers A, B, H, L (in selector order), program counter,
/// stack pointer, 64 KiB of RAM, the program ROM and the overflow flag.
pub struct State {
    pub registers: Vec<u8>,
    pub program_counter: u16,
    pub stack_pointer: u8,
    pub memory: Vec<u8>,
    pub rom: Vec<u8>,
    pub overflow: bool,
}

/// What the driver does after an instruction.
#[derive(Debug, PartialEq, Eq, Clone, Copy)]
pub enum Action {
    /// Run the next instruction.
    Continue,
    /// Show this value on the output port, then continue.
    Output(u8),
    /// Stop.
    Halt,
    /// The byte fetched names no opcode.
    Invalid(u8),
}

/// The machine state as values.
pub struct Machine {
    pub registers: Seq<u8>,
    pub pc: u16,
    pub sp: u8,
    pub memory: Seq<u8>,
    pub rom: Seq<u8>,
    pub overflow: bool,
}

/// The ROM byte at `pc`; past the end of the ROM it reads all ones.
pub open spec fn rom_byte(rom: Seq<u8>, pc: u16) -> u8 {
    if (pc as int) < rom.len() {
        rom[pc as int]
    } else {
        0xFF
    }
}

/// `pc` advanced by `n`, wrapping.
pub open spec fn pc_plus(pc: u16, n: int) -> u16 {
    ((pc + n) % 65536) as u16
}

/// A 16-bit operand: from the two ROM bytes after the opcode when
/// `immediate`, else from H:L. Returns the value and the next `pc`.
pub open spec fn word_operand(m: Machine, immediate: bool) -> (u16, u16) {
    if immediate {
        (
            (rom_byte(m.rom, pc_plus(m.pc, 1)) * 256 + rom_byte(m.rom, pc_plus(m.pc, 2))) as u16,
            pc_plus(m.pc, 3),
        )
    } else {
        ((m.registers[2] * 256 + m.registers[3]) as u16, pc_plus(m.pc, 1))
    }
}

/// An 8-bit source operand: the ROM byte after the opcode when `immediate`,
/// else the register that byte's top two bits select (`two_register`) or
/// register `ra`. Returns the value and the next `pc`.
pub open spec fn byte_operand(m: Machine, immediate: bool, two_register: bool, ra: int) -> (u8, u16) {
    if immediate {
        (rom_byte(m.rom, pc_plus(m.pc, 1)), pc_plus(m.pc, 2))
    } else if two_register {
        (m.registers[(rom_byte(m.rom, pc_plus(m.pc, 1)) / 64) as int], pc_plus(m.pc, 2))
    } else {
        (m.registers[ra], pc_plus(m.pc, 1))
    }
}

/// The sum of `left`, `right` and `carry` in 8 bits, and whether it carried
/// out of `right + carry` or of the whole sum.
pub open spec fn add_spec(left: u8, right: u8, carry: u8) -> (u8, bool) {
    let with_carry = (right + carry) % 256;
    (((left + with_carry) % 256) as u8, left + with_carry > 255 || right + carry > 255)
}

/// One instruction's effect: the next machine state and what the driver does.
pub open spec fn execute(m: Machine) -> (Machine, Action) {
    let byte = rom_byte(m.rom, m.pc);
    let immediate = (byte / 4) % 2 == 1;
    let ra = (byte % 4) as int;
    let next = Machine { pc: pc_plus(m.pc, 1), ..m };
    match instruction_of((byte / 8) as u32) {
        Some(Instruction::LW) => {
            let (address, pc) = word_operand(m, immediate);
            (Machine { pc, registers: m.registers.update(ra, m.memory[address as int]), ..m }, Action::Continue)
        },
        Some(Instruction::SW) => {
            let (address, pc) = word_operand(m, immediate);
            (Machine { pc, memory: m.memory.update(address as int, m.registers[ra]), ..m }, Action::Continue)
        },
        Some(Instruction::MW) => {
            let (value, pc) = byte_operand(m, immediate, true, ra);
            (Machine { pc, registers: m.registers.update(ra, value), ..m }, Action::Continue)
        },
        Some(Instruction::PUSH) => {
            let (word, pc) = byte_operand(m, immediate, false, ra);
            (
                Machine {
                    pc,
                    memory: m.memory.update(m.sp as int, word),
                    sp: ((m.sp + 1) % 256) as u8,
                    ..m
                },
                Action::Continue,
            )
        },
        Some(Instruction::POP) => {
            let sp = ((m.sp + 255) % 256) as u8;
            (
                Machine { pc: next.pc, sp, registers: m.registers.update(ra, m.memory[sp as int]), ..m },
                Action::Continue,
            )
        },
        Some(Instruction::LDA) => (
            Machine {
                pc: pc_plus(m.pc, 3),
                registers: m.registers.update(2, rom_byte(m.rom, pc_plus(m.pc, 1))).update(
                    3,
                    rom_byte(m.rom, pc_plus(m.pc, 2)),
                ),
                ..m
            },
            Action::Continue,
        ),
        Some(Instruction::JMP) => {
            let (address, _) = word_operand(m, immediate);
            (Machine { pc: address, ..m }, Action::Continue)
        },
        Some(Instruction::JZ) => {
            let (address, pc) = word_operand(m, immediate);
            (Machine { pc: if m.registers[ra] == 0 { address } else { pc }, ..m }, Action::Continue)
        },
        Some(Instruction::JC) => {
            let (address, pc) = word_operand(m, immediate);
            (Machine { pc: if m.overflow { address } else { pc }, ..m }, Action::Continue)
        },
        Some(Instruction::ADD) => {
            let (right, pc) = byte_operand(m, immediate, true, ra);
            let (sum, overflow) = add_spec(m.registers[ra], right, 0);
            (Machine { pc, registers: m.registers.update(ra, sum), overflow, ..m }, Action::Continue)
        },
        Some(Instruction::SUB) => {
            let (right, pc) = byte_operand(m, immediate, true, ra);
            let (sum, overflow) = add_spec(m.registers[ra], (255 - right) as u8, 1);
            (Machine { pc, registers: m.registers.update(ra, sum), overflow, ..m }, Action::Continue)
        },
        Some(Instruction::OUT) => {
            let (value, pc) = byte_operand(m, immediate, false, ra);
            (Machine { pc, ..m }, Action::Output(value))
        },
        Some(Instruction::HLT) => (next, Action::Halt),
        Some(Instruction::NOP) => (next, Action::Continue),
        None => (next, Action::Invalid(byte)),
    }
}

impl State {
    /// Four registers and 64 KiB of RAM.
    pub open spec fn wf(&self) -> bool {
        &&& self.registers@.len() == 4
        &&& self.memory@.len() == 65536
    }

    /// The state as values.
    pub open spec fn machine(&self) -> Machine {
        Machine {
            registers: self.registers@,
            pc: self.program_counter,
            sp: self.stack_pointer,
            memory: self.memory@,
            rom: self.rom@,
            overflow: self.overflow,
        }
    }

    /// A machine at address 0 of `rom`, with registers, stack pointer and
    /// RAM cleared.
    pub fn new(rom: Vec<u8>) -> (r: State)
        ensures
            r.wf(),
            r.rom == rom,
            r.program_counter == 0,
            r.stack_pointer == 0,
            !r.overflow,
            forall|i: int| 0 <= i < 4 ==> r.registers@[i] == 0,
            forall|i: int| 0 <= i < 65536 ==> r.memory@[i] == 0,
    {
        State {
            registers: vec![0u8, 0u8, 0u8, 0u8],
            program_counter: 0,
            stack_pointer: 0,
            memory: vec![0u8; 65536],
            rom,
            overflow: false,
        }
    }

    /// The ROM byte at the program counter; all ones past the end.
    pub fn get_byte(&self) -> (r: u8)
        ensures
            r == rom_byte(self.rom@, self.program_counter),
    {
        if (self.program_counter as usize) < self.rom.len() {
            self.rom[self.program_counter as usize]
        } else {
            0xFF
        }
    }

    /// Advances the program counter by one, wrapping.
    pub fn increment(&mut self)
        ensures
            final(self).program_counter == pc_plus(old(self).program_counter, 1),
            final(self).registers == old(self).registers,
            final(self).memory == old(self).memory,
            final(self).rom == old(self).rom,
            final(self).stack_pointer == old(self).stack_pointer,
            final(self).overflow == old(self).overflow,
    {
        self.program_counter = if self.program_counter == 0xFFFF {
            0
        } else {
            self.program_counter + 1
        };
    }

    /// The RAM byte at `address`.
    pub fn get_memory(&self, address: u16) -> (r: u8)
        requires
            self.wf(),
        ensures
            r == self.memory@[address as int],
    {
        self.memory[address as usize]
    }

    /// Runs one instruction.
    #[verifier::rlimit(100)]
    #[verifier::spinoff_prover]
    pub fn step(&mut self) -> (r: Action)
        requires
            old(self).wf(),
        ensures
            final(self).wf(),
            (final(self).machine(), r) == execute(old(self).machine()),
    {
        let byte = self.get_byte();
        self.increment();
        let immediate = (byte / 4) % 2 == 1;
        let ra = (byte % 4) as usize;
        let op = match Instruction::from_u32((byte / 8) as u32) {
            Some(op) => op,
            None => {
                return Action::Invalid(byte);
            },
        };
        match op {
            Instruction::LW => {
                let address = get_word16(self, immediate);
                let word = self.get_memory(address);
                self.registers.set(ra, word);
                Action::Continue
            },
            Instruction::SW => {
                let address = get_word16(self, immediate);
                let word = self.registers[ra];
                self.memory.set(address as usize, word);
                Action::Continue
            },
            Instruction::MW => {
                let value = get_byte8(self, immediate, true, ra);
                self.registers.set(ra, value);
                Action::Continue
            },
            Instruction::PUSH => {
                let word = get_byte8(self, immediate, false, ra);
                self.memory.set(self.stack_pointer as usize, word);
                self.stack_pointer = if self.stack_pointer == 255 {
                    0
                } else {
                    self.stack_pointer + 1
                };
                Action::Continue
            },
            Instruction::POP => {
                self.stack_pointer = if self.stack_pointer == 0 {
                    255
                } else {
                    self.stack_pointer - 1
                };
                let word = self.get_memory(self.stack_pointer as u16);
                self.registers.set(ra, word);
                Action::Continue
            },
            Instruction::LDA => {
                let h = self.get_byte();
                self.registers.set(2, h);
                self.increment();
                let l = self.get_byte();
                self.registers.set(3, l);
                self.increment();
                Action::Continue
            },
            Instruction::JMP => {
                let address = get_word16(self, immediate);
                self.program_counter = address;
                Action::Continue
            },
            Instruction::JZ => {
                let address = get_word16(self, immediate);
                if self.registers[ra] == 0 {
                    self.program_counter = address;
                }
                Action::Continue
            },
            Instruction::JC => {
                let address = get_word16(self, immediate);
                if self.overflow {
                    self.program_counter = address;
                }
                Action::Continue
            },
            Instruction::ADD | Instruction::SUB => {
                let left = self.registers[ra];
                let right = get_byte8(self, immediate, true, ra);
                let result = if op == Instruction::ADD {
                    crate::run::add(left, right, 0, self)
                } else {
                    crate::run::add(left, 255 - right, 1, self)
                };
                self.registers.set(ra, result);
                Action::Continue
            },
            Instruction::OUT => {
                let value = get_byte8(self, immediate, false, ra);
                Action::Output(value)
            },
            Instruction::HLT => Action::Halt,
            Instruction::NOP => Action::Continue,
        }
    }
}

/// Reads a 16-bit operand whose opcode byte was just consumed: two ROM
/// bytes, high first, when `immediate`, else H:L.
pub fn get_word16(state: &mut State, immediate: bool) -> (r: u16)
    requires
        old(state).wf(),
    ensures
        final(state).wf(),
        ({
            let m = Machine { pc: pc_plus(old(state).program_counter, 65535), ..old(state).machine() };
            (r, final(state).program_counter) == word_operand(m, immediate)
        }),
        final(state).registers == old(state).registers,
        final(state).memory == old(state).memory,
        final(state).rom == old(state).rom,
        final(state).stack_pointer == old(state).stack_pointer,
        final(state).overflow == old(state).overflow,
{
    if immediate {
        let high = state.get_byte() as u16;
        state.increment();
        let low = state.get_byte() as u16;
        state.increment();
        high * 256 + low
    } else {
        state.registers[2] as u16 * 256 + state.registers[3] as u16
    }
}

/// Reads an 8-bit source operand whose opcode byte was just consumed.
fn get_byte8(state: &mut State, immediate: bool, two_register: bool, ra: usize) -> (r: u8)
    requires
        old(state).wf(),
        ra < 4,
    ensures
        final(state).wf(),
        ({
            let m = Machine { pc: pc_plus(old(state).program_counter, 65535), ..old(state).machine() };
            (r, final(state).program_counter) == byte_operand(m, immediate, two_register, ra as int)
        }),
        final(state).registers == old(state).registers,
        final(state).memory == old(state).memory,
        final(state).rom == old(state).rom,
        final(state).stack_pointer == old(state).stack_pointer,
        final(state).overflow == old(state).overflow,
{
    if immediate {
        let value = state.get_byte();
        state.increment();
        value
    } else if two_register {
        let reg_b = get_second_register(state);
        state.increment();
        state.registers[reg_b.index() as usize]
    } else {
        state.registers[ra]
    }
}

/// The register that the top two bits of the ROM byte at the program
/// counter select.
pub fn get_second_register(state: &State) -> (r: Register)
    ensures
        register_index(r) == rom_byte(state.rom@, state.program_counter) / 64,
{
    let b = state.get_byte() / 64;
    if b == 0 {
        Register::A
    } else if b == 1 {
        Register::B
    } else if b == 2 {
        Register::H
    } else {
        Register::L
    }
}

/// Adds `left`, `right` and `carry` in 8 bits and sets the overflow flag.
pub fn add(left: u8, right: u8, carry: u8, state: &mut State) -> (r: u8)
    requires
        carry <= 1,
    ensures
        (r, final(state).overflow) == add_spec(left, right, carry),
        final(state).registers == old(state).registers,
        final(state).memory == old(state).memory,
        final(state).rom == old(state).rom,
        final(state).stack_pointer == old(state).stack_pointer,
        final(state).program_counter == old(state).program_counter,
{
    let with_carry: u8 = ((right as u16 + carry as u16) % 256) as u8;
    state.overflow = left as u16 + with_carry as u16 > 255 || right as u16 + carry as u16 > 255;
    ((left as u16 + with_carry as u16) % 256) as u8
}

} // verus!
