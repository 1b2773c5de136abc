//! The microcode ROM: for every control-unit address, the 32-bit word of
//! control signals that the hardware asserts.
//!
//! An address packs, least significant bit first: the opcode (5 bits), the
//! immediate flag, `reg_a` (2 bits), `reg_b` (2 bits), the zero flags of
//! A, B, H and L, the overflow flag, and the micro-op counter (4 bits).

use vstd::prelude::*;
use crate::isa::{Instruction, Register, instruction_of, register_of};

verus! {

/// One control signal of the datapath.
#[derive(PartialEq, Eq, Structural, Clone, Copy, Debug)]
pub enum Signal {
    AOut,
    AIn,
    BOut,
    BIn,
    HOut,
    HIn,
    LOut,
    LIn,
    AluAIn,
    AluBIn,
    Subtract,
    SumsOut,
    StackUp,
    StackDown,
    StackOut,
    PCUp,
    PCApply,
    PCLIn,
    PCHIn,
    ROMOut,
    InstRegIn,
    InstRegBIn,
    MicroOpsReset,
    RamLIn,
    RamHIn,
    RamOut,
    RamIn,
    RamAddrClear,
    DisplayIn,
    Halt,
}

/// The bit of the signal word that each signal drives.
pub open spec fn bit_of(s: Signal) -> u32 {
    match s {
        Signal::AOut => 0x0000_0001,
        Signal::AIn => 0x0000_0002,
        Signal::BOut => 0x0000_0004,
        Signal::BIn => 0x0000_0008,
        Signal::HOut => 0x0000_0010,
        Signal::HIn => 0x0000_0020,
        Signal::LOut => 0x0000_0040,
        Signal::LIn => 0x0000_0080,
        Signal::AluAIn => 0x0000_0100,
        Signal::AluBIn => 0x0000_0200,
        Signal::Subtract => 0x0000_0400,
        Signal::SumsOut => 0x0000_0800,
        Signal::StackUp => 0x0000_1000,
        Signal::StackDown => 0x0000_2000,
        Signal::StackOut => 0x0000_4000,
        Signal::PCUp => 0x0001_0000,
        Signal::PCApply => 0x0002_0000,
        Signal::PCLIn => 0x0004_0000,
        Signal::PCHIn => 0x0008_0000,
        Signal::ROMOut => 0x0010_0000,
        Signal::InstRegIn => 0x0020_0000,
        Signal::InstRegBIn => 0x0040_0000,
        Signal::MicroOpsReset => 0x0080_0000,
        Signal::RamLIn => 0x0100_0000,
        Signal::RamHIn => 0x0200_0000,
        Signal::RamOut => 0x0400_0000,
        Signal::RamIn => 0x0800_0000,
        Signal::RamAddrClear => 0x1000_0000,
        Signal::DisplayIn => 0x2000_0000,
        Signal::Halt => 0x8000_0000,
    }
}

impl Signal {
    /// The bit that this signal drives.
    pub fn bits(self) -> (r: u32)
        ensures
            r == bit_of(self),
    {
        match self {
            Signal::AOut => 0x0000_0001,
            Signal::AIn => 0x0000_0002,
            Signal::BOut => 0x0000_0004,
            Signal::BIn => 0x0000_0008,
            Signal::HOut => 0x0000_0010,
            Signal::HIn => 0x0000_0020,
            Signal::LOut => 0x0000_0040,
            Signal::LIn => 0x0000_0080,
            Signal::AluAIn => 0x0000_0100,
            Signal::AluBIn => 0x0000_0200,
            Signal::Subtract => 0x0000_0400,
            Signal::SumsOut => 0x0000_0800,
            Signal::StackUp => 0x0000_1000,
            Signal::StackDown => 0x0000_2000,
            Signal::StackOut => 0x0000_4000,
            Signal::PCUp => 0x0001_0000,
            Signal::PCApply => 0x0002_0000,
            Signal::PCLIn => 0x0004_0000,
            Signal::PCHIn => 0x0008_0000,
            Signal::ROMOut => 0x0010_0000,
            Signal::InstRegIn => 0x0020_0000,
            Signal::InstRegBIn => 0x0040_0000,
            Signal::MicroOpsReset => 0x0080_0000,
            Signal::RamLIn => 0x0100_0000,
            Signal::RamHIn => 0x0200_0000,
            Signal::RamOut => 0x0400_0000,
            Signal::RamIn => 0x0800_0000,
            Signal::RamAddrClear => 0x1000_0000,
            Signal::DisplayIn => 0x2000_0000,
            Signal::Halt => 0x8000_0000,
        }
    }
}

/// The word that ends an instruction: the micro-op counter returns to 0.
pub open spec fn reset() -> u32 {
    bit_of(Signal::MicroOpsReset)
}

/// The signal that writes register `r`.
pub open spec fn reg_in(r: Register) -> Signal {
    match r {
        Register::A => Signal::AIn,
        Register::B => Signal::BIn,
        Register::H => Signal::HIn,
        Register::L => Signal::LIn,
    }
}

/// The signal that reads register `r`.
pub open spec fn reg_out(r: Register) -> Signal {
    match r {
        Register::A => Signal::AOut,
        Register::B => Signal::BOut,
        Register::H => Signal::HOut,
        Register::L => Signal::LOut,
    }
}

/// The signal that reads register `reg`.
pub fn get_reg_out(reg: Register) -> (r: Signal)
    ensures
        r == reg_out(reg),
{
    match reg {
        Register::A => Signal::AOut,
        Register::B => Signal::BOut,
        Register::H => Signal::HOut,
        Register::L => Signal::LOut,
    }
}

/// The signal that writes register `reg`.
pub fn get_reg_in(reg: Register) -> (r: Signal)
    ensures
        r == reg_in(reg),
{
    match reg {
        Register::A => Signal::AIn,
        Register::B => Signal::BIn,
        Register::H => Signal::HIn,
        Register::L => Signal::LIn,
    }
}

/// Step `k` of a micro-program; past its last step the counter resets.
pub open spec fn step(steps: Seq<u32>, k: u32) -> u32 {
    if k < steps.len() {
        steps[k as int]
    } else {
        reset()
    }
}

/// Fetch of a 16-bit address from the program into the RAM address latches,
/// then `last`.
pub open spec fn immediate_address_then(last: u32) -> Seq<u32> {
    seq![
        bit_of(Signal::ROMOut) | bit_of(Signal::RamHIn),
        bit_of(Signal::PCUp),
        bit_of(Signal::ROMOut) | bit_of(Signal::RamLIn),
        bit_of(Signal::PCUp),
        last,
    ]
}

/// H:L into the RAM address latches, then `last`.
pub open spec fn hl_address_then(last: u32) -> Seq<u32> {
    seq![
        bit_of(Signal::HOut) | bit_of(Signal::RamHIn),
        bit_of(Signal::LOut) | bit_of(Signal::RamLIn),
        last,
    ]
}

/// A taken jump to an address read from the program.
pub open spec fn jump_immediate() -> Seq<u32> {
    seq![
        bit_of(Signal::ROMOut) | bit_of(Signal::PCHIn),
        bit_of(Signal::PCUp),
        bit_of(Signal::ROMOut) | bit_of(Signal::PCLIn),
        bit_of(Signal::PCApply),
    ]
}

/// A taken jump to H:L.
pub open spec fn jump_hl() -> Seq<u32> {
    seq![
        bit_of(Signal::HOut) | bit_of(Signal::PCHIn),
        bit_of(Signal::LOut) | bit_of(Signal::PCLIn),
        bit_of(Signal::PCApply),
    ]
}

/// A jump not taken whose address is in the program: step over it.
pub open spec fn skip_immediate() -> Seq<u32> {
    seq![0u32, bit_of(Signal::PCUp), 0u32, bit_of(Signal::PCUp)]
}

/// A conditional jump: taken when `condition` holds.
pub open spec fn conditional_jump(immediate: bool, condition: bool) -> Seq<u32> {
    if condition {
        if immediate { jump_immediate() } else { jump_hl() }
    } else {
        if immediate { skip_immediate() } else { Seq::empty() }
    }
}

/// ADD or SUB; `sub` adds the subtract signal to the step that stores the sum.
pub open spec fn arithmetic(sub: bool, immediate: bool, reg_a: Register, reg_b: Register) -> Seq<u32> {
    let subtract: u32 = if sub { bit_of(Signal::Subtract) } else { 0u32 };
    if immediate {
        seq![
            bit_of(Signal::AluAIn) | bit_of(reg_out(reg_a)),
            bit_of(Signal::AluBIn) | bit_of(Signal::ROMOut),
            bit_of(Signal::PCUp) | subtract | bit_of(Signal::SumsOut) | bit_of(reg_in(reg_a)),
        ]
    } else {
        seq![
            bit_of(Signal::ROMOut) | bit_of(Signal::InstRegBIn),
            bit_of(Signal::AluAIn) | bit_of(reg_out(reg_a)) | bit_of(Signal::PCUp),
            bit_of(Signal::AluBIn) | bit_of(reg_out(reg_b)),
            subtract | bit_of(Signal::SumsOut) | bit_of(reg_in(reg_a)),
        ]
    }
}

/// The micro-program of a decoded instruction, from micro-op 2 on.
pub open spec fn micro_program(
    inst: Instruction,
    immediate: bool,
    reg_a: Register,
    reg_b: Register,
    zero: bool,
    overflow: bool,
) -> Seq<u32> {
    match inst {
        Instruction::LW => {
            let last = bit_of(Signal::RamOut) | bit_of(reg_in(reg_a));
            if immediate { immediate_address_then(last) } else { hl_address_then(last) }
        },
        Instruction::SW => {
            let last = bit_of(Signal::RamIn) | bit_of(reg_out(reg_a));
            if immediate { immediate_address_then(last) } else { hl_address_then(last) }
        },
        Instruction::MW => if immediate {
            seq![bit_of(reg_in(reg_a)) | bit_of(Signal::ROMOut), bit_of(Signal::PCUp)]
        } else {
            seq![
                bit_of(Signal::InstRegBIn) | bit_of(Signal::ROMOut),
                bit_of(Signal::PCUp) | bit_of(reg_in(reg_a)) | bit_of(reg_out(reg_b)),
            ]
        },
        Instruction::PUSH => if immediate {
            seq![
                bit_of(Signal::RamAddrClear),
                bit_of(Signal::StackOut) | bit_of(Signal::RamLIn),
                bit_of(Signal::RamIn) | bit_of(Signal::ROMOut),
                bit_of(Signal::PCUp) | bit_of(Signal::StackUp),
            ]
        } else {
            seq![
                bit_of(Signal::RamAddrClear),
                bit_of(Signal::StackOut) | bit_of(Signal::RamLIn),
                bit_of(Signal::RamIn) | bit_of(reg_out(reg_a)),
                bit_of(Signal::StackUp),
            ]
        },
        Instruction::POP => seq![
            bit_of(Signal::StackDown) | bit_of(Signal::RamAddrClear),
            bit_of(Signal::StackOut) | bit_of(Signal::RamLIn),
            bit_of(Signal::RamOut) | bit_of(reg_in(reg_a)),
        ],
        Instruction::LDA => seq![
            bit_of(Signal::HIn) | bit_of(Signal::ROMOut),
            bit_of(Signal::PCUp),
            bit_of(Signal::LIn) | bit_of(Signal::ROMOut),
            bit_of(Signal::PCUp),
        ],
        Instruction::JMP => conditional_jump(immediate, true),
        Instruction::JZ => conditional_jump(immediate, zero),
        Instruction::JC => conditional_jump(immediate, overflow),
        Instruction::ADD => arithmetic(false, immediate, reg_a, reg_b),
        Instruction::SUB => arithmetic(true, immediate, reg_a, reg_b),
        Instruction::OUT => if immediate {
            seq![bit_of(Signal::DisplayIn) | bit_of(Signal::ROMOut), bit_of(Signal::PCUp)]
        } else {
            seq![bit_of(Signal::DisplayIn) | bit_of(reg_out(reg_a))]
        },
        Instruction::HLT | Instruction::NOP => Seq::empty(),
    }
}

/// The micro-program of a decoded instruction, from micro-op 2 on; HLT is
/// handled by the caller.
fn program_of(
    inst: Instruction,
    immediate: bool,
    reg_a: Register,
    reg_b: Register,
    zero: bool,
    overflow: bool,
) -> (r: Vec<u32>)
    ensures
        r@ == micro_program(inst, immediate, reg_a, reg_b, zero, overflow),
{
    let rom_out = Signal::ROMOut.bits();
    let pc_up = Signal::PCUp.bits();
    let a_in = get_reg_in(reg_a).bits();
    let a_out = get_reg_out(reg_a).bits();
    let b_out = get_reg_out(reg_b).bits();
    match inst {
        Instruction::LW | Instruction::SW => {
            let last = if inst == Instruction::LW {
                Signal::RamOut.bits() | a_in
            } else {
                Signal::RamIn.bits() | a_out
            };
            if immediate {
                vec![rom_out | Signal::RamHIn.bits(), pc_up, rom_out | Signal::RamLIn.bits(), pc_up, last]
            } else {
                vec![
                    Signal::HOut.bits() | Signal::RamHIn.bits(),
                    Signal::LOut.bits() | Signal::RamLIn.bits(),
                    last,
                ]
            }
        },
        Instruction::MW => if immediate {
            vec![a_in | rom_out, pc_up]
        } else {
            vec![Signal::InstRegBIn.bits() | rom_out, pc_up | a_in | b_out]
        },
        Instruction::PUSH => if immediate {
            vec![
                Signal::RamAddrClear.bits(),
                Signal::StackOut.bits() | Signal::RamLIn.bits(),
                Signal::RamIn.bits() | rom_out,
                pc_up | Signal::StackUp.bits(),
            ]
        } else {
            vec![
                Signal::RamAddrClear.bits(),
                Signal::StackOut.bits() | Signal::RamLIn.bits(),
                Signal::RamIn.bits() | a_out,
                Signal::StackUp.bits(),
            ]
        },
        Instruction::POP => vec![
            Signal::StackDown.bits() | Signal::RamAddrClear.bits(),
            Signal::StackOut.bits() | Signal::RamLIn.bits(),
            Signal::RamOut.bits() | a_in,
        ],
        Instruction::LDA => vec![
            Signal::HIn.bits() | rom_out,
            pc_up,
            Signal::LIn.bits() | rom_out,
            pc_up,
        ],
        Instruction::JMP | Instruction::JZ | Instruction::JC => {
            let condition = match inst {
                Instruction::JZ => zero,
                Instruction::JC => overflow,
                _ => true,
            };
            if condition {
                if immediate {
                    vec![rom_out | Signal::PCHIn.bits(), pc_up, rom_out | Signal::PCLIn.bits(), Signal::PCApply.bits()]
                } else {
                    vec![
                        Signal::HOut.bits() | Signal::PCHIn.bits(),
                        Signal::LOut.bits() | Signal::PCLIn.bits(),
                        Signal::PCApply.bits(),
                    ]
                }
            } else if immediate {
                vec![0u32, pc_up, 0u32, pc_up]
            } else {
                Vec::new()
            }
        },
        Instruction::ADD | Instruction::SUB => {
            let subtract: u32 = if inst == Instruction::SUB { Signal::Subtract.bits() } else { 0u32 };
            if immediate {
                vec![
                    Signal::AluAIn.bits() | a_out,
                    Signal::AluBIn.bits() | rom_out,
                    pc_up | subtract | Signal::SumsOut.bits() | a_in,
                ]
            } else {
                vec![
                    rom_out | Signal::InstRegBIn.bits(),
                    Signal::AluAIn.bits() | a_out | pc_up,
                    Signal::AluBIn.bits() | b_out,
                    subtract | Signal::SumsOut.bits() | a_in,
                ]
            }
        },
        Instruction::OUT => if immediate {
            vec![Signal::DisplayIn.bits() | rom_out, pc_up]
        } else {
            vec![Signal::DisplayIn.bits() | a_out]
        },
        Instruction::HLT | Instruction::NOP => Vec::new(),
    }
}

/// The opcode field of an address.
pub open spec fn instruction_field(address: u32) -> u32 {
    address & 0x1F
}

/// The immediate flag of an address.
pub open spec fn immediate_field(address: u32) -> u32 {
    (address & 0x20) >> 5
}

/// The `reg_a` field of an address.
pub open spec fn reg_a_field(address: u32) -> u32 {
    (address & 0xC0) >> 6
}

/// The `reg_b` field of an address.
pub open spec fn reg_b_field(address: u32) -> u32 {
    (address & 0x300) >> 8
}

/// The zero flag of register `r` in an address.
pub open spec fn zero_field(address: u32, r: Register) -> u32 {
    match r {
        Register::A => (address & 0x400) >> 10,
        Register::B => (address & 0x800) >> 11,
        Register::H => (address & 0x1000) >> 12,
        Register::L => (address & 0x2000) >> 13,
    }
}

/// The overflow flag of an address.
pub open spec fn overflow_field(address: u32) -> u32 {
    (address & 0x4000) >> 14
}

/// The micro-op counter of an address.
pub open spec fn micro_op_field(address: u32) -> u32 {
    (address & 0x78000) >> 15
}

/// The signal word at a control-unit address. Micro-ops 0 and 1 fetch the
/// opcode byte for every instruction; an opcode field that names no opcode
/// is treated as NOP.
pub open spec fn signal_at(address: u32) -> u32 {
    let micro_op = micro_op_field(address);
    if micro_op == 0 {
        bit_of(Signal::InstRegIn) | bit_of(Signal::ROMOut)
    } else if micro_op == 1 {
        bit_of(Signal::PCUp)
    } else {
        let inst = match instruction_of(instruction_field(address)) {
            Some(i) => i,
            None => Instruction::NOP,
        };
        let reg_a = register_of(reg_a_field(address));
        if inst == Instruction::HLT {
            bit_of(Signal::Halt)
        } else {
        step(
            micro_program(
                inst,
                immediate_field(address) == 1,
                reg_a,
                register_of(reg_b_field(address)),
                zero_field(address, reg_a) == 1,
                overflow_field(address) == 1,
            ),
            (micro_op - 2) as u32,
        )
        }
    }
}

/// The signal word at a control-unit address.
pub fn get_signal(address: u32) -> (r: u32)
    ensures
        r == signal_at(address),
{
    let instruction = address & 0x1F;
    let immediate = (address & 0x20) >> 5;
    let reg_a = (address & 0xC0) >> 6;
    let reg_b = (address & 0x300) >> 8;
    let overflow = (address & 0x4000) >> 14;
    let micro_op = (address & 0x78000) >> 15;

    if micro_op == 0 {
        Signal::InstRegIn.bits() | Signal::ROMOut.bits()
    } else if micro_op == 1 {
        Signal::PCUp.bits()
    } else {
        let inst = match Instruction::from_u32(instruction) {
            Some(i) => i,
            None => Instruction::NOP,
        };
        if inst == Instruction::HLT {
            return Signal::Halt.bits();
        }
        assert(reg_a < 4 && reg_b < 4) by (bit_vector)
            requires
                reg_a == (address & 0xC0) >> 6,
                reg_b == (address & 0x300) >> 8,
        ;
        let ra = Register::from_u32(reg_a).unwrap();
        let rb = Register::from_u32(reg_b).unwrap();
        let zero = match ra {
            Register::A => (address & 0x400) >> 10,
            Register::B => (address & 0x800) >> 11,
            Register::H => (address & 0x1000) >> 12,
            Register::L => (address & 0x2000) >> 13,
        };
        let program = program_of(inst, immediate == 1, ra, rb, zero == 1, overflow == 1);
        let offset = micro_op - 2;
        if (offset as usize) < program.len() {
            program[offset as usize]
        } else {
            Signal::MicroOpsReset.bits()
        }
    }
}

/// The byte that ROM chip `byte_select` holds at `address`.
pub open spec fn plane_byte(address: u32, byte_select: u8) -> u8 {
    #[verifier::truncate] ((signal_at(address) >> (8 * byte_select) as u32) as u8)
}

/// Number of control-unit addresses: every combination of the 19 input bits.
pub const ADDRESS_COUNT: u32 = 0x80000;

/// The contents of ROM chip `byte_select` (0 to 3): byte `k` of the signal
/// word at every address. A larger `byte_select` is an error.
pub fn get_program(byte_select: u8) -> (r: Result<Vec<u8>, String>)
    ensures
        byte_select > 3 <==> r is Err,
        r matches Err(msg) ==> msg@ == "Invalid byte select"@,
        r matches Ok(program) ==> {
            &&& program@.len() == ADDRESS_COUNT
            &&& forall|a: u32| a < ADDRESS_COUNT ==> #[trigger] program@[a as int] == plane_byte(a, byte_select)
        },
{
    if byte_select > 3 {
        return Err("Invalid byte select".to_owned());
    }
    let mut program: Vec<u8> = Vec::new();
    let shift: u32 = (byte_select as u32) * 8;
    let mut i: u32 = 0;
    while i < ADDRESS_COUNT
        invariant
            i <= ADDRESS_COUNT,
            shift == 8 * byte_select,
            byte_select <= 3,
            program@.len() == i,
            forall|a: u32| a < i ==> #[trigger] program@[a as int] == plane_byte(a, byte_select),
        decreases ADDRESS_COUNT - i,
    {
        let signals = get_signal(i);
        program.push(#[verifier::truncate] ((signals >> shift) as u8));
        i = i + 1;
    }
    Ok(program)
}

/// At micro-op 0 every instruction latches its opcode byte; at micro-op 1
/// every instruction advances the program counter past it.
pub proof fn lemma_shared_prefix(address: u32)
    ensures
        micro_op_field(address) == 0 ==> signal_at(address) == bit_of(Signal::InstRegIn) | bit_of(Signal::ROMOut),
        micro_op_field(address) == 1 ==> signal_at(address) == bit_of(Signal::PCUp),
{
}

/// From micro-op 2 on, NOP and every opcode field that names no opcode only
/// reset the micro-op counter.
pub proof fn lemma_nop_resets(address: u32)
    requires
        micro_op_field(address) >= 2,
        instruction_of(instruction_field(address)) matches Some(i) ==> i == Instruction::NOP,
    ensures
        signal_at(address) == reset(),
{
}

} // verus!
