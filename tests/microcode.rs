use breadlang::brain::{get_program, get_reg_in, get_reg_out, get_signal, Signal};
use breadlang::isa::Register;
use breadlang::special_programs::segment_display;

fn address(instruction: u32, immediate: u32, reg_a: u32, reg_b: u32, zero: u32, overflow: u32, micro_op: u32) -> u32 {
    instruction | immediate << 5 | reg_a << 6 | reg_b << 8 | zero << 10 | overflow << 14 | micro_op << 15
}

const JMP: u32 = 0b00111;
const JZ: u32 = 0b01000;
const JC: u32 = 0b01001;
const SUB: u32 = 0b01011;
const HLT: u32 = 0b01111;
const NOP: u32 = 0b11111;

#[test]
fn microcode_probe() {
    let at2 = get_signal(address(JMP, 1, 0, 0, 0, 0, 2));
    assert_eq!(at2 & Signal::ROMOut.bits(), Signal::ROMOut.bits());
    assert_eq!(at2 & Signal::PCHIn.bits(), Signal::PCHIn.bits());
    assert_eq!(at2 & Signal::PCApply.bits(), 0);
    assert_eq!(get_signal(address(JMP, 1, 0, 0, 0, 0, 5)), Signal::PCApply.bits());
    assert_eq!(get_signal(address(JMP, 1, 0, 0, 0, 0, 6)), Signal::MicroOpsReset.bits());
}

#[test]
fn shared_fetch_steps() {
    for a in [0u32, 0x12345 & !0x78000, address(SUB, 1, 2, 3, 5, 1, 0), 0x7FFF] {
        assert_eq!(get_signal(a & !0x78000), Signal::InstRegIn.bits() | Signal::ROMOut.bits());
        assert_eq!(get_signal((a & !0x78000) | 1 << 15), Signal::PCUp.bits());
    }
}

#[test]
fn nop_and_unknown_opcodes_reset() {
    for op in [NOP, 0, 0b01100, 0b01101, 0b10000, 0b11110] {
        for micro in 2..16 {
            assert_eq!(get_signal(address(op, 1, 3, 1, 15, 1, micro)), Signal::MicroOpsReset.bits());
        }
    }
}

#[test]
fn halt_holds() {
    for micro in 2..16 {
        assert_eq!(get_signal(address(HLT, 0, 0, 0, 0, 0, micro)), Signal::Halt.bits());
    }
}

#[test]
fn conditional_jumps_follow_flags() {
    // JZ on register B with B's zero flag (bit 11) set: taken.
    assert_eq!(
        get_signal(address(JZ, 0, 1, 0, 0b0010, 0, 2)),
        Signal::HOut.bits() | Signal::PCHIn.bits()
    );
    // Not taken in register form: reset at once.
    assert_eq!(get_signal(address(JZ, 0, 1, 0, 0b0001, 0, 2)), Signal::MicroOpsReset.bits());
    // Not taken in immediate form: step over the address.
    assert_eq!(get_signal(address(JC, 1, 0, 0, 0, 0, 2)), 0);
    assert_eq!(get_signal(address(JC, 1, 0, 0, 0, 0, 3)), Signal::PCUp.bits());
    assert_eq!(get_signal(address(JC, 1, 0, 0, 0, 1, 5)), Signal::PCApply.bits());
}

#[test]
fn subtract_register_form() {
    assert_eq!(
        get_signal(address(SUB, 0, 2, 3, 0, 0, 5)),
        Signal::Subtract.bits() | Signal::SumsOut.bits() | Signal::HIn.bits()
    );
    assert_eq!(
        get_signal(address(SUB, 0, 2, 3, 0, 0, 4)),
        Signal::AluBIn.bits() | Signal::LOut.bits()
    );
}

#[test]
fn register_signals() {
    assert_eq!(get_reg_in(Register::H), Signal::HIn);
    assert_eq!(get_reg_out(Register::L), Signal::LOut);
}

#[test]
fn byte_planes() {
    assert_eq!(get_program(4), Err("Invalid byte select".to_string()));
    let planes: Vec<Vec<u8>> = (0..4).map(|k| get_program(k).unwrap()).collect();
    for plane in &planes {
        assert_eq!(plane.len(), 1 << 19);
    }
    for a in [0usize, 1 << 15, address(SUB, 0, 2, 3, 0, 0, 5) as usize, 0x7FFFF] {
        let word = get_signal(a as u32);
        for k in 0..4 {
            assert_eq!(planes[k][a], (word >> (8 * k)) as u8);
        }
    }
}

#[test]
fn seven_segment_rom() {
    let rom = segment_display();
    assert_eq!(rom.len(), 1024);
    assert_eq!(rom[123], 0);
    assert_eq!(rom[256 + 123], 0b10000100);
    assert_eq!(rom[512 + 123], 0b11010011);
    assert_eq!(rom[768 + 123], 0b11010110);
    assert_eq!(rom[768 + 255], 0b01110110);
}
