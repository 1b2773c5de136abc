use breadlang::compiler::Compiler;
use breadlang::lexer::scan_tokens;
use breadlang::program_parse::parse;
use breadlang::run::{Action, State};

fn image(source: &str) -> Vec<u8> {
    let tokens = scan_tokens(source.to_string(), "main.bread".to_string()).unwrap();
    let program = parse(tokens, "main.bread".to_string()).unwrap();
    let mut compiler = Compiler::new();
    program.compile(&mut compiler).unwrap();
    compiler.bytes
}

fn outputs(source: &str) -> Vec<u8> {
    let mut state = State::new(image(source));
    let mut out = Vec::new();
    for _ in 0..10_000 {
        match state.step() {
            Action::Continue => {}
            Action::Output(v) => out.push(v),
            Action::Halt => return out,
            Action::Invalid(b) => panic!("invalid opcode byte {}", b),
        }
    }
    panic!("did not halt");
}

#[test]
fn counts_down_with_subtraction() {
    let source = "main:\n    MW A 3\n    DEF loop\n    OUT A\n    SUB A 1\n    JZ A done\n    JMP loop\n    DEF done\n    HLT\n";
    assert_eq!(outputs(source), vec![3, 2, 1]);
}

#[test]
fn stack_and_memory_round_trip() {
    let source = "main:\n    PUSH 7\n    MW B 9\n    PUSH B\n    POP A\n    POP H\n    OUT A\n    OUT H\n    SW A 0x0100\n    LW L 0x0100\n    OUT L\n    HLT\n";
    assert_eq!(outputs(source), vec![9, 7, 9]);
}

#[test]
fn addition_sets_overflow() {
    let source = "main:\n    MW A 200\n    ADD A 100\n    OUT A\n    JC wrapped\n    HLT\nwrapped:\n    OUT 1\n    HLT\n";
    assert_eq!(outputs(source), vec![44, 1]);
}

#[test]
fn register_pair_addressing() {
    let source = "main:\n    LDA 0x0203\n    MW A 5\n    SW A\n    LW B\n    OUT B\n    OUT H\n    OUT L\n    HLT\n";
    assert_eq!(outputs(source), vec![5, 2, 3]);
}

#[test]
fn subtraction_without_borrow_sets_carry() {
    let source = "main:\n    MW A 5\n    MW B 3\n    SUB A B\n    OUT A\n    JC ok\n    HLT\nok:\n    OUT 0\n    HLT\n";
    assert_eq!(outputs(source), vec![2, 0]);
}

#[test]
fn invalid_byte_is_reported() {
    let mut state = State::new(vec![0x00]);
    assert_eq!(state.step(), Action::Invalid(0));
}
