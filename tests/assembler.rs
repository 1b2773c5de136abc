use breadlang::compiler::Compiler;
use breadlang::error_handler::{has_critical, CompilerError, ErrorCode};
use breadlang::isa::{Instruction, Register};
use breadlang::lexer::{scan_tokens, Token, TokenType};
use breadlang::nodes::Node;
use breadlang::number_nodes::{parse_literal, Imm16, Imm8};
use breadlang::parser::Parser;
use breadlang::parsing::get_instructions;
use breadlang::program::ProgramNode;
use breadlang::program_parse::{parse, ParseStep, ProgramParse};

fn build(source: &str) -> Vec<u8> {
    let tokens = scan_tokens(source.to_string(), "main.bread".to_string()).expect("lexes");
    let program = parse(tokens, "main.bread".to_string()).expect("parses");
    let mut compiler = Compiler::new();
    program.compile(&mut compiler).expect("emits");
    compiler.bytes
}

fn parse_errors(source: &str) -> Vec<CompilerError> {
    let tokens = scan_tokens(source.to_string(), "main.bread".to_string()).expect("lexes");
    match parse(tokens, "main.bread".to_string()) {
        Ok(_) => panic!("expected errors"),
        Err(e) => e,
    }
}

#[test]
fn minimum_program() {
    assert_eq!(build("main:\n    HLT\n"), vec![0x78]);
    assert_eq!(build("main:\n    HLT"), vec![0b01111_0_00]);
}

#[test]
fn register_register_add() {
    assert_eq!(build("main:\n    ADD A B\n    HLT\n"), vec![0x50, 0x40, 0x78]);
}

#[test]
fn immediate_with_label() {
    let bytes = build("main:\n    LDA target\n    JMP\n    HLT\ntarget:\n    HLT\n");
    assert_eq!(bytes.len(), 6);
    assert_eq!(bytes[0], 0b00110_1_00);
    assert_eq!(&bytes[1..3], &[0x00, 0x05]);
    assert_eq!(bytes[3], 0b00111_0_00);
    assert_eq!(bytes[4], 0x78);
    assert_eq!(bytes[5], 0x78);
}

#[test]
fn numeric_forms() {
    assert_eq!(build("main:\n    MW A 0b1010_0101\n"), vec![0b00011_1_00, 0xA5]);
    assert_eq!(build("main:\n    MW A 0xFF\n"), build("main:\n    MW A 255\n"));
    assert_eq!(build("main:\n    MW A 0xFF\n"), vec![0b00011_1_00, 0xFF]);
    assert_eq!(build("main:\n    MW A 1_0\n"), vec![0b00011_1_00, 10]);
}

#[test]
fn macro_expansion() {
    let source = "@macro\nload(x):\n    MW A x\nmain:\n    load 7\n    HLT\n";
    assert_eq!(build(source), vec![0b00011_1_00, 0x07, 0x78]);
}

#[test]
fn macro_labels_are_placed_at_the_call_site() {
    let source = "@macro\nspin():\n    DEF top\n    JMP top\nmain:\n    NOP\n    spin\n    HLT\n";
    // NOP at 0; the macro's label sits at 1; JMP 1 is three bytes; HLT.
    assert_eq!(build(source), vec![0xF8, 0b00111_1_00, 0x00, 0x01, 0x78]);
}

#[test]
fn macro_calling_macro_is_rejected() {
    let source = "@macro\ninner():\n    NOP\n@macro\nouter():\n    inner\nmain:\n    outer\n    HLT\n";
    let errors = parse_errors(source);
    let nested: Vec<&CompilerError> = errors.iter().filter(|e| matches!(e.code, ErrorCode::MacroCallsMacro)).collect();
    assert_eq!(nested.len(), 1);
    assert!(!nested[0].critical);
    assert_eq!(nested[0].line, 6);
}

#[test]
fn unknown_macro_is_reported() {
    let errors = parse_errors("main:\n    nothing 1\n    HLT\n");
    assert!(errors.iter().any(|e| matches!(&e.code, ErrorCode::NoSuchMacro(n) if n == "nothing")));
}

#[test]
fn missing_main_is_fatal() {
    let errors = parse_errors("start:\n    HLT\n");
    assert!(errors.iter().any(|e| matches!(e.code, ErrorCode::NoMainSubroutine)));
    assert!(has_critical(&errors));
}

#[test]
fn main_moves_to_origin() {
    let bytes = build("helper:\n    NOP\n    HLT\nmain:\n    JMP helper\n");
    // main (3 bytes) first, then helper at 3.
    assert_eq!(bytes, vec![0b00111_1_00, 0x00, 0x03, 0xF8, 0x78]);
}

#[test]
fn def_labels_resolve_forward_and_backward() {
    let bytes = build("main:\n    DEF start\n    NOP\n    JZ A end\n    JMP start\n    DEF end\n    HLT\n");
    assert_eq!(
        bytes,
        vec![0xF8, 0b01000_1_00, 0x00, 0x07, 0b00111_1_00, 0x00, 0x00, 0x78]
    );
}

#[test]
fn def_is_zero_width() {
    let with = build("main:\n    NOP\n    DEF here\n    HLT\n");
    let without = build("main:\n    NOP\n    HLT\n");
    assert_eq!(with, without);
}

#[test]
fn constants_and_eight_bit_slots() {
    let bytes = build("@const BIG 0x1234\nmain:\n    MW B BIG\n    LW L BIG\n    HLT\n");
    assert_eq!(bytes, vec![0b00011_1_01, 0x34, 0b00001_1_11, 0x12, 0x34, 0x78]);
}

#[test]
fn every_instruction_form_packs() {
    let source = "main:\n    LW B\n    SW H 0x0102\n    PUSH 9\n    PUSH L\n    POP A\n    OUT B\n    OUT 3\n    SUB H L\n    SUB A 1\n    JC\n    JC main\n    NOP\n";
    assert_eq!(
        build(source),
        vec![
            0b00001_0_01,
            0b00010_1_10, 0x01, 0x02,
            0b00100_1_00, 9,
            0b00100_0_11,
            0b00101_0_00,
            0b01110_0_01,
            0b01110_1_00, 3,
            0b01011_0_10, 0b11_000000,
            0b01011_1_00, 1,
            0b01001_0_00,
            0b01001_1_00, 0x00, 0x00,
            0b11111_0_00,
        ]
    );
}

#[test]
fn unresolved_placeholder_is_an_error() {
    let tokens = scan_tokens("main:\n    JMP nowhere\n".to_string(), "main.bread".to_string()).unwrap();
    let program = parse(tokens, "main.bread".to_string()).unwrap();
    let mut compiler = Compiler::new();
    assert_eq!(program.compile(&mut compiler), Err("nowhere".to_string()));
}

#[test]
fn number_too_big_is_reported() {
    let errors = parse_errors("main:\n    MW A 256\n");
    assert!(errors.iter().any(|e| matches!(e.code, ErrorCode::NumberTooBig(256)) && !e.critical));
}

#[test]
fn invalid_number_is_reported() {
    let errors = parse_errors("main:\n    MW A 0x\n");
    assert!(errors.iter().any(|e| matches!(e.code, ErrorCode::InvalidNumber)));
}

#[test]
fn extra_tokens_expect_new_line() {
    let errors = parse_errors("main:\n    HLT A\n");
    assert!(errors
        .iter()
        .any(|e| matches!(&e.code, ErrorCode::ExpectedButFound(what, _) if what == "New Line")));
}

#[test]
fn unexpected_character_stops_lexing() {
    match scan_tokens("main:\n    HLT #\n".to_string(), "x.bread".to_string()) {
        Err(e) => {
            assert!(matches!(e.code, ErrorCode::UnexpectedChar('#')));
            assert!(e.critical);
            assert_eq!(e.line, 2);
            assert_eq!(e.file, "x.bread");
        }
        Ok(_) => panic!("expected an error"),
    }
}

#[test]
fn lexer_tokens_carry_text_and_lines() {
    let tokens = scan_tokens("main: ; note\n\tMW A 0x1_F\n".to_string(), "f".to_string()).unwrap();
    let kinds: Vec<TokenType> = tokens.iter().map(|t| t.token_type.clone()).collect();
    assert_eq!(
        kinds,
        vec![
            TokenType::Identifier("main".to_string()),
            TokenType::Colon,
            TokenType::NewLine,
            TokenType::Indent("\t".to_string()),
            TokenType::Instruction(Instruction::MW),
            TokenType::Register(Register::A),
            TokenType::Number("0x1_F".to_string()),
            TokenType::NewLine,
            TokenType::EndOfFile,
        ]
    );
    assert_eq!(tokens[4].line, 2);
    assert_eq!(tokens[8].line, 3);
    assert!(tokens.iter().all(|t| t.file == "f"));
}

#[test]
fn retired_mnemonics_are_identifiers() {
    let tokens = scan_tokens("JO TEL JC".to_string(), "f".to_string()).unwrap();
    assert_eq!(tokens[0].token_type, TokenType::Identifier("JO".to_string()));
    assert_eq!(tokens[1].token_type, TokenType::Identifier("TEL".to_string()));
    assert_eq!(tokens[2].token_type, TokenType::Instruction(Instruction::JC));
}

#[test]
fn literal_conversion() {
    assert_eq!(parse_literal(&"0b1010_0101".to_string()), Some(0xA5));
    assert_eq!(parse_literal(&"0xff".to_string()), Some(255));
    assert_eq!(parse_literal(&"65_535".to_string()), Some(65535));
    assert_eq!(parse_literal(&"2147483647".to_string()), Some(i32::MAX));
    assert_eq!(parse_literal(&"2147483648".to_string()), None);
    assert_eq!(parse_literal(&"0b102".to_string()), None);
    assert_eq!(parse_literal(&"_".to_string()), None);
}

#[test]
fn immediates_fit_their_width() {
    assert_eq!(Imm8::new(255), Some(Imm8(255)));
    assert_eq!(Imm8::new(256), None);
    assert_eq!(Imm8::new(-1), None);
    assert_eq!(Imm16::new(65535), Some(Imm16(65535)));
    assert_eq!(Imm16::new(65536), None);
    assert_eq!(Imm8::from_imm16(Imm16(0x1234)), Imm8(0x34));
}

#[test]
fn emitter_packs_first_and_second_bytes() {
    let mut c = Compiler::new();
    c.first_byte(Instruction::NOP, false, None);
    c.first_byte(Instruction::JZ, true, Some(Register::L));
    c.two_bytes(Instruction::MW, false, Register::B, Register::H);
    c.add_bytes(&[1, 2]);
    assert_eq!(c.bytes, vec![0b11111_0_00, 0b01000_1_11, 0b00011_0_01, 0b10_000000, 1, 2]);
}

#[test]
fn include_of_missing_file_fails() {
    let errors = parse_errors("@include lib.bread\nmain:\n    HLT\n");
    assert!(errors.iter().any(|e| matches!(&e.code, ErrorCode::NoSuchFile(f) if f == "lib.bread")));
}

#[test]
fn include_splices_tokens_once() {
    let root = "@include lib.bread\n@include lib.bread\nmain:\n    JMP helper\n";
    let lib = "helper:\n    HLT\n";
    let tokens = scan_tokens(root.to_string(), "main.bread".to_string()).unwrap();
    let mut parser = Parser::new(tokens, "main.bread".to_string());
    let mut state = ProgramParse::new("main.bread".to_string());
    let mut requests = 0;
    loop {
        match ProgramNode::populate(&mut parser, &mut state) {
            ParseStep::NeedFile(path) => {
                requests += 1;
                assert_eq!(path, "lib.bread");
                state.supply_file(&mut parser, &path, Some(lib.to_string()));
            }
            ParseStep::Finished => break,
        }
    }
    assert_eq!(requests, 1);
    let program = state.finish().unwrap();
    assert_eq!(program.subroutines.len(), 2);
    let mut compiler = Compiler::new();
    program.compile(&mut compiler).unwrap();
    assert_eq!(compiler.bytes, vec![0b00111_1_00, 0x00, 0x03, 0x78]);
}

#[test]
fn parser_splices_at_cursor() {
    let tokens = vec![
        Token::new(TokenType::Comma, 1, "a".to_string()),
        Token::new(TokenType::EndOfFile, 1, "a".to_string()),
    ];
    let mut parser = Parser::new(tokens, "a".to_string());
    parser.advance();
    parser.insert(vec![Token::new(TokenType::Colon, 1, "b".to_string())]);
    assert_eq!(parser.peek().token_type, TokenType::Colon);
    assert_eq!(parser.current().token_type, TokenType::Comma);
    assert!(parser.has_file(&"a".to_string()));
}

#[test]
fn stray_top_level_token_is_reported() {
    let errors = parse_errors(",\nmain:\n    HLT\n");
    assert_eq!(errors.len(), 1);
    assert!(!errors[0].critical);
    assert!(matches!(&errors[0].code, ErrorCode::ExpectedButFound(_, TokenType::Comma)));
}

#[test]
fn duplicate_macro_parameters_are_rejected() {
    let errors = parse_errors("@macro\ntwice(x x):\n    MW A x\nmain:\n    HLT\n");
    assert!(errors[0].critical);
    assert!(matches!(&errors[0].code, ErrorCode::ExpectedButFound(what, _) if what == "Close Parenthesis or Identifier"));
}

#[test]
fn node_sizes() {
    assert_eq!(Node::get_size(&Imm8(1)), 1);
    assert_eq!(Node::get_size(&Imm16(1)), 2);
    let tokens = scan_tokens("main:\n    LDA 1\n    PUSH A\n    DEF x\n    HLT\n".to_string(), "main.bread".to_string()).unwrap();
    let program = parse(tokens, "main.bread".to_string()).unwrap();
    assert_eq!(Node::get_size(&program.subroutines[0]), 5);
    let sizes: Vec<u16> = program.subroutines[0].instructions.iter().map(|n| Node::get_size(n)).collect();
    assert_eq!(sizes, vec![3, 1, 0, 1]);
}

#[test]
fn bad_lines_are_reported_and_skipped() {
    let tokens = scan_tokens("    LW\n    HLT A B\n    NOP\nnext".to_string(), "f".to_string()).unwrap();
    let mut parser = Parser::new(tokens, "f".to_string());
    match get_instructions(&mut parser) {
        Ok(_) => panic!("expected errors"),
        Err(errors) => {
            // one for the line that does not parse, one per extra token
            assert_eq!(errors.len(), 3);
            assert!(errors.iter().all(|e| !e.critical));
        }
    }
    assert_eq!(parser.peek().token_type, TokenType::Identifier("next".to_string()));
}

#[test]
fn jump_takes_a_numeric_address() {
    assert_eq!(build("main:\n    JMP 0x0102\n"), vec![0b00111_1_00, 0x01, 0x02]);
}
