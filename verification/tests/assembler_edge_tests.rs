use simple_virtual_assembler::assembler::assembler::Assembler;
use simple_virtual_assembler::assembler::parsing_err::{ParsingError, ParsingErrorKind};
use simple_virtual_assembler::language::Language;
use simple_virtual_assembler::vm::instruction::Instruction;
use simple_virtual_assembler::vm::opcodes::Opcode;
use simple_virtual_assembler::vm::operand::Operand;

fn kind_of(e: &ParsingError) -> ParsingErrorKind {
    match e {
        ParsingError::EmptyOperand(_) => ParsingErrorKind::EmptyOperand,
        ParsingError::InvalidPortNumber(_) => ParsingErrorKind::InvalidPortNumber,
        ParsingError::InvalidRegisterNumber(_) => ParsingErrorKind::InvalidRegisterNumber,
        ParsingError::InvalidOperandType(_) => ParsingErrorKind::InvalidOperandType,
        ParsingError::InvalidNumericLiteral(_) => ParsingErrorKind::InvalidNumericLiteral,
        ParsingError::InvalidBinaryLiteral(_) => ParsingErrorKind::InvalidBinaryLiteral,
        ParsingError::InvalidHexLiteral(_) => ParsingErrorKind::InvalidHexLiteral,
        ParsingError::InvalidCharLiteral(_) => ParsingErrorKind::InvalidCharLiteral,
        ParsingError::NoSuchInstruction(_) => ParsingErrorKind::NoSuchInstruction,
        ParsingError::Empty(_) => ParsingErrorKind::Empty,
        ParsingError::Unknown(_) => ParsingErrorKind::Unknown,
        ParsingError::NotImplanted(_) => ParsingErrorKind::NotImplanted,
        ParsingError::NotEnoughOperands(_) => ParsingErrorKind::NotEnoughOperands,
        ParsingError::TooManyOperands(_) => ParsingErrorKind::TooManyOperands,
        ParsingError::StackNotPresent(_) => ParsingErrorKind::StackNotPresent,
    }
}

#[test]
fn parsing_char_literals_yields_code_points() {
    let mut assembler = Assembler::new();
    let program = assembler.parse("ADD 'A'").unwrap();
    assert_eq!(
        program,
        vec![Instruction::new(Opcode::ADD(Operand::IntegerValue(65)))]
    );
}

#[test]
fn parsing_register_only_positions_refuse_literals() {
    let mut assembler = Assembler::new();
    let e = assembler.parse("MOV 1 2").unwrap_err();
    assert_eq!(kind_of(&e), ParsingErrorKind::InvalidOperandType);

    let e = assembler.parse("MOV 1 0b11").unwrap_err();
    assert_eq!(kind_of(&e), ParsingErrorKind::InvalidBinaryLiteral);

    let e = assembler.parse("MOV 1 0x1F").unwrap_err();
    assert_eq!(kind_of(&e), ParsingErrorKind::InvalidHexLiteral);

    let e = assembler.parse("MOV 1 'c'").unwrap_err();
    assert_eq!(kind_of(&e), ParsingErrorKind::InvalidCharLiteral);
}

#[test]
fn parsing_error_kinds_come_with_their_lines() {
    let mut assembler = Assembler::new();

    let e = assembler.parse("nonsense").unwrap_err();
    assert_eq!(kind_of(&e), ParsingErrorKind::NoSuchInstruction);

    let e = assembler.parse("ADD 8\nADD 99999999999999").unwrap_err();
    assert_eq!(kind_of(&e), ParsingErrorKind::InvalidNumericLiteral);
    assert_eq!(e.get_data(), simple_virtual_assembler::assembler::parsing_err::ParsingErrorData::new(1, "".to_string()));

    let e = assembler.parse("ADD").unwrap_err();
    assert_eq!(kind_of(&e), ParsingErrorKind::NotEnoughOperands);

    let e = assembler.parse("ADD 1 2").unwrap_err();
    assert_eq!(kind_of(&e), ParsingErrorKind::TooManyOperands);

    let e = assembler.parse("JMP").unwrap_err();
    assert_eq!(kind_of(&e), ParsingErrorKind::NotEnoughOperands);

    let e = assembler.parse("JMP a b").unwrap_err();
    assert_eq!(kind_of(&e), ParsingErrorKind::TooManyOperands);

    let e = assembler.parse("ADD r9").unwrap_err();
    assert_eq!(kind_of(&e), ParsingErrorKind::InvalidPortNumber);
}

#[test]
fn stack_mnemonics_need_a_stack_configured() {
    let mut assembler = Assembler::new();
    let e = assembler.parse("psh acc").unwrap_err();
    assert_eq!(kind_of(&e), ParsingErrorKind::StackNotPresent);
    assert_eq!(e.get_message(), "stack not present".to_string());

    let e = assembler.parse("pop acc").unwrap_err();
    assert_eq!(kind_of(&e), ParsingErrorKind::StackNotPresent);

    let mut with_stack = Assembler::new().with_stack();
    let program = with_stack.parse("psh acc\npop r0").unwrap();
    assert_eq!(
        program,
        vec![
            Instruction::new(Opcode::PSH(Operand::ACC)),
            Instruction::new(Opcode::POP(Operand::GeneralRegister(0))),
        ]
    );
}

#[test]
fn parsing_signed_forms_and_register_bounds() {
    let mut assembler = Assembler::new();
    // a plus-signed register index parses, as the standard number parser
    // tolerates the sign
    let program = assembler.parse("ADD r+2").unwrap();
    assert_eq!(
        program,
        vec![Instruction::new(Opcode::ADD(Operand::GeneralRegister(2)))]
    );

    // ports reach up to p5, registers stop at r3
    let program = assembler.parse("ADD p5").unwrap();
    assert_eq!(
        program,
        vec![Instruction::new(Opcode::ADD(Operand::PortRegister(5)))]
    );
    assert!(assembler.parse("ADD r4").is_err());
    assert!(assembler.parse("ADD p6").is_err());

    // signed radix literals follow the standard radix parser
    let program = assembler.parse("ADD 0b-101").unwrap();
    assert_eq!(
        program,
        vec![Instruction::new(Opcode::ADD(Operand::IntegerValue(-5)))]
    );

    // integer boundaries parse exactly
    let program = assembler.parse("ADD -2147483648\nADD 2147483647").unwrap();
    assert_eq!(
        program,
        vec![
            Instruction::new(Opcode::ADD(Operand::IntegerValue(i32::MIN))),
            Instruction::new(Opcode::ADD(Operand::IntegerValue(i32::MAX))),
        ]
    );
    assert!(assembler.parse("ADD 2147483648").is_err());
}

#[test]
fn labels_keep_their_source_lines() {
    let mut assembler = Assembler::new();
    let program = assembler.parse("NOP\nstart:\nHLT").unwrap();
    assert_eq!(
        program,
        vec![
            Instruction::new(Opcode::NOP),
            Instruction::new_label("start".to_string(), 1),
            Instruction::new(Opcode::HLT),
        ]
    );
}

#[test]
fn language_codes_name_the_locales() {
    assert_eq!(Language::Pl.string_code(), "pl");
    assert_eq!(Language::En.string_code(), "en");
    assert_ne!(Language::Pl, Language::En);
}
