use simple_virtual_assembler::assembler::assembler::Assembler;
use simple_virtual_assembler::vm::instruction::Instruction;
use simple_virtual_assembler::vm::opcodes::Opcode;
use simple_virtual_assembler::vm::operand::Operand;

#[test]
fn test_parsing_operand_empty() {
    let mut assembler = Assembler::new();

    let result = assembler.parse_operand("", 0, false);

    assert!(result.is_err());
}

#[test]
fn test_parsing_operand_correct_registers() {
    let mut assembler = Assembler::new();

    let registers = ["r0", "r1", "r2", "r3", "p0", "p1", "p2", "p3"];

    for register in registers.iter() {
        let result = assembler.parse_operand(register, 0, false);

        assert!(result.is_ok());
    }
}

#[test]
fn test_parsing_operand_in_correct_registers() {
    let mut assembler = Assembler::new();

    let registers = ["r-1", "r4", "rp", "pr", "p-3, p10"];

    for register in registers.iter() {
        let result = assembler.parse_operand(register, 0, false);
        println!("{:?}", result);
        assert!(result.is_err());
    }
}

#[test]
fn test_parsing_operand() {
    let mut assembler = Assembler::new();

    let registers = ["r0", "r1", "r2", "r3", "p0", "p1", "p2", "p3"];

    for register in registers.iter() {
        let result = assembler.parse_operand(register, 0, false);

        assert!(result.is_ok());
    }
}

#[test]
fn test_parsing_empty_string() {
    let program_text = "";

    let mut assembler = Assembler::new();

    let result = assembler.parse(program_text);

    assert!(result.is_err());
}

#[test]
fn test_parsing_sub() {
    let program_text = r#"
            SUB 10
            SUB r1
            SUB p2
            SUB -100
        "#;

    let mut assembler = Assembler::new();

    let result = assembler.parse(program_text);

    assert!(result.is_ok());

    let program = result.unwrap();

    let expected = vec![
        Instruction::new(Opcode::SUB(Operand::IntegerValue(10))),
        Instruction::new(Opcode::SUB(Operand::GeneralRegister(1))),
        Instruction::new(Opcode::SUB(Operand::PortRegister(2))),
        Instruction::new(Opcode::SUB(Operand::IntegerValue(-100))),
    ];

    assert_eq!(program, expected);
}

#[test]
fn test_parsing_different_base_integers() {
    let program_text = r#"
        ADD -7
        ADD 0xAF
        ADD 0b101

    "#;
    let mut assembler = Assembler::new();
    let result = assembler.parse(program_text);

    let expected = vec![
        Instruction::new(Opcode::ADD(Operand::IntegerValue(-7))),
        Instruction::new(Opcode::ADD(Operand::IntegerValue(175))),
        Instruction::new(Opcode::ADD(Operand::IntegerValue(5))),
    ];

    assert_eq!(result.unwrap(), expected);
}

#[test]
fn test_parsing_invalid_different_base_integers() {
    let program_text = r#"
        ADD -7
        ADD 0xAF
        ADD 0b1013

        "#;
    let mut assembler = Assembler::new();
    let result = assembler.parse(program_text);

    assert!(result.is_err());

    let program_text = r#"
        ADD -7
        ADD AF
        "#;

    let mut assembler = Assembler::new();
    let result = assembler.parse(program_text);

    assert!(result.is_err());
}

#[test]
fn test_parsing_sub_inlaid_register() {
    let program_text = r#"
            SUB 10
            SUB r1
            SUB p6
        "#;

    let mut assembler = Assembler::new();

    let result = assembler.parse(program_text);

    assert!(result.is_err());
}

#[test]
fn test_parsing_sub_invalid_num_of_parameters() {
    let program_text = r#"
            SUB 2 p1
        "#;

    let mut assembler = Assembler::new();

    let result = assembler.parse(program_text);

    assert!(result.is_err());
}

#[test]
fn test_parsing_mov_invalid_num_parameters() {
    let program_text = r#"
            MOV 10
        "#;

    let mut assembler = Assembler::new();

    let result = assembler.parse(program_text);

    assert!(result.is_err());
}

#[test]
fn test_parsing_mov() {
    let program_text = r#"
            MOV r1 r2
            MOV 540999 acc

        "#;

    let mut assembler = Assembler::new();

    let result = assembler.parse(program_text);
    assert!(result.is_ok());
}

#[test]
fn test_parsing_labels_and_jumps() {
    let program_text = r#"
        MOV 10 acc
        loop:
            ADD 8
            CMP acc 20
            JL loop
        HLT
        "#;

    let mut assembler = Assembler::new();

    let result = assembler.parse(program_text);
    assert!(result.is_ok());
}

#[test]
fn test_parsing_comments() {
    let program_text = r#"
        MOV 10 acc      # Moving 10 to accumulator
        loop:           # Setting up label
            ADD 8       # Adding 8 to accumulator
            CMP acc 20  # Comparing value in accumulator to 20
            JL loop     # Jumping to 'loop' label if accumulator is lesser
        HLT             # Stopping execution
        "#;

    let mut assembler = Assembler::new();

    let result = assembler.parse(program_text);
    assert!(result.is_ok());
}

#[test]
fn test_parsing_empty_line() {
    let program_text = r#"
        MOV 10 acc      # Moving 10 to accumulator

        loop:           # Setting up label
            ADD 8       # Adding 8 to accumulator
            CMP acc 20  # Comparing value in accumulator to 20
            JL loop     # Jumping to 'loop' label if accumulator is lesser
        HLT             # Stopping execution
        "#;

    let mut assembler = Assembler::new();

    let result = assembler.parse(program_text);
    assert!(result.is_ok());
}

#[test]
fn test_lower_case_code_parsing() {
    let program_text = r#"
        mov 10 acc      # Moving 10 to accumulator

        loop:           # Setting up label
            add 8       # Adding 8 to accumulator
            cmp acc 20  # Comparing value in accumulator to 20
            jl loop     # Jumping to 'loop' label if accumulator is lesser
        hlt             # Stopping execution
        "#;

    let mut assembler = Assembler::new();

    let result = assembler.parse(program_text);
    assert!(result.is_ok());
}

#[test]
fn test_line_with_only_comment() {
    let program_text = r#"
        #   This program does some stuff
        #
        #       *___________________*
        #       |                   |
        #       |                   |
        #       |                   |
        #       *___________________*
        #

        mov 10 acc      # Moving 10 to accumulator

        # Looping

        loop:           # Setting up label
            add 8       # Adding 8 to accumulator
            cmp acc 20  # Comparing value in accumulator to 20
            jl loop     # Jumping to 'loop' label if accumulator is lesser
        hlt             # Stopping execution

        #
        #   Something Something Something
        #
        "#;

    let mut assembler = Assembler::new();

    let result = assembler.parse(program_text);
    assert!(result.is_ok());
}
