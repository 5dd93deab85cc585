use simple_virtual_assembler::vm::flag::Flag;
use simple_virtual_assembler::vm::instruction::Instruction;
use simple_virtual_assembler::vm::opcodes::Opcode;
use simple_virtual_assembler::vm::operand::Operand;
use simple_virtual_assembler::vm::virtual_machine::VirtualMachine;

#[test]
fn virtual_machine_test_create_vm() {
    let program = vec![Instruction::new(Opcode::ADD(Operand::IntegerValue(12)))];
    let vm = VirtualMachine::new_with_program(program);
    assert_eq!(vm.get_registers()[0], 0);
}

#[test]
fn virtual_machine_test_vm_fetch_instruction() {
    let program = vec![
        Instruction::new(Opcode::ADD(Operand::IntegerValue(12))),
        Instruction::new(Opcode::SUB(Operand::IntegerValue(10))),
    ];
    let mut vm = VirtualMachine::new_with_program(program);
    let _i1 = vm.fetch();
    let i2 = vm.fetch();
    assert_eq!(
        i2.get_opcode().unwrap(),
        Opcode::SUB(Operand::IntegerValue(10))
    );
}

#[test]
fn virtual_machine_test_vm_instruction_add() {
    let program = vec![
        Instruction::new(Opcode::ADD(Operand::IntegerValue(10))),
        Instruction::new(Opcode::ADD(Operand::IntegerValue(45))),
    ];
    let mut vm = VirtualMachine::new_with_program(program);
    vm.execute();
    vm.execute();
    assert_eq!(vm.get_acc(), 55);
}

#[test]
fn virtual_machine_test_vm_instruction_subtract() {
    let program = vec![
        Instruction::new(Opcode::ADD(Operand::IntegerValue(100))),
        Instruction::new(Opcode::SUB(Operand::IntegerValue(90))),
        Instruction::new(Opcode::SUB(Operand::IntegerValue(1))),
        Instruction::new(Opcode::SUB(Operand::IntegerValue(1))),
        Instruction::new(Opcode::HLT),
    ];
    let mut vm = VirtualMachine::new_with_program(program);
    vm.run();

    assert_eq!(vm.get_acc(), 8);
}

#[test]
fn virtual_machine_test_vm_instruction_multiply() {
    let program = vec![
        Instruction::new(Opcode::ADD(Operand::IntegerValue(3))),
        Instruction::new(Opcode::MUL(Operand::IntegerValue(7))),
    ];
    let mut vm = VirtualMachine::new_with_program(program);
    vm.execute();
    vm.execute();
    assert_eq!(vm.get_acc(), 21);
}

#[test]
fn virtual_machine_test_vm_instruction_divide() {
    let program = vec![
        Instruction::new(Opcode::ADD(Operand::IntegerValue(100))),
        Instruction::new(Opcode::DIV(Operand::IntegerValue(5))),
    ];
    let mut vm = VirtualMachine::new_with_program(program);
    vm.execute();
    vm.execute();
    assert_eq!(vm.get_acc(), 20);
}

#[test]
fn virtual_machine_test_vm_instruction_move() {
    let program = vec![
        Instruction::new(Opcode::MOV(
            Operand::IntegerValue(12),
            Operand::GeneralRegister(1),
        )),
        Instruction::new(Opcode::MOV(
            Operand::GeneralRegister(1),
            Operand::GeneralRegister(2),
        )),
        Instruction::new(Opcode::MOV(
            Operand::GeneralRegister(1),
            Operand::PortRegister(1),
        )),
        Instruction::new(Opcode::MOV(
            Operand::IntegerValue(7),
            Operand::PortRegister(2),
        )),
        Instruction::new(Opcode::MOV(
            Operand::PortRegister(2),
            Operand::GeneralRegister(1),
        )),
        Instruction::new(Opcode::HLT),
    ];
    // expected:  r1 = 7, r2 =  12, p1 = 12, p2 = 7
    let mut vm = VirtualMachine::new_with_program(program);
    vm.run();
    assert_eq!(vm.get_registers()[1], 7);
    assert_eq!(vm.get_registers()[2], 12);
    let mut ports = vm.get_ports();
    assert_eq!(ports[1].get(), 12);
    assert_eq!(ports[2].get(), 7);
}

#[test]
fn virtual_machine_test_vm_cmp() {
    let program = vec![
        Instruction::new(Opcode::MOV(
            Operand::IntegerValue(10),
            Operand::GeneralRegister(1),
        )),
        Instruction::new(Opcode::MOV(
            Operand::IntegerValue(12),
            Operand::PortRegister(0),
        )),
        Instruction::new(Opcode::MOV(
            Operand::IntegerValue(12),
            Operand::PortRegister(3),
        )),
        Instruction::new(Opcode::CMP(
            Operand::GeneralRegister(1),
            Operand::PortRegister(0),
        )),
        Instruction::new(Opcode::CMP(
            Operand::PortRegister(0),
            Operand::PortRegister(3),
        )),
        Instruction::new(Opcode::CMP(
            Operand::PortRegister(0),
            Operand::GeneralRegister(1),
        )),
        Instruction::new(Opcode::HLT),
    ];
    let mut vm = VirtualMachine::new_with_program(program);
    vm.execute();
    vm.execute();
    vm.execute();

    vm.execute();
    assert_eq!(vm.get_flag(), Flag::LESSER);

    vm.execute();
    assert_eq!(vm.get_flag(), Flag::EQUAL);

    vm.execute();
    assert_eq!(vm.get_flag(), Flag::GREATER);
}

#[test]
fn virtual_machine_test_vm_acc_and_pc_operations() {
    // Expected result acc = 17
    let program = vec![
        Instruction::new(Opcode::MOV(Operand::IntegerValue(10), Operand::ACC)),
        Instruction::new(Opcode::NOP),
        Instruction::new(Opcode::NOP),
        Instruction::new(Opcode::NOP),
        Instruction::new(Opcode::NOP),
        Instruction::new(Opcode::NOP),
        Instruction::new(Opcode::ADD(Operand::PC)),
        Instruction::new(Opcode::HLT),
    ];

    let mut vm = VirtualMachine::new_with_program(program);
    vm.run();

    assert_eq!(vm.get_acc(), 17);
}

#[test]
fn virtual_machine_test_vm_labels_jumping_division_by_subtraction() {
    // Expected result r2 = 4
    let program = vec![
        Instruction::new(Opcode::MOV(
            Operand::IntegerValue(20),
            Operand::GeneralRegister(0),
        )),
        Instruction::new(Opcode::MOV(
            Operand::IntegerValue(5),
            Operand::GeneralRegister(1),
        )),
        Instruction::new(Opcode::MOV(
            Operand::IntegerValue(0),
            Operand::GeneralRegister(2),
        )),
        Instruction::new_label("loop".to_string(), 3),
        Instruction::new(Opcode::MOV(Operand::GeneralRegister(0), Operand::ACC)),
        Instruction::new(Opcode::SUB(Operand::GeneralRegister(1))),
        Instruction::new(Opcode::MOV(Operand::ACC, Operand::GeneralRegister(0))),
        Instruction::new(Opcode::MOV(Operand::GeneralRegister(2), Operand::ACC)),
        Instruction::new(Opcode::ADD(Operand::IntegerValue(1))),
        Instruction::new(Opcode::MOV(Operand::ACC, Operand::GeneralRegister(2))),
        Instruction::new(Opcode::CMP(
            Operand::GeneralRegister(0),
            Operand::IntegerValue(0),
        )),
        Instruction::new(Opcode::JG("loop".to_string())),
        Instruction::new(Opcode::HLT),
    ];
    let mut vm = VirtualMachine::new_with_program(program);
    vm.run();

    assert_eq!(vm.get_registers()[2], 4);
}
