use simple_virtual_assembler::vm::flag::Flag;
use simple_virtual_assembler::vm::instruction::Instruction;
use simple_virtual_assembler::vm::opcodes::Opcode;
use simple_virtual_assembler::vm::operand::Operand;
use simple_virtual_assembler::vm::virtual_machine::VirtualMachine;

#[test]
fn test_create_vm() {
    let program = vec![Instruction::new(Opcode::ADD(Operand::IntegerValue(12)))];
    let vm = VirtualMachine::new_with_program(program);
    assert_eq!(vm.get_registers()[0], 0);
}

#[test]
fn test_vm_fetch_instruction() {
    let program = vec![
        Instruction::new(Opcode::ADD(Operand::IntegerValue(12))),
        Instruction::new(Opcode::SUB(Operand::IntegerValue(10))),
    ];
    let mut vm = VirtualMachine::new_with_program(program);
    let _i1 = vm.fetch();
    let i2 = vm.fetch();
    assert_eq!(
        i2.get_opcode().unwrap(),
        Opcode::SUB(Operand::IntegerValue(10))
    );
}

#[test]
fn test_load_program() {
    let mut vm = VirtualMachine::new_with_program(vec![]);
    let program = vec![
        Instruction::new(Opcode::ADD(Operand::IntegerValue(10))),
        Instruction::new(Opcode::ADD(Operand::IntegerValue(45))),
    ];
    vm.load_program(program.clone());
    assert_eq!(vm.get_program(), program);
}

#[test]
fn test_vm_instruction_add() {
    let program = vec![
        Instruction::new(Opcode::ADD(Operand::IntegerValue(10))),
        Instruction::new(Opcode::ADD(Operand::IntegerValue(45))),
    ];
    let mut vm = VirtualMachine::new_with_program(program);
    vm.execute();
    vm.execute();
    assert_eq!(vm.get_acc(), 55);
}

#[test]
fn test_vm_instruction_subtract() {
    let program = vec![
        Instruction::new(Opcode::ADD(Operand::IntegerValue(100))),
        Instruction::new(Opcode::SUB(Operand::IntegerValue(90))),
        Instruction::new(Opcode::SUB(Operand::IntegerValue(1))),
        Instruction::new(Opcode::SUB(Operand::IntegerValue(1))),
        Instruction::new(Opcode::HLT),
    ];
    let mut vm = VirtualMachine::new_with_program(program);
    vm.run();

    assert_eq!(vm.get_acc(), 8);
}

#[test]
fn test_vm_instruction_multiply() {
    let program = vec![
        Instruction::new(Opcode::ADD(Operand::IntegerValue(3))),
        Instruction::new(Opcode::MUL(Operand::IntegerValue(7))),
    ];
    let mut vm = VirtualMachine::new_with_program(program);
    vm.execute();
    vm.execute();
    assert_eq!(vm.get_acc(), 21);
}

#[test]
fn test_vm_instruction_divide() {
    let program = vec![
        Instruction::new(Opcode::ADD(Operand::IntegerValue(100))),
        Instruction::new(Opcode::DIV(Operand::IntegerValue(5))),
    ];
    let mut vm = VirtualMachine::new_with_program(program);
    vm.execute();
    vm.execute();
    assert_eq!(vm.get_acc(), 20);
}

#[test]
fn test_vm_instruction_move() {
    let program = vec![
        // MOV 12 R1    -> Moving integer into register
        // MOV R1 R2    -> Moving from register to register
        // MOV R1 P1    -> Moving from register to port
        // MOV 7 P2     -> Moving integer into port
        // MOV P1 R1    -> Moving from port to register
        Instruction::new(Opcode::MOV(
            Operand::IntegerValue(12),
            Operand::GeneralRegister(1),
        )),
        Instruction::new(Opcode::MOV(
            Operand::GeneralRegister(1),
            Operand::GeneralRegister(2),
        )),
        Instruction::new(Opcode::MOV(
            Operand::GeneralRegister(1),
            Operand::PortRegister(1),
        )),
        Instruction::new(Opcode::MOV(
            Operand::IntegerValue(7),
            Operand::PortRegister(2),
        )),
        Instruction::new(Opcode::MOV(
            Operand::PortRegister(2),
            Operand::GeneralRegister(1),
        )),
        Instruction::new(Opcode::HLT),
    ];
    // expected:  r1 = 7, r2 =  12, p1 = 12, p2 = 7
    let mut vm = VirtualMachine::new_with_program(program);
    vm.run();
    assert_eq!(vm.get_registers()[1], 7);
    assert_eq!(vm.get_registers()[2], 12);
}

#[test]
fn test_vm_cmp() {
    // MOV 10 r1
    // MOV 12 p0
    // MOV 12 p3

    // CPM r1 p0    (10, 12)
    // Flag should be set to Lesser

    // CMP p0 p3    (12, 12)
    // Flag should be set to Equal

    // CPM p0 r1    (12, 10)
    // Flag should be set to Greater

    let program = vec![
        Instruction::new(Opcode::MOV(
            Operand::IntegerValue(10),
            Operand::GeneralRegister(1),
        )),
        Instruction::new(Opcode::MOV(
            Operand::IntegerValue(12),
            Operand::PortRegister(0),
        )),
        Instruction::new(Opcode::MOV(
            Operand::IntegerValue(12),
            Operand::PortRegister(3),
        )),
        // CPM r1 p0
        Instruction::new(Opcode::CMP(
            Operand::GeneralRegister(1),
            Operand::PortRegister(0),
        )),
        // CMP p0 p3
        Instruction::new(Opcode::CMP(
            Operand::PortRegister(0),
            Operand::PortRegister(3),
        )),
        // CMP p0 r1
        Instruction::new(Opcode::CMP(
            Operand::PortRegister(0),
            Operand::GeneralRegister(1),
        )),
        Instruction::new(Opcode::HLT),
    ];
    let mut vm = VirtualMachine::new_with_program(program);
    vm.execute();
    vm.execute();
    vm.execute();

    vm.execute();
    assert_eq!(vm.get_flag(), Flag::LESSER);

    vm.execute();
    assert_eq!(vm.get_flag(), Flag::EQUAL);

    vm.execute();
    assert_eq!(vm.get_flag(), Flag::GREATER);
}

#[test]
fn test_vm_acc_and_pc_operations() {
    // MOV 10 acc   PC = 1
    // NOP          PC = 2
    // NOP          PC = 3
    // NOP          PC = 4
    // NOP          PC = 5
    // NOP          PC = 6
    // ADD pc       PC = 7 then  Acc = 10 + 7
    // HLT

    // Expected result acc = 17

    let program = vec![
        Instruction::new(Opcode::MOV(Operand::IntegerValue(10), Operand::ACC)),
        Instruction::new(Opcode::NOP),
        Instruction::new(Opcode::NOP),
        Instruction::new(Opcode::NOP),
        Instruction::new(Opcode::NOP),
        Instruction::new(Opcode::NOP),
        Instruction::new(Opcode::ADD(Operand::PC)),
        Instruction::new(Opcode::HLT),
    ];

    let mut vm = VirtualMachine::new_with_program(program);
    vm.run();

    assert_eq!(vm.get_acc(), 17);
}

#[test]
fn test_vm_labels_jumping_division_by_subtraction() {
    //                      # Divide 20 by 5 without div operator
    // mov 20 r0            # Set (r0) initial value to 20
    // mov 5 r1             # Set (r1) devisor to 5
    // mov 0 r2             # Set (r2) counter to 0
    // loop:                # Label for looping
    //      mov r0 acc      # Mov to acc
    //      sub r1          # Subtract devisor
    //      mov acc r0      # Copy result
    //      mov r2  acc     # Copy counter value to accumulator
    //      add 1           # Increment accumulator by 1
    //      mov acc r2      # Copy increased value back to counter
    //      cmp r0 0        # Compare current value to 0
    //      JG loop         # Jump if current value is grater that 0
    // hlt

    // Expected result r2 = 4

    let program = vec![
        Instruction::new(Opcode::MOV(
            Operand::IntegerValue(20),
            Operand::GeneralRegister(0),
        )),
        Instruction::new(Opcode::MOV(
            Operand::IntegerValue(5),
            Operand::GeneralRegister(1),
        )),
        Instruction::new(Opcode::MOV(
            Operand::IntegerValue(0),
            Operand::GeneralRegister(2),
        )),
        Instruction::new_label("loop".to_string(), 3),
        Instruction::new(Opcode::MOV(Operand::GeneralRegister(0), Operand::ACC)),
        Instruction::new(Opcode::SUB(Operand::GeneralRegister(1))),
        Instruction::new(Opcode::MOV(Operand::ACC, Operand::GeneralRegister(0))),
        Instruction::new(Opcode::MOV(Operand::GeneralRegister(2), Operand::ACC)),
        Instruction::new(Opcode::ADD(Operand::IntegerValue(1))),
        Instruction::new(Opcode::MOV(Operand::ACC, Operand::GeneralRegister(2))),
        Instruction::new(Opcode::CMP(
            Operand::GeneralRegister(0),
            Operand::IntegerValue(0),
        )),
        Instruction::new(Opcode::JG("loop".to_string())),
        Instruction::new(Opcode::HLT),
    ];
    let mut vm = VirtualMachine::new_with_program(program);
    vm.run();

    assert_eq!(vm.get_registers()[2], 4);
}

#[test]
pub fn test_ports() {
    // ADD 10
    // MOV acc p0
    // MOV p0 p1
    // MOV p1 r1
    // ADD p0
    // HLT

    // Expected state:
    // acc: 20, r: [0, 10, 0, 0] p: [10, 10, 0, 0]

    let program = vec![
        Instruction::new(Opcode::ADD(Operand::IntegerValue(10))),
        Instruction::new(Opcode::MOV(Operand::ACC, Operand::PortRegister(0))),
        Instruction::new(Opcode::MOV(
            Operand::PortRegister(0),
            Operand::PortRegister(1),
        )),
        Instruction::new(Opcode::MOV(
            Operand::PortRegister(1),
            Operand::GeneralRegister(1),
        )),
        Instruction::new(Opcode::ADD(Operand::PortRegister(0))),
        Instruction::new(Opcode::HLT),
    ];

    let mut vm = VirtualMachine::new_with_program(program);

    vm.run();
    assert_eq!(vm.get_acc(), 20);
}
