use simple_virtual_assembler::assembler::assembler::Assembler;
use simple_virtual_assembler::components::connection::Connection;
use simple_virtual_assembler::components::port::Port;
use simple_virtual_assembler::vm::flag::Flag;
use simple_virtual_assembler::vm::instruction::Instruction;
use simple_virtual_assembler::vm::opcodes::Opcode;
use simple_virtual_assembler::vm::operand::Operand;
use simple_virtual_assembler::vm::virtual_machine::{program_well_formed, VirtualMachine, VmStatus};

#[test]
fn scenario_mov_add_halt_yields_18() {
    let program = vec![
        Instruction::new(Opcode::MOV(Operand::IntegerValue(10), Operand::ACC)),
        Instruction::new(Opcode::ADD(Operand::IntegerValue(8))),
        Instruction::new(Opcode::HLT),
    ];
    let mut vm = VirtualMachine::new_with_program(program);
    vm.run();
    assert_eq!(vm.get_acc(), 18);
    assert_eq!(vm.get_status(), VmStatus::Finished);
}

#[test]
fn scenario_loop_with_label_halts_at_202() {
    let program_text = r#"
    MOV 10 acc
    loop:
        ADD 8
        CMP acc 200
        JL loop
    HLT
    "#;
    let mut assembler = Assembler::new();
    let program = assembler.parse(program_text).unwrap();
    let mut vm = VirtualMachine::new_with_program(program);
    vm.run();
    assert_eq!(vm.get_acc(), 202);
}

#[test]
fn scenario_two_machines_sentinel_and_payload() {
    // One machine counts to 200, writes a sentinel 7 onto one wire and the
    // value onto another; the second machine polls for the sentinel, then
    // reads the payload and divides it by two.
    let producer_code = r#"
    sum:
        MOV 0 p0
        ADD 1
        CMP acc 200
        JL sum
    MOV 7 p0
    MOV acc p1
    HLT
    "#;

    let consumer_code = r#"
    await:
        CMP p0 7
        JE consume
        JG await
        JL await
    consume:
        MOV p1 acc
        DIV 2
        HLT
    HLT
    "#;

    let communication_connection = Connection::new();
    let mut communication_to_producer = communication_connection.clone();
    let mut communication_to_consumer = communication_connection.clone();
    let data_connection = Connection::new();
    let mut data_to_producer = data_connection.clone();
    let mut data_to_consumer = data_connection.clone();

    let mut producer =
        VirtualMachine::new_with_program(Assembler::new().parse(producer_code).unwrap());
    producer.connect(0, &mut communication_to_producer);
    producer.connect(1, &mut data_to_producer);

    let mut consumer =
        VirtualMachine::new_with_program(Assembler::new().parse(consumer_code).unwrap());
    consumer.connect(0, &mut communication_to_consumer);
    consumer.connect(1, &mut data_to_consumer);

    // drive the two machines by turns from one loop: the consumer spins on
    // its await loop until the producer has written the sentinel
    let mut producer_running = true;
    let mut consumer_running = true;
    let mut steps = 0;
    while (producer_running || consumer_running) && steps < 100000 {
        if producer_running {
            producer_running = producer.execute();
        }
        if consumer_running {
            consumer_running = consumer.execute();
        }
        steps += 1;
    }
    assert!(!producer_running);
    assert!(!consumer_running);
    assert_eq!(consumer.get_acc(), 100);
}

#[test]
fn scenario_stack_pops_in_reverse_order() {
    // Push 1..40 onto a stack of 32 slots: the last slot saturates at 40.
    // The five pops then return the top five values in reverse order.
    let program_text = r#"
    push_stk:
        inc
        psh acc
        cmp acc 40
        jl push_stk
    pop acc
    pop r0
    pop r1
    pop r2
    pop r3
    HLT
    "#;
    let mut assembler = Assembler::new().with_stack();
    let program = assembler.parse(program_text).unwrap();
    let mut vm = VirtualMachine::new().with_stack(32);
    vm.load_program(program);
    vm.run();
    assert_eq!(vm.get_acc(), 40);
    assert_eq!(vm.get_registers(), [31, 30, 29, 28]);
    assert_eq!(vm.get_stack().len(), 27);
}

#[test]
fn ports_behave_alike_connected_and_disconnected() {
    // get and set work the same from the caller's point of view whether the
    // port owns its value or shares a wire
    let mut lone = Port::new(5);
    assert_eq!(lone.get(), 5);
    lone.set(9);
    assert_eq!(lone.get(), 9);

    let mut connection = Connection::new();
    let mut wired = Port::new(5);
    wired.connect(&mut connection);
    assert_eq!(wired.get(), 0);
    wired.set(9);
    assert_eq!(wired.get(), 9);
}

#[test]
fn ports_on_one_wire_observe_each_other() {
    let mut connection = Connection::new_with_id(1);
    let mut a = Port::new(0);
    let mut b = Port::new(0);
    a.connect(&mut connection);
    b.connect(&mut connection);
    assert_eq!(a.get_id(), Some(1));

    a.set(42);
    assert_eq!(b.get(), 42);
    b.set(-3);
    assert_eq!(a.get(), -3);
}

#[test]
fn disconnect_freezes_last_observed_value() {
    let mut connection = Connection::new();
    let mut a = Port::new(0);
    let mut b = Port::new(0);
    a.connect(&mut connection);
    b.connect(&mut connection);

    a.set(17);
    b.disconnect(&mut connection);
    assert_eq!(b.get(), 17);

    // later writes to the wire no longer reach the detached port
    a.set(99);
    assert_eq!(b.get(), 17);
    assert_eq!(a.get(), 99);
}

#[test]
fn machine_disconnect_snapshots_wire_value() {
    let mut connection = Connection::new();
    let mut writer = Port::new(0);
    writer.connect(&mut connection);

    let mut vm = VirtualMachine::new();
    vm.connect(2, &mut connection);
    writer.set(55);

    vm.disconnect(2);
    let mut ports = vm.get_ports();
    assert_eq!(ports[2].get(), 55);
    writer.set(77);
    let mut ports = vm.get_ports();
    assert_eq!(ports[2].get(), 55);
}

#[test]
fn connect_with_id_records_tag_and_unlist_removes_it() {
    let mut connection = Connection::new_with_id(4);
    let mut vm = VirtualMachine::new();
    vm.connect_with_id(1, &mut connection, "4P1".to_string());
    assert_eq!(
        connection.get_connected_ports_ids(),
        &vec!["4P1".to_string()]
    );

    vm.disconnect_and_unlist(1, &mut connection);
    assert_eq!(connection.get_connected_ports_ids().len(), 0);
    let mut ports = vm.get_ports();
    assert_eq!(ports[1].get(), 0);
}

#[test]
fn halt_clears_registers_and_finishes() {
    let program = vec![
        Instruction::new(Opcode::ADD(Operand::IntegerValue(5))),
        Instruction::new(Opcode::HLT),
    ];
    let mut vm = VirtualMachine::new_with_program(program);
    vm.execute();
    assert_eq!(vm.get_acc(), 5);
    vm.halt();
    assert_eq!(vm.get_acc(), 0);
    assert_eq!(vm.get_pc(), 0);
    assert_eq!(vm.get_status(), VmStatus::Finished);
}

#[test]
fn stop_and_resume_only_touch_the_status() {
    let mut vm = VirtualMachine::new();
    assert_eq!(vm.get_status(), VmStatus::Initial);
    vm.stop();
    assert_eq!(vm.get_status(), VmStatus::Stopped);
    vm.resume();
    assert_eq!(vm.get_status(), VmStatus::Running);
}

#[test]
fn arithmetic_wraps_at_the_boundaries() {
    let program = vec![
        Instruction::new(Opcode::MOV(Operand::IntegerValue(i32::MAX), Operand::ACC)),
        Instruction::new(Opcode::ADD(Operand::IntegerValue(1))),
        Instruction::new(Opcode::HLT),
    ];
    let mut vm = VirtualMachine::new_with_program(program);
    vm.run();
    assert_eq!(vm.get_acc(), i32::MIN);

    let program = vec![
        Instruction::new(Opcode::MOV(Operand::IntegerValue(i32::MIN), Operand::ACC)),
        Instruction::new(Opcode::SUB(Operand::IntegerValue(1))),
        Instruction::new(Opcode::HLT),
    ];
    let mut vm = VirtualMachine::new_with_program(program);
    vm.run();
    assert_eq!(vm.get_acc(), i32::MAX);

    let program = vec![
        Instruction::new(Opcode::MOV(Operand::IntegerValue(i32::MIN), Operand::ACC)),
        Instruction::new(Opcode::MUL(Operand::IntegerValue(-1))),
        Instruction::new(Opcode::HLT),
    ];
    let mut vm = VirtualMachine::new_with_program(program);
    vm.run();
    assert_eq!(vm.get_acc(), i32::MIN);

    let program = vec![
        Instruction::new(Opcode::MOV(Operand::IntegerValue(i32::MIN), Operand::ACC)),
        Instruction::new(Opcode::DIV(Operand::IntegerValue(-1))),
        Instruction::new(Opcode::HLT),
    ];
    let mut vm = VirtualMachine::new_with_program(program);
    vm.run();
    assert_eq!(vm.get_acc(), i32::MIN);
}

#[test]
fn compare_across_the_wrap_reads_the_wrapped_sign() {
    // INT32_MIN compared to a large positive number wraps: the difference
    // overflows into a positive value, so the flag reads GREATER
    let program = vec![
        Instruction::new(Opcode::CMP(
            Operand::IntegerValue(i32::MIN),
            Operand::IntegerValue(i32::MAX),
        )),
        Instruction::new(Opcode::HLT),
    ];
    let mut vm = VirtualMachine::new_with_program(program);
    vm.execute();
    assert_eq!(vm.get_flag(), Flag::GREATER);
}

#[test]
fn jne_jumps_on_either_strict_order() {
    let program_text = r#"
    CMP 1 2
    JNE target
    MOV 111 r0
    HLT
    target:
        MOV 222 r0
    HLT
    "#;
    let mut assembler = Assembler::new();
    let program = assembler.parse(program_text).unwrap();
    let mut vm = VirtualMachine::new_with_program(program);
    vm.run();
    assert_eq!(vm.get_registers()[0], 222);

    let program_text = r#"
    CMP 2 2
    JNE target
    MOV 111 r0
    HLT
    target:
        MOV 222 r0
    HLT
    "#;
    let mut assembler = Assembler::new();
    let program = assembler.parse(program_text).unwrap();
    let mut vm = VirtualMachine::new_with_program(program);
    vm.run();
    assert_eq!(vm.get_registers()[0], 111);
}

#[test]
fn first_label_declaration_wins() {
    let program = vec![
        Instruction::new(Opcode::JMP("here".to_string())),
        Instruction::new(Opcode::HLT),
        Instruction::new_label("here".to_string(), 2),
        Instruction::new(Opcode::MOV(Operand::IntegerValue(1), Operand::GeneralRegister(0))),
        Instruction::new(Opcode::HLT),
        Instruction::new_label("here".to_string(), 5),
        Instruction::new(Opcode::MOV(Operand::IntegerValue(2), Operand::GeneralRegister(0))),
        Instruction::new(Opcode::HLT),
    ];
    let mut vm = VirtualMachine::new_with_program(program);
    vm.run();
    assert_eq!(vm.get_registers()[0], 1);
}

#[test]
fn jump_to_unknown_label_is_a_quiet_no_op() {
    let program = vec![
        Instruction::new(Opcode::JMP("nowhere".to_string())),
        Instruction::new(Opcode::MOV(Operand::IntegerValue(9), Operand::GeneralRegister(0))),
        Instruction::new(Opcode::HLT),
    ];
    let mut vm = VirtualMachine::new_with_program(program);
    vm.run();
    assert_eq!(vm.get_registers()[0], 9);
}

#[test]
fn pop_from_empty_stack_yields_zero() {
    let program = vec![
        Instruction::new(Opcode::MOV(Operand::IntegerValue(7), Operand::ACC)),
        Instruction::new(Opcode::POP(Operand::ACC)),
        Instruction::new(Opcode::HLT),
    ];
    let mut vm = VirtualMachine::new_with_program(program).with_stack(4);
    vm.run();
    assert_eq!(vm.get_acc(), 0);
}

#[test]
fn push_without_stack_does_nothing() {
    let program = vec![
        Instruction::new(Opcode::MOV(Operand::IntegerValue(7), Operand::ACC)),
        Instruction::new(Opcode::PSH(Operand::ACC)),
        Instruction::new(Opcode::HLT),
    ];
    let mut vm = VirtualMachine::new_with_program(program);
    vm.run();
    assert_eq!(vm.get_stack().len(), 0);
}

#[test]
fn bitwise_and_shift_opcodes_compute_exactly() {
    let program_text = r#"
    MOV 0b1100 acc
    AND 0b1010
    HLT
    "#;
    let mut assembler = Assembler::new();
    let mut vm = VirtualMachine::new_with_program(assembler.parse(program_text).unwrap());
    vm.run();
    assert_eq!(vm.get_acc(), 0b1000);

    let program = vec![
        Instruction::new(Opcode::MOV(Operand::IntegerValue(1), Operand::ACC)),
        Instruction::new(Opcode::SHL(Operand::IntegerValue(4))),
        Instruction::new(Opcode::OR(Operand::IntegerValue(3))),
        Instruction::new(Opcode::XOR(Operand::IntegerValue(1))),
        Instruction::new(Opcode::SHR(Operand::IntegerValue(1))),
        Instruction::new(Opcode::NOT),
        Instruction::new(Opcode::HLT),
    ];
    let mut vm = VirtualMachine::new_with_program(program);
    vm.run();
    // 1 << 4 = 16; | 3 = 19; ^ 1 = 18; >> 1 = 9; ! = -10
    assert_eq!(vm.get_acc(), -10);
}

#[test]
fn modulus_follows_the_dividend_sign() {
    let program = vec![
        Instruction::new(Opcode::MOV(Operand::IntegerValue(-7), Operand::ACC)),
        Instruction::new(Opcode::MOD(Operand::IntegerValue(3))),
        Instruction::new(Opcode::HLT),
    ];
    let mut vm = VirtualMachine::new_with_program(program);
    vm.run();
    assert_eq!(vm.get_acc(), -1);

    let program = vec![
        Instruction::new(Opcode::MOV(Operand::IntegerValue(-7), Operand::ACC)),
        Instruction::new(Opcode::DIV(Operand::IntegerValue(2))),
        Instruction::new(Opcode::HLT),
    ];
    let mut vm = VirtualMachine::new_with_program(program);
    vm.run();
    assert_eq!(vm.get_acc(), -3);
}

#[test]
fn add_label_records_current_position_once() {
    let mut vm = VirtualMachine::new();
    vm.set_pc(5);
    vm.add_label("spot".to_string());
    vm.set_pc(9);
    vm.add_label("spot".to_string());
    let labels = vm.get_labels();
    assert_eq!(labels, vec![("spot".to_string(), 5)]);
}

#[test]
fn snapshots_report_the_machine_state() {
    let program = vec![
        Instruction::new(Opcode::ADD(Operand::IntegerValue(3))),
        Instruction::new(Opcode::HLT),
    ];
    let mut vm = VirtualMachine::new_with_program(program);
    vm.set_delay(25);
    assert_eq!(vm.get_delay(), 25);
    vm.execute();
    let (acc, pc, flag, r, p, status, delay) = vm.get_state_for_display();
    assert_eq!(acc, 3);
    assert_eq!(pc, 1);
    assert_eq!(flag, Flag::EQUAL);
    assert_eq!(r, [0, 0, 0, 0]);
    assert_eq!(p, [0, 0, 0, 0, 0, 0]);
    assert_eq!(status, VmStatus::Initial);
    assert_eq!(delay, 25);

    let next = vm.get_next_instruction();
    assert_eq!(next, Some(Instruction::new(Opcode::HLT)));

    vm.reset_pc();
    assert_eq!(vm.get_pc(), 0);
    vm.clear_registers();
    assert_eq!(vm.get_acc(), 0);
}

#[test]
fn bounded_driver_runs_spin_loops_and_halting_programs() {
    // the consumer spins on its sentinel port; a bounded drive leaves it
    // still running, since nothing ever writes the sentinel
    let consumer_code = r#"
    await:
        CMP p0 7
        JE consume
        JG await
        JL await
    consume:
        MOV p1 acc
        DIV 2
        HLT
    HLT
    "#;
    let mut lonely =
        VirtualMachine::new_with_program(Assembler::new().parse(consumer_code).unwrap());
    let mut wire = Connection::new();
    lonely.connect(0, &mut wire);
    assert!(lonely.run_for(100));

    // with a producer that has already written sentinel and payload, the
    // same bounded drive halts the consumer with the divided result
    let mut producer = Port::new(0);
    let mut payload_wire = Connection::new();
    let mut payload = Port::new(0);
    let mut consumer =
        VirtualMachine::new_with_program(Assembler::new().parse(consumer_code).unwrap());
    let mut sentinel_wire = Connection::new();
    consumer.connect(0, &mut sentinel_wire);
    consumer.connect(1, &mut payload_wire);
    producer.connect(&mut sentinel_wire);
    payload.connect(&mut payload_wire);
    producer.set(7);
    payload.set(200);
    assert!(!consumer.run_for(100));
    assert_eq!(consumer.get_acc(), 100);
    assert_eq!(consumer.get_status(), VmStatus::Initial);
}

#[test]
fn program_checker_decides_well_formedness() {
    let good = vec![
        Instruction::new(Opcode::MOV(Operand::IntegerValue(1), Operand::ACC)),
        Instruction::new(Opcode::ADD(Operand::GeneralRegister(3))),
        Instruction::new(Opcode::HLT),
    ];
    assert!(program_well_formed(&good));

    let literal_target = vec![Instruction::new(Opcode::MOV(
        Operand::IntegerValue(1),
        Operand::IntegerValue(2),
    ))];
    assert!(!program_well_formed(&literal_target));

    let missing_register = vec![Instruction::new(Opcode::ADD(Operand::GeneralRegister(9)))];
    assert!(!program_well_formed(&missing_register));

    let literal_pop = vec![Instruction::new(Opcode::POP(Operand::IntegerValue(5)))];
    assert!(!program_well_formed(&literal_pop));
}

#[test]
fn div_safety_checker_reads_the_next_instruction() {
    let program = vec![
        Instruction::new(Opcode::DIV(Operand::IntegerValue(2))),
        Instruction::new(Opcode::DIV(Operand::IntegerValue(0))),
        Instruction::new(Opcode::HLT),
    ];
    let mut vm = VirtualMachine::new_with_program(program);
    assert!(vm.next_step_div_safe());
    vm.execute();
    assert!(!vm.next_step_div_safe());

    // a disconnected port's value decides; a divisor read off a wire
    // cannot be known to be nonzero at all
    let program = vec![
        Instruction::new(Opcode::MOV(Operand::IntegerValue(5), Operand::PortRegister(0))),
        Instruction::new(Opcode::DIV(Operand::PortRegister(0))),
    ];
    let mut vm = VirtualMachine::new_with_program(program);
    vm.execute();
    assert!(vm.next_step_div_safe());
    let mut wire = Connection::new();
    vm.connect(0, &mut wire);
    assert!(!vm.next_step_div_safe());
}
