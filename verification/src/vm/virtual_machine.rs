use vstd::prelude::*;

use crate::components::connection::Connection;
use crate::components::port::{Port, PortV};
use crate::text::str_eq;

use super::flag::Flag;
use super::instruction::Instruction;
use super::opcodes::{JMPCondition, Opcode};
use super::operand::Operand;
use super::semantics::{
    div_safe_at, init_view, jump, label_map, label_map_from, operand_value, step, step_continues,
    step_reads_wire, steps_safe, terminal, wf_instr, wf_operand, wf_program, wf_state, with_status,
    write_operand, VmView,
};
use super::semantics::{cmp_flag, push_value, run_steps};

verus! {

/// Status of a machine, driving the threaded run loop.
#[derive(Debug, PartialEq, Eq, Structural, Clone, Copy)]
pub enum VmStatus {
    Initial,
    Running,
    Stopped,
    Finished,
}

// ---------------------------------------------------------------------------
// The label table representation
// ---------------------------------------------------------------------------
/// The label table is kept as an association list with pairwise distinct
/// names.
pub open spec fn distinct_names(l: Seq<(String, usize)>) -> bool {
    forall|i: int, j: int| 0 <= i < j < l.len() ==> (#[trigger] l[i]).0@ != (#[trigger] l[j]).0@
}

/// The mapping an association list stands for; an earlier entry shadows a
/// later one of the same name.
pub open spec fn assoc_map(l: Seq<(String, usize)>) -> Map<Seq<char>, nat>
    decreases l.len(),
{
    if l.len() == 0 {
        Map::empty()
    } else {
        let m = assoc_map(l.drop_last());
        if m.dom().contains(l.last().0@) {
            m
        } else {
            m.insert(l.last().0@, l.last().1 as nat)
        }
    }
}

proof fn lemma_assoc_absent(l: Seq<(String, usize)>, name: Seq<char>)
    requires
        forall|i: int| 0 <= i < l.len() ==> (#[trigger] l[i]).0@ != name,
    ensures
        !assoc_map(l).dom().contains(name),
    decreases l.len(),
{
    if l.len() > 0 {
        lemma_assoc_absent(l.drop_last(), name);
    }
}

proof fn lemma_assoc_found(l: Seq<(String, usize)>, i: int)
    requires
        0 <= i < l.len(),
        distinct_names(l),
    ensures
        assoc_map(l).dom().contains(l[i].0@),
        assoc_map(l)[l[i].0@] == l[i].1 as nat,
    decreases l.len(),
{
    if i == l.len() - 1 {
        assert(forall|j: int|
            0 <= j < l.drop_last().len() ==> (#[trigger] l.drop_last()[j]).0@ != l[i].0@);
        lemma_assoc_absent(l.drop_last(), l[i].0@);
    } else {
        lemma_assoc_found(l.drop_last(), i);
    }
}

proof fn lemma_assoc_push_fresh(l: Seq<(String, usize)>, name: String, t: usize)
    requires
        !assoc_map(l).dom().contains(name@),
    ensures
        assoc_map(l.push((name, t))) == assoc_map(l).insert(name@, t as nat),
{
    assert(l.push((name, t)).drop_last() =~= l);
}

/// Looks a label name up in an association list with distinct names.
fn find_target(labels: &Vec<(String, usize)>, name: &str) -> (r: Option<usize>)
    requires
        distinct_names(labels@),
    ensures
        match r {
            Some(t) => assoc_map(labels@).dom().contains(name@) && assoc_map(labels@)[name@]
                == t as nat,
            None => !assoc_map(labels@).dom().contains(name@),
        },
{
    let n = labels.len();
    for i in 0..n
        invariant
            n == labels@.len(),
            distinct_names(labels@),
            forall|j: int| 0 <= j < i ==> (#[trigger] labels@[j]).0@ != name@,
    {
        if str_eq(labels[i].0.as_str(), name) {
            proof {
                lemma_assoc_found(labels@, i as int);
            }
            return Some(labels[i].1);
        }
    }
    proof {
        lemma_assoc_absent(labels@, name@);
    }
    None
}

// ---------------------------------------------------------------------------
// The machine
// ---------------------------------------------------------------------------
/// The interpreter: registers, ports, flag, program counter, label table,
/// optional bounded stack, program, and run status.
#[derive(Debug)]
pub struct VirtualMachine {
    /// Program counter register
    pc: usize,
    /// Accumulator, register storing the result of the last arithmetic or
    /// logical operation
    acc: i32,
    /// Flag register, driving branching logic
    flag: Flag,
    /// General purpose registers
    r: Vec<i32>,
    /// Ports: registers used for I/O
    p: Vec<Port>,
    /// Labels used for jumps
    labels: Vec<(String, usize)>,
    /// The instructions to be executed
    program: Vec<Instruction>,
    /// Status of the machine
    status: VmStatus,
    /// Delay between instructions in ms, applied by the threaded driver
    delay_ms: u32,
    /// Whether the machine has a stack
    stack_present: bool,
    /// Stack capacity
    stack_size: usize,
    /// Stack
    stack: Vec<i32>,
}

impl View for VirtualMachine {
    type V = VmView;

    closed spec fn view(&self) -> VmView {
        VmView {
            pc: self.pc as nat,
            acc: self.acc,
            flag: self.flag,
            r: self.r@,
            p: self.p@.map_values(|q: Port| q@),
            labels: assoc_map(self.labels@),
            program: self.program@.map_values(|i: Instruction| i@),
            status: self.status,
            delay_ms: self.delay_ms,
            stack_present: self.stack_present,
            stack_size: self.stack_size as nat,
            stack: self.stack@,
        }
    }
}

impl VirtualMachine {
    /// Structural well-formedness: constructors establish it, every method
    /// preserves it, and the executing methods rely on it.
    pub closed spec fn well_formed(&self) -> bool {
        &&& wf_state(self@)
        &&& distinct_names(self.labels@)
    }

    /// Creates a machine with no program loaded.
    pub fn new() -> (vm: VirtualMachine)
        ensures
            vm@ == init_view(),
            vm.well_formed(),
    {
        let mut p: Vec<Port> = Vec::new();
        p.push(Port::new(0));
        p.push(Port::new(0));
        p.push(Port::new(0));
        p.push(Port::new(0));
        p.push(Port::new(0));
        p.push(Port::new(0));
        let mut r: Vec<i32> = Vec::new();
        r.push(0);
        r.push(0);
        r.push(0);
        r.push(0);
        let vm = VirtualMachine {
            pc: 0,
            acc: 0,
            flag: Flag::EQUAL,
            r,
            p,
            labels: Vec::new(),
            program: Vec::new(),
            status: VmStatus::Initial,
            delay_ms: 0,
            stack_present: false,
            stack_size: 0,
            stack: Vec::new(),
        };
        proof {
            assert(vm@ =~= init_view());
        }
        vm
    }

    /// Creates a machine holding `program`, with its label table resolved.
    pub fn new_with_program(program: Vec<Instruction>) -> (vm: VirtualMachine)
        requires
            wf_program(program@.map_values(|i: Instruction| i@)),
        ensures
            vm@ == (VmView {
                program: program@.map_values(|i: Instruction| i@),
                labels: label_map(program@.map_values(|i: Instruction| i@)),
                ..init_view()
            }),
            vm.well_formed(),
    {
        let ghost pv = program@.map_values(|i: Instruction| i@);
        let mut vm = VirtualMachine::new();
        vm.load_program(program);
        proof {
            assert(vm@ =~= VmView { program: pv, labels: label_map(pv), ..init_view() });
        }
        vm
    }

    /// Equips the machine with a bounded stack of the given capacity.
    pub fn with_stack(self, size: usize) -> (vm: VirtualMachine)
        requires
            self.well_formed(),
        ensures
            vm@ == (VmView {
                stack_present: true,
                stack_size: size as nat,
                stack: Seq::empty(),
                ..self@
            }),
            vm.well_formed(),
    {
        let ghost sv = self@;
        let mut vm = self;
        vm.stack = Vec::new();
        vm.stack_present = true;
        vm.stack_size = size;
        proof {
            assert(vm@ =~= VmView {
                stack_present: true,
                stack_size: size as nat,
                stack: Seq::empty(),
                ..sv
            });
        }
        vm
    }

    /// Replaces the program wholesale; the label table is rebuilt from the
    /// new program alone.
    pub fn load_program(&mut self, program: Vec<Instruction>)
        requires
            old(self).well_formed(),
            wf_program(program@.map_values(|i: Instruction| i@)),
        ensures
            final(self)@ == (VmView {
                program: program@.map_values(|i: Instruction| i@),
                labels: label_map(program@.map_values(|i: Instruction| i@)),
                ..old(self)@
            }),
            final(self).well_formed(),
    {
        let ghost pv = program@.map_values(|i: Instruction| i@);
        self.labels = Vec::new();
        self.program = program;
        self.set_labels();
        proof {
            assert(self@ =~= VmView { program: pv, labels: label_map(pv), ..old(self)@ });
        }
    }

    /// Scans the program and records each label's jump target: the position
    /// immediately after the label. A name already recorded keeps its first
    /// target.
    pub fn set_labels(&mut self)
        requires
            old(self).well_formed(),
        ensures
            final(self)@ == (VmView {
                labels: label_map_from(
                    old(self)@.labels,
                    old(self)@.program,
                    old(self)@.program.len() as int,
                ),
                ..old(self)@
            }),
            final(self).well_formed(),
    {
        let ghost pv = self@.program;
        let ghost m0 = self@.labels;
        let n = self.program.len();
        for i in 0..n
            invariant
                n == self.program.len(),
                pv == self.program@.map_values(|ins: Instruction| ins@),
                distinct_names(self.labels@),
                assoc_map(self.labels@) == label_map_from(m0, pv, i as int),
                self.pc == old(self).pc,
                self.acc == old(self).acc,
                self.flag == old(self).flag,
                self.r@ == old(self).r@,
                self.p@ == old(self).p@,
                self.program@ == old(self).program@,
                self.status == old(self).status,
                self.delay_ms == old(self).delay_ms,
                self.stack_present == old(self).stack_present,
                self.stack_size == old(self).stack_size,
                self.stack@ == old(self).stack@,
        {
            let ghost labels_before = self.labels@;
            match &self.program[i] {
                Instruction::Label(name, _) => {
                    if find_target(&self.labels, name.as_str()).is_none() {
                        let entry = (name.clone(), i + 1);
                        proof {
                            lemma_assoc_push_fresh(self.labels@, entry.0, entry.1);
                            assert forall|a: int, b: int|
                                0 <= a < b < labels_before.push(entry).len() implies (
                            #[trigger] labels_before.push(entry)[a]).0@ != (
                            #[trigger] labels_before.push(entry)[b]).0@ by {
                                if b < labels_before.len() {
                                } else {
                                    lemma_assoc_found(labels_before, a);
                                }
                            }
                        }
                        self.labels.push(entry);
                    }
                },
                _ => {},
            }
            proof {
                assert(pv[i as int] == self.program@[i as int]@);
            }
        }
        proof {
            assert(self@ =~= VmView { labels: label_map_from(m0, pv, n as int), ..old(self)@ });
        }
    }
}


// ---------------------------------------------------------------------------
// Arithmetic helpers
// ---------------------------------------------------------------------------
fn abs_u32(a: i32) -> (r: u32)
    ensures
        r as int == vstd::math::abs(a as int),
{
    if a >= 0 {
        a as u32
    } else {
        (-(a as i64)) as u32
    }
}

/// Division truncating toward zero, wrapping on the one overflowing case.
fn wrapping_div_i32(a: i32, b: i32) -> (r: i32)
    requires
        b != 0,
    ensures
        r == super::semantics::div_wrap(a, b),
{
    if a == i32::MIN && b == -1 {
        return i32::MIN;
    }
    let au = abs_u32(a);
    let bu = abs_u32(b);
    let q = au / bu;
    proof {
        assert(q <= au) by {
            vstd::arithmetic::div_mod::lemma_div_is_ordered_by_denominator(au as int, 1, bu as int);
        }
        if au == 0x8000_0000u32 && bu >= 2 {
            assert(q <= 0x4000_0000) by {
                vstd::arithmetic::div_mod::lemma_div_is_ordered_by_denominator(
                    au as int,
                    2,
                    bu as int,
                );
            }
        }
    }
    if (a < 0) == (b < 0) {
        q as i32
    } else {
        if q == 0x8000_0000u32 {
            i32::MIN
        } else {
            -(q as i32)
        }
    }
}

/// Remainder with the sign of the dividend.
fn wrapping_rem_i32(a: i32, b: i32) -> (r: i32)
    requires
        b != 0,
    ensures
        r == super::semantics::rem_wrap(a, b),
{
    let au = abs_u32(a);
    let bu = abs_u32(b);
    let m = au % bu;
    if a >= 0 {
        m as i32
    } else {
        -(m as i32)
    }
}

impl VirtualMachine {
    /// The program counter read as data.
    fn read_pc_value(&self) -> (r: i32)
        ensures
            r == super::semantics::pc_trunc(self@.pc),
    {
        if self.pc <= 0x7fff_ffff {
            self.pc as i32
        } else {
            let m: u64 = (self.pc as u64) % 0x1_0000_0000;
            if m >= 0x8000_0000 {
                ((m as i64) - 0x1_0000_0000) as i32
            } else {
                m as i32
            }
        }
    }

    /// A register value written into the program counter.
    fn pc_target(v: i32) -> (r: usize)
        ensures
            r as nat == super::semantics::pc_from_i32(v),
    {
        if v >= 0 {
            v as usize
        } else {
            let neg: i64 = -(v as i64);
            usize::MAX - (neg as usize - 1)
        }
    }

    /// Resolves an operand to a value: for a connected port, the value read
    /// off the wire, which the result itself then witnesses.
    fn read_operand(&mut self, op: Operand) -> (r: i32)
        requires
            old(self).well_formed(),
            wf_operand(op),
        ensures
            final(self).well_formed(),
            final(self)@ == old(self)@,
            r == operand_value(old(self)@, op, r),
            !super::semantics::op_reads_wire(old(self)@, op) ==> r == operand_value(
                old(self)@,
                op,
                0,
            ),
    {
        match op {
            Operand::IntegerValue(value) => value,
            Operand::GeneralRegister(index) => self.r[index],
            Operand::PortRegister(index) => {
                let value = self.p[index].get();
                proof {
                    assert(self@ =~= old(self)@);
                }
                value
            },
            Operand::ACC => self.acc,
            Operand::PC => self.read_pc_value(),
        }
    }

    /// Applies an accumulator operation: the accumulator is combined with
    /// the operation's operand — or with nothing — and receives the result.
    #[verifier::rlimit(60)]
    fn apply_operation(&mut self, opcode: Opcode)
        requires
            old(self).well_formed(),
            super::semantics::is_acc_op(opcode@),
            wf_instr(super::super::vm::instruction::InstrV::Opcode(opcode@)),
            super::semantics::acc_op_div_safe(old(self)@, opcode@),
        ensures
            final(self).well_formed(),
            exists|w: i32|
                final(self)@ == (VmView {
                    acc: #[trigger] super::semantics::acc_op_result(old(self)@, opcode@, w),
                    ..old(self)@
                }),
            !super::semantics::acc_op_reads_wire(old(self)@, opcode@) ==> final(self)@ == (VmView {
                acc: super::semantics::acc_op_result(old(self)@, opcode@, 0),
                ..old(self)@
            }),
    {
        match opcode {
            Opcode::ADD(operand) => {
                let value = self.read_operand(operand);
                self.acc = self.acc.wrapping_add(value);
                proof {
                    assert(self@ =~= (VmView {
                        acc: super::semantics::acc_op_result(old(self)@, opcode@, value),
                        ..old(self)@
                    }));
                }
            },
            Opcode::SUB(operand) => {
                let value = self.read_operand(operand);
                self.acc = self.acc.wrapping_sub(value);
                proof {
                    assert(self@ =~= (VmView {
                        acc: super::semantics::acc_op_result(old(self)@, opcode@, value),
                        ..old(self)@
                    }));
                }
            },
            Opcode::MUL(operand) => {
                let value = self.read_operand(operand);
                self.acc = self.acc.wrapping_mul(value);
                proof {
                    assert(self@ =~= (VmView {
                        acc: super::semantics::acc_op_result(old(self)@, opcode@, value),
                        ..old(self)@
                    }));
                }
            },
            Opcode::DIV(operand) => {
                let value = self.read_operand(operand);
                self.acc = wrapping_div_i32(self.acc, value);
                proof {
                    assert(self@ =~= (VmView {
                        acc: super::semantics::acc_op_result(old(self)@, opcode@, value),
                        ..old(self)@
                    }));
                }
            },
            Opcode::MOD(operand) => {
                let value = self.read_operand(operand);
                self.acc = wrapping_rem_i32(self.acc, value);
                proof {
                    assert(self@ =~= (VmView {
                        acc: super::semantics::acc_op_result(old(self)@, opcode@, value),
                        ..old(self)@
                    }));
                }
            },
            Opcode::AND(operand) => {
                let value = self.read_operand(operand);
                self.acc = self.acc & value;
                proof {
                    assert(self@ =~= (VmView {
                        acc: super::semantics::acc_op_result(old(self)@, opcode@, value),
                        ..old(self)@
                    }));
                }
            },
            Opcode::OR(operand) => {
                let value = self.read_operand(operand);
                self.acc = self.acc | value;
                proof {
                    assert(self@ =~= (VmView {
                        acc: super::semantics::acc_op_result(old(self)@, opcode@, value),
                        ..old(self)@
                    }));
                }
            },
            Opcode::XOR(operand) => {
                let value = self.read_operand(operand);
                self.acc = self.acc ^ value;
                proof {
                    assert(self@ =~= (VmView {
                        acc: super::semantics::acc_op_result(old(self)@, opcode@, value),
                        ..old(self)@
                    }));
                }
            },
            Opcode::SHL(operand) => {
                let value = self.read_operand(operand);
                let amount: u32 = if value < 0 {
                    0
                } else {
                    value as u32
                };
                self.acc = self.acc.wrapping_shl(amount);
                proof {
                    assert(self@ =~= (VmView {
                        acc: super::semantics::acc_op_result(old(self)@, opcode@, value),
                        ..old(self)@
                    }));
                }
            },
            Opcode::SHR(operand) => {
                let value = self.read_operand(operand);
                let amount: u32 = if value < 0 {
                    0
                } else {
                    value as u32
                };
                self.acc = self.acc.wrapping_shr(amount);
                proof {
                    assert(self@ =~= (VmView {
                        acc: super::semantics::acc_op_result(old(self)@, opcode@, value),
                        ..old(self)@
                    }));
                }
            },
            Opcode::INC => {
                self.acc = self.acc.wrapping_add(1);
                proof {
                    assert(self@ =~= (VmView {
                        acc: super::semantics::acc_op_result(old(self)@, opcode@, 0),
                        ..old(self)@
                    }));
                }
            },
            Opcode::DEC => {
                self.acc = self.acc.wrapping_sub(1);
                proof {
                    assert(self@ =~= (VmView {
                        acc: super::semantics::acc_op_result(old(self)@, opcode@, 0),
                        ..old(self)@
                    }));
                }
            },
            Opcode::NOT => {
                self.acc = !self.acc;
                proof {
                    assert(self@ =~= (VmView {
                        acc: super::semantics::acc_op_result(old(self)@, opcode@, 0),
                        ..old(self)@
                    }));
                }
            },
            _ => {
                proof {
                    assert(false);
                }
            },
        }
    }

    /// Copies the resolved value of `operand1` into the location `operand2`
    /// addresses. A literal integer is no write target.
    fn move_operand(&mut self, operand1: Operand, operand2: Operand)
        requires
            old(self).well_formed(),
            wf_operand(operand1),
            wf_operand(operand2),
            !(operand2 is IntegerValue),
        ensures
            final(self).well_formed(),
            exists|w: i32|
                final(self)@ == write_operand(
                    old(self)@,
                    operand2,
                    #[trigger] operand_value(old(self)@, operand1, w),
                ),
            !super::semantics::op_reads_wire(old(self)@, operand1) ==> final(self)@
                == write_operand(old(self)@, operand2, operand_value(old(self)@, operand1, 0)),
    {
        let value = self.read_operand(operand1);
        match operand2 {
            Operand::IntegerValue(_) => {},
            Operand::GeneralRegister(index) => {
                self.r[index] = value;
            },
            Operand::PortRegister(index) => {
                self.p[index].set(value);
            },
            Operand::ACC => {
                self.acc = value;
            },
            Operand::PC => {
                self.pc = Self::pc_target(value);
            },
        }
        proof {
            assert(self@ =~= write_operand(old(self)@, operand2, value));
            assert(operand_value(old(self)@, operand1, value) == value);
        }
    }

    /// Compares two operands and sets the flag from the sign of their
    /// wrapped difference.
    pub fn compare(&mut self, operand1: Operand, operand2: Operand)
        requires
            old(self).well_formed(),
            wf_operand(operand1),
            wf_operand(operand2),
        ensures
            final(self).well_formed(),
            exists|w1: i32, w2: i32|
                final(self)@ == (VmView {
                    flag: cmp_flag(
                        #[trigger] operand_value(old(self)@, operand1, w1),
                        #[trigger] operand_value(old(self)@, operand2, w2),
                    ),
                    ..old(self)@
                }),
            !super::semantics::op_reads_wire(old(self)@, operand1) && !super::semantics::op_reads_wire(
                old(self)@,
                operand2,
            ) ==> final(self)@ == (VmView {
                flag: cmp_flag(
                    operand_value(old(self)@, operand1, 0),
                    operand_value(old(self)@, operand2, 0),
                ),
                ..old(self)@
            }),
    {
        let value1 = self.read_operand(operand1);
        let value2 = self.read_operand(operand2);
        let result = value1.wrapping_sub(value2);
        if result == 0 {
            self.flag = Flag::EQUAL;
        } else if result < 0 {
            self.flag = Flag::LESSER;
        } else {
            self.flag = Flag::GREATER;
        }
        proof {
            assert(self@ =~= (VmView {
                flag: cmp_flag(value1, value2),
                ..old(self)@
            }));
            assert(operand_value(old(self)@, operand1, value1) == value1);
            assert(operand_value(old(self)@, operand2, value2) == value2);
        }
    }

    /// Jumps to a label if its condition holds of the flag; a label not in
    /// the table is silently no jump at all.
    pub fn jump_to_label(&mut self, label: &str, condition: JMPCondition)
        requires
            old(self).well_formed(),
        ensures
            final(self).well_formed(),
            final(self)@ == jump(old(self)@, label@, condition),
    {
        if let Some(jmp_to) = find_target(&self.labels, label) {
            let take = match (self.flag, condition) {
                (Flag::EQUAL, JMPCondition::EQ) => true,
                (Flag::LESSER, JMPCondition::NEQ) => true,
                (Flag::GREATER, JMPCondition::NEQ) => true,
                (Flag::GREATER, JMPCondition::GRT) => true,
                (Flag::LESSER, JMPCondition::LST) => true,
                (_, JMPCondition::NONE) => true,
                _ => false,
            };
            if take {
                self.pc = jmp_to;
            }
            proof {
                assert(self@ =~= jump(old(self)@, label@, condition));
            }
        } else {
            proof {
                assert(self@ =~= jump(old(self)@, label@, condition));
            }
        }
    }

    /// Pushes the operand's value onto the stack, if one is present:
    /// past capacity the top slot is overwritten, never grown.
    fn push_to_stack(&mut self, operand: Operand)
        requires
            old(self).well_formed(),
            wf_operand(operand),
        ensures
            final(self).well_formed(),
            exists|w: i32|
                final(self)@ == push_value(
                    old(self)@,
                    #[trigger] operand_value(old(self)@, operand, w),
                ),
            !super::semantics::op_reads_wire(old(self)@, operand) ==> final(self)@ == push_value(
                old(self)@,
                operand_value(old(self)@, operand, 0),
            ),
    {
        if !self.stack_present {
            proof {
                assert(self@ =~= push_value(old(self)@, operand_value(old(self)@, operand, 0)));
            }
            return ;
        }
        let value = self.read_operand(operand);
        if self.stack_size == 0 {
            proof {
                assert(self@ =~= push_value(old(self)@, value));
                assert(operand_value(old(self)@, operand, value) == value);
            }
            return ;
        }
        if self.stack.len() < self.stack_size {
            self.stack.push(value);
        } else {
            let index = self.stack_size - 1;
            self.stack[index] = value;
        }
        proof {
            assert(self@ =~= push_value(old(self)@, value));
            assert(operand_value(old(self)@, operand, value) == value);
        }
    }

    /// Pops the top of the stack — zero if it is empty — into the operand's
    /// location, if a stack is present. A literal integer is no target.
    fn pop_from_stack(&mut self, operand: Operand)
        requires
            old(self).well_formed(),
            wf_operand(operand),
            !(operand is IntegerValue),
        ensures
            final(self).well_formed(),
            final(self)@ == super::semantics::pop_step(old(self)@, operand),
    {
        if !self.stack_present {
            proof {
                assert(self@ =~= super::semantics::pop_step(old(self)@, operand));
            }
            return ;
        }
        let value = match self.stack.pop() {
            Some(v) => v,
            None => 0,
        };
        match operand {
            Operand::IntegerValue(_) => {},
            Operand::GeneralRegister(index) => {
                self.r[index] = value;
            },
            Operand::PortRegister(index) => {
                self.p[index].set(value);
            },
            Operand::ACC => {
                self.acc = value;
            },
            Operand::PC => {
                if value >= 0 {
                    self.pc = value as usize;
                } else {
                    self.pc = 0;
                }
            },
        }
        proof {
            assert(self@ =~= super::semantics::pop_step(old(self)@, operand));
        }
    }

    /// Fetches the instruction under the program counter and advances the
    /// counter past it.
    pub fn fetch(&mut self) -> (instr: Instruction)
        requires
            old(self).well_formed(),
            old(self)@.pc < old(self)@.program.len(),
        ensures
            final(self).well_formed(),
            instr@ == old(self)@.program[old(self)@.pc as int],
            final(self)@ == (VmView { pc: (old(self)@.pc + 1) as nat, ..old(self)@ }),
    {
        let opcode = self.program[self.pc].clone();
        self.pc = self.pc + 1;
        proof {
            assert(self@ =~= (VmView { pc: (old(self)@.pc + 1) as nat, ..old(self)@ }));
        }
        opcode
    }

    /// Executes a single instruction and reports whether execution goes on:
    /// `false` once the program has run out or a halt was fetched.
    #[verifier::rlimit(100)]
    pub fn execute(&mut self) -> (r: bool)
        requires
            old(self).well_formed(),
            div_safe_at(old(self)@),
        ensures
            final(self).well_formed(),
            r == step_continues(old(self)@),
            exists|w1: i32, w2: i32| final(self)@ == #[trigger] step(old(self)@, w1, w2),
            !step_reads_wire(old(self)@) ==> final(self)@ == step(old(self)@, 0, 0),
    {
        let ghost s0 = self@;
        if self.pc >= self.program.len() {
            proof {
                assert(self@ =~= step(s0, 0, 0));
            }
            return false;
        }
        let ghost s1 = VmView { pc: (s0.pc + 1) as nat, ..s0 };
        proof {
            assert(wf_instr(s0.program[s0.pc as int]));
        }
        let instruction = self.fetch();
        proof {
            assert(self@ =~= s1);
        }

        match instruction {
            Instruction::Opcode(opcode) => {
                match opcode {
                    Opcode::HLT => {
                        proof {
                            assert(self@ =~= step(s0, 0, 0));
                        }
                        return false;
                    },
                    Opcode::NOP => {
                        proof {
                            assert(self@ =~= step(s0, 0, 0));
                        }
                    },
                    Opcode::MOV(operand1, operand2) => {
                        self.move_operand(operand1, operand2);
                        proof {
                            let w = choose|w: i32|
                                self@ == write_operand(s1, operand2, operand_value(s1, operand1, w));
                            assert(self@ =~= step(s0, w, 0));
                            if !step_reads_wire(s0) {
                                assert(self@ =~= step(s0, 0, 0));
                            }
                        }
                    },
                    Opcode::CMP(operand1, operand2) => {
                        self.compare(operand1, operand2);
                        proof {
                            let (w1, w2) = choose|w1: i32, w2: i32|
                                self@ == (VmView {
                                    flag: cmp_flag(
                                        operand_value(s1, operand1, w1),
                                        operand_value(s1, operand2, w2),
                                    ),
                                    ..s1
                                });
                            assert(self@ =~= step(s0, w1, w2));
                            if !step_reads_wire(s0) {
                                assert(self@ =~= step(s0, 0, 0));
                            }
                        }
                    },
                    Opcode::JMP(_) | Opcode::JE(_) | Opcode::JNE(_) | Opcode::JL(_)
                        | Opcode::JG(_) => {
                        let (name, condition) = match opcode {
                            Opcode::JMP(name) => (name, JMPCondition::NONE),
                            Opcode::JE(name) => (name, JMPCondition::EQ),
                            Opcode::JNE(name) => (name, JMPCondition::NEQ),
                            Opcode::JL(name) => (name, JMPCondition::LST),
                            _ => match opcode {
                                Opcode::JG(name) => (name, JMPCondition::GRT),
                                _ => (String::new(), JMPCondition::NONE),
                            },
                        };
                        self.jump_to_label(name.as_str(), condition);
                        proof {
                            assert(self@ =~= step(s0, 0, 0));
                        }
                    },
                    Opcode::PSH(operand) => {
                        self.push_to_stack(operand);
                        proof {
                            let w = choose|w: i32|
                                self@ == push_value(s1, operand_value(s1, operand, w));
                            assert(self@ =~= step(s0, w, 0));
                            if !step_reads_wire(s0) {
                                assert(self@ =~= step(s0, 0, 0));
                            }
                        }
                    },
                    Opcode::POP(operand) => {
                        self.pop_from_stack(operand);
                        proof {
                            assert(self@ =~= step(s0, 0, 0));
                        }
                    },
                    _ => {
                        self.apply_operation(opcode);
                        proof {
                            let ghost opv = s0.program[s0.pc as int]->Opcode_0;
                            let w = choose|w: i32|
                                self@ == (VmView {
                                    acc: super::semantics::acc_op_result(s1, opv, w),
                                    ..s1
                                });
                            assert(self@ =~= step(s0, w, 0));
                            if !step_reads_wire(s0) {
                                assert(self@ =~= step(s0, 0, 0));
                            }
                        }
                    },
                }
            },
            Instruction::Label(_, _) => {
                proof {
                    assert(self@ =~= step(s0, 0, 0));
                }
            },
        }

        true
    }
}


impl VirtualMachine {
    /// Runs the loaded program to completion: one instruction after another
    /// until the program runs out or a halt is fetched, then marks the
    /// machine finished. The inter-instruction delay is the threaded
    /// driver's affair, not this loop's.
    pub fn run(&mut self)
        requires
            old(self).well_formed(),
            forall|n: nat| steps_safe(old(self)@, n),
            exists|k: nat| super::semantics::halts_within(old(self)@, k),
        ensures
            final(self).well_formed(),
            exists|ws: Seq<(i32, i32)>|
                {
                    let t = #[trigger] run_steps(with_status(old(self)@, VmStatus::Running), ws);
                    final(self)@ == with_status(t, VmStatus::Finished) && terminal(t)
                },
            final(self)@.program == old(self)@.program,
            final(self)@.labels == old(self)@.labels,
            final(self)@.delay_ms == old(self)@.delay_ms,
            final(self)@.stack_present == old(self)@.stack_present,
            final(self)@.stack_size == old(self)@.stack_size,
            final(self)@.p.len() == old(self)@.p.len(),
            forall|i: int|
                0 <= i < old(self)@.p.len() && (#[trigger] old(self)@.p[i]) is Connected
                    ==> final(self)@.p[i] == old(self)@.p[i],
            forall|i: int|
                0 <= i < old(self)@.p.len() && (#[trigger] old(self)@.p[i]) is Disconnected
                    ==> final(self)@.p[i] is Disconnected,
    {
        let ghost s_run = with_status(old(self)@, VmStatus::Running);
        self.status = VmStatus::Running;
        proof {
            assert(self@ =~= s_run);
            assert forall|n: nat| steps_safe(self@, n) by {
                super::semantics::lemma_steps_safe_ignores_status(
                    old(self)@,
                    VmStatus::Running,
                    n,
                );
                assert(s_run == (VmView { status: VmStatus::Running, ..old(self)@ }));
            }
        }
        let mut running = true;
        let ghost mut ws: Seq<(i32, i32)> = Seq::empty();
        let ghost mut fuel = choose|k: nat| super::semantics::halts_within(old(self)@, k);
        proof {
            super::semantics::lemma_halts_within_ignores_status(
                old(self)@,
                VmStatus::Running,
                fuel,
            );
            assert(s_run == (VmView { status: VmStatus::Running, ..old(self)@ }));
        }
        while running
            invariant
                self.well_formed(),
                forall|n: nat| steps_safe(self@, n),
                self@ == run_steps(s_run, ws),
                !running ==> terminal(self@),
                running ==> super::semantics::halts_within(self@, fuel),
                self@.program == s_run.program,
                self@.labels == s_run.labels,
                self@.delay_ms == s_run.delay_ms,
                self@.stack_present == s_run.stack_present,
                self@.stack_size == s_run.stack_size,
                self@.p.len() == s_run.p.len(),
                forall|i: int|
                    0 <= i < s_run.p.len() && (#[trigger] s_run.p[i]) is Connected ==> self@.p[i]
                        == s_run.p[i],
                forall|i: int|
                    0 <= i < s_run.p.len() && (#[trigger] s_run.p[i]) is Disconnected ==> self@.p[i]
                        is Disconnected,
            decreases fuel, (if running { 1int } else { 0int }),
        {
            let ghost pre = self@;
            proof {
                assert(steps_safe(self@, 1));
            }
            running = self.execute();
            proof {
                let (w1, w2) = choose|w1: i32, w2: i32| self@ == step(pre, w1, w2);
                super::semantics::lemma_run_steps_push(s_run, ws, (w1, w2));
                ws = ws.push((w1, w2));
                assert forall|n: nat| steps_safe(self@, n) by {
                    assert(steps_safe(pre, (n + 1) as nat));
                    assert(steps_safe(step(pre, w1, w2), n));
                }
                super::semantics::lemma_step_frame(pre, w1, w2);
                assert(wf_state(pre));
                assert forall|i: int|
                    0 <= i < s_run.p.len() && (#[trigger] s_run.p[i]) is Connected implies self@.p[i]
                    == s_run.p[i] by {
                    super::semantics::lemma_step_preserves_wiring(pre, w1, w2, i);
                }
                assert forall|i: int|
                    0 <= i < s_run.p.len() && (#[trigger] s_run.p[i]) is Disconnected implies self@.p[i]
                    is Disconnected by {
                    super::semantics::lemma_step_preserves_wiring(pre, w1, w2, i);
                }
                if step_continues(pre) {
                    assert(super::semantics::halts_within(pre, fuel));
                    fuel = (fuel - 1) as nat;
                    assert(super::semantics::halts_within(self@, fuel));
                } else {
                    if pre.pc >= pre.program.len() {
                        assert(terminal(self@));
                    } else {
                        assert(self@.pc == pre.pc + 1);
                        assert(terminal(self@));
                    }
                }
            }
        }
        self.status = VmStatus::Finished;
        proof {
            assert(self@ =~= with_status(run_steps(s_run, ws), VmStatus::Finished));
        }
    }

    /// Decides `div_safe_at`: whether the next instruction is free of the
    /// one fatal fault, a division or modulus whose divisor is zero or
    /// comes off a wire. An unverified driver can test this before each
    /// `execute` call.
    pub fn next_step_div_safe(&self) -> (r: bool)
        requires
            self.well_formed(),
        ensures
            r == div_safe_at(self@),
    {
        if self.pc >= self.program.len() {
            return true;
        }
        proof {
            assert(wf_instr(self@.program[self@.pc as int]));
            assert(self@.program[self@.pc as int] == self.program@[self.pc as int]@);
        }
        let ghost s1 = VmView { pc: (self@.pc + 1) as nat, ..self@ };
        match &self.program[self.pc] {
            Instruction::Label(_, _) => true,
            Instruction::Opcode(op) => match op {
                Opcode::DIV(o) | Opcode::MOD(o) => {
                    let safe = match o {
                        Operand::IntegerValue(v) => *v != 0,
                        Operand::GeneralRegister(i) => self.r[*i] != 0,
                        Operand::PortRegister(i) => {
                            match &self.p[*i] {
                                Port::Connected(_, _) => false,
                                Port::Disconnected(v) => *v != 0,
                            }
                        },
                        Operand::ACC => self.acc != 0,
                        Operand::PC => true,
                    };
                    proof {
                        if o is PC {
                            assert(self@.pc + 1 < 0x8000_0000);
                            assert(operand_value(s1, *o, 0) == self@.pc + 1);
                        }
                        match o {
                            Operand::PortRegister(j) => {
                                assert(s1.p[*j as int] == self.p@[*j as int]@);
                            },
                            _ => {},
                        }
                    }
                    safe
                },
                _ => true,
            },
        }
    }

    /// Executes at most `bound` instructions, stopping early once execution
    /// halts, and reports the last step's continue signal. Unlike `run`, it
    /// needs no promise that the program ever halts, so it can drive a
    /// machine that polls a wire for a sentinel as long as its caller
    /// pleases. The status is left untouched.
    pub fn run_for(&mut self, bound: usize) -> (r: bool)
        requires
            old(self).well_formed(),
            forall|n: nat| steps_safe(old(self)@, n),
        ensures
            final(self).well_formed(),
            forall|n: nat| steps_safe(final(self)@, n),
            exists|ws: Seq<(i32, i32)>|
                {
                    let t = #[trigger] run_steps(old(self)@, ws);
                    &&& final(self)@ == t
                    &&& ws.len() <= bound
                    &&& (!r ==> terminal(t))
                    &&& (r ==> ws.len() == bound)
                },
            final(self)@.program == old(self)@.program,
            final(self)@.labels == old(self)@.labels,
            final(self)@.status == old(self)@.status,
            final(self)@.delay_ms == old(self)@.delay_ms,
            final(self)@.stack_present == old(self)@.stack_present,
            final(self)@.stack_size == old(self)@.stack_size,
            final(self)@.p.len() == old(self)@.p.len(),
            forall|i: int|
                0 <= i < old(self)@.p.len() && (#[trigger] old(self)@.p[i]) is Connected
                    ==> final(self)@.p[i] == old(self)@.p[i],
            forall|i: int|
                0 <= i < old(self)@.p.len() && (#[trigger] old(self)@.p[i]) is Disconnected
                    ==> final(self)@.p[i] is Disconnected,
    {
        let ghost s0 = old(self)@;
        let ghost mut ws: Seq<(i32, i32)> = Seq::empty();
        let mut continuing = true;
        let mut taken: usize = 0;
        while continuing && taken < bound
            invariant
                self.well_formed(),
                forall|n: nat| steps_safe(self@, n),
                taken <= bound,
                self@ == run_steps(s0, ws),
                ws.len() == taken,
                !continuing ==> terminal(self@),
                self@.program == s0.program,
                self@.labels == s0.labels,
                self@.status == s0.status,
                self@.delay_ms == s0.delay_ms,
                self@.stack_present == s0.stack_present,
                self@.stack_size == s0.stack_size,
                self@.p.len() == s0.p.len(),
                forall|i: int|
                    0 <= i < s0.p.len() && (#[trigger] s0.p[i]) is Connected ==> self@.p[i]
                        == s0.p[i],
                forall|i: int|
                    0 <= i < s0.p.len() && (#[trigger] s0.p[i]) is Disconnected ==> self@.p[i]
                        is Disconnected,
            decreases bound - taken,
        {
            let ghost pre = self@;
            proof {
                assert(steps_safe(self@, 1));
            }
            continuing = self.execute();
            taken = taken + 1;
            proof {
                let (w1, w2) = choose|w1: i32, w2: i32| self@ == step(pre, w1, w2);
                super::semantics::lemma_run_steps_push(s0, ws, (w1, w2));
                ws = ws.push((w1, w2));
                assert forall|n: nat| steps_safe(self@, n) by {
                    assert(steps_safe(pre, (n + 1) as nat));
                    assert(steps_safe(step(pre, w1, w2), n));
                }
                super::semantics::lemma_step_frame(pre, w1, w2);
                assert(wf_state(pre));
                assert forall|i: int|
                    0 <= i < s0.p.len() && (#[trigger] s0.p[i]) is Connected implies self@.p[i]
                    == s0.p[i] by {
                    super::semantics::lemma_step_preserves_wiring(pre, w1, w2, i);
                }
                assert forall|i: int|
                    0 <= i < s0.p.len() && (#[trigger] s0.p[i]) is Disconnected implies self@.p[i]
                    is Disconnected by {
                    super::semantics::lemma_step_preserves_wiring(pre, w1, w2, i);
                }
                if !continuing {
                    if pre.pc >= pre.program.len() {
                        assert(terminal(self@));
                    } else {
                        assert(self@.pc == pre.pc + 1);
                        assert(terminal(self@));
                    }
                }
            }
        }
        continuing
    }

    /// Marks the machine finished without touching its registers: the
    /// threaded run loop ends with this.
    pub fn finish(&mut self)
        requires
            old(self).well_formed(),
        ensures
            final(self).well_formed(),
            final(self)@ == with_status(old(self)@, VmStatus::Finished),
    {
        self.status = VmStatus::Finished;
        proof {
            assert(self@ =~= with_status(old(self)@, VmStatus::Finished));
        }
    }

    /// Stops a running machine: the threaded driver observes the status at
    /// the next instruction boundary and pauses there.
    pub fn stop(&mut self)
        requires
            old(self).well_formed(),
        ensures
            final(self).well_formed(),
            final(self)@ == with_status(old(self)@, VmStatus::Stopped),
    {
        self.status = VmStatus::Stopped;
        proof {
            assert(self@ =~= with_status(old(self)@, VmStatus::Stopped));
        }
    }

    /// Continues executing code where the machine left off.
    pub fn resume(&mut self)
        requires
            old(self).well_formed(),
        ensures
            final(self).well_formed(),
            final(self)@ == with_status(old(self)@, VmStatus::Running),
    {
        self.status = VmStatus::Running;
        proof {
            assert(self@ =~= with_status(old(self)@, VmStatus::Running));
        }
    }

    /// Halts the machine: marks it finished and clears its registers.
    pub fn halt(&mut self)
        requires
            old(self).well_formed(),
        ensures
            final(self).well_formed(),
            final(self)@ == (VmView {
                pc: 0,
                acc: 0,
                flag: Flag::EQUAL,
                r: Seq::new(4, |i: int| 0i32),
                stack: Seq::empty(),
                status: VmStatus::Finished,
                ..old(self)@
            }),
    {
        self.status = VmStatus::Finished;
        self.clear_registers();
        proof {
            assert(self@ =~= (VmView {
                pc: 0,
                acc: 0,
                flag: Flag::EQUAL,
                r: Seq::new(4, |i: int| 0i32),
                stack: Seq::empty(),
                status: VmStatus::Finished,
                ..old(self)@
            }));
        }
    }

    /// Sets the program counter, the next instruction index.
    pub fn set_pc(&mut self, pc: usize)
        requires
            old(self).well_formed(),
        ensures
            final(self).well_formed(),
            final(self)@ == (VmView { pc: pc as nat, ..old(self)@ }),
    {
        self.pc = pc;
        proof {
            assert(self@ =~= (VmView { pc: pc as nat, ..old(self)@ }));
        }
    }

    /// Resets the program counter to the program's start.
    pub fn reset_pc(&mut self)
        requires
            old(self).well_formed(),
        ensures
            final(self).well_formed(),
            final(self)@ == (VmView { pc: 0, ..old(self)@ }),
    {
        self.pc = 0;
        proof {
            assert(self@ =~= (VmView { pc: 0, ..old(self)@ }));
        }
    }

    /// Zeroes the working registers and empties the stack; program, labels,
    /// ports and status stay.
    pub fn clear_registers(&mut self)
        requires
            old(self).well_formed(),
        ensures
            final(self).well_formed(),
            final(self)@ == (VmView {
                pc: 0,
                acc: 0,
                flag: Flag::EQUAL,
                r: Seq::new(4, |i: int| 0i32),
                stack: Seq::empty(),
                ..old(self)@
            }),
    {
        self.pc = 0;
        self.acc = 0;
        self.flag = Flag::EQUAL;
        self.r[0] = 0;
        self.r[1] = 0;
        self.r[2] = 0;
        self.r[3] = 0;
        if self.stack_present {
            self.stack = Vec::new();
        }
        proof {
            assert(self@.r =~= Seq::new(4, |i: int| 0i32));
            assert(self@.stack =~= Seq::<i32>::empty());
            assert(self@ =~= (VmView {
                pc: 0,
                acc: 0,
                flag: Flag::EQUAL,
                r: Seq::new(4, |i: int| 0i32),
                stack: Seq::empty(),
                ..old(self)@
            }));
        }
    }

    pub fn set_delay(&mut self, delay_ms: u32)
        requires
            old(self).well_formed(),
        ensures
            final(self).well_formed(),
            final(self)@ == (VmView { delay_ms, ..old(self)@ }),
    {
        self.delay_ms = delay_ms;
        proof {
            assert(self@ =~= (VmView { delay_ms, ..old(self)@ }));
        }
    }

    pub fn get_delay(&mut self) -> (r: u32)
        ensures
            final(self)@ == old(self)@,
            r == old(self)@.delay_ms,
    {
        self.delay_ms
    }

    pub fn get_acc(&self) -> (r: i32)
        ensures
            r == self@.acc,
    {
        self.acc
    }

    pub fn get_pc(&self) -> (r: usize)
        ensures
            r as nat == self@.pc,
    {
        self.pc
    }

    pub fn get_flag(&self) -> (r: Flag)
        ensures
            r == self@.flag,
    {
        self.flag
    }

    pub fn get_registers(&self) -> (r: [i32; 4])
        requires
            self.well_formed(),
        ensures
            r@ == self@.r,
    {
        let r = [self.r[0], self.r[1], self.r[2], self.r[3]];
        proof {
            assert(r@ =~= self@.r);
        }
        r
    }

    pub fn get_ports(&self) -> (r: [Port; 6])
        requires
            self.well_formed(),
        ensures
            r@.map_values(|q: Port| q@) == self@.p,
    {
        let r = [
            self.p[0].clone(),
            self.p[1].clone(),
            self.p[2].clone(),
            self.p[3].clone(),
            self.p[4].clone(),
            self.p[5].clone(),
        ];
        proof {
            assert(r@.map_values(|q: Port| q@) =~= self@.p);
        }
        r
    }

    /// Gets the state of all registers (acc, pc, flag, r, p).
    pub fn get_registers_all(&self) -> (r: (i32, usize, Flag, [i32; 4], [Port; 6]))
        requires
            self.well_formed(),
        ensures
            r.0 == self@.acc,
            r.1 as nat == self@.pc,
            r.2 == self@.flag,
            r.3@ == self@.r,
            r.4@.map_values(|q: Port| q@) == self@.p,
    {
        (self.get_acc(), self.get_pc(), self.get_flag(), self.get_registers(), self.get_ports())
    }

    pub fn get_labels(&self) -> (r: Vec<(String, usize)>)
        requires
            self.well_formed(),
        ensures
            assoc_map(r@) == self@.labels,
    {
        let mut out: Vec<(String, usize)> = Vec::new();
        let n = self.labels.len();
        for i in 0..n
            invariant
                n == self.labels.len(),
                out@.len() == i,
                forall|j: int| 0 <= j < i ==> out@[j] == self.labels@[j],
        {
            out.push((self.labels[i].0.clone(), self.labels[i].1));
        }
        proof {
            assert(out@ =~= self.labels@);
        }
        out
    }

    pub fn get_program(&self) -> (r: Vec<Instruction>)
        requires
            self.well_formed(),
        ensures
            r@.map_values(|i: Instruction| i@) == self@.program,
    {
        let mut out: Vec<Instruction> = Vec::new();
        let n = self.program.len();
        for i in 0..n
            invariant
                n == self.program.len(),
                out@.len() == i,
                forall|j: int| 0 <= j < i ==> out@[j] == self.program@[j],
        {
            out.push(self.program[i].clone());
        }
        proof {
            assert(out@ =~= self.program@);
            assert(out@.map_values(|i: Instruction| i@) =~= self@.program);
        }
        out
    }

    pub fn get_status(&self) -> (r: VmStatus)
        ensures
            r == self@.status,
    {
        self.status
    }

    pub fn get_stack(&self) -> (r: Vec<i32>)
        requires
            self.well_formed(),
        ensures
            r@ == self@.stack,
    {
        let mut out: Vec<i32> = Vec::new();
        let n = self.stack.len();
        for i in 0..n
            invariant
                n == self.stack.len(),
                out@.len() == i,
                forall|j: int| 0 <= j < i ==> out@[j] == self.stack@[j],
        {
            out.push(self.stack[i]);
        }
        proof {
            assert(out@ =~= self.stack@);
        }
        out
    }

    /// The instruction the program counter points at, if any.
    pub fn get_next_instruction(&self) -> (r: Option<Instruction>)
        requires
            self.well_formed(),
        ensures
            match r {
                Some(instr) => self@.pc < self@.program.len() && instr@ == self@.program[self@.pc as int],
                None => self@.pc >= self@.program.len(),
            },
    {
        if self.pc < self.program.len() {
            Some(self.program[self.pc].clone())
        } else {
            None
        }
    }

    /// Gets the full state of the machine (acc, pc, flag, r, p, labels,
    /// program).
    #[allow(clippy::type_complexity)]
    pub fn get_state_full_old(&self) -> (r: (
        i32,
        usize,
        Flag,
        [i32; 4],
        [Port; 6],
        Vec<(String, usize)>,
        Vec<Instruction>,
    ))
        requires
            self.well_formed(),
        ensures
            r.0 == self@.acc,
            r.1 as nat == self@.pc,
            r.2 == self@.flag,
            r.3@ == self@.r,
            r.4@.map_values(|q: Port| q@) == self@.p,
            assoc_map(r.5@) == self@.labels,
            r.6@.map_values(|i: Instruction| i@) == self@.program,
    {
        (
            self.get_acc(),
            self.get_pc(),
            self.get_flag(),
            self.get_registers(),
            self.get_ports(),
            self.get_labels(),
            self.get_program(),
        )
    }

    /// A display snapshot: registers, current port readings, status and
    /// delay. A connected port's reading is whatever its wire held at this
    /// moment.
    pub fn get_state_for_display(&self) -> (r: (i32, usize, Flag, [i32; 4], [i32; 6], VmStatus, u32))
        requires
            self.well_formed(),
        ensures
            r.0 == self@.acc,
            r.1 as nat == self@.pc,
            r.2 == self@.flag,
            r.3@ == self@.r,
            forall|i: int|
                0 <= i < 6 ==> match #[trigger] self@.p[i] {
                    PortV::Disconnected(v) => r.4@[i] == v,
                    PortV::Connected(_, _) => true,
                },
            r.5 == self@.status,
            r.6 == self@.delay_ms,
    {
        let mut p0 = self.p[0].clone();
        let mut p1 = self.p[1].clone();
        let mut p2 = self.p[2].clone();
        let mut p3 = self.p[3].clone();
        let mut p4 = self.p[4].clone();
        let mut p5 = self.p[5].clone();
        let port_values: [i32; 6] = [p0.get(), p1.get(), p2.get(), p3.get(), p4.get(), p5.get()];
        (
            self.get_acc(),
            self.get_pc(),
            self.get_flag(),
            self.get_registers(),
            port_values,
            self.get_status(),
            self.get_delay_ref(),
        )
    }

    /// The configured delay, read without touching the machine.
    fn get_delay_ref(&self) -> (r: u32)
        ensures
            r == self@.delay_ms,
    {
        self.delay_ms
    }

    /// Connects a port to a wire, for sharing data across machines.
    pub fn connect(&mut self, index: usize, connection: &mut Connection)
        requires
            old(self).well_formed(),
            index < 6,
        ensures
            final(self).well_formed(),
            final(self)@ == (VmView {
                p: old(self)@.p.update(
                    index as int,
                    PortV::Connected(old(connection)@.cell, old(connection)@.id),
                ),
                ..old(self)@
            }),
            final(connection)@ == old(connection)@,
    {
        self.p[index].connect(connection);
        proof {
            assert(self@ =~= (VmView {
                p: old(self)@.p.update(
                    index as int,
                    PortV::Connected(old(connection)@.cell, old(connection)@.id),
                ),
                ..old(self)@
            }));
        }
    }

    /// Connects a port to a wire and records the given port id on the wire's
    /// bookkeeping list.
    pub fn connect_with_id(&mut self, index: usize, connection: &mut Connection, id: String)
        requires
            old(self).well_formed(),
            index < 6,
        ensures
            final(self).well_formed(),
            final(self)@ == (VmView {
                p: old(self)@.p.update(
                    index as int,
                    PortV::Connected(old(connection)@.cell, old(connection)@.id),
                ),
                ..old(self)@
            }),
            final(connection)@.id == old(connection)@.id,
            final(connection)@.ports == if old(connection)@.ports.contains(id@) {
                old(connection)@.ports
            } else {
                old(connection)@.ports.push(id@)
            },
    {
        self.connect(index, connection);
        connection.add_port_id(id);
    }

    /// Disconnects a port from its wire, freezing the value it last observed
    /// there as its new private value.
    pub fn disconnect(&mut self, index: usize)
        requires
            old(self).well_formed(),
            index < 6,
        ensures
            final(self).well_formed(),
            final(self)@.p[index as int] is Disconnected,
            forall|j: int| 0 <= j < 6 && j != index ==> final(self)@.p[j] == old(self)@.p[j],
            old(self)@.p[index as int] is Disconnected ==> final(self)@.p[index as int] == old(
                self,
            )@.p[index as int],
            final(self)@ == (VmView { p: final(self)@.p, ..old(self)@ }),
    {
        let value = self.p[index].get();
        self.p[index] = Port::new(value);
        proof {
            assert(self@ =~= (VmView {
                p: old(self)@.p.update(index as int, PortV::Disconnected(value)),
                ..old(self)@
            }));
        }
    }
}


impl Default for VirtualMachine {
    fn default() -> (vm: Self)
        ensures
            vm@ == init_view(),
            vm.well_formed(),
    {
        Self::new()
    }
}

/// Decides `wf_operand`: whether an operand addresses a register that
/// exists.
fn operand_well_formed(op: &Operand) -> (r: bool)
    ensures
        r == wf_operand(*op),
{
    match op {
        Operand::GeneralRegister(i) => *i < 4,
        Operand::PortRegister(i) => *i < 6,
        _ => true,
    }
}

/// Decides `wf_instr`: whether one instruction can execute without faulting
/// on an address or writing into a literal.
fn instruction_well_formed(instr: &Instruction) -> (r: bool)
    ensures
        r == wf_instr(instr@),
{
    match instr {
        Instruction::Label(_, _) => true,
        Instruction::Opcode(op) => match op {
            Opcode::NOP | Opcode::HLT | Opcode::INC | Opcode::DEC | Opcode::NOT => true,
            Opcode::MOV(src, dst) => {
                let dst_is_literal = match dst {
                    Operand::IntegerValue(_) => true,
                    _ => false,
                };
                operand_well_formed(src) && operand_well_formed(dst) && !dst_is_literal
            },
            Opcode::ADD(o) | Opcode::SUB(o) | Opcode::MUL(o) | Opcode::DIV(o) | Opcode::MOD(o)
                | Opcode::AND(o) | Opcode::OR(o) | Opcode::XOR(o) | Opcode::SHL(o)
                | Opcode::SHR(o) | Opcode::PSH(o) => operand_well_formed(o),
            Opcode::CMP(a, b) => operand_well_formed(a) && operand_well_formed(b),
            Opcode::POP(o) => {
                let is_literal = match o {
                    Operand::IntegerValue(_) => true,
                    _ => false,
                };
                operand_well_formed(o) && !is_literal
            },
            Opcode::JMP(_) | Opcode::JE(_) | Opcode::JNE(_) | Opcode::JL(_) | Opcode::JG(_) => true,
        },
    }
}

/// Decides `wf_program` at run time, so that an unverified caller can test
/// a program before loading it instead of relying on the assembler's own
/// validation.
pub fn program_well_formed(program: &Vec<Instruction>) -> (r: bool)
    ensures
        r == wf_program(program@.map_values(|i: Instruction| i@)),
{
    let ghost pv = program@.map_values(|i: Instruction| i@);
    let n = program.len();
    if n > 0x7fff_ffff {
        return false;
    }
    for i in 0..n
        invariant
            n == program@.len(),
            n <= 0x7fff_ffff,
            pv == program@.map_values(|ins: Instruction| ins@),
            forall|j: int| 0 <= j < i ==> wf_instr(#[trigger] pv[j]),
    {
        let ok = instruction_well_formed(&program[i]);
        proof {
            assert(pv[i as int] == program@[i as int]@);
        }
        if !ok {
            proof {
                assert(!wf_instr(pv[i as int]));
            }
            return false;
        }
    }
    proof {
        assert(wf_program(pv));
    }
    true
}

/// The bookkeeping tag recorded on a wire for a port: the wire's id, the
/// letter P, the port's index.
pub open spec fn port_tag(cid: nat, index: nat) -> Seq<char> {
    crate::text::nat_to_chars(cid) + seq!['P'] + crate::text::nat_to_chars(index)
}

impl VirtualMachine {
    /// Disconnects a port and, when the port carried its wire's id, removes
    /// the matching tag from the wire's bookkeeping list. The tag is built
    /// from the wire's own id, though the recording convention writes a
    /// machine id in that position: a tag recorded under a machine id that
    /// differs from the wire's id stays on the list. Callers who need the
    /// exact tag removed should call `remove_port_id` with it themselves.
    pub fn disconnect_and_unlist(&mut self, index: usize, connection: &mut Connection)
        requires
            old(self).well_formed(),
            index < 6,
        ensures
            final(self).well_formed(),
            final(self)@.p[index as int] is Disconnected,
            forall|j: int| 0 <= j < 6 && j != index ==> final(self)@.p[j] == old(self)@.p[j],
            old(self)@.p[index as int] is Disconnected ==> final(self)@.p[index as int] == old(
                self,
            )@.p[index as int],
            final(self)@ == (VmView { p: final(self)@.p, ..old(self)@ }),
            final(connection)@.id == old(connection)@.id,
            final(connection)@.ports == match old(self)@.p[index as int] {
                PortV::Connected(_, Some(cid)) => old(connection)@.ports.filter(
                    (|s: Seq<char>| s != port_tag(cid as nat, index as nat)),
                ),
                _ => old(connection)@.ports,
            },
    {
        let value = self.p[index].get();
        let id = self.p[index].get_id();
        if let Some(id) = id {
            let mut tag = String::new();
            crate::text::append_usize(&mut tag, id);
            tag.append("P");
            crate::text::append_usize(&mut tag, index);
            proof {
                reveal_strlit("P");
                assert("P"@ =~= seq!['P']);
                assert(tag@ =~= port_tag(id as nat, index as nat));
                assert((|s: Seq<char>| s != tag@) =~= (|s: Seq<char>|
                    s != port_tag(id as nat, index as nat)));
            }
            connection.remove_port_id(tag);
        }
        self.p[index] = Port::new(value);
        proof {
            assert(self@ =~= (VmView {
                p: old(self)@.p.update(index as int, PortV::Disconnected(value)),
                ..old(self)@
            }));
        }
    }

    /// Records a label at the current program counter, unless the name is
    /// already declared.
    pub fn add_label(&mut self, name: String)
        requires
            old(self).well_formed(),
        ensures
            final(self).well_formed(),
            final(self)@ == (VmView {
                labels: if old(self)@.labels.dom().contains(name@) {
                    old(self)@.labels
                } else {
                    old(self)@.labels.insert(name@, old(self)@.pc)
                },
                ..old(self)@
            }),
    {
        let ghost labels_before = self.labels@;
        if find_target(&self.labels, name.as_str()).is_none() {
            let entry = (name, self.pc);
            proof {
                lemma_assoc_push_fresh(self.labels@, entry.0, entry.1);
                assert forall|a: int, b: int|
                    0 <= a < b < labels_before.push(entry).len() implies (
                #[trigger] labels_before.push(entry)[a]).0@ != (#[trigger] labels_before.push(
                    entry,
                )[b]).0@ by {
                    if b < labels_before.len() {
                    } else {
                        lemma_assoc_found(labels_before, a);
                    }
                }
            }
            self.labels.push(entry);
        }
        proof {
            assert(self@ =~= (VmView {
                labels: if old(self)@.labels.dom().contains(name@) {
                    old(self)@.labels
                } else {
                    old(self)@.labels.insert(name@, old(self)@.pc)
                },
                ..old(self)@
            }));
        }
    }

    pub fn get_ports_ref(&self) {
    }

    /// A four-slot port report; every slot reads as zero.
    pub fn get_ports_values(&self) -> (r: [i32; 4])
        ensures
            forall|i: int| 0 <= i < 4 ==> r@[i] == 0,
    {
        [0, 0, 0, 0]
    }
}

} // verus!
