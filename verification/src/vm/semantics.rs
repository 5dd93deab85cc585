use vstd::prelude::*;

use crate::components::port::PortV;
use super::flag::Flag;
use super::instruction::InstrV;
use super::opcodes::{JMPCondition, OpcodeV};
use super::operand::Operand;

verus! {

/// Mathematical state of a virtual machine.
///
/// Ports are modelled by `PortV`: a connected port's value lives on the
/// shared wire, outside this state, so a step that reads such a port is a
/// function of the state *and* of the value the wire happened to hold.
#[verifier::ext_equal]
pub struct VmView {
    pub pc: nat,
    pub acc: i32,
    pub flag: Flag,
    pub r: Seq<i32>,
    pub p: Seq<PortV>,
    pub labels: Map<Seq<char>, nat>,
    pub program: Seq<InstrV>,
    pub status: crate::vm::virtual_machine::VmStatus,
    pub delay_ms: u32,
    pub stack_present: bool,
    pub stack_size: nat,
    pub stack: Seq<i32>,
}

/// The state of a freshly created machine: everything zeroed, no program, no
/// stack, all six ports disconnected.
pub open spec fn init_view() -> VmView {
    VmView {
        pc: 0,
        acc: 0,
        flag: Flag::EQUAL,
        r: Seq::new(4, |i: int| 0i32),
        p: Seq::new(6, |i: int| PortV::Disconnected(0)),
        labels: Map::empty(),
        program: Seq::empty(),
        status: crate::vm::virtual_machine::VmStatus::Initial,
        delay_ms: 0,
        stack_present: false,
        stack_size: 0,
        stack: Seq::empty(),
    }
}

// ---------------------------------------------------------------------------
// Well-formedness
// ---------------------------------------------------------------------------
/// An operand that addresses a register addresses one that exists; a write
/// target is never a literal integer. The assembler guarantees this of
/// everything it produces, except that a popped-into literal is its caller's
/// mistake, and the machine does not re-validate at runtime.
pub open spec fn wf_operand(op: Operand) -> bool {
    match op {
        Operand::GeneralRegister(i) => i < 4,
        Operand::PortRegister(i) => i < 6,
        _ => true,
    }
}

/// A program the machine can run without faulting on an address: every
/// operand addresses an existing register, and no copy or pop targets a
/// literal integer.
pub open spec fn wf_instr(instr: InstrV) -> bool {
    match instr {
        InstrV::Label(_, _) => true,
        InstrV::Opcode(op) => match op {
            OpcodeV::NOP | OpcodeV::HLT | OpcodeV::INC | OpcodeV::DEC | OpcodeV::NOT => true,
            OpcodeV::MOV(src, dst) => wf_operand(src) && wf_operand(dst) && !(dst
                is IntegerValue),
            OpcodeV::ADD(o) | OpcodeV::SUB(o) | OpcodeV::MUL(o) | OpcodeV::DIV(o)
                | OpcodeV::MOD(o) | OpcodeV::AND(o) | OpcodeV::OR(o) | OpcodeV::XOR(o)
                | OpcodeV::SHL(o) | OpcodeV::SHR(o) | OpcodeV::PSH(o) => wf_operand(o),
            OpcodeV::CMP(a, b) => wf_operand(a) && wf_operand(b),
            OpcodeV::POP(o) => wf_operand(o) && !(o is IntegerValue),
            OpcodeV::JMP(_) | OpcodeV::JE(_) | OpcodeV::JNE(_) | OpcodeV::JL(_)
                | OpcodeV::JG(_) => true,
        },
    }
}

pub open spec fn wf_program(p: Seq<InstrV>) -> bool {
    &&& p.len() <= 0x7fff_ffff
    &&& forall|i: int| 0 <= i < p.len() ==> wf_instr(#[trigger] p[i])
}

/// Structural well-formedness of a machine state.
pub open spec fn wf_state(s: VmView) -> bool {
    &&& s.r.len() == 4
    &&& s.p.len() == 6
    &&& wf_program(s.program)
    &&& s.stack.len() <= s.stack_size
    &&& (!s.stack_present ==> s.stack.len() == 0 && s.stack_size == 0)
}

// ---------------------------------------------------------------------------
// Labels
// ---------------------------------------------------------------------------
/// The label table after scanning the first `n` instructions, starting from
/// an existing table `m0`. A label at sequence position `i` maps to target
/// `i + 1` — the slot immediately after the marker — and a name already
/// present is left as it is, so the first declaration wins.
pub open spec fn label_map_from(m0: Map<Seq<char>, nat>, p: Seq<InstrV>, n: int) -> Map<
    Seq<char>,
    nat,
>
    decreases n,
{
    if n <= 0 {
        m0
    } else {
        let m = label_map_from(m0, p, n - 1);
        match p[n - 1] {
            InstrV::Label(name, _) => if m.dom().contains(name) {
                m
            } else {
                m.insert(name, n as nat)
            },
            _ => m,
        }
    }
}

/// The label table of a whole program.
pub open spec fn label_map(p: Seq<InstrV>) -> Map<Seq<char>, nat> {
    label_map_from(Map::empty(), p, p.len() as int)
}

// ---------------------------------------------------------------------------
// Operands
// ---------------------------------------------------------------------------
/// The program counter read as data: its low 32 bits, reinterpreted as a
/// signed register value.
pub open spec fn pc_trunc(pc: nat) -> i32 {
    let m = pc % 0x1_0000_0000;
    if m >= 0x8000_0000 {
        (m - 0x1_0000_0000) as i32
    } else {
        m as i32
    }
}

/// A register value written into the program counter: a negative value wraps
/// around the address space, landing past the end of any program.
pub open spec fn pc_from_i32(v: i32) -> nat {
    if v >= 0 {
        v as nat
    } else {
        (usize::MAX + 1 + v) as nat
    }
}

/// Whether reading this operand in state `s` consults a shared wire, whose
/// value the state does not determine.
pub open spec fn op_reads_wire(s: VmView, op: Operand) -> bool {
    match op {
        Operand::PortRegister(i) => s.p[i as int] is Connected,
        _ => false,
    }
}

/// The value an operand resolves to in state `s`, where `w` stands in for
/// whatever a read of a connected port returned.
pub open spec fn operand_value(s: VmView, op: Operand, w: i32) -> i32 {
    match op {
        Operand::IntegerValue(v) => v,
        Operand::GeneralRegister(i) => s.r[i as int],
        Operand::PortRegister(i) => match s.p[i as int] {
            PortV::Disconnected(v) => v,
            PortV::Connected(_, _) => w,
        },
        Operand::ACC => s.acc,
        Operand::PC => pc_trunc(s.pc),
    }
}

/// The state after writing `v` into the location `dst` addresses. A write to
/// a connected port goes to the shared wire, outside this state, and a write
/// to the program counter redirects control flow; a negative value sent to
/// the program counter wraps around to a position past any program's end.
pub open spec fn write_operand(s: VmView, dst: Operand, v: i32) -> VmView {
    match dst {
        Operand::IntegerValue(_) => s,
        Operand::GeneralRegister(i) => VmView { r: s.r.update(i as int, v), ..s },
        Operand::PortRegister(i) => match s.p[i as int] {
            PortV::Disconnected(_) => VmView {
                p: s.p.update(i as int, PortV::Disconnected(v)),
                ..s
            },
            PortV::Connected(_, _) => s,
        },
        Operand::ACC => VmView { acc: v, ..s },
        Operand::PC => VmView { pc: pc_from_i32(v), ..s },
    }
}

// ---------------------------------------------------------------------------
// Arithmetic
// ---------------------------------------------------------------------------
/// Division truncating toward zero, wrapping on the one overflowing case,
/// as Rust's `i32::wrapping_div` computes it.
pub open spec fn div_wrap(a: i32, b: i32) -> i32
    recommends
        b != 0,
{
    if a == i32::MIN && b == -1 {
        i32::MIN
    } else {
        let q = vstd::math::abs(a as int) / vstd::math::abs(b as int);
        if (a < 0) == (b < 0) {
            q as i32
        } else {
            (-q) as i32
        }
    }
}

/// Remainder with the sign of the dividend, as Rust's `i32::wrapping_rem`
/// computes it.
pub open spec fn rem_wrap(a: i32, b: i32) -> i32
    recommends
        b != 0,
{
    let m = vstd::math::abs(a as int) % vstd::math::abs(b as int);
    if a >= 0 {
        m as i32
    } else {
        (-m) as i32
    }
}

/// A shift amount: negative counts collapse to zero, and the shift itself
/// masks the count to the register width.
pub open spec fn shift_amount(v: i32) -> u32 {
    if v < 0 {
        0
    } else {
        v as u32
    }
}

/// The flag the compare instruction leaves: the sign of the wrapped
/// difference of the operands.
pub open spec fn cmp_flag(a: i32, b: i32) -> Flag {
    let d = vstd::wrapping::i32_specs::wrapping_sub(a, b);
    if d == 0 {
        Flag::EQUAL
    } else if d < 0 {
        Flag::LESSER
    } else {
        Flag::GREATER
    }
}

/// Whether the flag satisfies a jump's condition.
pub open spec fn cond_holds(flag: Flag, cond: JMPCondition) -> bool {
    match cond {
        JMPCondition::EQ => flag is EQUAL,
        JMPCondition::NEQ => flag is LESSER || flag is GREATER,
        JMPCondition::GRT => flag is GREATER,
        JMPCondition::LST => flag is LESSER,
        JMPCondition::NONE => true,
    }
}

/// Whether an opcode is one of the operations that combine the accumulator
/// with an operand (or with nothing) and store the result back into it.
pub open spec fn is_acc_op(op: OpcodeV) -> bool {
    match op {
        OpcodeV::ADD(_) | OpcodeV::SUB(_) | OpcodeV::MUL(_) | OpcodeV::DIV(_) | OpcodeV::MOD(_)
            | OpcodeV::AND(_) | OpcodeV::OR(_) | OpcodeV::XOR(_) | OpcodeV::SHL(_)
            | OpcodeV::SHR(_) | OpcodeV::INC | OpcodeV::DEC | OpcodeV::NOT => true,
        _ => false,
    }
}

/// The value an accumulator operation leaves in the accumulator, with `w`
/// standing in for a wire read of its operand.
pub open spec fn acc_op_result(s: VmView, op: OpcodeV, w: i32) -> i32 {
    match op {
        OpcodeV::ADD(o) => vstd::wrapping::i32_specs::wrapping_add(s.acc, operand_value(s, o, w)),
        OpcodeV::SUB(o) => vstd::wrapping::i32_specs::wrapping_sub(s.acc, operand_value(s, o, w)),
        OpcodeV::MUL(o) => vstd::wrapping::i32_specs::wrapping_mul(s.acc, operand_value(s, o, w)),
        OpcodeV::DIV(o) => div_wrap(s.acc, operand_value(s, o, w)),
        OpcodeV::MOD(o) => rem_wrap(s.acc, operand_value(s, o, w)),
        OpcodeV::AND(o) => s.acc & operand_value(s, o, w),
        OpcodeV::OR(o) => s.acc | operand_value(s, o, w),
        OpcodeV::XOR(o) => s.acc ^ operand_value(s, o, w),
        OpcodeV::SHL(o) => vstd::wrapping::i32_specs::wrapping_shl(
            s.acc,
            shift_amount(operand_value(s, o, w)),
        ),
        OpcodeV::SHR(o) => vstd::wrapping::i32_specs::wrapping_shr(
            s.acc,
            shift_amount(operand_value(s, o, w)),
        ),
        OpcodeV::INC => vstd::wrapping::i32_specs::wrapping_add(s.acc, 1),
        OpcodeV::DEC => vstd::wrapping::i32_specs::wrapping_sub(s.acc, 1),
        OpcodeV::NOT => !s.acc,
        _ => s.acc,
    }
}

/// Whether an accumulator operation's operand is read off a wire.
pub open spec fn acc_op_reads_wire(s: VmView, op: OpcodeV) -> bool {
    match op {
        OpcodeV::ADD(o) | OpcodeV::SUB(o) | OpcodeV::MUL(o) | OpcodeV::DIV(o) | OpcodeV::MOD(o)
            | OpcodeV::AND(o) | OpcodeV::OR(o) | OpcodeV::XOR(o) | OpcodeV::SHL(o)
            | OpcodeV::SHR(o) => op_reads_wire(s, o),
        _ => false,
    }
}

/// The divisor of a division or modulus is neither zero nor off a wire.
pub open spec fn acc_op_div_safe(s: VmView, op: OpcodeV) -> bool {
    match op {
        OpcodeV::DIV(o) | OpcodeV::MOD(o) => !op_reads_wire(s, o) && operand_value(s, o, 0) != 0,
        _ => true,
    }
}

// ---------------------------------------------------------------------------
// The step function
// ---------------------------------------------------------------------------
/// The state after a jump to `name` under `cond`: the program counter moves
/// to the label's target if the label is known and the flag satisfies the
/// condition; an unknown label is silently a jump not taken.
pub open spec fn jump(s: VmView, name: Seq<char>, cond: JMPCondition) -> VmView {
    if s.labels.dom().contains(name) && cond_holds(s.flag, cond) {
        VmView { pc: s.labels[name], ..s }
    } else {
        s
    }
}

/// The state after pushing `v`: onto the stack if there is one with room,
/// over the top slot if the stack is full, and nowhere at all if no stack is
/// configured or it has no slots.
pub open spec fn push_value(s: VmView, v: i32) -> VmView {
    if !s.stack_present || s.stack_size == 0 {
        s
    } else if s.stack.len() < s.stack_size {
        VmView { stack: s.stack.push(v), ..s }
    } else {
        VmView { stack: s.stack.update(s.stack_size - 1, v), ..s }
    }
}

/// The value a pop yields — zero from an empty stack — and the stack left
/// behind.
pub open spec fn pop_value(s: VmView) -> (i32, Seq<i32>) {
    if s.stack.len() == 0 {
        (0, s.stack)
    } else {
        (s.stack.last(), s.stack.drop_last())
    }
}

/// Where a popped value lands when written through an operand: like
/// `write_operand`, except that a negative value sent to the program counter
/// collapses to position zero.
pub open spec fn pop_write(s: VmView, dst: Operand, v: i32) -> VmView {
    match dst {
        Operand::PC => VmView { pc: if v >= 0 { v as nat } else { 0 }, ..s },
        _ => write_operand(s, dst, v),
    }
}

/// The state after a pop through `dst`: nothing on a machine without a
/// stack; otherwise the top value — zero if the stack is empty — lands where
/// `dst` addresses.
pub open spec fn pop_step(s: VmView, dst: Operand) -> VmView {
    if !s.stack_present {
        s
    } else {
        let (v, rest) = pop_value(s);
        pop_write(VmView { stack: rest, ..s }, dst, v)
    }
}

/// One fetch-decode-execute step of the machine.
///
/// `w1` and `w2` stand in for the values that reads of connected ports
/// returned during the step: `w1` for the first operand read, `w2` for a
/// compare's second operand. On a state whose step reads no wire the result
/// does not depend on them. A machine whose program counter has run off the
/// program does not step.
pub open spec fn step(s: VmView, w1: i32, w2: i32) -> VmView {
    if s.pc >= s.program.len() {
        s
    } else {
        let s1 = VmView { pc: (s.pc + 1) as nat, ..s };
        match s.program[s.pc as int] {
            InstrV::Label(_, _) => s1,
            InstrV::Opcode(op) => match op {
                OpcodeV::NOP => s1,
                OpcodeV::HLT => s1,
                OpcodeV::MOV(src, dst) => write_operand(s1, dst, operand_value(s1, src, w1)),
                OpcodeV::CMP(a, b) => VmView {
                    flag: cmp_flag(operand_value(s1, a, w1), operand_value(s1, b, w2)),
                    ..s1
                },
                OpcodeV::JMP(name) => jump(s1, name, JMPCondition::NONE),
                OpcodeV::JE(name) => jump(s1, name, JMPCondition::EQ),
                OpcodeV::JNE(name) => jump(s1, name, JMPCondition::NEQ),
                OpcodeV::JL(name) => jump(s1, name, JMPCondition::LST),
                OpcodeV::JG(name) => jump(s1, name, JMPCondition::GRT),
                OpcodeV::PSH(o) => push_value(s1, operand_value(s1, o, w1)),
                OpcodeV::POP(dst) => pop_step(s1, dst),
                _ => VmView { acc: acc_op_result(s1, op, w1), ..s1 },
            },
        }
    }
}

/// Whether a step from `s` keeps the machine running: it does unless the
/// program has run out or the fetched instruction halts it.
pub open spec fn step_continues(s: VmView) -> bool {
    s.pc < s.program.len() && s.program[s.pc as int] != InstrV::Opcode(OpcodeV::HLT)
}

/// Whether the step from `s` reads a connected port, so that its outcome
/// depends on the wire and not on `s` alone.
pub open spec fn step_reads_wire(s: VmView) -> bool {
    s.pc < s.program.len() && {
        let s1 = VmView { pc: (s.pc + 1) as nat, ..s };
        match s.program[s.pc as int] {
            InstrV::Opcode(op) => match op {
                OpcodeV::MOV(src, _) => op_reads_wire(s1, src),
                OpcodeV::PSH(o) => op_reads_wire(s1, o),
                OpcodeV::CMP(a, b) => op_reads_wire(s1, a) || op_reads_wire(s1, b),
                _ => acc_op_reads_wire(s1, op),
            },
            InstrV::Label(_, _) => false,
        }
    }
}

/// Whether the step from `s` is free of the one fatal fault: a division or
/// modulus whose divisor is zero, or whose divisor comes off a wire and so
/// cannot be known not to be.
pub open spec fn div_safe_at(s: VmView) -> bool {
    s.pc < s.program.len() ==> {
        let s1 = VmView { pc: (s.pc + 1) as nat, ..s };
        match s.program[s.pc as int] {
            InstrV::Opcode(op) => acc_op_div_safe(s1, op),
            InstrV::Label(_, _) => true,
        }
    }
}

/// Whether the machine can take `n` steps from `s` without a division fault,
/// whatever values its wire reads return.
pub open spec fn steps_safe(s: VmView, n: nat) -> bool
    decreases n,
{
    n == 0 || (div_safe_at(s) && forall|w1: i32, w2: i32|
        steps_safe(#[trigger] step(s, w1, w2), (n - 1) as nat))
}

/// The state reached from `s` by one step per entry of `ws`, each entry
/// supplying the wire reads of its step.
pub open spec fn run_steps(s: VmView, ws: Seq<(i32, i32)>) -> VmView
    decreases ws.len(),
{
    if ws.len() == 0 {
        s
    } else {
        run_steps(step(s, ws[0].0, ws[0].1), ws.drop_first())
    }
}

/// The state `s` with another status.
pub open spec fn with_status(s: VmView, status: crate::vm::virtual_machine::VmStatus) -> VmView {
    VmView { status, ..s }
}

/// A state on which the last `execute` reported a halt: either the program
/// counter has run off the program, or the slot just executed was a halt
/// instruction.
pub open spec fn terminal(s: VmView) -> bool {
    s.pc >= s.program.len() || (s.pc >= 1 && s.program[s.pc - 1] == InstrV::Opcode(OpcodeV::HLT))
}

/// Whether any port of `s` is connected to a wire. A machine with none is
/// deterministic: its steps do not depend on wire values.
pub open spec fn any_port_connected(s: VmView) -> bool {
    exists|i: int| 0 <= i < s.p.len() && s.p[i] is Connected
}

/// Extending a step path by one entry appends one step at its end.
pub proof fn lemma_run_steps_push(s: VmView, ws: Seq<(i32, i32)>, p: (i32, i32))
    ensures
        run_steps(s, ws.push(p)) == step(run_steps(s, ws), p.0, p.1),
    decreases ws.len(),
{
    assert(run_steps(s, ws.push(p)) == run_steps(
        step(s, ws.push(p)[0].0, ws.push(p)[0].1),
        ws.push(p).drop_first(),
    ));
    if ws.len() == 0 {
        assert(ws.push(p).drop_first() =~= Seq::<(i32, i32)>::empty());
        assert(ws.push(p)[0] == p);
        assert(run_steps(step(s, p.0, p.1), Seq::<(i32, i32)>::empty()) == step(s, p.0, p.1));
    } else {
        assert(ws.push(p).drop_first() =~= ws.drop_first().push(p));
        assert(ws.push(p)[0] == ws[0]);
        lemma_run_steps_push(step(s, ws[0].0, ws[0].1), ws.drop_first(), p);
        assert(run_steps(s, ws) == run_steps(step(s, ws[0].0, ws[0].1), ws.drop_first()));
    }
}

/// A step neither reads nor changes the status field.
#[verifier::rlimit(60)]
pub proof fn lemma_step_ignores_status(
    s: VmView,
    st: crate::vm::virtual_machine::VmStatus,
    w1: i32,
    w2: i32,
)
    ensures
        step(VmView { status: st, ..s }, w1, w2) == (VmView { status: st, ..step(s, w1, w2) }),
        div_safe_at(VmView { status: st, ..s }) == div_safe_at(s),
{
    assert(step(VmView { status: st, ..s }, w1, w2) =~= (VmView {
        status: st,
        ..step(s, w1, w2)
    }));
}

/// Safety from a state does not depend on its status field.
pub proof fn lemma_steps_safe_ignores_status(
    s: VmView,
    st: crate::vm::virtual_machine::VmStatus,
    n: nat,
)
    requires
        steps_safe(s, n),
    ensures
        steps_safe(VmView { status: st, ..s }, n),
    decreases n,
{
    if n > 0 {
        assert forall|w1: i32, w2: i32|
            steps_safe(#[trigger] step(VmView { status: st, ..s }, w1, w2), (n - 1) as nat) by {
            lemma_step_ignores_status(s, st, w1, w2);
            assert(steps_safe(step(s, w1, w2), (n - 1) as nat));
            lemma_steps_safe_ignores_status(step(s, w1, w2), st, (n - 1) as nat);
            assert(VmView { status: st, ..step(s, w1, w2) } == step(
                VmView { status: st, ..s },
                w1,
                w2,
            ));
        }
    }
}


/// A step changes no part of the machine's configuration: program, labels,
/// status, delay and stack shape stay as they were.
#[verifier::rlimit(60)]
pub proof fn lemma_step_frame(s: VmView, w1: i32, w2: i32)
    ensures
        step(s, w1, w2).program == s.program,
        step(s, w1, w2).labels == s.labels,
        step(s, w1, w2).status == s.status,
        step(s, w1, w2).delay_ms == s.delay_ms,
        step(s, w1, w2).stack_present == s.stack_present,
        step(s, w1, w2).stack_size == s.stack_size,
{
}

/// A write through an operand never rewires a port: a connected port stays
/// on the very same wire, a disconnected one stays disconnected.
proof fn lemma_write_operand_wiring(s: VmView, dst: Operand, v: i32, i: int)
    requires
        0 <= i < s.p.len(),
        s.p.len() == 6,
        wf_operand(dst),
    ensures
        write_operand(s, dst, v).p.len() == s.p.len(),
        s.p[i] is Connected ==> write_operand(s, dst, v).p[i] == s.p[i],
        s.p[i] is Disconnected ==> write_operand(s, dst, v).p[i] is Disconnected,
{
}

/// A step never rewires the machine: a connected port stays connected to
/// the very same wire, and a disconnected port stays disconnected (though
/// its private value may be written).
#[verifier::rlimit(60)]
pub proof fn lemma_step_preserves_wiring(s: VmView, w1: i32, w2: i32, i: int)
    requires
        0 <= i < s.p.len(),
        wf_state(s),
    ensures
        step(s, w1, w2).p.len() == s.p.len(),
        s.p[i] is Connected ==> step(s, w1, w2).p[i] == s.p[i],
        s.p[i] is Disconnected ==> step(s, w1, w2).p[i] is Disconnected,
{
    if s.pc < s.program.len() {
        let s1 = VmView { pc: (s.pc + 1) as nat, ..s };
        match s.program[s.pc as int] {
            InstrV::Opcode(op) => match op {
                OpcodeV::MOV(src, dst) => {
                    lemma_write_operand_wiring(s1, dst, operand_value(s1, src, w1), i);
                },
                OpcodeV::POP(dst) => {
                    if s1.stack_present {
                        let (v, rest) = pop_value(s1);
                        let s2 = VmView { stack: rest, ..s1 };
                        match dst {
                            Operand::PC => {},
                            _ => {
                                lemma_write_operand_wiring(s2, dst, v, i);
                                assert(pop_write(s2, dst, v) == write_operand(s2, dst, v));
                            },
                        }
                    }
                },
                _ => {},
            },
            InstrV::Label(_, _) => {},
        }
    }
}

/// A program whose every divisor is a nonzero literal integer can step
/// forever without a division fault.
pub open spec fn literal_nonzero_divisors(p: Seq<InstrV>) -> bool {
    forall|i: int|
        0 <= i < p.len() ==> match #[trigger] p[i] {
            InstrV::Opcode(op) => match op {
                OpcodeV::DIV(o) | OpcodeV::MOD(o) => o matches Operand::IntegerValue(v) && v != 0,
                _ => true,
            },
            InstrV::Label(_, _) => true,
        }
}

/// A machine whose program divides only by nonzero literals is safe for any
/// number of steps, whatever its wires hold.
pub proof fn lemma_literal_divisors_steps_safe(s: VmView, n: nat)
    requires
        literal_nonzero_divisors(s.program),
    ensures
        steps_safe(s, n),
    decreases n,
{
    if n > 0 {
        assert(div_safe_at(s));
        assert forall|w1: i32, w2: i32|
            steps_safe(#[trigger] step(s, w1, w2), (n - 1) as nat) by {
            lemma_step_frame(s, w1, w2);
            lemma_literal_divisors_steps_safe(step(s, w1, w2), (n - 1) as nat);
        }
    }
}


/// Whether every execution from `s` halts within `k` steps, whatever values
/// its wire reads return.
pub open spec fn halts_within(s: VmView, k: nat) -> bool
    decreases k,
{
    if !step_continues(s) {
        true
    } else if k == 0 {
        false
    } else {
        forall|w1: i32, w2: i32| halts_within(#[trigger] step(s, w1, w2), (k - 1) as nat)
    }
}

/// Halting within a bound does not depend on the status field.
pub proof fn lemma_halts_within_ignores_status(
    s: VmView,
    st: crate::vm::virtual_machine::VmStatus,
    k: nat,
)
    requires
        halts_within(s, k),
    ensures
        halts_within(VmView { status: st, ..s }, k),
    decreases k,
{
    let s2 = VmView { status: st, ..s };
    assert(step_continues(s2) == step_continues(s));
    if step_continues(s) {
        assert forall|w1: i32, w2: i32|
            halts_within(#[trigger] step(s2, w1, w2), (k - 1) as nat) by {
            lemma_step_ignores_status(s, st, w1, w2);
            assert(halts_within(step(s, w1, w2), (k - 1) as nat));
            lemma_halts_within_ignores_status(step(s, w1, w2), st, (k - 1) as nat);
        }
    }
}


// ---------------------------------------------------------------------------
// Laws of the instruction set
// ---------------------------------------------------------------------------
/// Arithmetic on the accumulator wraps and never faults: a step whose
/// instruction adds, subtracts or multiplies a literal into an accumulator
/// holding `a` leaves exactly the wrapped result, at every boundary of the
/// 32-bit range. (That no execution step can panic is part of every
/// executing method's verification.)
pub proof fn lemma_arithmetic_wraps(s: VmView, a: i32, b: i32, w1: i32, w2: i32)
    requires
        s.pc < s.program.len(),
        s.acc == a,
    ensures
        s.program[s.pc as int] == InstrV::Opcode(OpcodeV::ADD(Operand::IntegerValue(b))) ==> step(
            s,
            w1,
            w2,
        ).acc == vstd::wrapping::i32_specs::wrapping_add(a, b),
        s.program[s.pc as int] == InstrV::Opcode(OpcodeV::SUB(Operand::IntegerValue(b))) ==> step(
            s,
            w1,
            w2,
        ).acc == vstd::wrapping::i32_specs::wrapping_sub(a, b),
        s.program[s.pc as int] == InstrV::Opcode(OpcodeV::MUL(Operand::IntegerValue(b))) ==> step(
            s,
            w1,
            w2,
        ).acc == vstd::wrapping::i32_specs::wrapping_mul(a, b),
{
}

/// A label's name is absent from a table built over instructions that never
/// declare it.
proof fn lemma_label_map_from_absent(
    m0: Map<Seq<char>, nat>,
    p: Seq<InstrV>,
    n: int,
    name: Seq<char>,
)
    requires
        n <= p.len(),
        !m0.dom().contains(name),
        forall|j: int|
            0 <= j < n ==> !((#[trigger] p[j]) is Label && p[j]->Label_0 == name),
    ensures
        !label_map_from(m0, p, n).dom().contains(name),
    decreases n,
{
    if n > 0 {
        lemma_label_map_from_absent(m0, p, n - 1, name);
    }
}

/// The general first-wins rule, over any starting table: a name the table
/// does not already hold resolves to one past its first declaration, no
/// matter what other names the table carried before the scan.
pub proof fn lemma_label_map_from_found(
    m0: Map<Seq<char>, nat>,
    p: Seq<InstrV>,
    n: int,
    i: int,
    name: Seq<char>,
)
    requires
        0 <= i < n <= p.len(),
        p[i] is Label,
        p[i]->Label_0 == name,
        !m0.dom().contains(name),
        forall|j: int|
            0 <= j < i ==> !((#[trigger] p[j]) is Label && p[j]->Label_0 == name),
    ensures
        label_map_from(m0, p, n).dom().contains(name),
        label_map_from(m0, p, n)[name] == i + 1,
    decreases n,
{
    if n - 1 == i {
        lemma_label_map_from_absent(m0, p, i, name);
    } else {
        lemma_label_map_from_found(m0, p, n - 1, i, name);
    }
}

/// A label declared at sequence position `i` resolves to jump target
/// `i + 1`, the slot immediately after the marker, provided no earlier slot
/// declares the same name (an earlier declaration wins).
pub proof fn lemma_label_target(p: Seq<InstrV>, i: int, name: Seq<char>)
    requires
        0 <= i < p.len(),
        p[i] is Label,
        p[i]->Label_0 == name,
        forall|j: int|
            0 <= j < i ==> !((#[trigger] p[j]) is Label && p[j]->Label_0 == name),
    ensures
        label_map(p).dom().contains(name),
        label_map(p)[name] == i + 1,
{
    lemma_label_map_from_found(Map::empty(), p, p.len() as int, i, name);
}

/// Jumping to a label lands on the instruction immediately after its
/// marker, never on the marker itself: an unconditional jump from a machine
/// whose table was built from its program sets the counter to the slot past
/// the label.
pub proof fn lemma_jump_lands_after_label(s: VmView, i: int, name: Seq<char>, w1: i32, w2: i32)
    requires
        s.pc < s.program.len(),
        s.program[s.pc as int] == InstrV::Opcode(OpcodeV::JMP(name)),
        s.labels == label_map(s.program),
        0 <= i < s.program.len(),
        s.program[i] is Label,
        s.program[i]->Label_0 == name,
        forall|j: int|
            0 <= j < i ==> !((#[trigger] s.program[j]) is Label && s.program[j]->Label_0 == name),
    ensures
        step(s, w1, w2).pc == i + 1,
{
    lemma_label_target(s.program, i, name);
}

/// The compare instruction's flag is a tri-state reading of the wrapped
/// difference: EQUAL exactly on equal values, and otherwise LESSER or
/// GREATER by the wrapped difference's sign — so a comparison across the
/// wrap-around boundary reads from the wrapped value, as documented.
pub proof fn lemma_compare_flags(x: i32, y: i32)
    ensures
        (cmp_flag(x, y) == Flag::EQUAL) <==> (x == y),
        (cmp_flag(x, y) == Flag::LESSER) <==> vstd::wrapping::i32_specs::wrapping_sub(x, y) < 0,
        (cmp_flag(x, y) == Flag::GREATER) <==> vstd::wrapping::i32_specs::wrapping_sub(x, y) > 0,
{
}

/// Each conditional jump takes effect exactly when its flag is current:
/// equality for JE, either strict order for JNE, the strict orders for JL
/// and JG, and JMP unconditionally.
pub proof fn lemma_jump_conditions(flag: Flag)
    ensures
        cond_holds(flag, JMPCondition::EQ) <==> flag == Flag::EQUAL,
        cond_holds(flag, JMPCondition::NEQ) <==> (flag == Flag::GREATER || flag == Flag::LESSER),
        cond_holds(flag, JMPCondition::LST) <==> flag == Flag::LESSER,
        cond_holds(flag, JMPCondition::GRT) <==> flag == Flag::GREATER,
        cond_holds(flag, JMPCondition::NONE),
{
}

/// A conditional jump whose flag is not current takes no effect: execution
/// falls through to the next instruction.
pub proof fn lemma_jump_not_taken_falls_through(s: VmView, w1: i32, w2: i32)
    requires
        s.pc < s.program.len(),
    ensures
        (s.program[s.pc as int] matches InstrV::Opcode(OpcodeV::JE(_)) && s.flag != Flag::EQUAL)
            ==> step(s, w1, w2) == (VmView { pc: (s.pc + 1) as nat, ..s }),
        (s.program[s.pc as int] matches InstrV::Opcode(OpcodeV::JNE(_)) && s.flag == Flag::EQUAL)
            ==> step(s, w1, w2) == (VmView { pc: (s.pc + 1) as nat, ..s }),
        (s.program[s.pc as int] matches InstrV::Opcode(OpcodeV::JL(_)) && s.flag != Flag::LESSER)
            ==> step(s, w1, w2) == (VmView { pc: (s.pc + 1) as nat, ..s }),
        (s.program[s.pc as int] matches InstrV::Opcode(OpcodeV::JG(_)) && s.flag != Flag::GREATER)
            ==> step(s, w1, w2) == (VmView { pc: (s.pc + 1) as nat, ..s }),
{
}

/// The bounded stack saturates. Without a stack, pushing and popping leave
/// the state untouched. With one: a push with room appends; a push at
/// capacity overwrites the top slot and never grows the stack; a pop takes
/// the top value — zero from an empty stack, without a fault — and writes
/// it where its operand points.
pub proof fn lemma_stack_saturation(s: VmView, v: i32, dst: Operand)
    ensures
        !s.stack_present ==> push_value(s, v) == s && pop_step(s, dst) == s,
        s.stack_present && s.stack_size >= 1 && s.stack.len() < s.stack_size ==> push_value(
            s,
            v,
        ).stack == s.stack.push(v),
        s.stack_present && s.stack_size >= 1 && s.stack.len() >= s.stack_size ==> push_value(
            s,
            v,
        ).stack == s.stack.update(s.stack_size - 1, v) && push_value(s, v).stack.len()
            == s.stack.len(),
        s.stack.len() == 0 ==> pop_value(s).0 == 0 && pop_value(s).1 == s.stack,
        s.stack_present && s.stack.len() > 0 ==> pop_step(s, dst) == pop_write(
            VmView { stack: s.stack.drop_last(), ..s },
            dst,
            s.stack.last(),
        ),
        s.stack_present && s.stack.len() == 0 ==> pop_step(s, dst) == pop_write(s, dst, 0),
{
    if s.stack_present && s.stack.len() == 0 {
        assert(VmView { stack: s.stack, ..s } =~= s);
    }
}


/// A write through a connected port goes to the shared wire and leaves
/// every port's modelled value as it was — so the value a port froze at
/// disconnection is beyond the reach of any later wire traffic.
pub proof fn lemma_wire_write_leaves_ports(s: VmView, i: usize, v: i32)
    requires
        i < s.p.len(),
        s.p[i as int] is Connected,
    ensures
        write_operand(s, Operand::PortRegister(i), v) == s,
{
}

} // verus!
