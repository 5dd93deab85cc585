use vstd::prelude::*;

use super::operand::Operand;

verus! {

/// Conditions determining when a jump takes effect.
#[derive(Debug, PartialEq, Eq, Structural, Clone, Copy)]
pub enum JMPCondition {
    EQ,
    NEQ,
    LST,
    GRT,
    NONE,
}

/// Opcodes of the machine's instruction set.
#[derive(Debug, PartialEq, Eq)]
pub enum Opcode {
    /// Do nothing
    NOP,
    /// Halt execution
    HLT,
    /// Copy value of first argument to second
    MOV(Operand, Operand),
    /// Add operand to acc
    ADD(Operand),
    /// Subtract operand from acc
    SUB(Operand),
    /// Multiply operand with acc
    MUL(Operand),
    /// Divide acc by operand
    DIV(Operand),
    /// Modulus acc by operand
    MOD(Operand),
    /// Increments acc by 1
    INC,
    /// Decrements acc by 1
    DEC,
    /// ANDs operand with acc
    AND(Operand),
    /// ORs operand with acc
    OR(Operand),
    /// XORs operand with acc
    XOR(Operand),
    /// NOTs acc
    NOT,
    /// Shifts bits to left
    SHL(Operand),
    /// Shifts bits to right
    SHR(Operand),
    /// Compare
    CMP(Operand, Operand),
    /// Jump to label
    JMP(String),
    /// Jump to label if flag set to equal
    JE(String),
    /// Jump to label if flag not set to equal
    JNE(String),
    /// Jump to label if flag set to lesser
    JL(String),
    /// Jump to label if flag set to greater
    JG(String),
    /// Copies operand to stack
    PSH(Operand),
    /// Pops from a stack
    POP(Operand),
}

/// Mathematical shape of an `Opcode`: label names are abstracted to character
/// sequences so that contracts can compare them by content.
pub enum OpcodeV {
    NOP,
    HLT,
    MOV(Operand, Operand),
    ADD(Operand),
    SUB(Operand),
    MUL(Operand),
    DIV(Operand),
    MOD(Operand),
    INC,
    DEC,
    AND(Operand),
    OR(Operand),
    XOR(Operand),
    NOT,
    SHL(Operand),
    SHR(Operand),
    CMP(Operand, Operand),
    JMP(Seq<char>),
    JE(Seq<char>),
    JNE(Seq<char>),
    JL(Seq<char>),
    JG(Seq<char>),
    PSH(Operand),
    POP(Operand),
}

impl Clone for Opcode {
    fn clone(&self) -> (res: Self)
        ensures
            res == *self,
    {
        match self {
            Opcode::NOP => Opcode::NOP,
            Opcode::HLT => Opcode::HLT,
            Opcode::MOV(a, b) => Opcode::MOV(*a, *b),
            Opcode::ADD(a) => Opcode::ADD(*a),
            Opcode::SUB(a) => Opcode::SUB(*a),
            Opcode::MUL(a) => Opcode::MUL(*a),
            Opcode::DIV(a) => Opcode::DIV(*a),
            Opcode::MOD(a) => Opcode::MOD(*a),
            Opcode::INC => Opcode::INC,
            Opcode::DEC => Opcode::DEC,
            Opcode::AND(a) => Opcode::AND(*a),
            Opcode::OR(a) => Opcode::OR(*a),
            Opcode::XOR(a) => Opcode::XOR(*a),
            Opcode::NOT => Opcode::NOT,
            Opcode::SHL(a) => Opcode::SHL(*a),
            Opcode::SHR(a) => Opcode::SHR(*a),
            Opcode::CMP(a, b) => Opcode::CMP(*a, *b),
            Opcode::JMP(l) => Opcode::JMP(l.clone()),
            Opcode::JE(l) => Opcode::JE(l.clone()),
            Opcode::JNE(l) => Opcode::JNE(l.clone()),
            Opcode::JL(l) => Opcode::JL(l.clone()),
            Opcode::JG(l) => Opcode::JG(l.clone()),
            Opcode::PSH(a) => Opcode::PSH(*a),
            Opcode::POP(a) => Opcode::POP(*a),
        }
    }
}

impl View for Opcode {
    type V = OpcodeV;

    open spec fn view(&self) -> OpcodeV {
        match self {
            Opcode::NOP => OpcodeV::NOP,
            Opcode::HLT => OpcodeV::HLT,
            Opcode::MOV(a, b) => OpcodeV::MOV(*a, *b),
            Opcode::ADD(a) => OpcodeV::ADD(*a),
            Opcode::SUB(a) => OpcodeV::SUB(*a),
            Opcode::MUL(a) => OpcodeV::MUL(*a),
            Opcode::DIV(a) => OpcodeV::DIV(*a),
            Opcode::MOD(a) => OpcodeV::MOD(*a),
            Opcode::INC => OpcodeV::INC,
            Opcode::DEC => OpcodeV::DEC,
            Opcode::AND(a) => OpcodeV::AND(*a),
            Opcode::OR(a) => OpcodeV::OR(*a),
            Opcode::XOR(a) => OpcodeV::XOR(*a),
            Opcode::NOT => OpcodeV::NOT,
            Opcode::SHL(a) => OpcodeV::SHL(*a),
            Opcode::SHR(a) => OpcodeV::SHR(*a),
            Opcode::CMP(a, b) => OpcodeV::CMP(*a, *b),
            Opcode::JMP(l) => OpcodeV::JMP(l@),
            Opcode::JE(l) => OpcodeV::JE(l@),
            Opcode::JNE(l) => OpcodeV::JNE(l@),
            Opcode::JL(l) => OpcodeV::JL(l@),
            Opcode::JG(l) => OpcodeV::JG(l@),
            Opcode::PSH(a) => OpcodeV::PSH(*a),
            Opcode::POP(a) => OpcodeV::POP(*a),
        }
    }
}

} // verus!
