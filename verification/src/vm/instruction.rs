use vstd::prelude::*;

use super::opcodes::{Opcode, OpcodeV};

verus! {

/// One slot of a program: either an opcode or a label marker.
///
/// A label is a pseudo-instruction: it occupies a position in the program,
/// is consumed by the label pre-pass, and has no effect when executed.
#[derive(Debug, PartialEq, Eq)]
pub enum Instruction {
    Opcode(Opcode),
    Label(String, usize),
}

impl Clone for Instruction {
    fn clone(&self) -> (res: Self)
        ensures
            res == *self,
    {
        match self {
            Instruction::Opcode(op) => Instruction::Opcode(op.clone()),
            Instruction::Label(name, line) => Instruction::Label(name.clone(), *line),
        }
    }
}

/// Mathematical shape of an `Instruction`.
pub enum InstrV {
    Opcode(OpcodeV),
    Label(Seq<char>, nat),
}

impl View for Instruction {
    type V = InstrV;

    open spec fn view(&self) -> InstrV {
        match self {
            Instruction::Opcode(op) => InstrV::Opcode(op@),
            Instruction::Label(name, line) => InstrV::Label(name@, *line as nat),
        }
    }
}

impl Instruction {
    pub fn new(opcode: Opcode) -> (r: Instruction)
        ensures
            r@ == InstrV::Opcode(opcode@),
    {
        Instruction::Opcode(opcode)
    }

    pub fn new_label(name: String, line: usize) -> (r: Instruction)
        ensures
            r@ == InstrV::Label(name@, line as nat),
    {
        Instruction::Label(name, line)
    }

    pub fn get_opcode(&self) -> (r: Option<Opcode>)
        ensures
            match self@ {
                InstrV::Opcode(op) => r is Some && r.unwrap()@ == op,
                InstrV::Label(_, _) => r is None,
            },
    {
        match self {
            Instruction::Opcode(opcode) => Some(opcode.clone()),
            Instruction::Label(_, _) => None,
        }
    }
}

} // verus!
