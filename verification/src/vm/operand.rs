use vstd::prelude::*;

verus! {

/// Addressing primitive of an instruction: an immediate integer or one of the
/// machine's registers.
#[derive(Debug, PartialEq, Eq, Structural, Clone, Copy)]
pub enum Operand {
    /// Integer value
    IntegerValue(i32),
    /// General register address/index r0, r1, r2, r3
    GeneralRegister(usize),
    /// Port register used for I/O p0, p1, p2, p3, p4, p5
    PortRegister(usize),
    /// Accumulator register
    ACC,
    /// Program counter register
    PC,
}

impl Operand {
    /// Creates an Operand variant with an IntegerValue.
    pub fn integer(value: i32) -> (r: Operand)
        ensures
            r == Operand::IntegerValue(value),
    {
        Operand::IntegerValue(value)
    }
}

} // verus!
