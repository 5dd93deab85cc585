use vstd::prelude::*;

verus! {

/// Possible states of the flag register.
///
/// The flag is written only by the compare instruction and read only by the
/// conditional jumps.
#[derive(Debug, PartialEq, Eq, Structural, Clone, Copy)]
pub enum Flag {
    EQUAL,
    GREATER,
    LESSER,
}

} // verus!
