pub mod flag;
pub mod instruction;
pub mod opcodes;
pub mod operand;
pub mod semantics;
pub mod virtual_machine;
