pub mod assembler;
pub mod parsing_err;
