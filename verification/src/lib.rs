pub mod assembler;
pub mod components;
pub mod language;
pub mod text;
pub mod vm;
