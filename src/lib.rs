pub mod errors;
pub mod instructions;
pub mod parse;
pub mod vm;
pub mod laws;

pub use errors::BRError;
pub use instructions::Instruction;
pub use parse::parse_input;
pub use vm::VM;
