//! A small register machine: an instruction set with a static validator and
//! an interpreter whose every step is specified by a pure transition function.
pub mod instr;
pub mod machine;
pub mod vm;
