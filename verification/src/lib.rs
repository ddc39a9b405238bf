//! Code generation of GNU assembler text for the ARM Cortex-M3 (Thumb-2)
//! from the intermediate representation of a B compiler.

pub mod ir;
pub mod text;
pub mod codegen;
