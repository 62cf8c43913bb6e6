//! Correlation engine for Cairo execution traces: rebuilds the instruction
//! executed at each program counter, renders the memory image for display and
//! inverts the compiler's statement-to-instruction table.

pub mod casm_map;
pub mod felt;
pub mod vm;
pub mod logs;
pub mod runner;
pub mod tracer;
