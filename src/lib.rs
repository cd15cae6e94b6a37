//! Execution-trace generation and constraint evaluation for a small
//! RISC-V-like machine whose execution is split over several tables.
pub mod addcy;
pub mod arith;
pub mod bits;
pub mod bytes;
pub mod constraint;
pub mod cpu;
pub mod ctl;
pub mod field;
pub mod freq;
pub mod iter;
pub mod mem;
pub mod stark;
pub mod trace;
pub mod two_tables;
pub mod util;
pub mod vm;
pub mod word;
