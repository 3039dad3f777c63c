//! A gate-level simulator of a small computer, built bottom-up from a single
//! NAND primitive: the boolean gate library, a ripple-carry adder, the ALU,
//! and a hierarchical RAM (bit cell, register, RAM8 through RAM16K).
//!
//! Bits travel as `u8` values restricted to {0, 1}; a machine word is a
//! `[u8; 16]` with the most significant bit at index 0.

pub mod alu;
pub mod gates;
pub mod mem;
pub mod mux;
