//! A gate-level simulator of a 16-bit synchronous memory hierarchy.
//!
//! Combinational logic is built up from a single `nand` primitive: scalar
//! and word-wide boolean gates, multiplexers and demultiplexers, and a
//! ripple-carry arithmetic layer. Sequential logic starts from a one-bit
//! flip-flop and composes it into loadable bit registers, 16-bit word
//! registers, and word-addressable RAM blocks of 8, 64, 512, 4096 and
//! 16384 words. Every operation carries a contract that pins its result
//! down against a mathematical model of bits, words and memories.
#![verifier::loop_isolation(false)]

pub mod adder;
pub mod gates;
pub mod memory;
pub mod model;
pub mod utils;
