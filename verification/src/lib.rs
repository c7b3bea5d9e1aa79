//! A counter kept in an account's storage and driven by instructions.
//!
//! The host hands in a list of accounts and an instruction as bytes. The
//! counter lives in the first four bytes of the first account; an instruction
//! sets it, adds to it or subtracts from it, modulo 2^32.
//!
//! - `codec`: the two wire formats, the instruction and the counter record.
//! - `processor`: what one instruction makes of one account, and the entry
//!   point that handles one invocation.
//! - `error`: the ways an invocation fails.

pub mod codec;
pub mod error;
pub mod processor;

pub use crate::processor::process_instructions;
