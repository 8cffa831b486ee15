//! A small output gateway: the pure computations behind three printing
//! entry points. Each operation is rendered as the exact byte sequence it
//! emits, so that the surrounding binding layer only has to hand the bytes
//! to the output stream.

pub mod decimal;
pub mod gateway;
pub mod utf8;

use vstd::prelude::*;

verus! {

/// The line terminator appended by the line-oriented operations.
pub const NEWLINE: u8 = 0x0A;
} // verus!
