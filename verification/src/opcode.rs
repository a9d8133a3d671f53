//! Op codes of the bytecode
use vstd::prelude::*;

verus! {

/// Call a function with N arguments: `CALL $ARG_COUNT`.
pub const CALL: u8 = 0;

/// Get a builtin, variable, prompt, secret, client value or type: `GET $LOOKUP $INDEX`.
pub const GET: u8 = 1;

/// Get a constant value by index: `CONSTANT $INDEX`.
pub const CONSTANT: u8 = 2;

/// Push `true`.
pub const TRUE: u8 = 3;

/// Push `false`.
pub const FALSE: u8 = 4;

} // verus!
