//! Types of lookups for the GET op code
//!
//! Used at compile time to encode lookup indexes, and at runtime to use lookup
//! indexes to reference runtime values.
use vstd::prelude::*;

verus! {

pub const BUILTIN: u8 = 0;

pub const VAR: u8 = 1;

pub const PROMPT: u8 = 2;

pub const SECRET: u8 = 3;

pub const USER_BUILTIN: u8 = 4;

pub const CLIENT_CTX: u8 = 5;

pub const TYPE: u8 = 6;

} // verus!
