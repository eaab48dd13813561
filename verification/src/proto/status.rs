//! Status codes in replies.
use vstd::prelude::*;

verus! {

pub const OK: i32 = 0;

pub const ERR_NOT_FOUND: i32 = 1;

pub const ERR_DENIED: i32 = 2;

pub const ERR_SCHEMA_MISMATCH: i32 = 3;

pub const ERR_INTERNAL: i32 = 4;

pub const ERR_EXISTS: i32 = 5;

} // verus!
