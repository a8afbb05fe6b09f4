//! Guards for the DDK's 32-bit sizes and counts.

use vstd::prelude::*;

use crate::error::{Error, Result};

verus! {

/// Converts a `usize` count to the DDK's `i32` representation, guarding
/// against truncation (the DDK takes `int32_t` counts).
pub fn count_i32(value: usize, what: &'static str) -> (r: Result<i32>)
    ensures
        match r {
            Ok(v) => value <= i32::MAX && v as int == value as int,
            Err(e) => value > i32::MAX && e == (Error::TooMany { what }),
        },
{
    if value <= 0x7fff_ffffusize {
        Ok(value as i32)
    } else {
        Err(Error::TooMany { what })
    }
}

/// Converts a byte length to the DDK's `u32` size, guarding against
/// truncation (the DDK takes `uint32_t` sizes).
pub fn len_u32(value: usize, what: &'static str) -> (r: Result<u32>)
    ensures
        match r {
            Ok(v) => value <= u32::MAX && v as int == value as int,
            Err(e) => value > u32::MAX && e == (Error::TooLarge { what }),
        },
{
    if value <= 0xffff_ffffusize {
        Ok(value as u32)
    } else {
        Err(Error::TooLarge { what })
    }
}

} // verus!
