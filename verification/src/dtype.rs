//! The DDK's tensor data types and their raw codes.

use vstd::prelude::*;

use crate::error::{Error, Result};

verus! {

/// A tensor data type known to the DDK (`CANN_DT_*`).
#[allow(non_camel_case_types)]
#[derive(Debug, Clone, Copy, PartialEq, Eq, Structural)]
pub enum CannDataType {
    CANN_DT_FLOAT,
    CANN_DT_FLOAT16,
    CANN_DT_INT8,
    CANN_DT_INT32,
    CANN_DT_UINT8,
    CANN_DT_INT16,
    CANN_DT_UINT16,
    CANN_DT_UINT32,
    CANN_DT_INT64,
    CANN_DT_UINT64,
    CANN_DT_DOUBLE,
    CANN_DT_BOOL,
    CANN_DT_DUAL,
    CANN_DT_DUAL_SUB_INT8,
    CANN_DT_DUAL_SUB_UINT8,
    CANN_DT_COMPLEX64,
    CANN_DT_2BIT,
    CANN_DT_INT4,
    CANN_DT_QUINT8,
    CANN_DT_RESOURCE,
    CANN_DT_3BIT,
    CANN_DT_UINT2,
    CANN_DT_UINT4,
    CANN_DT_STRING,
    CANN_DT_FLOAT8_E5M2,
    CANN_DT_FLOAT4_E2M1,
}

/// The raw `CANN_DT_*` code of a data type.
pub open spec fn dtype_code(t: CannDataType) -> i32 {
    match t {
        CannDataType::CANN_DT_FLOAT => 0,
        CannDataType::CANN_DT_FLOAT16 => 1,
        CannDataType::CANN_DT_INT8 => 2,
        CannDataType::CANN_DT_INT32 => 3,
        CannDataType::CANN_DT_UINT8 => 4,
        CannDataType::CANN_DT_INT16 => 6,
        CannDataType::CANN_DT_UINT16 => 7,
        CannDataType::CANN_DT_UINT32 => 8,
        CannDataType::CANN_DT_INT64 => 9,
        CannDataType::CANN_DT_UINT64 => 10,
        CannDataType::CANN_DT_DOUBLE => 11,
        CannDataType::CANN_DT_BOOL => 12,
        CannDataType::CANN_DT_DUAL => 13,
        CannDataType::CANN_DT_DUAL_SUB_INT8 => 14,
        CannDataType::CANN_DT_DUAL_SUB_UINT8 => 15,
        CannDataType::CANN_DT_COMPLEX64 => 16,
        CannDataType::CANN_DT_2BIT => 21,
        CannDataType::CANN_DT_INT4 => 22,
        CannDataType::CANN_DT_QUINT8 => 23,
        CannDataType::CANN_DT_RESOURCE => 24,
        CannDataType::CANN_DT_3BIT => 25,
        CannDataType::CANN_DT_UINT2 => 26,
        CannDataType::CANN_DT_UINT4 => 27,
        CannDataType::CANN_DT_STRING => 28,
        CannDataType::CANN_DT_FLOAT8_E5M2 => 35,
        CannDataType::CANN_DT_FLOAT4_E2M1 => 40,
    }
}

/// The data type whose raw code is `value`, if any.
pub open spec fn dtype_of(value: i32) -> Option<CannDataType> {
    match value {
        0 => Some(CannDataType::CANN_DT_FLOAT),
        1 => Some(CannDataType::CANN_DT_FLOAT16),
        2 => Some(CannDataType::CANN_DT_INT8),
        3 => Some(CannDataType::CANN_DT_INT32),
        4 => Some(CannDataType::CANN_DT_UINT8),
        6 => Some(CannDataType::CANN_DT_INT16),
        7 => Some(CannDataType::CANN_DT_UINT16),
        8 => Some(CannDataType::CANN_DT_UINT32),
        9 => Some(CannDataType::CANN_DT_INT64),
        10 => Some(CannDataType::CANN_DT_UINT64),
        11 => Some(CannDataType::CANN_DT_DOUBLE),
        12 => Some(CannDataType::CANN_DT_BOOL),
        13 => Some(CannDataType::CANN_DT_DUAL),
        14 => Some(CannDataType::CANN_DT_DUAL_SUB_INT8),
        15 => Some(CannDataType::CANN_DT_DUAL_SUB_UINT8),
        16 => Some(CannDataType::CANN_DT_COMPLEX64),
        21 => Some(CannDataType::CANN_DT_2BIT),
        22 => Some(CannDataType::CANN_DT_INT4),
        23 => Some(CannDataType::CANN_DT_QUINT8),
        24 => Some(CannDataType::CANN_DT_RESOURCE),
        25 => Some(CannDataType::CANN_DT_3BIT),
        26 => Some(CannDataType::CANN_DT_UINT2),
        27 => Some(CannDataType::CANN_DT_UINT4),
        28 => Some(CannDataType::CANN_DT_STRING),
        35 => Some(CannDataType::CANN_DT_FLOAT8_E5M2),
        40 => Some(CannDataType::CANN_DT_FLOAT4_E2M1),
        _ => None,
    }
}

/// Whether `value` is the raw code of some known data type.
pub open spec fn is_known_dtype(value: i32) -> bool {
    dtype_of(value) is Some
}

/// Law: the table of the DDK's `CANN_DT_*` codes: each known code names its
/// data type and is that data type's code, and every other code names none.
pub proof fn lemma_dtype_table(value: i32)
    ensures
        dtype_of(0) == Some(CannDataType::CANN_DT_FLOAT),
        dtype_of(1) == Some(CannDataType::CANN_DT_FLOAT16),
        dtype_of(2) == Some(CannDataType::CANN_DT_INT8),
        dtype_of(3) == Some(CannDataType::CANN_DT_INT32),
        dtype_of(4) == Some(CannDataType::CANN_DT_UINT8),
        dtype_of(6) == Some(CannDataType::CANN_DT_INT16),
        dtype_of(7) == Some(CannDataType::CANN_DT_UINT16),
        dtype_of(8) == Some(CannDataType::CANN_DT_UINT32),
        dtype_of(9) == Some(CannDataType::CANN_DT_INT64),
        dtype_of(10) == Some(CannDataType::CANN_DT_UINT64),
        dtype_of(11) == Some(CannDataType::CANN_DT_DOUBLE),
        dtype_of(12) == Some(CannDataType::CANN_DT_BOOL),
        dtype_of(13) == Some(CannDataType::CANN_DT_DUAL),
        dtype_of(14) == Some(CannDataType::CANN_DT_DUAL_SUB_INT8),
        dtype_of(15) == Some(CannDataType::CANN_DT_DUAL_SUB_UINT8),
        dtype_of(16) == Some(CannDataType::CANN_DT_COMPLEX64),
        dtype_of(21) == Some(CannDataType::CANN_DT_2BIT),
        dtype_of(22) == Some(CannDataType::CANN_DT_INT4),
        dtype_of(23) == Some(CannDataType::CANN_DT_QUINT8),
        dtype_of(24) == Some(CannDataType::CANN_DT_RESOURCE),
        dtype_of(25) == Some(CannDataType::CANN_DT_3BIT),
        dtype_of(26) == Some(CannDataType::CANN_DT_UINT2),
        dtype_of(27) == Some(CannDataType::CANN_DT_UINT4),
        dtype_of(28) == Some(CannDataType::CANN_DT_STRING),
        dtype_of(35) == Some(CannDataType::CANN_DT_FLOAT8_E5M2),
        dtype_of(40) == Some(CannDataType::CANN_DT_FLOAT4_E2M1),
        dtype_code(CannDataType::CANN_DT_FLOAT) == 0,
        dtype_code(CannDataType::CANN_DT_FLOAT16) == 1,
        dtype_code(CannDataType::CANN_DT_INT8) == 2,
        dtype_code(CannDataType::CANN_DT_INT32) == 3,
        dtype_code(CannDataType::CANN_DT_UINT8) == 4,
        dtype_code(CannDataType::CANN_DT_INT16) == 6,
        dtype_code(CannDataType::CANN_DT_UINT16) == 7,
        dtype_code(CannDataType::CANN_DT_UINT32) == 8,
        dtype_code(CannDataType::CANN_DT_INT64) == 9,
        dtype_code(CannDataType::CANN_DT_UINT64) == 10,
        dtype_code(CannDataType::CANN_DT_DOUBLE) == 11,
        dtype_code(CannDataType::CANN_DT_BOOL) == 12,
        dtype_code(CannDataType::CANN_DT_DUAL) == 13,
        dtype_code(CannDataType::CANN_DT_DUAL_SUB_INT8) == 14,
        dtype_code(CannDataType::CANN_DT_DUAL_SUB_UINT8) == 15,
        dtype_code(CannDataType::CANN_DT_COMPLEX64) == 16,
        dtype_code(CannDataType::CANN_DT_2BIT) == 21,
        dtype_code(CannDataType::CANN_DT_INT4) == 22,
        dtype_code(CannDataType::CANN_DT_QUINT8) == 23,
        dtype_code(CannDataType::CANN_DT_RESOURCE) == 24,
        dtype_code(CannDataType::CANN_DT_3BIT) == 25,
        dtype_code(CannDataType::CANN_DT_UINT2) == 26,
        dtype_code(CannDataType::CANN_DT_UINT4) == 27,
        dtype_code(CannDataType::CANN_DT_STRING) == 28,
        dtype_code(CannDataType::CANN_DT_FLOAT8_E5M2) == 35,
        dtype_code(CannDataType::CANN_DT_FLOAT4_E2M1) == 40,
        value != 0 && value != 1 && value != 2 && value != 3 && value != 4 && value != 6 && value != 7 && value != 8 && value != 9 && value != 10 && value != 11 && value != 12 && value != 13 && value != 14 && value != 15 && value != 16 && value != 21 && value != 22 && value != 23 && value != 24 && value != 25 && value != 26 && value != 27 && value != 28 && value != 35 && value != 40 ==> dtype_of(value) is None,
{
}

/// Law: decoding a raw code and encoding a data type are inverse: the code
/// of a data type decodes to it, and a code that decodes to a data type is
/// that data type's code.
pub proof fn lemma_dtype_roundtrip(t: CannDataType, value: i32)
    ensures
        dtype_of(dtype_code(t)) == Some(t),
        dtype_of(value) == Some(t) ==> dtype_code(t) == value,
        is_known_dtype(value) <==> exists|u: CannDataType| dtype_code(u) == value,
{
    if is_known_dtype(value) {
        assert(dtype_code(dtype_of(value)->Some_0) == value);
    }
}

/// Distinct data types have distinct codes.
pub proof fn lemma_dtype_code_injective(a: CannDataType, b: CannDataType)
    ensures
        dtype_code(a) == dtype_code(b) ==> a == b,
{
}

impl CannDataType {
    /// The raw `CANN_DT_*` code of this data type.
    pub fn code(self) -> (c: i32)
        ensures
            c == dtype_code(self),
    {
        match self {
            CannDataType::CANN_DT_FLOAT => 0,
            CannDataType::CANN_DT_FLOAT16 => 1,
            CannDataType::CANN_DT_INT8 => 2,
            CannDataType::CANN_DT_INT32 => 3,
            CannDataType::CANN_DT_UINT8 => 4,
            CannDataType::CANN_DT_INT16 => 6,
            CannDataType::CANN_DT_UINT16 => 7,
            CannDataType::CANN_DT_UINT32 => 8,
            CannDataType::CANN_DT_INT64 => 9,
            CannDataType::CANN_DT_UINT64 => 10,
            CannDataType::CANN_DT_DOUBLE => 11,
            CannDataType::CANN_DT_BOOL => 12,
            CannDataType::CANN_DT_DUAL => 13,
            CannDataType::CANN_DT_DUAL_SUB_INT8 => 14,
            CannDataType::CANN_DT_DUAL_SUB_UINT8 => 15,
            CannDataType::CANN_DT_COMPLEX64 => 16,
            CannDataType::CANN_DT_2BIT => 21,
            CannDataType::CANN_DT_INT4 => 22,
            CannDataType::CANN_DT_QUINT8 => 23,
            CannDataType::CANN_DT_RESOURCE => 24,
            CannDataType::CANN_DT_3BIT => 25,
            CannDataType::CANN_DT_UINT2 => 26,
            CannDataType::CANN_DT_UINT4 => 27,
            CannDataType::CANN_DT_STRING => 28,
            CannDataType::CANN_DT_FLOAT8_E5M2 => 35,
            CannDataType::CANN_DT_FLOAT4_E2M1 => 40,
        }
    }
}

/// Maps a raw `CANN_DT_*` integer to the data type it names.
///
/// An out-of-range, negative or sentinel value yields
/// `Error::InvalidDataType` instead of a data type.
pub fn data_type(value: i32) -> (r: Result<CannDataType>)
    ensures
        r matches Ok(t) ==> dtype_code(t) == value,
        r == (match dtype_of(value) {
            Some(t) => Ok(t),
            None => Err(Error::InvalidDataType { value }),
        }),
{
    match value {
        0 => Ok(CannDataType::CANN_DT_FLOAT),
        1 => Ok(CannDataType::CANN_DT_FLOAT16),
        2 => Ok(CannDataType::CANN_DT_INT8),
        3 => Ok(CannDataType::CANN_DT_INT32),
        4 => Ok(CannDataType::CANN_DT_UINT8),
        6 => Ok(CannDataType::CANN_DT_INT16),
        7 => Ok(CannDataType::CANN_DT_UINT16),
        8 => Ok(CannDataType::CANN_DT_UINT32),
        9 => Ok(CannDataType::CANN_DT_INT64),
        10 => Ok(CannDataType::CANN_DT_UINT64),
        11 => Ok(CannDataType::CANN_DT_DOUBLE),
        12 => Ok(CannDataType::CANN_DT_BOOL),
        13 => Ok(CannDataType::CANN_DT_DUAL),
        14 => Ok(CannDataType::CANN_DT_DUAL_SUB_INT8),
        15 => Ok(CannDataType::CANN_DT_DUAL_SUB_UINT8),
        16 => Ok(CannDataType::CANN_DT_COMPLEX64),
        21 => Ok(CannDataType::CANN_DT_2BIT),
        22 => Ok(CannDataType::CANN_DT_INT4),
        23 => Ok(CannDataType::CANN_DT_QUINT8),
        24 => Ok(CannDataType::CANN_DT_RESOURCE),
        25 => Ok(CannDataType::CANN_DT_3BIT),
        26 => Ok(CannDataType::CANN_DT_UINT2),
        27 => Ok(CannDataType::CANN_DT_UINT4),
        28 => Ok(CannDataType::CANN_DT_STRING),
        35 => Ok(CannDataType::CANN_DT_FLOAT8_E5M2),
        40 => Ok(CannDataType::CANN_DT_FLOAT4_E2M1),
        _ => Err(Error::InvalidDataType { value }),
    }
}

} // verus!
