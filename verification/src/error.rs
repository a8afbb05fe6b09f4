//! Errors of DDK operations, and their messages.

use vstd::prelude::*;

use crate::status::{status_text, CannStatus};
use crate::text::{decimal, push_decimal};

verus! {

/// Result type for HiAI DDK operations.
pub type Result<T> = core::result::Result<T, Error>;

/// Errors that can occur when using the HiAI DDK.
#[derive(Debug, Clone, Copy)]
pub enum Error {
    /// A CANN call returned a non-success status (the CANN error itself).
    Cann { operation: &'static str, status: CannStatus },
    /// A CANN factory returned a null handle; no status code is produced, so
    /// this complements `Error::Cann`.
    Null { what: &'static str },
    /// A value exceeds the DDK's 32-bit size limit.
    TooLarge { what: &'static str },
    /// A count exceeds the DDK's 32-bit signed limit.
    TooMany { what: &'static str },
    /// The output tensor buffer returned by the DDK is null.
    OutputBufferNull,
    /// The caller's output buffer is too small for the tensor.
    OutputBufferTooSmall,
    /// The `dtype` value is not a known CANN data-type code.
    InvalidDataType { value: i32 },
}

/// The human-readable message of an error.
pub open spec fn error_message(e: Error) -> Seq<char> {
    match e {
        Error::Cann { operation, status } => operation@ + " failed with "@ + status_text(status),
        Error::Null { what } => "failed to create "@ + what@ + ": null handle"@,
        Error::TooLarge { what } => what@ + " exceeds u32::MAX (4 GiB)"@,
        Error::TooMany { what } => what@ + " exceeds i32::MAX"@,
        Error::OutputBufferNull => "output tensor buffer is null"@,
        Error::OutputBufferTooSmall => "output buffer is too small"@,
        Error::InvalidDataType { value } => "invalid CANN data type: "@ + decimal(value as int),
    }
}

impl Error {
    /// Renders the error as a human-readable message.
    pub fn to_string(&self) -> (s: String)
        ensures
            s@ == error_message(*self),
    {
        match *self {
            Error::Cann { operation, status } => {
                let mut s = String::from_str(operation);
                s.append(" failed with ");
                let t = status.to_string();
                s.append(t.as_str());
                s
            },
            Error::Null { what } => {
                let mut s = String::from_str("failed to create ");
                s.append(what);
                s.append(": null handle");
                s
            },
            Error::TooLarge { what } => {
                let mut s = String::from_str(what);
                s.append(" exceeds u32::MAX (4 GiB)");
                s
            },
            Error::TooMany { what } => {
                let mut s = String::from_str(what);
                s.append(" exceeds i32::MAX");
                s
            },
            Error::OutputBufferNull => String::from_str("output tensor buffer is null"),
            Error::OutputBufferTooSmall => String::from_str("output buffer is too small"),
            Error::InvalidDataType { value } => {
                let mut s = String::from_str("invalid CANN data type: ");
                push_decimal(&mut s, value);
                s
            },
        }
    }
}

} // verus!
