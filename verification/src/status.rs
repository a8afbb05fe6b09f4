use vstd::prelude::*;

use crate::text::{decimal, push_decimal};

verus! {

/// A status code returned by the HiAI DDK.
#[derive(Debug, Clone, Copy, PartialEq, Eq, Structural)]
pub struct CannStatus(i32);

/// The symbolic name the DDK gives to a status code, if it has one.
pub open spec fn status_name(code: i32) -> Option<Seq<char>> {
    if code == 0 {
        Some("kSuccess"@)
    } else if code == 1 {
        Some("kFailed"@)
    } else if code == 2 {
        Some("kNotInit"@)
    } else if code == 3 {
        Some("kInvalidPara"@)
    } else if code == 7 {
        Some("kInvalidApi"@)
    } else if code == 8 {
        Some("kInvalidPtr"@)
    } else {
        None
    }
}

/// Law: the DDK's named status codes: 0 is `kSuccess`, 1 `kFailed`, 2
/// `kNotInit`, 3 `kInvalidPara`, 7 `kInvalidApi`, 8 `kInvalidPtr`; every
/// other code has no name.
pub proof fn lemma_status_names(code: i32)
    ensures
        status_name(0) == Some("kSuccess"@),
        status_name(1) == Some("kFailed"@),
        status_name(2) == Some("kNotInit"@),
        status_name(3) == Some("kInvalidPara"@),
        status_name(7) == Some("kInvalidApi"@),
        status_name(8) == Some("kInvalidPtr"@),
        code != 0 && code != 1 && code != 2 && code != 3 && code != 7 && code != 8 ==> status_name(
            code,
        ) is None,
{
}

/// The human-readable form of a status: its symbolic name, or
/// `unknown status`, followed by the raw code in parentheses.
pub open spec fn status_text(s: CannStatus) -> Seq<char> {
    let label = match status_name(s.spec_code()) {
        Some(name) => name,
        None => "unknown status"@,
    };
    label + " ("@ + decimal(s.spec_code() as int) + ")"@
}

/// The status that wraps the raw code `code`.
pub closed spec fn status_of(code: i32) -> CannStatus {
    CannStatus(code)
}

/// Wrapping a code and reading it back gives the code; a status is the
/// wrapping of its code.
pub proof fn lemma_status_roundtrip(code: i32, s: CannStatus)
    ensures
        status_of(code).spec_code() == code,
        status_of(s.spec_code()) == s,
{
}

impl CannStatus {
    /// The raw code this status wraps.
    pub closed spec fn spec_code(self) -> i32 {
        self.0
    }

    /// Wraps a raw status code.
    pub fn from_code(code: i32) -> (s: Self)
        ensures
            s == status_of(code),
            s.spec_code() == code,
    {
        CannStatus(code)
    }

    /// The raw status code.
    pub fn code(self) -> (c: i32)
        ensures
            c == self.spec_code(),
    {
        self.0
    }

    /// The symbolic name of a known status code, or `None` if unknown.
    pub fn name(self) -> (n: Option<&'static str>)
        ensures
            match n {
                Some(s) => status_name(self.spec_code()) == Some(s@),
                None => status_name(self.spec_code()) is None,
            },
    {
        match self.0 {
            0 => Some("kSuccess"),
            1 => Some("kFailed"),
            2 => Some("kNotInit"),
            3 => Some("kInvalidPara"),
            7 => Some("kInvalidApi"),
            8 => Some("kInvalidPtr"),
            _ => None,
        }
    }
}

impl CannStatus {
    /// Renders the status as its symbolic name (or `unknown status`) followed
    /// by the raw code in parentheses, e.g. `kNotInit (2)`.
    pub fn to_string(&self) -> (s: String)
        ensures
            s@ == status_text(*self),
    {
        let mut s = match self.name() {
            Some(name) => String::from_str(name),
            None => String::from_str("unknown status"),
        };
        s.append(" (");
        push_decimal(&mut s, self.0);
        s.append(")");
        s
    }
}

} // verus!
