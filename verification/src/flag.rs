//! On/off switches read from the environment.

use vstd::prelude::*;

verus! {

/// Whether the value of an environment flag turns the flag on: only the
/// exact value `1` does; a missing variable leaves it off.
pub fn flag_enabled(value: Option<&str>) -> (on: bool)
    ensures
        on == (value matches Some(v) && v@ == "1"@),
{
    proof {
        reveal_strlit("1");
    }
    match value {
        Some(v) => {
            let on = v.unicode_len() == 1 && v.get_char(0) == '1';
            proof {
                if on {
                    assert(v@ =~= "1"@);
                }
            }
            on
        },
        None => false,
    }
}

} // verus!
