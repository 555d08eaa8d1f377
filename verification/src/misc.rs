use vstd::prelude::*;

verus! {

/// A flag read from a flag table is enabled exactly when it is present and set.
pub fn flag_is_enabled(v: Option<&bool>) -> (enabled: bool)
    ensures
        enabled == match v {
            Some(b) => *b,
            None => false,
        },
{
    match v {
        Some(flag) => *flag,
        None => false,
    }
}

} // verus!
