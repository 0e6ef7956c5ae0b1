//! The unified error type for register operations.

use vstd::prelude::*;

verus! {

/// What a register operation can fail with.
///
/// Every transport fault surfaces as `HardwareError` carrying the interface's
/// own error unchanged.  `InvalidValue` is reserved for callers layered above
/// this crate that validate decoded or to-be-encoded values against device
/// rules; the operations in this crate never produce it themselves.
pub enum RegisterError<IE> {
    InvalidValue,
    HardwareError(IE),
}

impl<IE> From<IE> for RegisterError<IE> {
    fn from(value: IE) -> Self {
        RegisterError::HardwareError(value)
    }
}

impl<IE> vstd::std_specs::convert::FromSpecImpl<IE> for RegisterError<IE> {
    open spec fn obeys_from_spec() -> bool {
        true
    }

    open spec fn from_spec(value: IE) -> Self {
        RegisterError::HardwareError(value)
    }
}

} // verus!
