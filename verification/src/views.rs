//! Views of optional values.

use vstd::prelude::*;

verus! {

/// The view of the value, where there is one.
pub open spec fn option_view<T: View>(value: Option<T>) -> Option<T::V> {
    match value {
        Some(value) => Some(value@),
        None => None,
    }
}

} // verus!
