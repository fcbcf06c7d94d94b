//! What a value stands for, taken through the standard containers.

use vstd::prelude::*;

verus! {

/// An optional value, by what it stands for.
pub open spec fn opt_view<T: View>(value: Option<T>) -> Option<T::V> {
    match value {
        Some(v) => Some(v@),
        None => None,
    }
}

/// A sequence of values, each by what it stands for.
pub open spec fn seq_view<T: View>(values: Seq<T>) -> Seq<T::V> {
    Seq::new(values.len(), |i: int| values[i]@)
}

/// A result, both its sides by what they stand for.
pub open spec fn result_view<T: View, E: View>(result: Result<T, E>) -> Result<T::V, E::V> {
    match result {
        Ok(v) => Ok(v@),
        Err(e) => Err(e@),
    }
}

} // verus!
