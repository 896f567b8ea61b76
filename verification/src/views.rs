//! Mathematical values of results.

use vstd::prelude::*;

verus! {

/// The views of the items of a list, one for one.
pub open spec fn each_view<T: View>(items: Seq<T>) -> Seq<T::V> {
    Seq::new(items.len(), |i: int| items[i]@)
}

/// A result as the view of what it holds.
pub open spec fn view_result<T: View, E: View>(r: Result<T, E>) -> Result<T::V, E::V> {
    match r {
        Ok(value) => Ok(value@),
        Err(error) => Err(error@),
    }
}

/// A result that holds a plain value, with the error as its view.
pub open spec fn view_error<T, E: View>(r: Result<T, E>) -> Result<T, E::V> {
    match r {
        Ok(value) => Ok(value),
        Err(error) => Err(error@),
    }
}

} // verus!
