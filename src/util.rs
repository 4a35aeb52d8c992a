//! Small helpers on vectors.
use vstd::prelude::*;

verus! {

/// Takes a single item out of a `Vec`, discarding the rest of the elements.
pub fn vec_take<T>(vec: Vec<T>, index: usize) -> (r: Option<T>)
    ensures
        index < vec@.len() ==> r == Some(vec@[index as int]),
        index >= vec@.len() ==> r is None,
{
    let mut vec = vec;
    if index < vec.len() {
        Some(vec.swap_remove(index))
    } else {
        None
    }
}

} // verus!
