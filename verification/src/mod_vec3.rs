use vstd::prelude::*;

verus! {

/// Cross product of `self` with `t`, for the vector types of the renderer.
pub trait Cross<T> {
    fn cross(&self, t: T) -> T;
}

} // verus!
