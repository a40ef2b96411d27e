//! Operations that clients of the engine implement for their own types.

use vstd::prelude::*;

verus! {

/// Decides whether a value passes.
pub trait Filter<V, E> {
    fn filter(&mut self, value: V) -> Result<bool, E>;
}

/// Reads the value of a key.
pub trait Fetch<K, V>: Sized {
    type Error;

    fn fetch(&mut self, key: K) -> Result<V, Self::Error>;
}

/// Removes a key.
pub trait Delete<K>: Sized {
    type Error;

    fn delete(&mut self, key: K) -> Result<(), Self::Error>;
}

} // verus!
