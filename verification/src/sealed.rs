//! The key types that the decoder can parse are closed: only this crate names
//! the trait that they must implement.
use vstd::prelude::*;

verus! {

/// Implemented by the key types of this crate, and by no others.
pub trait Sealed {
}

} // verus!
