use vstd::prelude::*;

verus! {

/// Seals [`crate::ByteArray`]: only fixed-size byte arrays are byte buffers.
pub trait ByteArray {
}

impl<const N: usize> ByteArray for [u8; N] {
}

} // verus!
