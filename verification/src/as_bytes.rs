//! Views of vectors of plain numbers as the bytes they are stored in.

use vstd::layout::size_of;
use vstd::prelude::*;

verus! {

/// `bytemuck::cast_slice` reinterprets a slice of plain data as a slice of
/// another plain type over the same memory. It panics where the target type
/// needs a stricter alignment than the slice has, or where the bytes of the
/// slice are not a whole number of elements of the target type; the contract
/// leaves those calls out by asking for a target of one byte. What it claims
/// is the length of the result: as many bytes as the slice occupies.
pub assume_specification<A: bytemuck::NoUninit, B: bytemuck::AnyBitPattern>[ bytemuck::cast_slice::<A, B> ](
    a: &[A],
) -> (b: &[B])
    requires
        size_of::<B>() == 1,
        vstd::layout::align_of::<B>() == 1,
    ensures
        b@.len() == a@.len() * size_of::<A>(),
;

/// A value that can be seen as the bytes it is stored in.
pub trait AsBytes {
    /// The number of bytes the value is stored in.
    spec fn byte_len(&self) -> nat;

    /// The bytes the value is stored in, in the order of the machine.
    fn as_bytes(&self) -> (bytes: &[u8])
        ensures
            bytes@.len() == self.byte_len(),
    ;
}

impl AsBytes for Vec<u32> {
    open spec fn byte_len(&self) -> nat {
        4 * self@.len()
    }

    fn as_bytes(&self) -> (bytes: &[u8]) {
        broadcast use {vstd::layout::layout_of_primitives, vstd::layout::align_of_u8};

        bytemuck::cast_slice::<u32, u8>(self.as_slice())
    }
}

impl AsBytes for Vec<i32> {
    open spec fn byte_len(&self) -> nat {
        4 * self@.len()
    }

    fn as_bytes(&self) -> (bytes: &[u8]) {
        broadcast use {vstd::layout::layout_of_primitives, vstd::layout::align_of_u8};

        bytemuck::cast_slice::<i32, u8>(self.as_slice())
    }
}

impl AsBytes for Vec<u16> {
    open spec fn byte_len(&self) -> nat {
        2 * self@.len()
    }

    fn as_bytes(&self) -> (bytes: &[u8]) {
        broadcast use {vstd::layout::layout_of_primitives, vstd::layout::align_of_u8};

        bytemuck::cast_slice::<u16, u8>(self.as_slice())
    }
}

impl AsBytes for Vec<u8> {
    open spec fn byte_len(&self) -> nat {
        self@.len()
    }

    fn as_bytes(&self) -> (bytes: &[u8]) {
        broadcast use {vstd::layout::layout_of_primitives, vstd::layout::align_of_u8};

        bytemuck::cast_slice::<u8, u8>(self.as_slice())
    }
}

} // verus!
