//! Buffer lengths for sending serialized values of a type `T`.
//!
//! A value of `T` is serialized into at most `size_of::<T>()` bytes, and
//! the serialized bytes are sent as the payload of one frame.

use crate::bytes::encoded_len_bound;
use vstd::prelude::*;

verus! {

/// Returns an upper bound for the temporary serialization buffer
/// length needed when serializing or deserializing a value of type `T`.
pub fn max_serialize_buf_len<T>() -> (n: usize)
    ensures
        n == encoded_len_bound(vstd::layout::size_of::<T>()),
{
    vstd::layout::layout_for_type_is_valid::<T>();
    crate::bytes::max_encoded_len(core::mem::size_of::<T>())
}

/// Returns an upper bound for the encoded length of a frame with a
/// serialized `T` value as its payload.
pub fn max_encoded_len<T>() -> (n: usize)
    ensures
        n == encoded_len_bound(encoded_len_bound(vstd::layout::size_of::<T>())),
{
    vstd::layout::layout_for_type_is_valid::<T>();
    let n = max_serialize_buf_len::<T>();
    proof {
        let s = vstd::layout::size_of::<T>();
        assert(s <= isize::MAX);
        assert(usize::MAX == 2 * isize::MAX + 1);
        assert(encoded_len_bound(n as nat) <= usize::MAX);
    }
    crate::bytes::max_encoded_len(n)
}

} // verus!
