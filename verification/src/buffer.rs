//! The byte buffers of `bytes`: their contents, and the operations that the library performs.

use bytes::{Bytes, BytesMut};
use vstd::prelude::*;

verus! {

/// The declaration of the shared byte buffer.
#[verifier::external_type_specification]
#[verifier::external_body]
pub struct ExBytes(Bytes);

/// The declaration of the growing byte buffer.
#[verifier::external_type_specification]
#[verifier::external_body]
pub struct ExBytesMut(BytesMut);

/// The bytes that a shared buffer holds.
pub uninterp spec fn bytes_contents(buffer: Bytes) -> Seq<u8>;

/// The bytes that a growing buffer holds.
pub uninterp spec fn bytes_mut_contents(buffer: BytesMut) -> Seq<u8>;

/// `Bytes::len` is the number of bytes held.
pub assume_specification[ Bytes::len ](buffer: &Bytes) -> (r: usize)
    ensures
        r == bytes_contents(*buffer).len(),
;

/// `BytesMut::is_empty` tells whether no byte is held.
pub assume_specification[ BytesMut::is_empty ](buffer: &BytesMut) -> (r: bool)
    ensures
        r == (bytes_mut_contents(*buffer).len() == 0),
;

/// `BytesMut::len` is the number of bytes held.
pub assume_specification[ BytesMut::len ](buffer: &BytesMut) -> (r: usize)
    ensures
        r == bytes_mut_contents(*buffer).len(),
;

/// `BytesMut::with_capacity` makes an empty buffer. It panics on a capacity that no allocation can
/// have.
pub assume_specification[ BytesMut::with_capacity ](capacity: usize) -> (r: BytesMut)
    requires
        capacity <= isize::MAX,
    ensures
        bytes_mut_contents(r) == Seq::<u8>::empty(),
;

/// `BytesMut::extend_from_slice` appends the bytes of a slice. It panics where the buffer would
/// outgrow what an allocation can hold.
pub assume_specification[ BytesMut::extend_from_slice ](buffer: &mut BytesMut, extend: &[u8])
    requires
        bytes_mut_contents(*old(buffer)).len() + extend@.len() <= isize::MAX,
    ensures
        bytes_mut_contents(*final(buffer)) == bytes_mut_contents(*old(buffer)) + extend@,
;

/// `BytesMut::freeze` makes a shared buffer of the same bytes.
pub assume_specification[ BytesMut::freeze ](buffer: BytesMut) -> (r: Bytes)
    ensures
        bytes_contents(r) == bytes_mut_contents(buffer),
;

/// `BytesMut::split_to` removes the first `at` bytes and returns them. It panics where there are
/// fewer.
pub assume_specification[ BytesMut::split_to ](buffer: &mut BytesMut, at: usize) -> (r: BytesMut)
    requires
        at <= bytes_mut_contents(*old(buffer)).len(),
    ensures
        bytes_mut_contents(r) == bytes_mut_contents(*old(buffer)).take(at as int),
        bytes_mut_contents(*final(buffer)) == bytes_mut_contents(*old(buffer)).skip(at as int),
;

/// `BytesMut::unsplit` appends the bytes of another buffer. It panics where the buffer would
/// outgrow what an allocation can hold.
pub assume_specification[ BytesMut::unsplit ](buffer: &mut BytesMut, other: BytesMut)
    requires
        bytes_mut_contents(*old(buffer)).len() + bytes_mut_contents(other).len() <= isize::MAX,
    ensures
        bytes_mut_contents(*final(buffer)) == bytes_mut_contents(*old(buffer))
            + bytes_mut_contents(other),
;

/// `Bytes::deref` shows the bytes of a shared buffer as a slice.
#[verifier::external_body]
pub(crate) fn bytes_slice(buffer: &Bytes) -> (r: &[u8])
    ensures
        r@ == bytes_contents(*buffer),
{
    buffer
}

/// `BytesMut::deref` shows the bytes of a growing buffer as a slice.
#[verifier::external_body]
pub(crate) fn bytes_mut_slice(buffer: &BytesMut) -> (r: &[u8])
    ensures
        r@ == bytes_mut_contents(*buffer),
{
    buffer
}

/// `Bytes::from` makes a shared buffer of the bytes of a vector.
#[verifier::external_body]
pub(crate) fn bytes_from_vec(data: Vec<u8>) -> (r: Bytes)
    ensures
        bytes_contents(r) == data@,
{
    Bytes::from(data)
}

} // verus!
