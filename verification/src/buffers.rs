//! Byte buffers: what the code relies on of `bytes::Bytes` and `bytes::BytesMut`.
use bytes::{Bytes, BytesMut};
#[allow(unused_imports)]
use vstd::utf8::encode_utf8;
use vstd::prelude::*;

verus! {

/// `bytes::Bytes`: an immutable run of bytes.
#[verifier::external_type_specification]
#[verifier::external_body]
pub struct ExBytes(bytes::Bytes);

/// `bytes::BytesMut`: a growable run of bytes.
#[verifier::external_type_specification]
#[verifier::external_body]
pub struct ExBytesMut(bytes::BytesMut);

/// The bytes that a `Bytes` holds.
pub uninterp spec fn held(bytes: Bytes) -> Seq<u8>;

/// The bytes that a `BytesMut` holds.
pub uninterp spec fn filled(buffer: BytesMut) -> Seq<u8>;

/// `Bytes::new` makes an empty run.
pub assume_specification[ Bytes::new ]() -> (r: Bytes)
    ensures
        held(r) == Seq::<u8>::empty(),
;

/// `Bytes::len` counts the bytes.
pub assume_specification[ Bytes::len ](bytes: &Bytes) -> (r: usize)
    ensures
        r == held(*bytes).len(),
;

/// `Bytes::is_empty` tells whether there are no bytes.
pub assume_specification[ Bytes::is_empty ](bytes: &Bytes) -> (r: bool)
    ensures
        r == (held(*bytes).len() == 0),
;

/// `Bytes::split_to` takes the first `at` bytes out and gives them; the others
/// stay. It panics where there are fewer than `at`.
pub assume_specification[ Bytes::split_to ](bytes: &mut Bytes, at: usize) -> (r: Bytes)
    requires
        at <= held(*old(bytes)).len(),
    ensures
        held(r) == held(*old(bytes)).take(at as int),
        held(*final(bytes)) == held(*old(bytes)).skip(at as int),
;

/// `Bytes::as_ref` shows the bytes as a slice.
#[verifier::external_body]
pub(crate) fn slice_of(bytes: &Bytes) -> (r: &[u8])
    ensures
        r@ == held(*bytes),
{
    bytes.as_ref()
}

/// `Bytes::from` of a `String` holds the UTF-8 encoding of the text.
#[verifier::external_body]
pub(crate) fn encoded(text: String) -> (r: Bytes)
    ensures
        held(r) == encode_utf8(text@),
{
    Bytes::from(text)
}

/// `BytesMut::new` makes an empty buffer.
pub assume_specification[ BytesMut::new ]() -> (r: BytesMut)
    ensures
        filled(r) == Seq::<u8>::empty(),
;

/// `BytesMut::len` counts the bytes.
pub assume_specification[ BytesMut::len ](buffer: &BytesMut) -> (r: usize)
    ensures
        r == filled(*buffer).len(),
;

/// `BytesMut::split_to` takes the first `at` bytes out and gives them; the others
/// stay. It panics where there are fewer than `at`.
pub assume_specification[ BytesMut::split_to ](buffer: &mut BytesMut, at: usize) -> (r: BytesMut)
    requires
        at <= filled(*old(buffer)).len(),
    ensures
        filled(r) == filled(*old(buffer)).take(at as int),
        filled(*final(buffer)) == filled(*old(buffer)).skip(at as int),
;

/// `BytesMut::resize` cuts the buffer to `new_len` bytes, or fills it up to
/// `new_len` bytes with `value`. A buffer cannot grow beyond `isize::MAX` bytes.
pub assume_specification[ BytesMut::resize ](buffer: &mut BytesMut, new_len: usize, value: u8)
    requires
        new_len <= isize::MAX,
    ensures
        filled(*final(buffer)) == if new_len <= filled(*old(buffer)).len() {
            filled(*old(buffer)).take(new_len as int)
        } else {
            filled(*old(buffer)) + Seq::new(
                (new_len - filled(*old(buffer)).len()) as nat,
                |i: int| value,
            )
        },
;

/// `BytesMut::as_ref` shows the bytes as a slice.
#[verifier::external_body]
pub(crate) fn slice_of_mut(buffer: &BytesMut) -> (r: &[u8])
    ensures
        r@ == filled(*buffer),
{
    buffer.as_ref()
}

/// `BytesMut::as_mut` shows the bytes as a slice; `<[u8]>::copy_from_slice` writes over
/// its first ones.
#[verifier::external_body]
pub(crate) fn overwrite(buffer: &mut BytesMut, data: &[u8])
    requires
        data@.len() <= filled(*old(buffer)).len(),
    ensures
        filled(*final(buffer)) == data@ + filled(*old(buffer)).skip(data@.len() as int),
{
    buffer.as_mut()[..data.len()].copy_from_slice(data);
}

/// `BytesMut::extend_from_slice` appends the bytes of the slice. A buffer cannot
/// grow beyond `isize::MAX` bytes.
pub assume_specification[ BytesMut::extend_from_slice ](buffer: &mut BytesMut, extend: &[u8])
    requires
        filled(*old(buffer)).len() + extend@.len() <= isize::MAX,
    ensures
        filled(*final(buffer)) == filled(*old(buffer)) + extend@,
;

} // verus!
