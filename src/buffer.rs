//! The incoming byte buffer of a connection, `tokio_core::io::EasyBuf`, seen
//! through the sequence of bytes it holds.
use tokio_core::io::EasyBuf;
use vstd::prelude::*;

verus! {

#[verifier::external_type_specification]
#[verifier::external_body]
pub struct ExEasyBuf(EasyBuf);

/// The bytes held by an `EasyBuf`, in order.
pub uninterp spec fn buf_contents(b: EasyBuf) -> Seq<u8>;

/// Relies on `EasyBuf::as_slice`: the window of bytes that the buffer holds.
#[verifier::external_body]
pub(crate) fn buf_slice(b: &EasyBuf) -> (r: &[u8])
    ensures
        r@ == buf_contents(*b),
{
    b.as_slice()
}

/// Relies on `EasyBuf::drain_to`: the first `at` bytes move to the returned
/// buffer and the rest stay; it panics only when `at` exceeds the length.
#[verifier::external_body]
pub(crate) fn buf_drain_to(b: &mut EasyBuf, at: usize) -> (r: EasyBuf)
    requires
        at <= buf_contents(*old(b)).len(),
    ensures
        buf_contents(r) == buf_contents(*old(b)).take(at as int),
        buf_contents(*final(b)) == buf_contents(*old(b)).skip(at as int),
{
    b.drain_to(at)
}

/// Relies on `EasyBuf::get_mut`: it hands out the held bytes as a `Vec`, and
/// what is appended to that `Vec` is held after them.
#[verifier::external_body]
pub(crate) fn buf_append(b: &mut EasyBuf, chunk: &[u8])
    ensures
        buf_contents(*final(b)) == buf_contents(*old(b)) + chunk@,
{
    b.get_mut().extend_from_slice(chunk)
}

} // verus!
