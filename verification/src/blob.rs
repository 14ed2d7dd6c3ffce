//! Byte buffers of the `bytes` crate, and what the library relies on of them.
//!
//! A [`Bytes`] is a cheaply cloneable, immutable run of bytes; a [`BytesMut`] is
//! the growable buffer it is made from. Both are opaque here: [`bytes_of`] and
//! [`buffered`] name what they hold, and the declarations below say what each
//! operation does to it.

use bytes::{Bytes, BytesMut};
use vstd::prelude::*;

verus! {

/// An immutable, shareable run of bytes.
#[verifier::external_type_specification]
#[verifier::external_body]
pub struct ExBytes(bytes::Bytes);

/// A growable buffer of bytes.
#[verifier::external_type_specification]
#[verifier::external_body]
pub struct ExBytesMut(bytes::BytesMut);

/// The bytes that a [`Bytes`] holds, in order.
pub uninterp spec fn bytes_of(b: Bytes) -> Seq<u8>;

/// The bytes that a [`BytesMut`] holds, in order.
pub uninterp spec fn buffered(b: BytesMut) -> Seq<u8>;

/// `Bytes::new` makes an empty run.
pub assume_specification[ Bytes::new ]() -> (b: Bytes)
    ensures
        bytes_of(b) == Seq::<u8>::empty(),
;

/// `Bytes::len` is the number of bytes held.
pub assume_specification[ Bytes::len ](b: &Bytes) -> (n: usize)
    ensures
        n == bytes_of(*b).len(),
;

/// `Bytes::is_empty` tells whether no byte is held.
pub assume_specification[ Bytes::is_empty ](b: &Bytes) -> (r: bool)
    ensures
        r == (bytes_of(*b).len() == 0),
;

/// `Bytes::clone` is another handle to the same bytes.
pub assume_specification[ <Bytes as Clone>::clone ](b: &Bytes) -> (r: Bytes)
    ensures
        bytes_of(r) == bytes_of(*b),
;

/// `Bytes::split_to` takes the first `at` bytes off the front and returns them. It
/// panics where fewer are held.
pub assume_specification[ Bytes::split_to ](b: &mut Bytes, at: usize) -> (front: Bytes)
    requires
        at <= bytes_of(*old(b)).len(),
    ensures
        bytes_of(front) == bytes_of(*old(b)).subrange(0, at as int),
        bytes_of(*final(b)) == bytes_of(*old(b)).subrange(
            at as int,
            bytes_of(*old(b)).len() as int,
        ),
;

/// `Bytes::slice` is a handle to the bytes from `from` up to, not including, `to`. It
/// panics where those are no positions of the run, in order.
#[verifier::external_body]
pub(crate) fn slice_of(b: &Bytes, from: usize, to: usize) -> (r: Bytes)
    requires
        from <= to <= bytes_of(*b).len(),
    ensures
        bytes_of(r) == bytes_of(*b).subrange(from as int, to as int),
{
    b.slice(from..to)
}

/// `BytesMut::with_capacity` makes an empty buffer. An allocation is at most
/// `isize::MAX` bytes long; a larger request panics.
pub assume_specification[ BytesMut::with_capacity ](capacity: usize) -> (b: BytesMut)
    requires
        capacity <= isize::MAX,
    ensures
        buffered(b) == Seq::<u8>::empty(),
;

/// `BytesMut::len` is the number of bytes held.
pub assume_specification[ BytesMut::len ](b: &BytesMut) -> (n: usize)
    ensures
        n == buffered(*b).len(),
;

/// `BytesMut::extend_from_slice` appends all bytes of `part`. It panics where the
/// buffer would outgrow the largest allocation.
#[verifier::external_body]
pub(crate) fn append(b: &mut BytesMut, part: &Bytes)
    requires
        buffered(*old(b)).len() + bytes_of(*part).len() <= isize::MAX,
    ensures
        buffered(*final(b)) == buffered(*old(b)) + bytes_of(*part),
{
    b.extend_from_slice(part);
}

/// `BytesMut::freeze` hands over the buffer's bytes as an immutable run.
pub assume_specification[ BytesMut::freeze ](b: BytesMut) -> (r: Bytes)
    ensures
        bytes_of(r) == buffered(b),
;

/// The bytes of all parts, one after the other.
pub open spec fn joined(parts: Seq<Bytes>) -> Seq<u8>
    decreases parts.len(),
{
    if parts.len() == 0 {
        Seq::empty()
    } else {
        bytes_of(parts[0]) + joined(parts.subrange(1, parts.len() as int))
    }
}

/// A part added at the end adds its bytes at the end.
pub proof fn lemma_joined_push(parts: Seq<Bytes>, last: Bytes)
    ensures
        joined(parts.push(last)) == joined(parts) + bytes_of(last),
    decreases parts.len(),
{
    if parts.len() == 0 {
        let rest = parts.push(last).subrange(1, 1);
        assert(joined(rest) == Seq::<u8>::empty());
        assert(bytes_of(last) + joined(rest) =~= joined(parts) + bytes_of(last));
    } else {
        let rest = parts.subrange(1, parts.len() as int);
        lemma_joined_push(rest, last);
        assert(parts.push(last).subrange(1, parts.len() as int + 1) =~= rest.push(last));
        assert(joined(parts.push(last)) =~= joined(parts) + bytes_of(last));
    }
}

/// Parts put together are the bytes of the first of them and then of the others; one part alone
/// is its own.
pub proof fn parts_join_end_to_end(front: Seq<Bytes>, back: Seq<Bytes>, one: Bytes)
    ensures
        joined(front + back) == joined(front) + joined(back),
        joined(seq![one]) == bytes_of(one),
    decreases back.len(),
{
    lemma_joined_push(Seq::empty(), one);
    assert(Seq::<Bytes>::empty().push(one) =~= seq![one]);
    assert(joined(Seq::<Bytes>::empty()) + bytes_of(one) =~= bytes_of(one));
    if back.len() == 0 {
        assert(front + back =~= front);
        assert(joined(front) + joined(back) =~= joined(front));
    } else {
        let less = back.drop_last();
        let last = back.last();
        parts_join_end_to_end(front, less, one);
        lemma_joined_push(front + less, last);
        lemma_joined_push(less, last);
        assert((front + less).push(last) =~= front + back);
        assert(less.push(last) =~= back);
        assert(joined(front + back) =~= joined(front) + joined(back));
    }
}

} // verus!
