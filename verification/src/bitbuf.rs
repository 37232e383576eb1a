//! Trusted view of bitvec's bit buffers.
//!
//! The windows of arbitrary length keep their bases in bitvec's `BitBox` and
//! `BitVec` over `usize` elements in `Lsb0` order. Verus sees each buffer as
//! the sequence of its bits, through the names [`box_bits`] and [`vec_bits`];
//! the wrappers below state, over those names, what each bitvec call does,
//! as bitvec's documentation and source give it: in `Lsb0` order bit `j` of a
//! loaded or stored integer is bit `pos + j` of the buffer.

use vstd::prelude::*;

use bitvec::field::BitField;
use vstd::arithmetic::power2::pow2;

verus! {

/// A fixed-length bit buffer: bitvec's `BitBox` over `usize` elements in
/// `Lsb0` order, held opaquely.
#[verifier::external_body]
pub struct BitBuf {
    inner: bitvec::boxed::BitBox<usize, bitvec::order::Lsb0>,
}

/// A growable bit buffer: bitvec's `BitVec` over `usize` elements in `Lsb0`
/// order, held opaquely.
#[verifier::external_body]
pub struct GrowBuf {
    inner: bitvec::vec::BitVec<usize, bitvec::order::Lsb0>,
}

/// The bits a `BitBuf` holds, lowest index first.
pub uninterp spec fn box_bits(b: BitBuf) -> Seq<bool>;

/// The bits a `GrowBuf` holds, lowest index first.
pub uninterp spec fn vec_bits(v: GrowBuf) -> Seq<bool>;

/// Bit `j` of a byte, counting from the least significant end.
pub open spec fn bit_of(v: u8, j: int) -> bool {
    (v >> (j as u8)) & 1 == 1
}

/// Relies on `BitVec::repeat` and `BitVec::into_boxed_bitslice`: a freshly
/// allocated buffer of `len` zero bits. bitvec encodes a buffer length in
/// `usize::MAX >> 3` bits at most, and `repeat` panics beyond it.
#[verifier::external_body]
pub(crate) fn box_zeros(len: usize) -> (r: BitBuf)
    requires
        len <= usize::MAX / 8,
    ensures
        box_bits(r) == Seq::new(len as nat, |i: int| false),
{
    BitBuf { inner: bitvec::vec::BitVec::repeat(false, len).into_boxed_bitslice() }
}

/// Relies on `BitSlice::len`: the number of bits in the buffer.
#[verifier::external_body]
pub(crate) fn box_len(b: &BitBuf) -> (r: usize)
    ensures
        r == box_bits(*b).len(),
{
    b.inner.len()
}

/// Relies on `BitField::load_le` on a `BitSlice<usize, Lsb0>`: bit `j` of
/// the loaded value is bit `pos + j` of the buffer, and bits beyond `width`
/// are zero.
#[verifier::external_body]
pub(crate) fn box_load(
    b: &BitBuf,
    pos: usize,
    width: usize,
) -> (r: u8)
    requires
        1 <= width <= 8,
        pos + width <= box_bits(*b).len(),
    ensures
        r < pow2(width as nat),
        forall|j: int| 0 <= j < width ==> bit_of(r, j) == box_bits(*b)[pos + j],
{
    b.inner[pos..pos + width].load_le::<u8>()
}

/// Relies on `BitField::store_le` on a `BitSlice<usize, Lsb0>`: bit `j` of
/// the stored value becomes bit `pos + j` of the buffer; no other bit moves.
#[verifier::external_body]
pub(crate) fn box_store(
    b: &mut BitBuf,
    pos: usize,
    width: usize,
    value: u8,
)
    requires
        1 <= width <= 8,
        pos + width <= box_bits(*old(b)).len(),
    ensures
        box_bits(*final(b)) == Seq::new(
            box_bits(*old(b)).len(),
            |i: int|
                if pos <= i < pos + width {
                    bit_of(value, i - pos)
                } else {
                    box_bits(*old(b))[i]
                },
        ),
{
    b.inner.get_mut(pos..pos + width).unwrap().store_le::<u8>(value);
}

/// Relies on `BitVec::new`: an empty buffer.
#[verifier::external_body]
pub(crate) fn vec_new() -> (r: GrowBuf)
    ensures
        vec_bits(r) == Seq::<bool>::empty(),
{
    GrowBuf { inner: bitvec::vec::BitVec::new() }
}

/// Relies on `BitVec::repeat`: a freshly allocated buffer of `len` zero
/// bits. bitvec encodes a buffer length in `usize::MAX >> 3` bits at most,
/// and `repeat` panics beyond it.
#[verifier::external_body]
pub(crate) fn vec_zeros(len: usize) -> (r: GrowBuf)
    requires
        len <= usize::MAX / 8,
    ensures
        vec_bits(r) == Seq::new(len as nat, |i: int| false),
{
    GrowBuf { inner: bitvec::vec::BitVec::repeat(false, len) }
}

/// Relies on `BitSlice::len`: the number of bits in the buffer.
#[verifier::external_body]
pub(crate) fn vec_len(v: &GrowBuf) -> (r: usize)
    ensures
        r == vec_bits(*v).len(),
{
    v.inner.len()
}

/// Relies on `BitVec::push`: appends one bit at the end of the buffer.
/// bitvec encodes a buffer length in `usize::MAX >> 3` bits at most, and
/// `push` panics beyond it.
#[verifier::external_body]
pub(crate) fn vec_push(v: &mut GrowBuf, bit: bool)
    requires
        vec_bits(*old(v)).len() < usize::MAX / 8,
    ensures
        vec_bits(*final(v)) == vec_bits(*old(v)).push(bit),
{
    v.inner.push(bit);
}

/// Relies on `BitField::load_le` on a `BitSlice<usize, Lsb0>`: bit `j` of
/// the loaded value is bit `pos + j` of the buffer, and bits beyond `width`
/// are zero.
#[verifier::external_body]
pub(crate) fn vec_load(
    v: &GrowBuf,
    pos: usize,
    width: usize,
) -> (r: u8)
    requires
        1 <= width <= 8,
        pos + width <= vec_bits(*v).len(),
    ensures
        r < pow2(width as nat),
        forall|j: int| 0 <= j < width ==> bit_of(r, j) == vec_bits(*v)[pos + j],
{
    v.inner[pos..pos + width].load_le::<u8>()
}

/// Relies on `BitField::store_le` on a `BitSlice<usize, Lsb0>`: bit `j` of
/// the stored value becomes bit `pos + j` of the buffer; no other bit moves.
#[verifier::external_body]
pub(crate) fn vec_store(
    v: &mut GrowBuf,
    pos: usize,
    width: usize,
    value: u8,
)
    requires
        1 <= width <= 8,
        pos + width <= vec_bits(*old(v)).len(),
    ensures
        vec_bits(*final(v)) == Seq::new(
            vec_bits(*old(v)).len(),
            |i: int|
                if pos <= i < pos + width {
                    bit_of(value, i - pos)
                } else {
                    vec_bits(*old(v))[i]
                },
        ),
{
    v.inner.get_mut(pos..pos + width).unwrap().store_le::<u8>(value);
}

} // verus!
