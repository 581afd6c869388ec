//! The byte image of an integer in memory.
//!
//! The host decides the byte order. Every statement here is made for both
//! orders, so that it holds on whichever host runs the library.

use vstd::prelude::*;
use vstd::arithmetic::power::pow;
use vstd::layout::size_of;

verus! {

/// The order in which a host lays out the bytes of an integer.
#[derive(Debug, Clone, Copy, PartialEq, Eq, Structural)]
pub enum ByteOrder {
    /// Least significant byte first.
    Little,
    /// Most significant byte first.
    Big,
}

/// The `w` low bytes of `u`, least significant first.
pub open spec fn le_bytes(u: nat, w: nat) -> Seq<u8>
    decreases w,
{
    if w == 0 {
        Seq::empty()
    } else {
        seq![(u % 256) as u8] + le_bytes(u / 256, (w - 1) as nat)
    }
}

/// The number whose bytes, least significant first, are `b`.
pub open spec fn le_value(b: Seq<u8>) -> nat
    decreases b.len(),
{
    if b.len() == 0 {
        0
    } else {
        b[0] as nat + 256 * le_value(b.drop_first())
    }
}

/// The `w` byte image of the unsigned number `u` in the given order.
pub open spec fn image(order: ByteOrder, u: nat, w: nat) -> Seq<u8> {
    match order {
        ByteOrder::Little => le_bytes(u, w),
        ByteOrder::Big => le_bytes(u, w).reverse(),
    }
}

/// The unsigned number that an image spells in the given order.
pub open spec fn image_value(order: ByteOrder, b: Seq<u8>) -> nat {
    match order {
        ByteOrder::Little => le_value(b),
        ByteOrder::Big => le_value(b.reverse()),
    }
}

/// The two's complement representative of `i` in `w` bytes.
pub open spec fn unsigned_of(i: int, w: nat) -> nat {
    if i >= 0 {
        i as nat
    } else {
        (i + pow(256, w)) as nat
    }
}

/// The signed number that the `w` byte two's complement representative `u`
/// stands for.
pub open spec fn signed_of(u: nat, w: nat) -> int {
    if 2 * u >= pow(256, w) {
        u - pow(256, w)
    } else {
        u as int
    }
}

/// The number of bytes in a machine word.
pub open spec fn word_width() -> nat {
    size_of::<isize>()
}

/// The image of a machine word integer in the given order.
pub open spec fn int_image(order: ByteOrder, i: isize) -> Seq<u8> {
    image(order, unsigned_of(i as int, word_width()), word_width())
}

/// The machine word integer that an image spells in the given order.
pub open spec fn int_of_image(order: ByteOrder, b: Seq<u8>) -> int {
    signed_of(image_value(order, b), b.len())
}

proof fn lemma_le_bytes_len(u: nat, w: nat)
    ensures
        le_bytes(u, w).len() == w,
    decreases w,
{
    if w > 0 {
        lemma_le_bytes_len(u / 256, (w - 1) as nat);
    }
}

proof fn lemma_le_round_trip(u: nat, w: nat)
    requires
        u < pow(256, w),
    ensures
        le_value(le_bytes(u, w)) == u,
    decreases w,
{
    reveal(pow);
    if w > 0 {
        let rest = le_bytes(u / 256, (w - 1) as nat);
        assert(pow(256, w) == 256 * pow(256, (w - 1) as nat));
        lemma_le_round_trip(u / 256, (w - 1) as nat);
        assert(le_bytes(u, w).drop_first() =~= rest);
    }
}

/// An image has as many bytes as were asked for.
pub proof fn lemma_image_len(order: ByteOrder, u: nat, w: nat)
    ensures
        image(order, u, w).len() == w,
{
    lemma_le_bytes_len(u, w);
}

/// Reading an image in the order in which it was written gives the number
/// back.
pub proof fn lemma_image_round_trip(order: ByteOrder, u: nat, w: nat)
    requires
        u < pow(256, w),
    ensures
        image_value(order, image(order, u, w)) == u,
{
    lemma_le_round_trip(u, w);
    assert(le_bytes(u, w).reverse().reverse() =~= le_bytes(u, w));
}

/// Decoding the image of a machine word integer in the order in which it
/// was encoded gives the integer back.
pub proof fn lemma_int_image_round_trip(order: ByteOrder, i: isize)
    ensures
        int_image(order, i).len() == word_width(),
        int_of_image(order, int_image(order, i)) == i,
{
    vstd::layout::signed_int_min_max_values();
    let w = word_width();
    let u = unsigned_of(i as int, w);
    lemma_image_len(order, u, w);
    lemma_image_round_trip(order, u, w);
}

proof fn lemma_le_value_bound(b: Seq<u8>)
    ensures
        le_value(b) < pow(256, b.len()),
    decreases b.len(),
{
    reveal(pow);
    if b.len() > 0 {
        lemma_le_value_bound(b.drop_first());
        assert(pow(256, b.len()) == 256 * pow(256, (b.len() - 1) as nat));
    }
}

/// What a buffer of one machine word spells is a machine word integer.
pub proof fn lemma_int_of_image_fits(order: ByteOrder, b: Seq<u8>)
    requires
        b.len() == word_width(),
    ensures
        isize::MIN <= int_of_image(order, b) <= isize::MAX,
{
    vstd::layout::signed_int_min_max_values();
    lemma_le_value_bound(b);
    lemma_le_value_bound(b.reverse());
}

/// Calls `isize::to_ne_bytes`: the memory image of `i`, which is its two's
/// complement representation in the byte order of the host.
#[verifier::external_body]
pub(crate) fn isize_to_ne_bytes(i: isize) -> (r: Vec<u8>)
    ensures
        r@ == int_image(ByteOrder::Little, i) || r@ == int_image(ByteOrder::Big, i),
{
    i.to_ne_bytes().to_vec()
}

/// Calls `isize::from_ne_bytes` on a buffer of exactly one machine word:
/// the integer whose memory image in the byte order of the host is `b`.
#[verifier::external_body]
pub(crate) fn isize_from_ne_bytes(b: &Vec<u8>) -> (r: isize)
    requires
        b.len() == word_width(),
    ensures
        r == int_of_image(ByteOrder::Little, b@) || r == int_of_image(ByteOrder::Big, b@),
{
    isize::from_ne_bytes(b.as_slice().try_into().unwrap())
}

/// Calls `u128::to_ne_bytes`: the sixteen byte memory image of `n` in the
/// byte order of the host.
#[verifier::external_body]
pub(crate) fn u128_to_ne_bytes(n: u128) -> (r: Vec<u8>)
    ensures
        r@ == image(ByteOrder::Little, n as nat, 16) || r@ == image(ByteOrder::Big, n as nat, 16),
{
    n.to_ne_bytes().to_vec()
}

} // verus!
