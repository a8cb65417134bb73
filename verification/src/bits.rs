//! Trusted interface to the `bit-set` and `bit-vec` crates.
//!
//! A `BitSet` is described by its underlying bit vector (`bit_set_bits`), and a
//! `BitVec` by its bits (`bit_vec_bits`). The set of members of a bit set is the
//! set of indices whose bit is on.
use bit_set::BitSet;
use bit_vec::BitVec;
use vstd::prelude::*;

verus! {

#[verifier::external_type_specification]
#[verifier::external_body]
#[verifier::reject_recursive_types(B)]
pub struct ExBitSet<B>(bit_set::BitSet<B>);

#[verifier::external_type_specification]
#[verifier::external_body]
#[verifier::reject_recursive_types(B)]
pub struct ExBitVec<B>(bit_vec::BitVec<B>);

/// The bits of the bit vector that backs a `BitSet`.
pub uninterp spec fn bit_set_bits(s: BitSet) -> Seq<bool>;

/// The bits held by a `BitVec`.
pub uninterp spec fn bit_vec_bits(v: BitVec) -> Seq<bool>;

/// The members of a bit set backed by `bits`: the indices whose bit is on.
pub open spec fn bits_members(bits: Seq<bool>) -> Set<usize> {
    Set::new(|i: usize| i < bits.len() && bits[i as int])
}

/// `bits` after switching bit `v` on, growing with off bits as needed.
pub open spec fn bits_with(bits: Seq<bool>, v: usize) -> Seq<bool> {
    let len: nat = if v < bits.len() { bits.len() } else { (v + 1) as nat };
    Seq::new(len, |i: int| i == v || (i < bits.len() && bits[i]))
}

/// `bits` after switching bit `v` off.
pub open spec fn bits_without(bits: Seq<bool>, v: usize) -> Seq<bool> {
    Seq::new(bits.len(), |i: int| i != v && bits[i])
}

/// Bitwise or of two bit sequences, the shorter one padded with off bits.
pub open spec fn bits_or(a: Seq<bool>, b: Seq<bool>) -> Seq<bool> {
    let len: nat = if a.len() < b.len() { b.len() } else { a.len() };
    Seq::new(len, |i: int| (i < a.len() && a[i]) || (i < b.len() && b[i]))
}

/// Number of bits that are on.
pub open spec fn count_on(bits: Seq<bool>) -> nat
    decreases bits.len(),
{
    if bits.len() == 0 {
        0
    } else {
        count_on(bits.drop_last()) + if bits.last() { 1nat } else { 0nat }
    }
}

/// Bit `j` (0 = most significant) of byte `b`.
pub open spec fn byte_bit(b: u8, j: int) -> bool {
    (b >> ((7 - j) as u8)) & 1u8 == 1u8
}

/// The byte whose bits, most significant first, are `b0`..`b7`.
pub open spec fn pack8(b0: bool, b1: bool, b2: bool, b3: bool, b4: bool, b5: bool, b6: bool, b7: bool) -> u8 {
    (if b0 { 0x80u8 } else { 0u8 }) | (if b1 { 0x40u8 } else { 0u8 }) | (if b2 { 0x20u8 } else { 0u8 })
        | (if b3 { 0x10u8 } else { 0u8 }) | (if b4 { 0x08u8 } else { 0u8 }) | (if b5 { 0x04u8 } else {
        0u8
    }) | (if b6 { 0x02u8 } else { 0u8 }) | (if b7 { 0x01u8 } else { 0u8 })
}

/// Bit `k` of `bits`, off past the end.
pub open spec fn bit_at(bits: Seq<bool>, k: int) -> bool {
    0 <= k < bits.len() && bits[k]
}

/// The bytes that hold `bits`, eight per byte, most significant bit first,
/// the last byte padded with off bits.
pub open spec fn bits_to_bytes(bits: Seq<bool>) -> Seq<u8> {
    let len: nat = bits.len() / 8 + if bits.len() % 8 == 0 { 0nat } else { 1nat };
    Seq::new(
        len,
        |i: int|
            pack8(
                bit_at(bits, 8 * i),
                bit_at(bits, 8 * i + 1),
                bit_at(bits, 8 * i + 2),
                bit_at(bits, 8 * i + 3),
                bit_at(bits, 8 * i + 4),
                bit_at(bits, 8 * i + 5),
                bit_at(bits, 8 * i + 6),
                bit_at(bits, 8 * i + 7),
            ),
    )
}

/// The bits of `bytes`, eight per byte, most significant bit first.
pub open spec fn bytes_to_bits(bytes: Seq<u8>) -> Seq<bool> {
    Seq::new(8 * bytes.len(), |k: int| byte_bit(bytes[k / 8], k % 8))
}

/// `BitSet::with_capacity`: an empty set backed by `nbits` off bits.
#[verifier::external_body]
pub(crate) fn bit_set_with_capacity(nbits: usize) -> (r: BitSet)
    ensures
        bit_set_bits(r) == Seq::new(nbits as nat, |i: int| false),
{
    BitSet::with_capacity(nbits)
}

/// `BitSet::contains`: whether bit `v` exists and is on.
#[verifier::external_body]
pub(crate) fn bit_set_contains(s: &BitSet, v: usize) -> (r: bool)
    ensures
        r == (v < bit_set_bits(*s).len() && bit_set_bits(*s)[v as int]),
{
    s.contains(v)
}

/// `BitSet::insert`: switches bit `v` on, growing the vector to `v + 1` bits
/// when it is shorter; returns whether the bit was off before.
#[verifier::external_body]
pub(crate) fn bit_set_insert(s: &mut BitSet, v: usize) -> (r: bool)
    requires
        v < usize::MAX,
    ensures
        bit_set_bits(*final(s)) == bits_with(bit_set_bits(*old(s)), v),
        r == !(v < bit_set_bits(*old(s)).len() && bit_set_bits(*old(s))[v as int]),
{
    s.insert(v)
}

/// `BitSet::remove`: switches bit `v` off; returns whether it was on.
#[verifier::external_body]
pub(crate) fn bit_set_remove(s: &mut BitSet, v: usize) -> (r: bool)
    ensures
        bit_set_bits(*final(s)) == bits_without(bit_set_bits(*old(s)), v),
        r == (v < bit_set_bits(*old(s)).len() && bit_set_bits(*old(s))[v as int]),
{
    s.remove(v)
}

/// `BitSet::union_with`: bitwise or, the vector grown to the longer length.
#[verifier::external_body]
pub(crate) fn bit_set_union_with(s: &mut BitSet, other: &BitSet)
    ensures
        bit_set_bits(*final(s)) == bits_or(bit_set_bits(*old(s)), bit_set_bits(*other)),
{
    s.union_with(other)
}

/// `BitSet::is_superset`: every member of `other` is a member of `s`.
#[verifier::external_body]
pub(crate) fn bit_set_is_superset(s: &BitSet, other: &BitSet) -> (r: bool)
    ensures
        r == bits_members(bit_set_bits(*other)).subset_of(bits_members(bit_set_bits(*s))),
{
    s.is_superset(other)
}

/// `BitSet::is_disjoint`: no member in common.
#[verifier::external_body]
pub(crate) fn bit_set_is_disjoint(s: &BitSet, other: &BitSet) -> (r: bool)
    ensures
        r == bits_members(bit_set_bits(*s)).disjoint(bits_members(bit_set_bits(*other))),
{
    s.is_disjoint(other)
}

/// `BitSet::len`: the number of bits that are on.
#[verifier::external_body]
pub(crate) fn bit_set_len(s: &BitSet) -> (r: usize)
    ensures
        r == count_on(bit_set_bits(*s)),
{
    s.len()
}

/// `BitSet::clone`: a set backed by the same bits.
#[verifier::external_body]
pub(crate) fn bit_set_clone(s: &BitSet) -> (r: BitSet)
    ensures
        bit_set_bits(r) == bit_set_bits(*s),
{
    s.clone()
}

/// `BitSet::eq`: the two sets have the same members (the lengths of the
/// backing vectors play no part).
#[verifier::external_body]
pub(crate) fn bit_set_eq(s: &BitSet, other: &BitSet) -> (r: bool)
    ensures
        r == (bits_members(bit_set_bits(*s)) == bits_members(bit_set_bits(*other))),
{
    s == other
}

/// `BitSet::intersection`, collected: the common members in increasing order.
#[verifier::external_body]
pub(crate) fn bit_set_intersection(s: &BitSet, other: &BitSet) -> (r: Vec<usize>)
    ensures
        forall|i: int, j: int| 0 <= i < j < r@.len() ==> r@[i] < r@[j],
        r@.to_set() == bits_members(bit_set_bits(*s)).intersect(bits_members(bit_set_bits(*other))),
{
    s.intersection(other).collect()
}

/// `BitSet::into_bit_vec`: the backing bit vector.
#[verifier::external_body]
pub(crate) fn bit_set_into_bit_vec(s: BitSet) -> (r: BitVec)
    ensures
        bit_vec_bits(r) == bit_set_bits(s),
{
    s.into_bit_vec()
}

/// `BitSet::from_bit_vec`: a set backed by the given bit vector.
#[verifier::external_body]
pub(crate) fn bit_set_from_bit_vec(v: BitVec) -> (r: BitSet)
    ensures
        bit_set_bits(r) == bit_vec_bits(v),
{
    BitSet::from_bit_vec(v)
}

/// `BitVec::to_bytes`: the bits packed eight per byte, most significant bit
/// first, the last byte padded with off bits.
#[verifier::external_body]
pub(crate) fn bit_vec_to_bytes(v: &BitVec) -> (r: Vec<u8>)
    ensures
        r@ == bits_to_bytes(bit_vec_bits(*v)),
{
    v.to_bytes()
}

/// `BitVec::from_bytes`: eight bits per byte, most significant bit first.
#[verifier::external_body]
pub(crate) fn bit_vec_from_bytes(bytes: &[u8]) -> (r: BitVec)
    requires
        bytes@.len() * 8 <= usize::MAX,
    ensures
        bit_vec_bits(r) == bytes_to_bits(bytes@),
{
    BitVec::from_bytes(bytes)
}

/// `BitVec::truncate`: keeps the first `len` bits when there are more.
#[verifier::external_body]
pub(crate) fn bit_vec_truncate(v: &mut BitVec, len: usize)
    ensures
        bit_vec_bits(*final(v)) == if len < bit_vec_bits(*old(v)).len() {
            bit_vec_bits(*old(v)).take(len as int)
        } else {
            bit_vec_bits(*old(v))
        },
{
    v.truncate(len)
}

} // verus!
