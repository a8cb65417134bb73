//! Sets of component indices, backed by a `bit_set::BitSet`.
use crate::bits::{
    bit_set_bits, bit_set_clone, bit_set_contains, bit_set_eq, bit_set_from_bit_vec,
    bit_set_insert, bit_set_intersection, bit_set_into_bit_vec, bit_set_is_disjoint,
    bit_set_is_superset, bit_set_len, bit_set_remove, bit_set_union_with, bit_set_with_capacity,
    bit_vec_from_bytes, bit_vec_to_bytes, bit_vec_truncate, bits_members, bits_to_bytes,
    bytes_to_bits, count_on, bit_at, byte_bit, pack8,
};
use bit_set::BitSet;
use vstd::prelude::*;

verus! {

/// Identifies a registered component by its index in the registry.
#[derive(Clone, Copy, PartialEq, Eq, Structural, Debug, Hash)]
pub struct ComponentDesc {
    pub index: u32,
}

impl ComponentDesc {
    pub fn new(index: u32) -> (r: Self)
        ensures
            r.index == index,
    {
        ComponentDesc { index }
    }

    pub fn index(&self) -> (r: u32)
        ensures
            r == self.index,
    {
        self.index
    }
}

/// A set of component indices.
pub struct ComponentSet(pub BitSet);

/// The serialized form of a component set: a count and the packed bits.
pub struct ComponentSetSerialized(pub u64, pub Vec<u8>);

impl ComponentSet {
    /// The indices in the set.
    pub open spec fn members(&self) -> Set<usize> {
        bits_members(bit_set_bits(self.0))
    }

    /// The bits of the backing vector.
    pub open spec fn bits(&self) -> Seq<bool> {
        bit_set_bits(self.0)
    }

    /// An empty set with room for `component_count` components (the number of
    /// components in the registry).
    pub fn new(component_count: usize) -> (r: Self)
        ensures
            r.members() == Set::<usize>::empty(),
            r.bits().len() == component_count,
    {
        let r = ComponentSet(bit_set_with_capacity(component_count));
        assert(r.members() =~= Set::<usize>::empty());
        r
    }

    pub fn insert(&mut self, component: ComponentDesc)
        requires
            (component.index as usize) < usize::MAX,
        ensures
            final(self).members() == old(self).members().insert(component.index as usize),
    {
        self.insert_by_index(component.index as usize)
    }

    pub fn insert_by_index(&mut self, component_index: usize)
        requires
            component_index < usize::MAX,
        ensures
            final(self).members() == old(self).members().insert(component_index),
    {
        bit_set_insert(&mut self.0, component_index);
        assert(self.members() =~= old(self).members().insert(component_index));
    }

    pub fn remove(&mut self, component: ComponentDesc)
        ensures
            final(self).members() == old(self).members().remove(component.index as usize),
    {
        self.remove_by_index(component.index as usize)
    }

    pub fn remove_by_index(&mut self, component_index: usize)
        ensures
            final(self).members() == old(self).members().remove(component_index),
    {
        bit_set_remove(&mut self.0, component_index);
        assert(self.members() =~= old(self).members().remove(component_index));
    }

    pub fn union_with(&mut self, rhs: &ComponentSet)
        ensures
            final(self).members() == old(self).members().union(rhs.members()),
    {
        bit_set_union_with(&mut self.0, &rhs.0);
        assert(self.members() =~= old(self).members().union(rhs.members()));
    }

    pub fn contains(&self, desc: ComponentDesc) -> (r: bool)
        ensures
            r == self.members().contains(desc.index as usize),
    {
        self.contains_index(desc.index as usize)
    }

    pub fn contains_index(&self, component_index: usize) -> (r: bool)
        ensures
            r == self.members().contains(component_index),
    {
        bit_set_contains(&self.0, component_index)
    }

    pub fn is_superset(&self, other: &ComponentSet) -> (r: bool)
        ensures
            r == other.members().subset_of(self.members()),
    {
        bit_set_is_superset(&self.0, &other.0)
    }

    pub fn is_disjoint(&self, other: &ComponentSet) -> (r: bool)
        ensures
            r == self.members().disjoint(other.members()),
    {
        bit_set_is_disjoint(&self.0, &other.0)
    }

    /// The indices in both sets, in increasing order.
    pub fn intersection(&self, rhs: &ComponentSet) -> (r: Vec<usize>)
        ensures
            forall|i: int, j: int| 0 <= i < j < r@.len() ==> r@[i] < r@[j],
            r@.to_set() == self.members().intersect(rhs.members()),
    {
        bit_set_intersection(&self.0, &rhs.0)
    }

    /// Whether the two sets have the same members.
    pub fn eq(&self, other: &ComponentSet) -> (r: bool)
        ensures
            r == (self.members() == other.members()),
    {
        bit_set_eq(&self.0, &other.0)
    }

    pub fn clone(&self) -> (r: ComponentSet)
        ensures
            r.bits() == self.bits(),
    {
        ComponentSet(bit_set_clone(&self.0))
    }

    /// The serialized form: the number of members, and the backing bits
    /// packed eight per byte, most significant bit first.
    pub fn to_serialized(&self) -> (r: ComponentSetSerialized)
        ensures
            r.0 == count_on(self.bits()),
            r.1@ == bits_to_bytes(self.bits()),
    {
        let count = bit_set_len(&self.0);
        let bv = bit_set_into_bit_vec(bit_set_clone(&self.0));
        let bytes = bit_vec_to_bytes(&bv);
        ComponentSetSerialized(count as u64, bytes)
    }

    /// Rebuilds a set from its serialized form: the bytes unpacked, the bits
    /// cut to the length given by the count.
    pub fn from_serialized(css: &ComponentSetSerialized) -> (r: ComponentSet)
        requires
            css.1@.len() * 8 <= usize::MAX,
        ensures
            r.bits() == if (css.0 as usize) < bytes_to_bits(css.1@).len() {
                bytes_to_bits(css.1@).take((css.0 as usize) as int)
            } else {
                bytes_to_bits(css.1@)
            },
    {
        let mut bv = bit_vec_from_bytes(css.1.as_slice());
        bit_vec_truncate(&mut bv, css.0 as usize);
        ComponentSet(bit_set_from_bit_vec(bv))
    }
}

/// The bits of a packed byte are the bits it was packed from.
proof fn lemma_pack8_bits(b0: bool, b1: bool, b2: bool, b3: bool, b4: bool, b5: bool, b6: bool, b7: bool)
    ensures
        byte_bit(pack8(b0, b1, b2, b3, b4, b5, b6, b7), 0) == b0,
        byte_bit(pack8(b0, b1, b2, b3, b4, b5, b6, b7), 1) == b1,
        byte_bit(pack8(b0, b1, b2, b3, b4, b5, b6, b7), 2) == b2,
        byte_bit(pack8(b0, b1, b2, b3, b4, b5, b6, b7), 3) == b3,
        byte_bit(pack8(b0, b1, b2, b3, b4, b5, b6, b7), 4) == b4,
        byte_bit(pack8(b0, b1, b2, b3, b4, b5, b6, b7), 5) == b5,
        byte_bit(pack8(b0, b1, b2, b3, b4, b5, b6, b7), 6) == b6,
        byte_bit(pack8(b0, b1, b2, b3, b4, b5, b6, b7), 7) == b7,
{
    let x = pack8(b0, b1, b2, b3, b4, b5, b6, b7);
    assert(((x >> 7u8) & 1u8 == 1u8) == b0 && ((x >> 6u8) & 1u8 == 1u8) == b1 && ((x >> 5u8) & 1u8
        == 1u8) == b2 && ((x >> 4u8) & 1u8 == 1u8) == b3 && ((x >> 3u8) & 1u8 == 1u8) == b4 && ((x
        >> 2u8) & 1u8 == 1u8) == b5 && ((x >> 1u8) & 1u8 == 1u8) == b6 && ((x >> 0u8) & 1u8 == 1u8)
        == b7) by (bit_vector)
        requires
            x == pack8(b0, b1, b2, b3, b4, b5, b6, b7),
    ;
}

/// Unpacking the packed bits gives the bits back, followed by off bits up
/// to a whole number of bytes.
pub proof fn lemma_bytes_round_trip(bits: Seq<bool>)
    ensures
        bytes_to_bits(bits_to_bytes(bits)).len() >= bits.len(),
        forall|k: int|
            0 <= k < bytes_to_bits(bits_to_bytes(bits)).len() ==> #[trigger] bytes_to_bits(
                bits_to_bytes(bits),
            )[k] == bit_at(bits, k),
{
    let bytes = bits_to_bytes(bits);
    let b = bytes_to_bits(bytes);
    assert forall|k: int| 0 <= k < b.len() implies #[trigger] b[k] == bit_at(bits, k) by {
        let i = k / 8;
        let j = k % 8;
        assert(k == 8 * i + j);
        assert(0 <= i < bytes.len());
        lemma_pack8_bits(
            bit_at(bits, 8 * i),
            bit_at(bits, 8 * i + 1),
            bit_at(bits, 8 * i + 2),
            bit_at(bits, 8 * i + 3),
            bit_at(bits, 8 * i + 4),
            bit_at(bits, 8 * i + 5),
            bit_at(bits, 8 * i + 6),
            bit_at(bits, 8 * i + 7),
        );
    }
}

/// The bits that a set of `bits` has after being serialized and rebuilt:
/// the unpacked bits cut to the serialized count.
pub open spec fn round_trip_bits(bits: Seq<bool>) -> Seq<bool> {
    let unpacked = bytes_to_bits(bits_to_bytes(bits));
    let count = (count_on(bits) as u64) as usize;
    if count < unpacked.len() {
        unpacked.take(count as int)
    } else {
        unpacked
    }
}

/// No more bits are on than there are bits.
pub proof fn lemma_count_on_bound(bits: Seq<bool>)
    ensures
        count_on(bits) <= bits.len(),
    decreases bits.len(),
{
    if bits.len() > 0 {
        lemma_count_on_bound(bits.drop_last());
    }
}

/// A serialized set keeps, once rebuilt, exactly its members that are below
/// its number of members: the count stored with the bits is the number of
/// members, and the rebuilt bits are cut to it.
pub proof fn lemma_serialization_round_trip(bits: Seq<bool>)
    requires
        bits.len() <= usize::MAX,
    ensures
        bits_members(round_trip_bits(bits)) == bits_members(bits).filter(
            |i: usize| i < count_on(bits),
        ),
{
    lemma_bytes_round_trip(bits);
    lemma_count_on_bound(bits);
    let unpacked = bytes_to_bits(bits_to_bytes(bits));
    let c = count_on(bits);
    assert((c as u64) as usize == c);
    let r = round_trip_bits(bits);
    assert forall|i: usize| bits_members(r).contains(i) <==> bits_members(bits).filter(
        |i: usize| i < count_on(bits),
    ).contains(i) by {
        if (i as int) < unpacked.len() {
            assert(unpacked[i as int] == bit_at(bits, i as int));
        }
    }
    assert(bits_members(r) =~= bits_members(bits).filter(|i: usize| i < count_on(bits)));
}

} // verus!
