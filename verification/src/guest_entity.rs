//! An entity as a guest holds it: a collection of component values, each
//! under the index of its component.
use std::collections::HashMap;
use vstd::prelude::*;
use vstd::std_specs::iter::IteratorSpec;

verus! {

/// Component values, each under the index of its component.
#[derive(Debug)]
pub struct Entity<V> {
    components: HashMap<u32, V>,
}

impl<V> View for Entity<V> {
    type V = Map<u32, V>;

    closed spec fn view(&self) -> Map<u32, V> {
        self.components@
    }
}

/// The keys of `m`, each once.
fn keys_of<V>(m: &HashMap<u32, V>) -> (r: Vec<u32>)
    ensures
        r@.to_set() == m@.dom(),
        r@.no_duplicates(),
{
    broadcast use vstd::std_specs::hash::group_hash_axioms;

    let mut r: Vec<u32> = Vec::new();
    let ghost keys = vstd::std_specs::hash::spec_keys_iter(m).remaining();
    for k in it: m.keys()
        invariant
            it.seq() == keys,
            r@ == it.seq().take(it.index()).map_values(|x: &u32| *x),
    {
        r.push(*k);
    }
    assert(r@ =~= keys.unref()) by {
        assert(keys.take(keys.len() as int) =~= keys);
    }
    r
}

impl<V> Entity<V> {
    /// An entity with no components.
    pub fn new() -> (r: Self)
        ensures
            r@ == Map::<u32, V>::empty(),
    {
        Entity { components: HashMap::new() }
    }

    /// The number of component values.
    pub fn len(&self) -> (r: usize)
        ensures
            r == self@.len(),
    {
        self.components.len()
    }

    /// Whether there are no component values.
    pub fn is_empty(&self) -> (r: bool)
        ensures
            r == (self@ == Map::<u32, V>::empty()),
    {
        broadcast use vstd::std_specs::hash::group_hash_axioms;

        let r = self.components.len() == 0;
        proof {
            if !r {
                assert(self@.dom().len() > 0);
                assert(self@ != Map::<u32, V>::empty());
            } else {
                assert(self@.dom() =~= Set::<u32>::empty());
                assert(self@ =~= Map::<u32, V>::empty());
            }
        }
        r
    }

    /// Whether the component at `index` has a value.
    pub fn has(&self, index: u32) -> (r: bool)
        ensures
            r == self@.contains_key(index),
    {
        self.components.contains_key(&index)
    }

    /// Whether every component of `indices` has a value.
    pub fn has_components(&self, indices: &[u32]) -> (r: bool)
        ensures
            r == forall|i: int| 0 <= i < indices@.len() ==> self@.contains_key(#[trigger] indices@[i]),
    {
        let mut i: usize = 0;
        while i < indices.len()
            invariant
                i <= indices@.len(),
                forall|j: int| 0 <= j < i ==> self@.contains_key(#[trigger] indices@[j]),
            decreases indices@.len() - i,
        {
            if !self.components.contains_key(&indices[i]) {
                return false;
            }
            i = i + 1;
        }
        true
    }

    /// The value of the component at `index`, if it has one.
    pub fn get_ref(&self, index: u32) -> (r: Option<&V>)
        ensures
            r is Some <==> self@.contains_key(index),
            r matches Some(v) ==> *v == self@[index],
    {
        self.components.get(&index)
    }

    /// Gives the component at `index` the value `value`, replacing the one it
    /// had.
    pub fn set(&mut self, index: u32, value: V)
        ensures
            final(self)@ == old(self)@.insert(index, value),
    {
        self.components.insert(index, value);
    }

    /// This entity, with the component at `index` given `value`.
    pub fn with(self, index: u32, value: V) -> (r: Self)
        ensures
            r@ == self@.insert(index, value),
    {
        let mut r = self;
        r.set(index, value);
        r
    }

    /// This entity, without the component at `index`.
    pub fn without(self, index: u32) -> (r: Self)
        ensures
            r@ == self@.remove(index),
    {
        let mut r = self;
        r.components.remove(&index);
        r
    }

    /// Takes away the component at `index`, giving back its value if it had
    /// one.
    pub fn remove(&mut self, index: u32) -> (r: Option<V>)
        ensures
            final(self)@ == old(self)@.remove(index),
            r is Some <==> old(self)@.contains_key(index),
            r matches Some(v) ==> v == old(self)@[index],
    {
        self.components.remove(&index)
    }

    /// Adds the components of `other`, whose values replace those that this
    /// entity has for the same components.
    pub fn merge(&mut self, other: Entity<V>)
        ensures
            final(self)@ == old(self)@.union_prefer_right(other@),
    {
        broadcast use vstd::std_specs::hash::group_hash_axioms;

        let ghost start = self@;
        let ghost incoming = other@;
        let mut other = other;
        let keys = keys_of(&other.components);
        let mut i: usize = 0;
        while i < keys.len()
            invariant
                keys@.to_set() == incoming.dom(),
                keys@.no_duplicates(),
                i <= keys@.len(),
                other@ == incoming.remove_keys(keys@.take(i as int).to_set()),
                self@ == start.union_prefer_right(incoming.restrict(keys@.take(i as int).to_set())),
            decreases keys@.len() - i,
        {
            let k = keys[i];
            let ghost done = keys@.take(i as int).to_set();
            assert(keys@.take(i + 1).to_set() =~= done.insert(k)) by {
                assert(keys@.take(i + 1) =~= keys@.take(i as int).push(k));
                broadcast use vstd::seq_lib::group_seq_properties;
            }
            assert(keys@.to_set().contains(k)) by {
                assert(keys@.contains(k));
            }
            assert(!done.contains(k)) by {
                if done.contains(k) {
                    assert(keys@.take(i as int).contains(k));
                    let j = choose|j: int| 0 <= j < i && keys@.take(i as int)[j] == k;
                    assert(keys@[j] == keys@[i as int]);
                }
            }
            match other.components.remove(&k) {
                Some(v) => {
                    self.components.insert(k, v);
                },
                None => {
                    assert(false);
                },
            }
            assert(other@ =~= incoming.remove_keys(keys@.take(i + 1).to_set()));
            assert(self@ =~= start.union_prefer_right(incoming.restrict(keys@.take(i + 1).to_set())));
            i = i + 1;
        }
        assert(keys@.take(keys@.len() as int) =~= keys@);
        assert(incoming.restrict(keys@.to_set()) =~= incoming);
    }

    /// This entity with the components of `other` added, whose values
    /// replace those it has for the same components.
    pub fn with_merge(self, other: Entity<V>) -> (r: Self)
        ensures
            r@ == self@.union_prefer_right(other@),
    {
        let mut r = self;
        r.merge(other);
        r
    }
}

/// A value set is the value read back; other components keep theirs.
pub proof fn lemma_get_after_set<V>(m: Map<u32, V>, index: u32, value: V, other: u32)
    ensures
        m.insert(index, value).contains_key(index) && m.insert(index, value)[index] == value,
        other != index ==> m.insert(index, value).contains_key(other) == m.contains_key(other),
        other != index && m.contains_key(other) ==> m.insert(index, value)[other] == m[other],
{
}

/// A component taken away is not there any more, and merging with an empty
/// entity changes nothing.
pub proof fn lemma_remove_and_merge<V>(m: Map<u32, V>, index: u32)
    ensures
        !m.remove(index).contains_key(index),
        m.union_prefer_right(Map::empty()) == m,
        Map::<u32, V>::empty().union_prefer_right(m) == m,
{
    assert(m.union_prefer_right(Map::empty()) =~= m);
    assert(Map::<u32, V>::empty().union_prefer_right(m) =~= m);
}

} // verus!
