//! The data of one entity: a sparse vector of component values, indexed by
//! component, together with the set of components that hold a value.
use crate::attributes::AttributeKind;
use crate::component_registry::{lemma_path_index_of_entry, path_index, paths_distinct, ComponentRegistry, RegistryEntry};
use crate::component_set::{ComponentDesc, ComponentSet};
use vstd::prelude::*;

verus! {

/// Whether `members` names exactly the slots of `content` that hold a value.
pub open spec fn in_sync<V>(content: Seq<Option<V>>, members: Set<usize>) -> bool {
    &&& content.len() <= u32::MAX + 1
    &&& forall|i: usize| #[trigger] members.contains(i) <==> (i < content.len() && content[i as int] is Some)
}

/// The component values held by `content`, each under its component index.
pub open spec fn content_map<V>(content: Seq<Option<V>>) -> Map<u32, V> {
    Map::new(
        |i: u32| (i as int) < content.len() && content[i as int] is Some,
        |i: u32| content[i as int]->0,
    )
}

/// The part of `m` whose components carry an attribute of kind `kind` in the
/// registry `entries`.
pub open spec fn with_attribute<T, V>(m: Map<u32, V>, entries: Seq<RegistryEntry<T>>, kind: AttributeKind) -> Map<u32, V> {
    m.restrict(Set::new(|k: u32| (k as int) < entries.len() && entries[k as int].attributes.contains_key(kind)))
}

/// The indices of the first `n` components of `comps`.
pub open spec fn indices_before(comps: Seq<ComponentDesc>, n: int) -> Set<u32> {
    Set::new(|k: u32| exists|a: int| 0 <= a < n && #[trigger] comps[a].index == k)
}

/// The data of an entity: its component values, and the set of components
/// that hold one.
pub struct Entity<V> {
    content: Vec<Option<V>>,
    active_components: ComponentSet,
}

impl<V> View for Entity<V> {
    type V = Map<u32, V>;

    closed spec fn view(&self) -> Map<u32, V> {
        content_map(self.content@)
    }
}

/// Gives slot `index` the value `value`, growing `content` as needed, and
/// records the component in `active`.
fn set_parts<V>(content: &mut Vec<Option<V>>, active: &mut ComponentSet, index: u32, value: V)
    requires
        in_sync(old(content)@, old(active).members()),
        (index as usize) < usize::MAX,
    ensures
        in_sync(final(content)@, final(active).members()),
        content_map(final(content)@) == content_map(old(content)@).insert(index, value),
{
    let ghost before = content@;
    let idx = index as usize;
    while content.len() <= idx
        invariant
            idx < usize::MAX,
            before.len() <= content@.len(),
            content@.len() > before.len() ==> content@.len() <= idx + 1,
            forall|i: int| 0 <= i < before.len() ==> content@[i] == before[i],
            forall|i: int| before.len() <= i < content@.len() ==> content@[i] is None,
        decreases idx + 1 - content@.len(),
    {
        content.push(None);
    }
    content.set(idx, Some(value));
    active.insert(ComponentDesc::new(index));
    assert(content_map(content@) =~= content_map(before).insert(index, value));
}

/// Empties slot `index` and takes the component out of `active`, giving back
/// the value the slot held.
fn remove_parts<V>(content: &mut Vec<Option<V>>, active: &mut ComponentSet, index: u32) -> (r: Option<V>)
    requires
        in_sync(old(content)@, old(active).members()),
    ensures
        in_sync(final(content)@, final(active).members()),
        content_map(final(content)@) == content_map(old(content)@).remove(index),
        r is Some <==> content_map(old(content)@).contains_key(index),
        r matches Some(v) ==> v == content_map(old(content)@)[index],
{
    let ghost before = content@;
    let idx = index as usize;
    if idx < content.len() {
        let mut slot: Option<V> = None;
        content.set_and_swap(idx, &mut slot);
        if slot.is_some() {
            active.remove(ComponentDesc::new(index));
        }
        assert(content_map(content@) =~= content_map(before).remove(index));
        slot
    } else {
        assert(content_map(content@) =~= content_map(before).remove(index));
        None
    }
}

impl<V> Entity<V> {
    #[verifier::type_invariant]
    closed spec fn synced(self) -> bool {
        in_sync(self.content@, self.active_components.members())
    }

    /// An entity with no components.
    pub fn new() -> (r: Self)
        ensures
            r@ == Map::<u32, V>::empty(),
    {
        let r = Entity { content: Vec::new(), active_components: ComponentSet::new(0) };
        assert(r@ =~= Map::<u32, V>::empty());
        r
    }

    /// The value of `component`, if it has one.
    pub fn get_ref(&self, component: ComponentDesc) -> (r: Option<&V>)
        ensures
            r is Some <==> self@.contains_key(component.index),
            r matches Some(v) ==> *v == self@[component.index],
    {
        let idx = component.index as usize;
        if idx < self.content.len() {
            match &self.content[idx] {
                Some(v) => Some(v),
                None => None,
            }
        } else {
            None
        }
    }

    /// A copy of the value of `component`, if it has one.
    pub fn get(&self, component: ComponentDesc) -> (r: Option<V>)
        where V: Copy,
        ensures
            r is Some <==> self@.contains_key(component.index),
            r matches Some(v) ==> v == self@[component.index],
    {
        match self.get_ref(component) {
            Some(v) => Some(*v),
            None => None,
        }
    }

    /// A clone of the value of `component`, if it has one.
    pub fn get_cloned(&self, component: ComponentDesc) -> (r: Option<V>)
        where V: Clone,
        ensures
            r is Some <==> self@.contains_key(component.index),
            r matches Some(v) ==> cloned(self@[component.index], v),
    {
        match self.get_ref(component) {
            Some(v) => Some(v.clone()),
            None => None,
        }
    }

    /// The value of `component` with its component, if it has one.
    pub fn get_entry(&self, component: ComponentDesc) -> (r: Option<(ComponentDesc, &V)>)
        ensures
            r is Some <==> self@.contains_key(component.index),
            r matches Some(e) ==> e.0 == component && *e.1 == self@[component.index],
    {
        match self.get_ref(component) {
            Some(v) => Some((component, v)),
            None => None,
        }
    }

    /// Whether `component` has a value.
    pub fn contains(&self, component: ComponentDesc) -> (r: bool)
        ensures
            r == self@.contains_key(component.index),
    {
        self.get_ref(component).is_some()
    }

    /// The set of components that have a value.
    pub fn active_components(&self) -> (r: &ComponentSet)
        ensures
            forall|i: usize| #[trigger] r.members().contains(i) <==> (i <= u32::MAX && self@.contains_key(i as u32)),
    {
        proof {
            use_type_invariant(self);
        }
        &self.active_components
    }

    /// Gives `component` the value `value`, replacing the one it had.
    pub fn set(&mut self, component: ComponentDesc, value: V)
        requires
            (component.index as usize) < usize::MAX,
        ensures
            final(self)@ == old(self)@.insert(component.index, value),
    {
        proof {
            use_type_invariant(&*self);
        }
        let mut taken = Entity::new();
        std::mem::swap(self, &mut taken);
        let Entity { mut content, mut active_components } = taken;
        set_parts(&mut content, &mut active_components, component.index, value);
        *self = Entity { content, active_components };
    }

    /// This entity, with `component` given `value`.
    pub fn with(self, component: ComponentDesc, value: V) -> (r: Self)
        requires
            (component.index as usize) < usize::MAX,
        ensures
            r@ == self@.insert(component.index, value),
    {
        let mut r = self;
        r.set(component, value);
        r
    }

    /// Gives the component of `entry` the value of `entry`.
    pub fn set_entry(&mut self, entry: (ComponentDesc, V))
        requires
            (entry.0.index as usize) < usize::MAX,
        ensures
            final(self)@ == old(self)@.insert(entry.0.index, entry.1),
    {
        let (component, value) = entry;
        self.set(component, value);
    }

    /// This entity, with `component` given the default value of its type.
    pub fn with_default(self, component: ComponentDesc) -> (r: Self)
        where V: Default,
        requires
            (component.index as usize) < usize::MAX,
        ensures
            r@.contains_key(component.index),
            call_ensures(V::default, (), r@[component.index]),
            r@.remove(component.index) == self@.remove(component.index),
    {
        let v = V::default();
        let r = self.with(component, v);
        assert(r@.remove(component.index) =~= self@.remove(component.index));
        r
    }

    /// This entity, with `component` given the default value of its type
    /// unless it already has a value.
    pub fn with_default_if_empty(self, component: ComponentDesc) -> (r: Self)
        where V: Default,
        requires
            (component.index as usize) < usize::MAX,
        ensures
            self@.contains_key(component.index) ==> r@ == self@,
            !self@.contains_key(component.index) ==> {
                &&& r@.contains_key(component.index)
                &&& call_ensures(V::default, (), r@[component.index])
                &&& r@.remove(component.index) == self@.remove(component.index)
            },
    {
        if self.contains(component) {
            self
        } else {
            self.with_default(component)
        }
    }

    /// This entity, with `component` given the value in `value` if there is
    /// one.
    pub fn with_opt(self, component: ComponentDesc, value: Option<V>) -> (r: Self)
        requires
            (component.index as usize) < usize::MAX,
        ensures
            value matches Some(v) ==> r@ == self@.insert(component.index, v),
            value is None ==> r@ == self@,
    {
        let mut r = self;
        if let Some(v) = value {
            r.set(component, v);
        }
        r
    }

    /// This entity, with `component` given `value` unless it already has a
    /// value.
    pub fn with_if_empty(self, component: ComponentDesc, value: V) -> (r: Self)
        requires
            (component.index as usize) < usize::MAX,
        ensures
            self@.contains_key(component.index) ==> r@ == self@,
            !self@.contains_key(component.index) ==> r@ == self@.insert(component.index, value),
    {
        let mut r = self;
        if !r.contains(component) {
            r.set(component, value);
        }
        r
    }

    /// Takes away the value of `component`, giving it back if there was one.
    pub fn remove_raw(&mut self, component: ComponentDesc) -> (r: Option<V>)
        ensures
            final(self)@ == old(self)@.remove(component.index),
            r is Some <==> old(self)@.contains_key(component.index),
            r matches Some(v) ==> v == old(self)@[component.index],
    {
        proof {
            use_type_invariant(&*self);
        }
        let mut taken = Entity::new();
        std::mem::swap(self, &mut taken);
        let Entity { mut content, mut active_components } = taken;
        let r = remove_parts(&mut content, &mut active_components, component.index);
        *self = Entity { content, active_components };
        r
    }

    /// Takes away the value of `component`, giving it back if there was one.
    pub fn remove_self(&mut self, component: ComponentDesc) -> (r: Option<V>)
        ensures
            final(self)@ == old(self)@.remove(component.index),
            r is Some <==> old(self)@.contains_key(component.index),
            r matches Some(v) ==> v == old(self)@[component.index],
    {
        self.remove_raw(component)
    }

    /// This entity, without `component`.
    pub fn remove(self, component: ComponentDesc) -> (r: Self)
        ensures
            r@ == self@.remove(component.index),
    {
        let mut r = self;
        r.remove_self(component);
        r
    }

    /// The components that have a value, in increasing order of index.
    pub fn components(&self) -> (r: Vec<ComponentDesc>)
        ensures
            forall|i: int, j: int| 0 <= i < j < r@.len() ==> r@[i].index < r@[j].index,
            forall|k: u32| self@.contains_key(k) <==> exists|i: int| 0 <= i < r@.len() && #[trigger] r@[i].index == k,
    {
        proof {
            use_type_invariant(self);
        }
        let mut r: Vec<ComponentDesc> = Vec::new();
        let mut i: usize = 0;
        while i < self.content.len()
            invariant
                i <= self.content@.len() <= u32::MAX + 1,
                forall|a: int, b: int| 0 <= a < b < r@.len() ==> r@[a].index < r@[b].index,
                forall|a: int| 0 <= a < r@.len() ==> r@[a].index < i,
                forall|k: u32| (k < i && self@.contains_key(k)) <==> exists|a: int| 0 <= a < r@.len() && #[trigger] r@[a].index == k,
            decreases self.content@.len() - i,
        {
            if self.content[i].is_some() {
                let ghost old_r = r@;
                r.push(ComponentDesc::new(i as u32));
                assert forall|k: u32| (k < i + 1 && self@.contains_key(k)) implies exists|a: int| 0 <= a < r@.len() && #[trigger] r@[a].index == k by {
                    if k == i as u32 {
                        assert(r@[old_r.len() as int].index == k);
                    } else {
                        let a = choose|a: int| 0 <= a < old_r.len() && #[trigger] old_r[a].index == k;
                        assert(r@[a].index == k);
                    }
                }
                assert forall|k: u32| (exists|a: int| 0 <= a < r@.len() && #[trigger] r@[a].index == k) implies (k < i + 1 && self@.contains_key(k)) by {
                    let a = choose|a: int| 0 <= a < r@.len() && #[trigger] r@[a].index == k;
                    if a < old_r.len() {
                        assert(old_r[a].index == k);
                    }
                }
            } else {
                assert forall|k: u32| (k < i + 1 && self@.contains_key(k)) <==> (k < i && self@.contains_key(k)) by {}
            }
            i = i + 1;
        }
        r
    }

    /// Takes away every component for which `keep` answers `false`; a
    /// component that stays was answered `true`.
    pub fn filter<F: Fn(ComponentDesc) -> bool>(&mut self, keep: F)
        requires
            forall|d: ComponentDesc| call_requires(keep, (d,)),
        ensures
            forall|k: u32| #[trigger] final(self)@.contains_key(k) ==> old(self)@.contains_key(k)
                && final(self)@[k] == old(self)@[k] && call_ensures(keep, ((ComponentDesc { index: k }),), true),
            forall|k: u32| old(self)@.contains_key(k) && !(#[trigger] final(self)@.contains_key(k))
                ==> call_ensures(keep, ((ComponentDesc { index: k }),), false),
    {
        let comps = self.components();
        let mut i: usize = 0;
        while i < comps.len()
            invariant
                forall|d: ComponentDesc| call_requires(keep, (d,)),
                i <= comps@.len(),
                forall|a: int, b: int| 0 <= a < b < comps@.len() ==> comps@[a].index < comps@[b].index,
                forall|k: u32| old(self)@.contains_key(k) <==> exists|a: int| 0 <= a < comps@.len() && #[trigger] comps@[a].index == k,
                forall|k: u32| #[trigger] self@.contains_key(k) ==> old(self)@.contains_key(k) && self@[k] == old(self)@[k],
                forall|a: int| i <= a < comps@.len() ==> #[trigger] self@.contains_key(comps@[a].index),
                forall|a: int| 0 <= a < i && #[trigger] self@.contains_key(comps@[a].index) ==> call_ensures(keep, (comps@[a],), true),
                forall|a: int| 0 <= a < i && !(#[trigger] self@.contains_key(comps@[a].index)) ==> call_ensures(keep, (comps@[a],), false),
            decreases comps@.len() - i,
        {
            let c = comps[i];
            let kept = keep(c);
            if !kept {
                self.remove_raw(c);
            }
            i = i + 1;
        }
        assert forall|k: u32| #[trigger] self@.contains_key(k) implies call_ensures(keep, ((ComponentDesc { index: k }),), true) by {
            let a = choose|a: int| 0 <= a < comps@.len() && #[trigger] comps@[a].index == k;
            assert(comps@[a] == (ComponentDesc { index: k }));
        }
        assert forall|k: u32| old(self)@.contains_key(k) && !(#[trigger] self@.contains_key(k))
            implies call_ensures(keep, ((ComponentDesc { index: k }),), false) by {
            let a = choose|a: int| 0 <= a < comps@.len() && #[trigger] comps@[a].index == k;
            assert(comps@[a] == (ComponentDesc { index: k }));
        }
    }

    /// Takes away every component that has no attribute of kind `kind` in
    /// `registry`.
    fn retain_with_attribute<T: Copy>(&mut self, registry: &ComponentRegistry<T>, kind: AttributeKind)
        requires
            registry.wf(),
        ensures
            final(self)@ == with_attribute(old(self)@, registry@, kind),
    {
        let comps = self.components();
        let ghost start = self@;
        let ghost kept = with_attribute(start, registry@, kind).dom();
        let mut i: usize = 0;
        while i < comps.len()
            invariant
                registry.wf(),
                kept == with_attribute(start, registry@, kind).dom(),
                i <= comps@.len(),
                forall|k: u32| start.contains_key(k) <==> exists|a: int| 0 <= a < comps@.len() && #[trigger] comps@[a].index == k,
                self@ == start.remove_keys(indices_before(comps@, i as int).difference(kept)),
            decreases comps@.len() - i,
        {
            let c = comps[i];
            let keep = match registry.attributes(c.index) {
                Some(a) => a.has_kind(kind),
                None => false,
            };
            if !keep {
                self.remove_raw(c);
            }
            assert(indices_before(comps@, i + 1) =~= indices_before(comps@, i as int).insert(c.index)) by {
                assert forall|k: u32| #[trigger] indices_before(comps@, i + 1).contains(k) implies
                    indices_before(comps@, i as int).insert(c.index).contains(k) by {
                    let a = choose|a: int| 0 <= a < i + 1 && #[trigger] comps@[a].index == k;
                    if a < i {
                        assert(comps@[a].index == k);
                    }
                }
                assert(comps@[i as int].index == c.index);
            }
            assert(self@ =~= start.remove_keys(indices_before(comps@, i + 1).difference(kept)));
            i = i + 1;
        }
        assert(self@ =~= with_attribute(start, registry@, kind)) by {
            assert forall|k: u32| start.contains_key(k) implies #[trigger] indices_before(comps@, i as int).contains(k) by {
                let a = choose|a: int| 0 <= a < comps@.len() && #[trigger] comps@[a].index == k;
                assert(comps@[a].index == k);
            }
        }
    }

    /// The first component of this entity, by index, that has no attribute
    /// of kind `kind` in `registry`; `None` where every component has one.
    pub fn first_without_attribute<T: Copy>(&self, registry: &ComponentRegistry<T>, kind: AttributeKind) -> (r: Option<ComponentDesc>)
        requires
            registry.wf(),
            forall|k: u32| #[trigger] self@.contains_key(k) ==> (k as int) < registry@.len(),
        ensures
            r is None <==> forall|k: u32| #[trigger] self@.contains_key(k) ==> registry@[k as int].attributes.contains_key(kind),
            r matches Some(d) ==> {
                &&& self@.contains_key(d.index)
                &&& !registry@[d.index as int].attributes.contains_key(kind)
                &&& forall|k: u32| #[trigger] self@.contains_key(k) && k < d.index ==> registry@[k as int].attributes.contains_key(kind)
            },
    {
        let comps = self.components();
        let mut i: usize = 0;
        while i < comps.len()
            invariant
                registry.wf(),
                forall|k: u32| #[trigger] self@.contains_key(k) ==> (k as int) < registry@.len(),
                i <= comps@.len(),
                forall|a: int, b: int| 0 <= a < b < comps@.len() ==> comps@[a].index < comps@[b].index,
                forall|k: u32| self@.contains_key(k) <==> exists|a: int| 0 <= a < comps@.len() && #[trigger] comps@[a].index == k,
                forall|a: int| 0 <= a < i ==> registry@[(#[trigger] comps@[a]).index as int].attributes.contains_key(kind),
            decreases comps@.len() - i,
        {
            let c = comps[i];
            assert(self@.contains_key(c.index)) by {
                assert(comps@[i as int].index == c.index);
            }
            let present = match registry.attributes(c.index) {
                Some(a) => a.has_kind(kind),
                None => false,
            };
            if !present {
                assert forall|k: u32| #[trigger] self@.contains_key(k) && k < c.index implies registry@[k as int].attributes.contains_key(kind) by {
                    let a = choose|a: int| 0 <= a < comps@.len() && #[trigger] comps@[a].index == k;
                    if a >= i {
                        if a > i {
                            assert(comps@[i as int].index < comps@[a].index);
                        }
                    }
                    assert(registry@[(comps@[a]).index as int].attributes.contains_key(kind));
                }
                return Some(c);
            }
            i = i + 1;
        }
        assert forall|k: u32| #[trigger] self@.contains_key(k) implies registry@[k as int].attributes.contains_key(kind) by {
            let a = choose|a: int| 0 <= a < comps@.len() && #[trigger] comps@[a].index == k;
            assert(registry@[(comps@[a]).index as int].attributes.contains_key(kind));
        }
        None
    }

    /// Asserts that every component of this entity has an attribute of kind
    /// `kind` in `registry`. An entity with a component that has none is
    /// refused by the `requires` (the assertion would fail on it); test it
    /// with `first_without_attribute` first.
    pub fn assert_all<T: Copy>(&self, registry: &ComponentRegistry<T>, kind: AttributeKind)
        requires
            registry.wf(),
            forall|k: u32| #[trigger] self@.contains_key(k) ==> (k as int) < registry@.len(),
            forall|k: u32| #[trigger] self@.contains_key(k) ==> registry@[k as int].attributes.contains_key(kind),
    {
    }

    /// This entity without the components that are not serializable: those
    /// whose registry entry has no `Serializable` attribute.
    pub fn serializable<T: Copy>(self, registry: &ComponentRegistry<T>) -> (r: Self)
        requires
            registry.wf(),
        ensures
            r@ == with_attribute(self@, registry@, AttributeKind::Serializable),
    {
        let mut r = self;
        r.retain_with_attribute(registry, AttributeKind::Serializable);
        r
    }

    /// The number of components that have a value.
    pub fn len(&self) -> (r: usize)
        ensures
            self@.dom().finite(),
            r == self@.dom().len(),
    {
        let comps = self.components();
        let ghost idx = comps@.map_values(|d: ComponentDesc| d.index);
        proof {
            assert(idx.no_duplicates()) by {
                assert forall|i: int, j: int| 0 <= i < idx.len() && 0 <= j < idx.len() && i != j implies idx[i] != idx[j] by {
                    if i < j {
                        assert(comps@[i].index < comps@[j].index);
                    } else {
                        assert(comps@[j].index < comps@[i].index);
                    }
                }
            }
            assert(idx.to_set() =~= self@.dom()) by {
                assert forall|k: u32| idx.to_set().contains(k) <==> self@.dom().contains(k) by {
                    if self@.dom().contains(k) {
                        let a = choose|a: int| 0 <= a < comps@.len() && #[trigger] comps@[a].index == k;
                        assert(idx[a] == k);
                    }
                    if idx.to_set().contains(k) {
                        let a = choose|a: int| 0 <= a < idx.len() && idx[a] == k;
                        assert(comps@[a].index == k);
                    }
                }
            }
            idx.unique_seq_to_set();
        }
        comps.len()
    }

    /// Whether no component has a value.
    pub fn is_empty(&self) -> (r: bool)
        ensures
            r == (self@ == Map::<u32, V>::empty()),
    {
        let r = self.len() == 0;
        proof {
            if r {
                assert(self@.dom() =~= Set::<u32>::empty());
                assert(self@ =~= Map::<u32, V>::empty());
            } else {
                assert(self@.dom().len() > 0);
                assert(self@.dom() != Set::<u32>::empty());
            }
        }
        r
    }

    /// Adds the components of `other`, whose values replace those this
    /// entity has for the same components.
    pub fn merge(&mut self, other: Entity<V>)
        ensures
            final(self)@ == old(self)@.union_prefer_right(other@),
    {
        proof {
            use_type_invariant(&*self);
            use_type_invariant(&other);
        }
        let ghost start = self@;
        let ghost incoming = other@;
        let mut taken = Entity::new();
        std::mem::swap(self, &mut taken);
        let Entity { mut content, mut active_components } = taken;
        let Entity { content: mut rest, active_components: _ } = other;
        let ghost full = rest@;
        while rest.len() > 0
            invariant
                in_sync(content@, active_components.members()),
                full.len() <= u32::MAX + 1,
                rest@.len() <= full.len(),
                forall|i: int| 0 <= i < rest@.len() ==> rest@[i] == full[i],
                incoming == content_map(full),
                content_map(content@) == start.union_prefer_right(
                    incoming.restrict(Set::new(|k: u32| k >= rest@.len())),
                ),
            decreases rest@.len(),
        {
            let ghost before = content_map(content@);
            let slot = rest.pop();
            let j = rest.len();
            match slot {
                Some(Some(v)) => {
                    assert(j < usize::MAX);
                    set_parts(&mut content, &mut active_components, j as u32, v);
                },
                _ => {},
            }
            assert(content_map(content@) =~= start.union_prefer_right(
                incoming.restrict(Set::new(|k: u32| k >= rest@.len())),
            ));
        }
        assert(incoming.restrict(Set::new(|k: u32| k >= 0)) =~= incoming);
        *self = Entity { content, active_components };
    }

    /// This entity with the components of `other` added, whose values
    /// replace those it has for the same components.
    pub fn with_merge(self, other: Entity<V>) -> (r: Self)
        ensures
            r@ == self@.union_prefer_right(other@),
    {
        let mut r = self;
        r.merge(other);
        r
    }
}

/// The entity made by setting `entries` in order.
pub open spec fn entries_map<V>(entries: Seq<(ComponentDesc, V)>) -> Map<u32, V>
    decreases entries.len(),
{
    if entries.len() == 0 {
        Map::empty()
    } else {
        entries_map(entries.drop_last()).insert(entries.last().0.index, entries.last().1)
    }
}

impl<V> Entity<V> {
    /// The entity made by setting each of `entries` in order, a later entry
    /// for a component replacing an earlier one.
    pub fn from_entries(entries: Vec<(ComponentDesc, V)>) -> (r: Self)
        requires
            forall|i: int| 0 <= i < entries@.len() ==> (#[trigger] entries@[i].0.index as usize) < usize::MAX,
        ensures
            r@ == entries_map(entries@),
    {
        let ghost all = entries@;
        let total = entries.len();
        let mut rest = entries;
        let mut stack: Vec<(ComponentDesc, V)> = Vec::new();
        while rest.len() > 0
            invariant
                rest@ + stack@.reverse() == all,
            decreases rest@.len(),
        {
            let e = rest.pop().unwrap();
            let ghost old_stack = stack@;
            stack.push(e);
            assert(stack@.reverse() =~= seq![e] + old_stack.reverse());
        }
        assert(stack@.reverse() =~= all);
        let mut r = Entity::new();
        let mut n: usize = 0;
        while stack.len() > 0
            invariant
                forall|i: int| 0 <= i < all.len() ==> (#[trigger] all[i].0.index as usize) < usize::MAX,
                stack@.reverse() == all.skip(n as int),
                n <= all.len(),
                all.len() == total,
                r@ == entries_map(all.take(n as int)),
            decreases stack@.len(),
        {
            let ghost old_stack = stack@;
            let e = stack.pop().unwrap();
            assert(old_stack.reverse() =~= seq![e] + stack@.reverse());
            assert(n < all.len()) by {
                assert(old_stack.reverse().len() == old_stack.len());
            }
            assert(all[n as int] == e) by {
                assert(all.skip(n as int)[0] == e);
            }
            assert(all.take(n + 1).drop_last() =~= all.take(n as int));
            r.set_entry(e);
            assert(all.skip(n + 1) =~= all.skip(n as int).drop_first());
            n = n + 1;
        }
        assert(all.take(n as int) =~= all);
        r
    }

    /// Each component value with its component, in increasing order of
    /// index.
    pub fn into_entries(self) -> (r: Vec<(ComponentDesc, V)>)
        ensures
            forall|a: int, b: int| 0 <= a < b < r@.len() ==> r@[a].0.index < r@[b].0.index,
            forall|a: int| 0 <= a < r@.len() ==> self@.contains_key((#[trigger] r@[a]).0.index) && self@[r@[a].0.index] == r@[a].1,
            forall|k: u32| self@.contains_key(k) ==> exists|a: int| 0 <= a < r@.len() && (#[trigger] r@[a]).0.index == k,
    {
        proof {
            use_type_invariant(&self);
        }
        let ghost m = self@;
        let Entity { mut content, active_components: _ } = self;
        let ghost start = content@;
        let mut r: Vec<(ComponentDesc, V)> = Vec::new();
        let mut i: usize = 0;
        while i < content.len()
            invariant
                start.len() <= u32::MAX + 1,
                content@.len() == start.len(),
                m == content_map(start),
                i <= start.len(),
                forall|j: int| i <= j < start.len() ==> content@[j] == start[j],
                forall|a: int, b: int| 0 <= a < b < r@.len() ==> r@[a].0.index < r@[b].0.index,
                forall|a: int| 0 <= a < r@.len() ==> (#[trigger] r@[a]).0.index < i,
                forall|a: int| 0 <= a < r@.len() ==> m.contains_key((#[trigger] r@[a]).0.index) && m[r@[a].0.index] == r@[a].1,
                forall|k: u32| m.contains_key(k) && k < i ==> exists|a: int| 0 <= a < r@.len() && (#[trigger] r@[a]).0.index == k,
            decreases start.len() - i,
        {
            let mut slot: Option<V> = None;
            content.set_and_swap(i, &mut slot);
            match slot {
                Some(v) => {
                    let ghost old_r = r@;
                    let c = ComponentDesc::new(i as u32);
                    r.push((c, v));
                    assert(r@[old_r.len() as int].0.index == i);
                    assert forall|k: u32| m.contains_key(k) && k < i + 1 implies exists|a: int| 0 <= a < r@.len() && (#[trigger] r@[a]).0.index == k by {
                        if k < i {
                            let a = choose|a: int| 0 <= a < old_r.len() && (#[trigger] old_r[a]).0.index == k;
                            assert(r@[a] == old_r[a]);
                        } else {
                            assert(r@[old_r.len() as int].0.index == k);
                        }
                    }
                },
                None => {
                    assert forall|k: u32| m.contains_key(k) && k < i + 1 implies exists|a: int| 0 <= a < r@.len() && (#[trigger] r@[a]).0.index == k by {
                        if k == i {
                            assert(!m.contains_key(k));
                        }
                    }
                },
            }
            i = i + 1;
        }
        r
    }
}

/// What went wrong with one entry of a serialized entity.
#[derive(Debug, PartialEq, Eq)]
pub enum EntryProblem {
    /// No component is registered under the entry's path.
    NoSuchComponent,
    /// The component has no `Serializable` attribute.
    NotDeserializable(ComponentDesc),
    /// The value could not be read; the reader's message.
    BadValue(String),
}

/// An entry of a serialized entity that was left out, under its path.
#[derive(Debug, PartialEq, Eq)]
pub struct EntryWarning {
    pub key: String,
    pub problem: EntryProblem,
}

/// An entity read from its serialized entries, with a warning for each entry
/// that was left out.
pub struct DeserEntityDataWithWarnings<V> {
    pub entity: Entity<V>,
    pub warnings: Vec<EntryWarning>,
}

/// Whether the component at `i` of the registry can be read back.
pub open spec fn is_serializable<T>(reg: Seq<RegistryEntry<T>>, i: int) -> bool {
    reg[i].attributes.contains_key(AttributeKind::Serializable)
}

/// The problem with an entry under `path` whose value reading gave `out`
/// (`None` where the value was not read), if there is one.
pub open spec fn entry_problem<T, V>(reg: Seq<RegistryEntry<T>>, path: Seq<char>, out: Option<Result<V, String>>) -> Option<EntryProblem> {
    match path_index(reg, path) {
        None => Some(EntryProblem::NoSuchComponent),
        Some(i) => if !is_serializable(reg, i) {
            Some(EntryProblem::NotDeserializable(ComponentDesc { index: i as u32 }))
        } else {
            match out {
                Some(Err(e)) => Some(EntryProblem::BadValue(e)),
                _ => None,
            }
        },
    }
}

/// The entity read from the first `n` entries under `paths`, whose value
/// readings gave `outs`.
pub open spec fn read_entity<T, V>(reg: Seq<RegistryEntry<T>>, paths: Seq<Seq<char>>, outs: Seq<Option<Result<V, String>>>, n: int) -> Map<u32, V>
    decreases n,
{
    if n <= 0 {
        Map::empty()
    } else {
        let prev = read_entity(reg, paths, outs, n - 1);
        match (path_index(reg, paths[n - 1]), outs[n - 1]) {
            (Some(i), Some(Ok(v))) => if is_serializable(reg, i) { prev.insert(i as u32, v) } else { prev },
            _ => prev,
        }
    }
}

/// The warnings for the first `n` entries under `paths`, whose value
/// readings gave `outs`: each path with its problem, in order.
pub open spec fn read_warnings<T, V>(reg: Seq<RegistryEntry<T>>, paths: Seq<Seq<char>>, outs: Seq<Option<Result<V, String>>>, n: int) -> Seq<(Seq<char>, EntryProblem)>
    decreases n,
{
    if n <= 0 {
        Seq::empty()
    } else {
        let prev = read_warnings(reg, paths, outs, n - 1);
        match entry_problem(reg, paths[n - 1], outs[n - 1]) {
            Some(p) => prev.push((paths[n - 1], p)),
            None => prev,
        }
    }
}

/// Whether `outs` are answers `decode` may give on the first `n` entries:
/// an entry's value is read, with its component, exactly when the entry's
/// path names a serializable component.
pub open spec fn decoded_by<T, J, V, F: Fn(ComponentDesc, &J) -> Result<V, String>>(
    decode: F,
    reg: Seq<RegistryEntry<T>>,
    entries: Seq<(String, J)>,
    outs: Seq<Option<Result<V, String>>>,
    n: int,
) -> bool {
    &&& outs.len() == n
    &&& forall|i: int| 0 <= i < n ==> match path_index(reg, #[trigger] entries[i].0@) {
        Some(c) => if is_serializable(reg, c) {
            outs[i] matches Some(res) && call_ensures(decode, ((ComponentDesc { index: c as u32 }), &entries[i].1), res)
        } else {
            outs[i] is None
        },
        None => outs[i] is None,
    }
}

/// The paths of `entries`.
pub open spec fn entry_paths<J>(entries: Seq<(String, J)>) -> Seq<Seq<char>> {
    entries.map_values(|e: (String, J)| e.0@)
}

/// Each warning as its path and problem.
pub open spec fn warnings_view(w: Seq<EntryWarning>) -> Seq<(Seq<char>, EntryProblem)> {
    w.map_values(|x: EntryWarning| (x.key@, x.problem))
}

/// Reads an entity from its serialized entries, each a component path and a
/// serialized value, in order. An entry whose path names no registered
/// component, or a component without the `Serializable` attribute, or whose
/// value `decode` cannot read, is left out with a warning; the others are
/// set, a later entry for a component replacing an earlier one.
pub fn deserialize_with_warnings<T: Copy, J, V, F: Fn(ComponentDesc, &J) -> Result<V, String>>(
    registry: &ComponentRegistry<T>,
    entries: &[(String, J)],
    decode: F,
) -> (r: DeserEntityDataWithWarnings<V>)
    requires
        registry.wf(),
        forall|d: ComponentDesc, j: &J| call_requires(decode, (d, j)),
    ensures
        exists|outs: Seq<Option<Result<V, String>>>| {
            &&& decoded_by(decode, registry@, entries@, outs, entries@.len() as int)
            &&& r.entity@ == read_entity(registry@, entry_paths(entries@), outs, entries@.len() as int)
            &&& warnings_view(r.warnings@) == read_warnings(registry@, entry_paths(entries@), outs, entries@.len() as int)
        },
{
    let count = registry.component_count();
    let ghost paths = entry_paths(entries@);
    let mut entity: Entity<V> = Entity::new();
    let mut warnings: Vec<EntryWarning> = Vec::new();
    let ghost mut outs: Seq<Option<Result<V, String>>> = Seq::empty();
    let mut i: usize = 0;
    while i < entries.len()
        invariant
            registry.wf(),
            count == registry@.len(),
            forall|d: ComponentDesc, j: &J| call_requires(decode, (d, j)),
            paths == entry_paths(entries@),
            i <= entries@.len(),
            decoded_by(decode, registry@, entries@, outs, i as int),
            entity@ == read_entity(registry@, paths, outs, i as int),
            warnings_view(warnings@) == read_warnings(registry@, paths, outs, i as int),
        decreases entries@.len() - i,
    {
        let key = &entries[i].0;
        let value = &entries[i].1;
        assert(paths[i as int] == key@);
        let ghost before_outs = outs;
        match registry.get_by_path(key.as_str()) {
            None => {
                warnings.push(EntryWarning { key: key.clone(), problem: EntryProblem::NoSuchComponent });
                proof {
                    outs = outs.push(None);
                }
            },
            Some(desc) => {
                let serializable = match registry.attributes(desc.index) {
                    Some(a) => a.has_kind(AttributeKind::Serializable),
                    None => false,
                };
                if !serializable {
                    warnings.push(EntryWarning { key: key.clone(), problem: EntryProblem::NotDeserializable(desc) });
                    proof {
                        outs = outs.push(None);
                    }
                } else {
                    let res = decode(desc, value);
                    proof {
                        outs = outs.push(Some(res));
                    }
                    match res {
                        Ok(v) => {
                            entity.set(desc, v);
                        },
                        Err(e) => {
                            warnings.push(EntryWarning { key: key.clone(), problem: EntryProblem::BadValue(e) });
                        },
                    }
                }
            },
        }
        proof {
            assert forall|k: int| 0 <= k < i implies read_entity(registry@, paths, outs, k) == read_entity(registry@, paths, before_outs, k) by {
                lemma_read_prefix(registry@, paths, before_outs, outs, k);
            }
            lemma_read_prefix(registry@, paths, before_outs, outs, i as int);
            assert(warnings_view(warnings@) =~= read_warnings(registry@, paths, outs, i + 1));
        }
        i = i + 1;
    }
    DeserEntityDataWithWarnings { entity, warnings }
}

impl<V> Entity<V> {
    /// Reads an entity from its serialized entries, each a component path
    /// and a serialized value, in order; the first entry whose path names no
    /// registered component, or a component without the `Serializable`
    /// attribute, or whose value `decode` cannot read, fails the whole read.
    pub fn deserialize<T: Copy, J, F: Fn(ComponentDesc, &J) -> Result<V, String>>(
        registry: &ComponentRegistry<T>,
        entries: &[(String, J)],
        decode: F,
    ) -> (r: Result<Entity<V>, EntryWarning>)
        requires
            registry.wf(),
            forall|d: ComponentDesc, j: &J| call_requires(decode, (d, j)),
        ensures
            exists|outs: Seq<Option<Result<V, String>>>, m: int| {
                &&& 0 <= m <= entries@.len()
                &&& decoded_by(decode, registry@, entries@, outs, m)
                &&& read_warnings(registry@, entry_paths(entries@), outs, m - 1).len() == 0
                &&& match r {
                    Ok(e) => {
                        &&& m == entries@.len()
                        &&& read_warnings(registry@, entry_paths(entries@), outs, m).len() == 0
                        &&& e@ == read_entity(registry@, entry_paths(entries@), outs, m)
                    },
                    Err(w) => {
                        &&& m >= 1
                        &&& w.key@ == entries@[m - 1].0@
                        &&& entry_problem(registry@, entries@[m - 1].0@, outs[m - 1]) == Some(w.problem)
                    },
                }
            },
    {
        let count = registry.component_count();
        let ghost paths = entry_paths(entries@);
        let mut entity: Entity<V> = Entity::new();
        let ghost mut outs: Seq<Option<Result<V, String>>> = Seq::empty();
        let mut i: usize = 0;
        while i < entries.len()
            invariant
                registry.wf(),
                count == registry@.len(),
                forall|d: ComponentDesc, j: &J| call_requires(decode, (d, j)),
                paths == entry_paths(entries@),
                i <= entries@.len(),
                decoded_by(decode, registry@, entries@, outs, i as int),
                entity@ == read_entity(registry@, paths, outs, i as int),
                read_warnings(registry@, paths, outs, i as int).len() == 0,
            decreases entries@.len() - i,
        {
            let key = &entries[i].0;
            let value = &entries[i].1;
            assert(paths[i as int] == key@);
            let ghost before_outs = outs;
            let desc = match registry.get_by_path(key.as_str()) {
                Some(d) => d,
                None => {
                    proof {
                        outs = outs.push(None);
                        lemma_read_prefix(registry@, paths, before_outs, outs, i as int);
                    }
                    let w = EntryWarning { key: key.clone(), problem: EntryProblem::NoSuchComponent };
                    assert(decoded_by(decode, registry@, entries@, outs, i + 1));
                    assert(read_warnings(registry@, entry_paths(entries@), outs, i as int).len() == 0);
                    assert(entry_problem(registry@, entries@[i as int].0@, outs[i as int]) == Some(w.problem));
                    return Err(w);
                },
            };
            let serializable = match registry.attributes(desc.index) {
                Some(a) => a.has_kind(AttributeKind::Serializable),
                None => false,
            };
            if !serializable {
                proof {
                    outs = outs.push(None);
                    lemma_read_prefix(registry@, paths, before_outs, outs, i as int);
                }
                let w = EntryWarning { key: key.clone(), problem: EntryProblem::NotDeserializable(desc) };
                assert(decoded_by(decode, registry@, entries@, outs, i + 1));
                assert(read_warnings(registry@, entry_paths(entries@), outs, i as int).len() == 0);
                assert(entry_problem(registry@, entries@[i as int].0@, outs[i as int]) == Some(w.problem));
                return Err(w);
            }
            let res = decode(desc, value);
            proof {
                outs = outs.push(Some(res));
                lemma_read_prefix(registry@, paths, before_outs, outs, i as int);
            }
            match res {
                Ok(v) => {
                    entity.set(desc, v);
                },
                Err(e) => {
                    let w = EntryWarning { key: key.clone(), problem: EntryProblem::BadValue(e) };
                    assert(decoded_by(decode, registry@, entries@, outs, i + 1));
                    assert(read_warnings(registry@, entry_paths(entries@), outs, i as int).len() == 0);
                    assert(entry_problem(registry@, entries@[i as int].0@, outs[i as int]) == Some(w.problem));
                    return Err(w);
                },
            }
            i = i + 1;
        }
        Ok(entity)
    }
}

/// Whether `e` serializes a component of `m`: its path is the registry path
/// of a serializable component that `m` holds, and its value is what
/// `encode` may give for that component's value.
pub open spec fn serialized_entry<T, V, J, G: Fn(ComponentDesc, &V) -> J>(
    encode: G,
    reg: Seq<RegistryEntry<T>>,
    m: Map<u32, V>,
    e: (String, J),
) -> bool {
    match path_index(reg, e.0@) {
        Some(k) => {
            &&& 0 <= k <= u32::MAX
            &&& m.contains_key(k as u32)
            &&& is_serializable(reg, k)
            &&& call_ensures(encode, ((ComponentDesc { index: k as u32 }), &m[k as u32]), e.1)
        },
        None => false,
    }
}

/// The registry index an entry's path names.
pub open spec fn entry_index<T, J>(reg: Seq<RegistryEntry<T>>, e: (String, J)) -> int {
    path_index(reg, e.0@)->0
}

/// Whether `entries` serialize `m`: one entry for each serializable
/// component that `m` holds, in increasing order of component index.
pub open spec fn serialized_by<T, V, J, G: Fn(ComponentDesc, &V) -> J>(
    encode: G,
    reg: Seq<RegistryEntry<T>>,
    m: Map<u32, V>,
    entries: Seq<(String, J)>,
) -> bool {
    &&& forall|a: int| 0 <= a < entries.len() ==> #[trigger] serialized_entry(encode, reg, m, entries[a])
    &&& forall|a: int, b: int| 0 <= a < b < entries.len() ==> entry_index(reg, #[trigger] entries[a]) < entry_index(reg, #[trigger] entries[b])
    &&& forall|k: u32| #[trigger] m.contains_key(k) && (k as int) < reg.len() && is_serializable(reg, k as int)
        ==> exists|a: int| 0 <= a < entries.len() && entry_index(reg, #[trigger] entries[a]) == k as int
}

impl<V> Entity<V> {
    /// The serialized entries of this entity: for each component with the
    /// `Serializable` attribute, in increasing order of index, its registry
    /// path and its value as `encode` writes it.
    pub fn serialize<T: Copy, J, G: Fn(ComponentDesc, &V) -> J>(&self, registry: &ComponentRegistry<T>, encode: G) -> (r: Vec<(String, J)>)
        requires
            registry.wf(),
            forall|k: u32| #[trigger] self@.contains_key(k) ==> (k as int) < registry@.len(),
            forall|d: ComponentDesc, v: &V| call_requires(encode, (d, v)),
        ensures
            serialized_by(encode, registry@, self@, r@),
    {
        proof {
            registry.lemma_wf_paths();
        }
        let comps = self.components();
        let mut r: Vec<(String, J)> = Vec::new();
        let mut i: usize = 0;
        while i < comps.len()
            invariant
                registry.wf(),
                paths_distinct(registry@),
                forall|k: u32| #[trigger] self@.contains_key(k) ==> (k as int) < registry@.len(),
                forall|d: ComponentDesc, v: &V| call_requires(encode, (d, v)),
                i <= comps@.len(),
                forall|a: int, b: int| 0 <= a < b < comps@.len() ==> comps@[a].index < comps@[b].index,
                forall|k: u32| self@.contains_key(k) <==> exists|a: int| 0 <= a < comps@.len() && #[trigger] comps@[a].index == k,
                forall|a: int| 0 <= a < r@.len() ==> #[trigger] serialized_entry(encode, registry@, self@, r@[a]),
                forall|a: int, b: int| 0 <= a < b < r@.len() ==> entry_index(registry@, #[trigger] r@[a]) < entry_index(registry@, #[trigger] r@[b]),
                forall|b: int, a: int| 0 <= b < r@.len() && i <= a < comps@.len() ==> entry_index(registry@, #[trigger] r@[b]) < #[trigger] comps@[a].index,
                forall|a: int| 0 <= a < i && is_serializable(registry@, #[trigger] comps@[a].index as int)
                    ==> exists|b: int| 0 <= b < r@.len() && entry_index(registry@, #[trigger] r@[b]) == comps@[a].index as int,
            decreases comps@.len() - i,
        {
            let c = comps[i];
            assert(self@.contains_key(c.index)) by {
                assert(comps@[i as int].index == c.index);
            }
            let serializable = match registry.attributes(c.index) {
                Some(a) => a.has_kind(AttributeKind::Serializable),
                None => false,
            };
            if serializable {
                let path = match registry.path(c.index) {
                    Some(p) => p,
                    None => {
                        assert(false);
                        String::new()
                    },
                };
                let value = match self.get_ref(c) {
                    Some(v) => v,
                    None => {
                        assert(false);
                        return r;
                    },
                };
                let encoded = encode(c, value);
                let ghost old_r = r@;
                proof {
                    lemma_path_index_of_entry(registry@, c.index as int);
                }
                r.push((path, encoded));
                assert(entry_index(registry@, r@[old_r.len() as int]) == c.index as int);
                assert forall|a: int| 0 <= a < i + 1 && is_serializable(registry@, #[trigger] comps@[a].index as int)
                    implies exists|b: int| 0 <= b < r@.len() && entry_index(registry@, #[trigger] r@[b]) == comps@[a].index as int by {
                    if a < i {
                        let b = choose|b: int| 0 <= b < old_r.len() && entry_index(registry@, #[trigger] old_r[b]) == comps@[a].index as int;
                        assert(r@[b] == old_r[b]);
                    } else {
                        assert(r@[old_r.len() as int] == (path, encoded));
                    }
                }
                assert forall|b: int, a: int| 0 <= b < r@.len() && i + 1 <= a < comps@.len()
                    implies entry_index(registry@, #[trigger] r@[b]) < #[trigger] comps@[a].index by {
                    if b < old_r.len() {
                        assert(r@[b] == old_r[b]);
                        assert(entry_index(registry@, old_r[b]) < comps@[i as int].index);
                    }
                    assert(comps@[i as int].index < comps@[a].index);
                }
            } else {
                assert forall|a: int| 0 <= a < i + 1 && is_serializable(registry@, #[trigger] comps@[a].index as int)
                    implies exists|b: int| 0 <= b < r@.len() && entry_index(registry@, #[trigger] r@[b]) == comps@[a].index as int by {
                    if a == i {
                        assert(!is_serializable(registry@, comps@[a].index as int));
                    }
                }
            }
            i = i + 1;
        }
        assert forall|k: u32| #[trigger] self@.contains_key(k) && (k as int) < registry@.len() && is_serializable(registry@, k as int)
            implies exists|a: int| 0 <= a < r@.len() && entry_index(registry@, #[trigger] r@[a]) == k as int by {
            let a = choose|a: int| 0 <= a < comps@.len() && #[trigger] comps@[a].index == k;
            assert(is_serializable(registry@, comps@[a].index as int));
        }
        r
    }
}

/// The indices that the first `n` of `entries` name.
pub open spec fn named_indices<T, J>(reg: Seq<RegistryEntry<T>>, entries: Seq<(String, J)>, n: int) -> Set<u32> {
    Set::new(|k: u32| exists|a: int| 0 <= a < n && entry_index(reg, #[trigger] entries[a]) == k as int)
}

/// Reading back the first `n` serialized entries gives the serializable
/// components they name, and no warning.
proof fn lemma_read_serialized<T, V, J, G: Fn(ComponentDesc, &V) -> J, F: Fn(ComponentDesc, &J) -> Result<V, String>>(
    encode: G,
    decode: F,
    reg: Seq<RegistryEntry<T>>,
    m: Map<u32, V>,
    entries: Seq<(String, J)>,
    outs: Seq<Option<Result<V, String>>>,
    n: int,
    k: int,
)
    requires
        0 <= n <= k <= entries.len(),
        forall|d: ComponentDesc, v: &V, j: J, res: Result<V, String>|
            call_ensures(encode, (d, v), j) && call_ensures(decode, (d, &j), res) ==> res == Ok::<V, String>(*v),
        serialized_by(encode, reg, m, entries),
        decoded_by(decode, reg, entries, outs, k),
    ensures
        n > 0 ==> entry_problem(reg, entries[n - 1].0@, outs[n - 1]) is None,
        read_entity(reg, entry_paths(entries), outs, n) == with_attribute(m, reg, AttributeKind::Serializable).restrict(named_indices(reg, entries, n)),
        read_warnings(reg, entry_paths(entries), outs, n).len() == 0,
    decreases n,
{
    let full = with_attribute(m, reg, AttributeKind::Serializable);
    if n == 0 {
        assert(full.restrict(named_indices(reg, entries, 0)) =~= Map::empty());
    } else {
        lemma_read_serialized(encode, decode, reg, m, entries, outs, n - 1, k);
        let a = n - 1;
        let e = entries[a];
        assert(serialized_entry(encode, reg, m, e));
        let k = path_index(reg, e.0@)->0;
        let c = ComponentDesc { index: k as u32 };
        assert(entry_paths(entries)[a] == e.0@);
        assert(outs[a] matches Some(res) && call_ensures(decode, (c, &e.1), res));
        let res = outs[a]->0;
        assert(call_ensures(encode, (c, &m[k as u32]), e.1));
        assert(res == Ok::<V, String>(m[k as u32]));
        assert(named_indices(reg, entries, n) =~= named_indices(reg, entries, n - 1).insert(k as u32)) by {
            assert(entry_index(reg, entries[a]) == k);
            assert forall|x: u32| #[trigger] named_indices(reg, entries, n).contains(x) implies
                named_indices(reg, entries, n - 1).insert(k as u32).contains(x) by {
                let b = choose|b: int| 0 <= b < n && entry_index(reg, #[trigger] entries[b]) == x as int;
                if b < n - 1 {
                    assert(named_indices(reg, entries, n - 1).contains(x));
                }
            }
        }
        assert(read_entity(reg, entry_paths(entries), outs, n) =~= full.restrict(named_indices(reg, entries, n)));
    }
}

/// Reading back the serialized entries of an entity, with a reader that gives
/// back every value as the writer wrote it, gives the entity's serializable
/// components and no warning.
pub proof fn lemma_serialize_round_trip<T: Copy, V, J, G: Fn(ComponentDesc, &V) -> J, F: Fn(ComponentDesc, &J) -> Result<V, String>>(
    encode: G,
    decode: F,
    registry: &ComponentRegistry<T>,
    m: Map<u32, V>,
    entries: Seq<(String, J)>,
    outs: Seq<Option<Result<V, String>>>,
)
    requires
        registry.wf(),
        forall|d: ComponentDesc, v: &V, j: J, res: Result<V, String>|
            call_ensures(encode, (d, v), j) && call_ensures(decode, (d, &j), res) ==> res == Ok::<V, String>(*v),
        serialized_by(encode, registry@, m, entries),
        decoded_by(decode, registry@, entries, outs, entries.len() as int),
    ensures
        read_entity(registry@, entry_paths(entries), outs, entries.len() as int) == with_attribute(m, registry@, AttributeKind::Serializable),
        read_warnings(registry@, entry_paths(entries), outs, entries.len() as int) == Seq::<(Seq<char>, EntryProblem)>::empty(),
{
    let reg = registry@;
    lemma_read_serialized(encode, decode, reg, m, entries, outs, entries.len() as int, entries.len() as int);
    let full = with_attribute(m, reg, AttributeKind::Serializable);
    assert forall|k: u32| #[trigger] full.contains_key(k) implies named_indices(reg, entries, entries.len() as int).contains(k) by {
        assert(m.contains_key(k) && (k as int) < reg.len() && is_serializable(reg, k as int));
    }
    assert(full.restrict(named_indices(reg, entries, entries.len() as int)) =~= full);
    assert(read_warnings(reg, entry_paths(entries), outs, entries.len() as int) =~= Seq::<(Seq<char>, EntryProblem)>::empty());
}

/// Reading back the serialized entries of an entity one by one, with a
/// reader that gives back every value as the writer wrote it, meets no entry
/// that fails the read: every entry read so far names a serializable
/// component and reads back. So the read that stops at the first bad entry
/// reads them all and gives the entity's serializable components.
pub proof fn lemma_serialize_strict_round_trip<T: Copy, V, J, G: Fn(ComponentDesc, &V) -> J, F: Fn(ComponentDesc, &J) -> Result<V, String>>(
    encode: G,
    decode: F,
    registry: &ComponentRegistry<T>,
    m: Map<u32, V>,
    entries: Seq<(String, J)>,
    outs: Seq<Option<Result<V, String>>>,
    n: int,
)
    requires
        registry.wf(),
        0 <= n <= entries.len(),
        forall|d: ComponentDesc, v: &V, j: J, res: Result<V, String>|
            call_ensures(encode, (d, v), j) && call_ensures(decode, (d, &j), res) ==> res == Ok::<V, String>(*v),
        serialized_by(encode, registry@, m, entries),
        decoded_by(decode, registry@, entries, outs, n),
    ensures
        forall|i: int| 0 <= i < n ==> entry_problem(registry@, (#[trigger] entries[i]).0@, outs[i]) is None,
        read_warnings(registry@, entry_paths(entries), outs, n).len() == 0,
        n == entries.len() ==> read_entity(registry@, entry_paths(entries), outs, n) == with_attribute(m, registry@, AttributeKind::Serializable),
{
    let reg = registry@;
    assert forall|i: int| 0 <= i < n implies entry_problem(reg, (#[trigger] entries[i]).0@, outs[i]) is None by {
        lemma_read_serialized(encode, decode, reg, m, entries, outs, i + 1, n);
    }
    lemma_read_serialized(encode, decode, reg, m, entries, outs, n, n);
    if n == entries.len() {
        let full = with_attribute(m, reg, AttributeKind::Serializable);
        assert forall|k: u32| #[trigger] full.contains_key(k) implies named_indices(reg, entries, n).contains(k) by {
            assert(m.contains_key(k) && (k as int) < reg.len() && is_serializable(reg, k as int));
        }
        assert(full.restrict(named_indices(reg, entries, n)) =~= full);
    }
}

/// Reading a prefix depends only on the answers for that prefix.
proof fn lemma_read_prefix<T, V>(reg: Seq<RegistryEntry<T>>, paths: Seq<Seq<char>>, a: Seq<Option<Result<V, String>>>, b: Seq<Option<Result<V, String>>>, n: int)
    requires
        0 <= n <= a.len(),
        n <= b.len(),
        forall|i: int| 0 <= i < n ==> a[i] == b[i],
    ensures
        read_entity(reg, paths, a, n) == read_entity(reg, paths, b, n),
        read_warnings(reg, paths, a, n) == read_warnings(reg, paths, b, n),
    decreases n,
{
    if n > 0 {
        lemma_read_prefix(reg, paths, a, b, n - 1);
    }
}

/// A value written to a component is the value read back; other components
/// keep theirs; taking a component away after writing it leaves what taking
/// it away alone leaves; and merging in an entity with no components changes
/// nothing.
pub proof fn lemma_set_get_remove<V>(m: Map<u32, V>, index: u32, value: V, other: u32)
    ensures
        m.insert(index, value).contains_key(index),
        m.insert(index, value)[index] == value,
        other != index ==> m.insert(index, value).contains_key(other) == m.contains_key(other),
        other != index && m.contains_key(other) ==> m.insert(index, value)[other] == m[other],
        m.insert(index, value).remove(index) == m.remove(index),
        m.union_prefer_right(Map::empty()) == m,
{
    assert(m.insert(index, value).remove(index) =~= m.remove(index));
    assert(m.union_prefer_right(Map::empty()) =~= m);
}

} // verus!
