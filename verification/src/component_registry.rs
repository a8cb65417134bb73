//! The registry of components: each component path gets an index, and each
//! component its attributes.
use crate::attributes::{
    Attribute, AttributeConstructor, AttributeKind, AttributeStore, ComponentPath, Debuggable,
    Description, Enum, External, MaybeResource, Name, Networked, Resource, Serializable, Store,
    lemma_key_round_trip,
};
use crate::component_set::ComponentDesc;
use crate::std_wrappers::str_eq;
use vstd::prelude::*;

verus! {

/// The attribute flags of a component that is declared outside the engine.
#[derive(Clone, Copy, PartialEq, Eq, Structural, Debug, Default)]
pub struct ExternalComponentAttributes {
    pub debuggable: bool,
    pub networked: bool,
    pub resource: bool,
    pub store: bool,
    pub maybe_resource: bool,
    pub enum_: bool,
}

/// The names of the flags that are set, in declaration order.
pub open spec fn flag_names(f: ExternalComponentAttributes) -> Seq<Seq<char>> {
    (if f.debuggable { seq!["Debuggable"@] } else { seq![] }) + (if f.networked {
        seq!["Networked"@]
    } else {
        seq![]
    }) + (if f.resource { seq!["Resource"@] } else { seq![] }) + (if f.store {
        seq!["Store"@]
    } else {
        seq![]
    }) + (if f.maybe_resource { seq!["MaybeResource"@] } else { seq![] }) + (if f.enum_ {
        seq!["Enum"@]
    } else {
        seq![]
    })
}

/// Whether `name` names one of the flags.
pub open spec fn is_flag_name(name: Seq<char>) -> bool {
    name == "Debuggable"@ || name == "Networked"@ || name == "Resource"@ || name == "Store"@
        || name == "MaybeResource"@ || name == "Enum"@
}

/// `f` with the flag called `name` set (unchanged for any other name).
pub open spec fn with_flag(f: ExternalComponentAttributes, name: Seq<char>) -> ExternalComponentAttributes {
    if name == "Debuggable"@ {
        ExternalComponentAttributes { debuggable: true, ..f }
    } else if name == "Networked"@ {
        ExternalComponentAttributes { networked: true, ..f }
    } else if name == "Resource"@ {
        ExternalComponentAttributes { resource: true, ..f }
    } else if name == "Store"@ {
        ExternalComponentAttributes { store: true, ..f }
    } else if name == "MaybeResource"@ {
        ExternalComponentAttributes { maybe_resource: true, ..f }
    } else if name == "Enum"@ {
        ExternalComponentAttributes { enum_: true, ..f }
    } else {
        f
    }
}

/// The flags named in `names`, starting from none.
pub open spec fn flags_from_names(names: Seq<Seq<char>>) -> ExternalComponentAttributes
    decreases names.len(),
{
    if names.len() == 0 {
        ExternalComponentAttributes {
            debuggable: false,
            networked: false,
            resource: false,
            store: false,
            maybe_resource: false,
            enum_: false,
        }
    } else {
        with_flag(flags_from_names(names.drop_last()), names.last())
    }
}

/// `before` with the attributes that the flags stand for pushed, in
/// declaration order; `Store` and `Networked` each also push `Serializable`.
pub open spec fn with_flag_attributes(
    before: Map<AttributeKind, Attribute>,
    f: ExternalComponentAttributes,
) -> Map<AttributeKind, Attribute> {
    let m1 = if f.debuggable {
        before.insert(AttributeKind::Debuggable, Attribute::Debuggable(Debuggable))
    } else {
        before
    };
    let m2 = if f.networked {
        m1.insert(AttributeKind::Serializable, Attribute::Serializable(Serializable)).insert(
            AttributeKind::Networked,
            Attribute::Networked(Networked),
        )
    } else {
        m1
    };
    let m3 = if f.resource {
        m2.insert(AttributeKind::Resource, Attribute::Resource(Resource))
    } else {
        m2
    };
    let m4 = if f.store {
        m3.insert(AttributeKind::Serializable, Attribute::Serializable(Serializable)).insert(
            AttributeKind::Store,
            Attribute::Store(Store),
        )
    } else {
        m3
    };
    let m5 = if f.maybe_resource {
        m4.insert(AttributeKind::MaybeResource, Attribute::MaybeResource(MaybeResource))
    } else {
        m4
    };
    if f.enum_ {
        m5.insert(AttributeKind::Enum, Attribute::Enum(Enum))
    } else {
        m5
    }
}

/// The flags read off a set of attributes.
pub open spec fn flags_of(m: Map<AttributeKind, Attribute>) -> ExternalComponentAttributes {
    ExternalComponentAttributes {
        debuggable: m.contains_key(AttributeKind::Debuggable),
        networked: m.contains_key(AttributeKind::Networked),
        resource: m.contains_key(AttributeKind::Resource),
        store: m.contains_key(AttributeKind::Store),
        maybe_resource: m.contains_key(AttributeKind::MaybeResource),
        enum_: m.contains_key(AttributeKind::Enum),
    }
}

impl ExternalComponentAttributes {
    /// No flag set.
    pub fn none() -> (r: Self)
        ensures
            !r.debuggable && !r.networked && !r.resource && !r.store && !r.maybe_resource
                && !r.enum_,
    {
        ExternalComponentAttributes {
            debuggable: false,
            networked: false,
            resource: false,
            store: false,
            maybe_resource: false,
            enum_: false,
        }
    }

    /// The flags of an existing component, read from its attributes.
    pub fn from_existing_component(attributes: &AttributeStore) -> (r: Self)
        requires
            attributes.wf(),
        ensures
            r == flags_of(attributes@),
    {
        ExternalComponentAttributes {
            debuggable: attributes.has_kind(AttributeKind::Debuggable),
            networked: attributes.has_kind(AttributeKind::Networked),
            resource: attributes.has_kind(AttributeKind::Resource),
            store: attributes.has_kind(AttributeKind::Store),
            maybe_resource: attributes.has_kind(AttributeKind::MaybeResource),
            enum_: attributes.has_kind(AttributeKind::Enum),
        }
    }

    /// The names of the flags that are set, in declaration order.
    pub fn iter(&self) -> (r: Vec<&'static str>)
        ensures
            r@.map_values(|s: &str| s@) == flag_names(*self),
    {
        let mut r: Vec<&'static str> = Vec::new();
        if self.debuggable {
            r.push("Debuggable");
        }
        if self.networked {
            r.push("Networked");
        }
        if self.resource {
            r.push("Resource");
        }
        if self.store {
            r.push("Store");
        }
        if self.maybe_resource {
            r.push("MaybeResource");
        }
        if self.enum_ {
            r.push("Enum");
        }
        assert(r@.map_values(|s: &str| s@) =~= flag_names(*self));
        r
    }

    /// The flags named in `names`, or `None` when a name is not a flag.
    pub fn try_from_names(names: &[&str]) -> (r: Option<Self>)
        ensures
            r is Some <==> forall|i: int| 0 <= i < names@.len() ==> is_flag_name(#[trigger] names@[i]@),
            r matches Some(f) ==> f == flags_from_names(names@.map_values(|s: &str| s@)),
    {
        let mut flags = ExternalComponentAttributes::none();
        let mut i: usize = 0;
        while i < names.len()
            invariant
                i <= names@.len(),
                forall|j: int| 0 <= j < i ==> is_flag_name(#[trigger] names@[j]@),
                flags == flags_from_names(names@.take(i as int).map_values(|s: &str| s@)),
            decreases names@.len() - i,
        {
            let name = names[i];
            let ghost before = names@.take(i as int).map_values(|s: &str| s@);
            assert(names@.take(i + 1).map_values(|s: &str| s@) =~= before.push(name@));
            assert(before.push(name@).drop_last() =~= before);
            if str_eq(name, "Debuggable") {
                flags.debuggable = true;
            } else if str_eq(name, "Networked") {
                flags.networked = true;
            } else if str_eq(name, "Resource") {
                flags.resource = true;
            } else if str_eq(name, "Store") {
                flags.store = true;
            } else if str_eq(name, "MaybeResource") {
                flags.maybe_resource = true;
            } else if str_eq(name, "Enum") {
                flags.enum_ = true;
            } else {
                return None;
            }
            i = i + 1;
        }
        assert(names@.take(names@.len() as int) =~= names@);
        Some(flags)
    }

    /// The flags named in `names`; every name must be a flag.
    pub fn from_names(names: &[&str]) -> (r: Self)
        requires
            forall|i: int| 0 <= i < names@.len() ==> is_flag_name(#[trigger] names@[i]@),
        ensures
            r == flags_from_names(names@.map_values(|s: &str| s@)),
    {
        match ExternalComponentAttributes::try_from_names(names) {
            Some(f) => f,
            None => ExternalComponentAttributes::none(),
        }
    }

    /// Pushes the attributes that the flags stand for to `store`.
    pub fn construct_for_store(&self, store: &mut AttributeStore)
        requires
            old(store).wf(),
        ensures
            final(store).wf(),
            final(store)@ == with_flag_attributes(old(store)@, *self),
    {
        if self.debuggable {
            <Debuggable as AttributeConstructor<()>>::construct(store, ());
        }
        if self.networked {
            <Networked as AttributeConstructor<()>>::construct(store, ());
        }
        if self.resource {
            <Resource as AttributeConstructor<()>>::construct(store, ());
        }
        if self.store {
            <Store as AttributeConstructor<()>>::construct(store, ());
        }
        if self.maybe_resource {
            <MaybeResource as AttributeConstructor<()>>::construct(store, ());
        }
        if self.enum_ {
            <Enum as AttributeConstructor<()>>::construct(store, ());
        }
    }
}


/// A component declared outside the engine, as it is handed to the registry.
pub struct ExternalComponentDesc<T> {
    pub path: String,
    pub ty: T,
    pub name: Option<String>,
    pub description: Option<String>,
    pub attributes: ExternalComponentAttributes,
}

/// A component whose value has a primitive type `ty`.
#[derive(Clone, Copy, PartialEq, Eq, Structural, Debug)]
pub struct PrimitiveComponent<T> {
    pub ty: T,
    pub desc: ComponentDesc,
}

/// What the registry knows of one component.
pub struct RegistryEntry<T> {
    pub path: Seq<char>,
    pub primitive: Option<T>,
    pub attributes: Map<AttributeKind, Attribute>,
}

struct RegistryComponent<T> {
    desc: ComponentDesc,
    path: String,
    primitive: Option<T>,
    attributes: AttributeStore,
}

/// Registers components: the `i`th registered path gets index `i`.
pub struct ComponentRegistry<T> {
    components: Vec<RegistryComponent<T>>,
}

/// The index of the entry registered under `path`, if any.
pub open spec fn path_index<T>(entries: Seq<RegistryEntry<T>>, path: Seq<char>) -> Option<int> {
    if exists|i: int| 0 <= i < entries.len() && #[trigger] entries[i].path == path {
        Some(choose|i: int| 0 <= i < entries.len() && #[trigger] entries[i].path == path)
    } else {
        None
    }
}

/// No path is registered twice.
pub open spec fn paths_distinct<T>(entries: Seq<RegistryEntry<T>>) -> bool {
    forall|i: int, j: int|
        0 <= i < entries.len() && 0 <= j < entries.len() && i != j ==> entries[i].path
            != entries[j].path
}

/// With each path held once, the path of entry `k` leads back to `k`.
pub proof fn lemma_path_index_of_entry<T>(entries: Seq<RegistryEntry<T>>, k: int)
    requires
        paths_distinct(entries),
        0 <= k < entries.len(),
    ensures
        path_index(entries, entries[k].path) == Some(k),
{
    assert(entries[k].path == entries[k].path);
}

/// The attributes of a component after it is registered (again) under `path`
/// with the extra attributes `extra`.
pub open spec fn registered_attributes(
    before: Map<AttributeKind, Attribute>,
    path: String,
    extra: Option<Map<AttributeKind, Attribute>>,
) -> Map<AttributeKind, Attribute> {
    let with_path = before.insert(
        AttributeKind::ComponentPath,
        Attribute::ComponentPath(ComponentPath(path)),
    );
    match extra {
        Some(e) => with_path.union_prefer_right(e),
        None => with_path,
    }
}

/// The registry after registering `path`.
pub open spec fn registered<T>(
    entries: Seq<RegistryEntry<T>>,
    path: String,
    primitive: Option<T>,
    extra: Option<Map<AttributeKind, Attribute>>,
) -> Seq<RegistryEntry<T>> {
    match path_index(entries, path@) {
        Some(i) => entries.update(
            i,
            RegistryEntry {
                attributes: registered_attributes(entries[i].attributes, path, extra),
                ..entries[i]
            },
        ),
        None => entries.push(
            RegistryEntry {
                path: path@,
                primitive,
                attributes: registered_attributes(Map::empty(), path, extra),
            },
        ),
    }
}

impl<T: Copy> ComponentRegistry<T> {
    /// The registered components, by index.
    pub closed spec fn view(&self) -> Seq<RegistryEntry<T>> {
        Seq::new(
            self.components@.len(),
            |i: int|
                RegistryEntry {
                    path: self.components@[i].path@,
                    primitive: self.components@[i].primitive,
                    attributes: self.components@[i].attributes@,
                },
        )
    }

    pub closed spec fn wf(&self) -> bool {
        &&& self.components@.len() <= u32::MAX + 1
        &&& forall|i: int|
            0 <= i < self.components@.len() ==> (#[trigger] self.components@[i]).desc.index == i
                && self.components@[i].attributes.wf()
        &&& paths_distinct(self@)
    }

    pub fn new() -> (r: Self)
        ensures
            r.wf(),
            r@ == Seq::<RegistryEntry<T>>::empty(),
    {
        let r = ComponentRegistry { components: Vec::new() };
        assert(r@ =~= Seq::<RegistryEntry<T>>::empty());
        r
    }

    /// The index of the component registered under `path`.
    fn find(&self, path: &str) -> (r: Option<usize>)
        requires
            self.wf(),
        ensures
            r matches Some(i) ==> path_index(self@, path@) == Some(i as int),
            r is None ==> path_index(self@, path@) is None,
    {
        let mut i: usize = 0;
        while i < self.components.len()
            invariant
                self.wf(),
                i <= self.components@.len(),
                forall|j: int| 0 <= j < i ==> self@[j].path != path@,
            decreases self.components@.len() - i,
        {
            if str_eq(self.components[i].path.as_str(), path) {
                assert(self@[i as int].path == path@);
                let ghost c = choose|j: int| 0 <= j < self@.len() && #[trigger] self@[j].path == path@;
                assert(c == i);
                return Some(i);
            }
            i = i + 1;
        }
        assert forall|j: int| 0 <= j < self@.len() implies #[trigger] self@[j].path != path@ by {}
        None
    }

    /// Registers `path` (or finds it when it is already registered), records
    /// the path among its attributes and appends `attributes` to them. A new
    /// component gets the next index and keeps `primitive` as the primitive
    /// type of its value.
    pub fn register(
        &mut self,
        path: String,
        primitive: Option<T>,
        attributes: Option<AttributeStore>,
    ) -> (desc: ComponentDesc)
        requires
            old(self).wf(),
            attributes matches Some(a) ==> a.wf(),
            path_index(old(self)@, path@) is Some || old(self)@.len() <= u32::MAX,
        ensures
            final(self).wf(),
            desc.index == match path_index(old(self)@, path@) {
                Some(i) => i,
                None => old(self)@.len() as int,
            },
            final(self)@ == registered(
                old(self)@,
                path,
                primitive,
                match attributes {
                    Some(a) => Some(a@),
                    None => None,
                },
            ),
    {
        let ghost path_s = path;
        let ghost extra = match &attributes {
            Some(a) => Some(a@),
            None => None::<Map<AttributeKind, Attribute>>,
        };
        let index = match self.find(path.as_str()) {
            Some(i) => i,
            None => {
                let index = self.components.len();
                let desc = ComponentDesc::new(index as u32);
                self.components.push(
                    RegistryComponent {
                        desc,
                        path: path.clone(),
                        primitive,
                        attributes: AttributeStore::new(),
                    },
                );
                index
            },
        };
        let ghost mid = self@;
        let mut slot = self.components.remove(index);
        slot.attributes.set(ComponentPath(path));
        match attributes {
            Some(src) => slot.attributes.append(&src),
            None => {},
        }
        let desc = slot.desc;
        self.components.insert(index, slot);
        proof {
            let target = registered(old(self)@, path_s, primitive, extra);
            assert(self@.len() == target.len());
            assert forall|j: int| 0 <= j < self@.len() implies #[trigger] self@[j] == target[j] by {
                if j != index {
                    assert(self@[j] == mid[j]);
                }
            }
            assert(self@ =~= target);
            assert(paths_distinct(self@)) by {
                assert forall|a: int, b: int|
                    0 <= a < self@.len() && 0 <= b < self@.len() && a != b implies self@[a].path
                    != self@[b].path by {
                    assert(self@[a].path == mid[a].path);
                    assert(self@[b].path == mid[b].path);
                    if path_index(old(self)@, path_s@) is None {
                        assert forall|j: int| 0 <= j < old(self)@.len() implies #[trigger] old(
                            self,
                        )@[j].path != path_s@ by {}
                    }
                }
            }
        }
        desc
    }
}


/// The attributes that an external component is registered with: its flags,
/// then its name and description when given, then `External`.
pub open spec fn external_attributes(
    attributes: ExternalComponentAttributes,
    name: Option<String>,
    description: Option<String>,
) -> Map<AttributeKind, Attribute> {
    let m0 = with_flag_attributes(Map::empty(), attributes);
    let m1 = match name {
        Some(n) => m0.insert(AttributeKind::Name, Attribute::Name(Name(n))),
        None => m0,
    };
    let m2 = match description {
        Some(d) => m1.insert(AttributeKind::Description, Attribute::Description(Description(d))),
        None => m1,
    };
    m2.insert(AttributeKind::External, Attribute::External(External))
}

/// The registry after registering each of `descs` in turn as an external
/// component.
pub open spec fn registered_external<T>(
    entries: Seq<RegistryEntry<T>>,
    descs: Seq<ExternalComponentDesc<T>>,
) -> Seq<RegistryEntry<T>>
    decreases descs.len(),
{
    if descs.len() == 0 {
        entries
    } else {
        let d = descs.last();
        registered(
            registered_external(entries, descs.drop_last()),
            d.path,
            Some(d.ty),
            Some(external_attributes(d.attributes, d.name, d.description)),
        )
    }
}

/// The text held by a `Name` or `Description` attribute.
pub open spec fn attribute_text(a: Attribute) -> Option<String> {
    match a {
        Attribute::Name(n) => Some(n.0),
        Attribute::Description(d) => Some(d.0),
        _ => None,
    }
}

impl<T: Copy> ComponentRegistry<T> {
    /// Registers a component that the engine declares statically.
    pub fn register_static(&mut self, path: &str, primitive: Option<T>) -> (desc: ComponentDesc)
        requires
            old(self).wf(),
            path_index(old(self)@, path@) is Some || old(self)@.len() <= u32::MAX,
        ensures
            final(self).wf(),
            desc.index == match path_index(old(self)@, path@) {
                Some(i) => i,
                None => old(self)@.len() as int,
            },
            exists|p: String|
                p@ == path@ && final(self)@ == registered(old(self)@, p, primitive, None),
    {
        let p = path.to_owned();
        let ghost gp = p;
        let desc = self.register(p, primitive, None);
        assert(self@ == registered(old(self)@, gp, primitive, None));
        desc
    }

    /// Registers a component declared outside the engine; its attributes get
    /// `External` added.
    pub fn register_external(
        &mut self,
        path: String,
        primitive: Option<T>,
        attributes: AttributeStore,
    ) -> (desc: ComponentDesc)
        requires
            old(self).wf(),
            attributes.wf(),
            path_index(old(self)@, path@) is Some || old(self)@.len() <= u32::MAX,
        ensures
            final(self).wf(),
            desc.index == match path_index(old(self)@, path@) {
                Some(i) => i,
                None => old(self)@.len() as int,
            },
            final(self)@ == registered(
                old(self)@,
                path,
                primitive,
                Some(attributes@.insert(AttributeKind::External, Attribute::External(External))),
            ),
    {
        let mut attributes = attributes;
        attributes.set(External);
        self.register(path, primitive, Some(attributes))
    }

    /// Registers each of `components`, in order, as an external component
    /// whose value has the given primitive type. Those that observe changes to
    /// the external components are to be told once this returns.
    pub fn add_external(&mut self, components: Vec<ExternalComponentDesc<T>>)
        requires
            old(self).wf(),
            old(self)@.len() + components@.len() <= u32::MAX + 1,
        ensures
            final(self).wf(),
            final(self)@ == registered_external(old(self)@, components@),
    {
        let mut components = components;
        let ghost all = components@;
        let mut rest: Vec<ExternalComponentDesc<T>> = Vec::new();
        while components.len() > 0
            invariant
                all == components@ + rest@.reverse(),
            decreases components.len(),
        {
            let ghost before_c = components@;
            let ghost before_r = rest@;
            let c = components.pop().unwrap();
            rest.push(c);
            assert(rest@.reverse() =~= seq![c] + before_r.reverse());
            assert(before_c =~= components@.push(c));
            assert(all =~= components@ + rest@.reverse());
        }
        assert(all =~= rest@.reverse());
        while rest.len() > 0
            invariant
                self.wf(),
                rest@.len() <= all.len(),
                all == all.take(all.len() - rest@.len()) + rest@.reverse(),
                self@ == registered_external(old(self)@, all.take(all.len() - rest@.len())),
                self@.len() <= old(self)@.len() + (all.len() - rest@.len()),
                old(self)@.len() + all.len() <= u32::MAX + 1,
            decreases rest.len(),
        {
            let ghost before_r = rest@;
            let ghost n = all.len() - rest@.len();
            let desc = rest.pop().unwrap();
            assert(before_r.reverse() =~= seq![desc] + rest@.reverse());
            assert(all[n] == desc) by {
                assert(all[n] == (all.take(n) + before_r.reverse())[n]);
            }
            let ghost gname = desc.name;
            let ghost gdesc = desc.description;
            let ExternalComponentDesc { path, ty, name, description, attributes } = desc;
            let mut store = AttributeStore::new();
            attributes.construct_for_store(&mut store);
            match name {
                Some(n) => store.set(Name(n)),
                None => {},
            }
            match description {
                Some(d) => store.set(Description(d)),
                None => {},
            }
            assert(store@.insert(AttributeKind::External, Attribute::External(External))
                == external_attributes(attributes, gname, gdesc));
            self.register_external(path, Some(ty), store);
            assert(all.take(n + 1).drop_last() =~= all.take(n));
            assert(all.take(n + 1).last() == all[n]);
            assert(all =~= all.take(n + 1) + rest@.reverse()) by {
                assert(all =~= all.take(n) + before_r.reverse());
            }
        }
        assert(all.take(all.len() as int) =~= all);
    }

    /// The index of the component registered under `path`.
    pub fn path_to_index(&self, path: &str) -> (r: Option<u32>)
        requires
            self.wf(),
        ensures
            r matches Some(i) ==> path_index(self@, path@) == Some(i as int),
            r is None ==> path_index(self@, path@) is None,
    {
        match self.find(path) {
            Some(i) => Some(self.components[i].desc.index),
            None => None,
        }
    }

    /// The component registered under `path`.
    pub fn get_by_path(&self, path: &str) -> (r: Option<ComponentDesc>)
        requires
            self.wf(),
        ensures
            r matches Some(d) ==> path_index(self@, path@) == Some(d.index as int),
            r is None ==> path_index(self@, path@) is None,
    {
        match self.find(path) {
            Some(i) => Some(self.components[i].desc),
            None => None,
        }
    }

    /// The component with index `index`.
    pub fn get_by_index(&self, index: u32) -> (r: Option<ComponentDesc>)
        requires
            self.wf(),
        ensures
            r is Some <==> index < self@.len(),
            r matches Some(d) ==> d.index == index,
    {
        if (index as usize) < self.components.len() {
            Some(self.components[index as usize].desc)
        } else {
            None
        }
    }

    /// The attributes of the component with index `index`.
    pub fn attributes(&self, index: u32) -> (r: Option<&AttributeStore>)
        requires
            self.wf(),
        ensures
            r is Some <==> index < self@.len(),
            r matches Some(a) ==> a.wf() && a@ == self@[index as int].attributes,
    {
        if (index as usize) < self.components.len() {
            Some(&self.components[index as usize].attributes)
        } else {
            None
        }
    }

    /// A well-formed registry holds each path once and has no more
    /// components than `u32` indices.
    pub proof fn lemma_wf_paths(&self)
        requires
            self.wf(),
        ensures
            paths_distinct(self@),
            self@.len() <= u32::MAX + 1,
    {
    }

    /// In a well-formed registry paths and indices match one for one: the
    /// path of component `i` leads back to `i`, and a path that is found
    /// names the component it leads to.
    pub proof fn lemma_paths_match_indices(&self)
        requires
            self.wf(),
        ensures
            forall|i: int| 0 <= i < self@.len() ==> path_index(self@, #[trigger] self@[i].path) == Some(i),
            forall|p: Seq<char>| #[trigger] path_index(self@, p) matches Some(i) ==> 0 <= i < self@.len() && self@[i].path == p,
    {
        assert forall|i: int| 0 <= i < self@.len() implies path_index(self@, #[trigger] self@[i].path) == Some(i) by {
            lemma_path_index_of_entry(self@, i);
        }
    }

    /// The path of the component with index `index`.
    pub fn path(&self, index: u32) -> (r: Option<String>)
        requires
            self.wf(),
        ensures
            r is Some <==> index < self@.len(),
            r matches Some(p) ==> p@ == self@[index as int].path,
    {
        if (index as usize) < self.components.len() {
            Some(self.components[index as usize].path.clone())
        } else {
            None
        }
    }

    /// The primitive component with index `idx`, if its value has a
    /// primitive type.
    pub fn get_primitive_component(&self, idx: u32) -> (r: Option<PrimitiveComponent<T>>)
        requires
            self.wf(),
            idx < self@.len(),
        ensures
            r is Some <==> self@[idx as int].primitive is Some,
            r matches Some(pc) ==> pc.desc.index == idx && Some(pc.ty) == self@[idx as int].primitive,
    {
        let c = &self.components[idx as usize];
        match c.primitive {
            Some(ty) => Some(PrimitiveComponent { ty, desc: c.desc }),
            None => None,
        }
    }

    /// All primitive components, in index order.
    pub fn all_primitive(&self) -> (r: Vec<PrimitiveComponent<T>>)
        requires
            self.wf(),
        ensures
            forall|k: int| 0 <= k < r@.len() ==> {
                let i = (#[trigger] r@[k]).desc.index as int;
                &&& 0 <= i < self@.len()
                &&& self@[i].primitive == Some(r@[k].ty)
            },
            forall|i: int| 0 <= i < self@.len() && (#[trigger] self@[i]).primitive is Some ==> exists|k: int|
                0 <= k < r@.len() && r@[k].desc.index == i,
            forall|a: int, b: int| 0 <= a < b < r@.len() ==> r@[a].desc.index < r@[b].desc.index,
    {
        let mut r: Vec<PrimitiveComponent<T>> = Vec::new();
        let mut i: usize = 0;
        while i < self.components.len()
            invariant
                self.wf(),
                i <= self.components@.len(),
                forall|k: int| 0 <= k < r@.len() ==> {
                    let j = (#[trigger] r@[k]).desc.index as int;
                    &&& 0 <= j < i
                    &&& self@[j].primitive == Some(r@[k].ty)
                },
                forall|j: int| 0 <= j < i && (#[trigger] self@[j]).primitive is Some ==> exists|k: int|
                    0 <= k < r@.len() && r@[k].desc.index == j,
                forall|a: int, b: int| 0 <= a < b < r@.len() ==> r@[a].desc.index < r@[b].desc.index,
            decreases self.components@.len() - i,
        {
            let c = &self.components[i];
            let ghost old_r = r@;
            match c.primitive {
                Some(ty) => {
                    r.push(PrimitiveComponent { ty, desc: c.desc });
                    proof {
                        assert forall|j: int| 0 <= j < i + 1 && (#[trigger] self@[j]).primitive is Some implies exists|k: int|
                            0 <= k < r@.len() && r@[k].desc.index == j by {
                            if j < i {
                                let k = choose|k: int| 0 <= k < old_r.len() && old_r[k].desc.index == j;
                                assert(r@[k] == old_r[k]);
                            } else {
                                assert(r@[r@.len() - 1].desc.index == j);
                            }
                        }
                        assert forall|a: int, b: int| 0 <= a < b < r@.len() implies r@[a].desc.index < r@[b].desc.index by {
                            assert(r@[a] == old_r[a]);
                            if b < old_r.len() {
                                assert(r@[b] == old_r[b]);
                            }
                        }
                    }
                },
                None => {},
            }
            i = i + 1;
        }
        r
    }

    /// All registered components, in index order.
    pub fn all(&self) -> (r: Vec<ComponentDesc>)
        requires
            self.wf(),
        ensures
            r@.len() == self@.len(),
            forall|i: int| 0 <= i < r@.len() ==> (#[trigger] r@[i]).index == i,
    {
        let mut r: Vec<ComponentDesc> = Vec::new();
        let mut i: usize = 0;
        while i < self.components.len()
            invariant
                self.wf(),
                i <= self.components@.len(),
                r@.len() == i,
                forall|j: int| 0 <= j < r@.len() ==> (#[trigger] r@[j]).index == j,
            decreases self.components@.len() - i,
        {
            r.push(self.components[i].desc);
            i = i + 1;
        }
        r
    }

    pub fn component_count(&self) -> (r: usize)
        requires
            self.wf(),
        ensures
            r == self@.len(),
    {
        self.components.len()
    }

    /// The description of component `index` as an external component: its
    /// path, primitive type, name, description and flags.
    pub fn external_desc(&self, pc: PrimitiveComponent<T>) -> (r: ExternalComponentDesc<T>)
        requires
            self.wf(),
            pc.desc.index < self@.len(),
        ensures
            r.path@ == self@[pc.desc.index as int].path,
            r.ty == pc.ty,
            r.name == if self@[pc.desc.index as int].attributes.contains_key(AttributeKind::Name) {
                attribute_text(self@[pc.desc.index as int].attributes[AttributeKind::Name])
            } else {
                None
            },
            r.description == if self@[pc.desc.index as int].attributes.contains_key(
                AttributeKind::Description,
            ) {
                attribute_text(self@[pc.desc.index as int].attributes[AttributeKind::Description])
            } else {
                None
            },
            r.attributes == flags_of(self@[pc.desc.index as int].attributes),
    {
        let c = &self.components[pc.desc.index as usize];
        proof {
            c.attributes.lemma_kinds_match();
        }
        let name = match c.attributes.get::<Name>() {
            Some(n) => Some(n.0.clone()),
            None => None,
        };
        let description = match c.attributes.get::<Description>() {
            Some(d) => Some(d.0.clone()),
            None => None,
        };
        ExternalComponentDesc {
            path: c.path.clone(),
            ty: pc.ty,
            name,
            description,
            attributes: ExternalComponentAttributes::from_existing_component(&c.attributes),
        }
    }

    /// All primitive components that were added externally, with their
    /// descriptions, in index order.
    pub fn all_external(&self) -> (r: Vec<(ExternalComponentDesc<T>, ComponentDesc)>)
        requires
            self.wf(),
        ensures
            forall|k: int| 0 <= k < r@.len() ==> {
                let i = (#[trigger] r@[k]).1.index as int;
                &&& 0 <= i < self@.len()
                &&& self@[i].primitive == Some(r@[k].0.ty)
                &&& self@[i].attributes.contains_key(AttributeKind::External)
                &&& r@[k].0.path@ == self@[i].path
                &&& r@[k].0.attributes == flags_of(self@[i].attributes)
            },
            forall|i: int|
                0 <= i < self@.len() && (#[trigger] self@[i]).primitive is Some
                    && self@[i].attributes.contains_key(AttributeKind::External) ==> exists|k: int|
                    0 <= k < r@.len() && r@[k].1.index == i,
            forall|a: int, b: int| 0 <= a < b < r@.len() ==> r@[a].1.index < r@[b].1.index,
    {
        let mut r: Vec<(ExternalComponentDesc<T>, ComponentDesc)> = Vec::new();
        let mut i: usize = 0;
        while i < self.components.len()
            invariant
                self.wf(),
                i <= self.components@.len(),
                forall|q: int| 0 <= q < r@.len() ==> {
                    let j = (#[trigger] r@[q]).1.index as int;
                    &&& 0 <= j < i
                    &&& self@[j].primitive == Some(r@[q].0.ty)
                    &&& self@[j].attributes.contains_key(AttributeKind::External)
                    &&& r@[q].0.path@ == self@[j].path
                    &&& r@[q].0.attributes == flags_of(self@[j].attributes)
                },
                forall|j: int|
                    0 <= j < i && (#[trigger] self@[j]).primitive is Some
                        && self@[j].attributes.contains_key(AttributeKind::External) ==> exists|q: int|
                        0 <= q < r@.len() && r@[q].1.index == j,
                forall|a: int, b: int| 0 <= a < b < r@.len() ==> r@[a].1.index < r@[b].1.index,
            decreases self.components@.len() - i,
        {
            let ghost old_r = r@;
            let c = &self.components[i];
            match c.primitive {
                Some(ty) => {
                    if c.attributes.has::<External>() {
                        let pc = PrimitiveComponent { ty, desc: c.desc };
                        let d = self.external_desc(pc);
                        r.push((d, c.desc));
                        proof {
                            assert forall|j: int|
                                0 <= j < i + 1 && (#[trigger] self@[j]).primitive is Some
                                    && self@[j].attributes.contains_key(AttributeKind::External) implies exists|q: int|
                                    0 <= q < r@.len() && r@[q].1.index == j by {
                                if j < i {
                                    let q = choose|q: int| 0 <= q < old_r.len() && old_r[q].1.index == j;
                                    assert(r@[q] == old_r[q]);
                                } else {
                                    assert(r@[r@.len() - 1].1.index == j);
                                }
                            }
                            assert forall|a: int, b: int| 0 <= a < b < r@.len() implies r@[a].1.index
                                < r@[b].1.index by {
                                assert(r@[a] == old_r[a]);
                                if b < old_r.len() {
                                    assert(r@[b] == old_r[b]);
                                }
                            }
                        }
                    }
                },
                None => {},
            }
            i = i + 1;
        }
        r
    }
}

/// Registering a path keeps each path registered once, and the path is
/// then found at the index that registering it gave: the index it had, or
/// the next one.
pub proof fn lemma_register_finds_path<T>(
    entries: Seq<RegistryEntry<T>>,
    path: String,
    primitive: Option<T>,
    extra: Option<Map<AttributeKind, Attribute>>,
)
    requires
        paths_distinct(entries),
    ensures
        paths_distinct(registered(entries, path, primitive, extra)),
        path_index(registered(entries, path, primitive, extra), path@) == Some(
            match path_index(entries, path@) {
                Some(i) => i,
                None => entries.len() as int,
            },
        ),
        registered(entries, path, primitive, extra).len() == match path_index(entries, path@) {
            Some(i) => entries.len(),
            None => entries.len() + 1,
        },
{
    let r = registered(entries, path, primitive, extra);
    let want = match path_index(entries, path@) {
        Some(i) => i,
        None => entries.len() as int,
    };
    match path_index(entries, path@) {
        Some(i) => {
            assert(entries[i].path == path@);
            assert(r[i].path == path@);
        },
        None => {
            assert forall|k: int| 0 <= k < entries.len() implies #[trigger] entries[k].path != path@ by {}
            assert(r[entries.len() as int].path == path@);
        },
    }
    assert(paths_distinct(r)) by {
        assert forall|a: int, b: int| 0 <= a < r.len() && 0 <= b < r.len() && a != b implies r[a].path
            != r[b].path by {
            if a < entries.len() && b < entries.len() {
                assert(r[a].path == entries[a].path && r[b].path == entries[b].path);
            } else if a < entries.len() {
                assert(r[a].path == entries[a].path);
            } else {
                assert(r[b].path == entries[b].path);
            }
        }
    }
    assert(0 <= want < r.len() && r[want].path == path@);
    let c = choose|k: int| 0 <= k < r.len() && #[trigger] r[k].path == path@;
    assert(c == want);
}

/// Registering a path that is registered already adds no component and
/// keeps its index: a second registration gives the index of the first.
pub proof fn lemma_register_again<T>(
    entries: Seq<RegistryEntry<T>>,
    path: String,
    primitive: Option<T>,
    extra: Option<Map<AttributeKind, Attribute>>,
    primitive2: Option<T>,
    extra2: Option<Map<AttributeKind, Attribute>>,
)
    requires
        paths_distinct(entries),
    ensures
        registered(registered(entries, path, primitive, extra), path, primitive2, extra2).len()
            == registered(entries, path, primitive, extra).len(),
        path_index(registered(entries, path, primitive, extra), path@) == path_index(
            registered(registered(entries, path, primitive, extra), path, primitive2, extra2),
            path@,
        ),
{
    let once = registered(entries, path, primitive, extra);
    lemma_register_finds_path(entries, path, primitive, extra);
    lemma_register_finds_path(once, path, primitive2, extra2);
}

/// Registering a path twice, with any attributes: both registrations give
/// the same index, the registry grows by one component only at the first
/// registration of a new path, and the path then leads to that index. The
/// `requires` are what `register` ensures of each call.
pub proof fn lemma_register_twice<T: Copy>(
    r0: &ComponentRegistry<T>,
    r1: &ComponentRegistry<T>,
    r2: &ComponentRegistry<T>,
    path: String,
    primitive1: Option<T>,
    extra1: Option<Map<AttributeKind, Attribute>>,
    d1: ComponentDesc,
    primitive2: Option<T>,
    extra2: Option<Map<AttributeKind, Attribute>>,
    d2: ComponentDesc,
)
    requires
        r0.wf(),
        d1.index == match path_index(r0@, path@) {
            Some(i) => i,
            None => r0@.len() as int,
        },
        r1@ == registered(r0@, path, primitive1, extra1),
        d2.index == match path_index(r1@, path@) {
            Some(i) => i,
            None => r1@.len() as int,
        },
        r2@ == registered(r1@, path, primitive2, extra2),
    ensures
        d1.index == d2.index,
        r1@.len() == r0@.len() + (if path_index(r0@, path@) is None { 1int } else { 0int }),
        r2@.len() == r1@.len(),
        path_index(r2@, path@) == Some(d1.index as int),
{
    lemma_register_finds_path(r0@, path, primitive1, extra1);
    lemma_register_again(r0@, path, primitive1, extra1, primitive2, extra2);
}

/// The names of the flags, read back, give the flags.
pub proof fn lemma_flag_names_round_trip(f: ExternalComponentAttributes)
    ensures
        flags_from_names(flag_names(f)) == f,
{
    reveal_strlit("Debuggable");
    reveal_strlit("Networked");
    reveal_strlit("Resource");
    reveal_strlit("Store");
    reveal_strlit("MaybeResource");
    reveal_strlit("Enum");
    let none = flags_from_names(seq![]);
    let s1 = if f.debuggable { seq!["Debuggable"@] } else { Seq::<Seq<char>>::empty() };
    let s2 = s1 + if f.networked { seq!["Networked"@] } else { Seq::<Seq<char>>::empty() };
    let s3 = s2 + if f.resource { seq!["Resource"@] } else { Seq::<Seq<char>>::empty() };
    let s4 = s3 + if f.store { seq!["Store"@] } else { Seq::<Seq<char>>::empty() };
    let s5 = s4 + if f.maybe_resource { seq!["MaybeResource"@] } else { Seq::<Seq<char>>::empty() };
    let s6 = s5 + if f.enum_ { seq!["Enum"@] } else { Seq::<Seq<char>>::empty() };
    assert(s6 =~= flag_names(f));
    assert("Debuggable"@.len() == 10 && "Networked"@.len() == 9 && "Resource"@.len() == 8
        && "Store"@.len() == 5 && "MaybeResource"@.len() == 13 && "Enum"@.len() == 4);
    assert("Networked"@[0] != "Debuggable"@[0]);
    assert(flags_from_names(s1) == ExternalComponentAttributes { debuggable: f.debuggable, ..none }) by {
        if f.debuggable {
            assert(s1.drop_last() =~= Seq::<Seq<char>>::empty());
        }
    }
    assert(flags_from_names(s2) == ExternalComponentAttributes {
        debuggable: f.debuggable,
        networked: f.networked,
        ..none
    }) by {
        if f.networked {
            assert(s2.drop_last() =~= s1);
        } else {
            assert(s2 =~= s1);
        }
    }
    assert(flags_from_names(s3) == ExternalComponentAttributes {
        debuggable: f.debuggable,
        networked: f.networked,
        resource: f.resource,
        ..none
    }) by {
        if f.resource {
            assert(s3.drop_last() =~= s2);
        } else {
            assert(s3 =~= s2);
        }
    }
    assert(flags_from_names(s4) == ExternalComponentAttributes {
        debuggable: f.debuggable,
        networked: f.networked,
        resource: f.resource,
        store: f.store,
        ..none
    }) by {
        if f.store {
            assert(s4.drop_last() =~= s3);
        } else {
            assert(s4 =~= s3);
        }
    }
    assert(flags_from_names(s5) == ExternalComponentAttributes {
        debuggable: f.debuggable,
        networked: f.networked,
        resource: f.resource,
        store: f.store,
        maybe_resource: f.maybe_resource,
        ..none
    }) by {
        if f.maybe_resource {
            assert(s5.drop_last() =~= s4);
        } else {
            assert(s5 =~= s4);
        }
    }
    assert(flags_from_names(s6) == f) by {
        if f.enum_ {
            assert(s6.drop_last() =~= s5);
        } else {
            assert(s6 =~= s5);
        }
    }
}

/// The attributes that flags stand for, read back, give the flags.
pub proof fn lemma_flag_attributes_round_trip(f: ExternalComponentAttributes)
    ensures
        flags_of(with_flag_attributes(Map::empty(), f)) == f,
{
}

} // verus!
