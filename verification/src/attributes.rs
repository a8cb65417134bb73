//! Attributes attached to components, and the store that holds at most one
//! attribute of each kind.
use std::collections::HashMap;
use vstd::prelude::*;

verus! {

/// The kind of an attribute; a store holds at most one attribute per kind.
#[derive(Clone, Copy, PartialEq, Eq, Structural, Debug)]
pub enum AttributeKind {
    Serializable,
    Debuggable,
    MakeDefault,
    Store,
    Networked,
    ComponentPath,
    Name,
    Description,
    External,
    Resource,
    MaybeResource,
    Enum,
}

/// Number of attribute kinds.
pub const ATTRIBUTE_KIND_COUNT: u32 = 12;

impl AttributeKind {
    /// The key under which attributes of this kind are stored.
    pub open spec fn spec_key(self) -> u32 {
        match self {
            AttributeKind::Serializable => 0,
            AttributeKind::Debuggable => 1,
            AttributeKind::MakeDefault => 2,
            AttributeKind::Store => 3,
            AttributeKind::Networked => 4,
            AttributeKind::ComponentPath => 5,
            AttributeKind::Name => 6,
            AttributeKind::Description => 7,
            AttributeKind::External => 8,
            AttributeKind::Resource => 9,
            AttributeKind::MaybeResource => 10,
            AttributeKind::Enum => 11,
        }
    }

    #[verifier::when_used_as_spec(spec_key)]
    pub fn key(self) -> (r: u32)
        ensures
            r == self.spec_key(),
    {
        match self {
            AttributeKind::Serializable => 0,
            AttributeKind::Debuggable => 1,
            AttributeKind::MakeDefault => 2,
            AttributeKind::Store => 3,
            AttributeKind::Networked => 4,
            AttributeKind::ComponentPath => 5,
            AttributeKind::Name => 6,
            AttributeKind::Description => 7,
            AttributeKind::External => 8,
            AttributeKind::Resource => 9,
            AttributeKind::MaybeResource => 10,
            AttributeKind::Enum => 11,
        }
    }

    /// The kind stored under `key`, if any.
    pub open spec fn spec_from_key(key: u32) -> Option<AttributeKind> {
        if key == 0 {
            Some(AttributeKind::Serializable)
        } else if key == 1 {
            Some(AttributeKind::Debuggable)
        } else if key == 2 {
            Some(AttributeKind::MakeDefault)
        } else if key == 3 {
            Some(AttributeKind::Store)
        } else if key == 4 {
            Some(AttributeKind::Networked)
        } else if key == 5 {
            Some(AttributeKind::ComponentPath)
        } else if key == 6 {
            Some(AttributeKind::Name)
        } else if key == 7 {
            Some(AttributeKind::Description)
        } else if key == 8 {
            Some(AttributeKind::External)
        } else if key == 9 {
            Some(AttributeKind::Resource)
        } else if key == 10 {
            Some(AttributeKind::MaybeResource)
        } else if key == 11 {
            Some(AttributeKind::Enum)
        } else {
            None
        }
    }

    pub fn from_key(key: u32) -> (r: Option<AttributeKind>)
        ensures
            r == AttributeKind::spec_from_key(key),
    {
        if key == 0 {
            Some(AttributeKind::Serializable)
        } else if key == 1 {
            Some(AttributeKind::Debuggable)
        } else if key == 2 {
            Some(AttributeKind::MakeDefault)
        } else if key == 3 {
            Some(AttributeKind::Store)
        } else if key == 4 {
            Some(AttributeKind::Networked)
        } else if key == 5 {
            Some(AttributeKind::ComponentPath)
        } else if key == 6 {
            Some(AttributeKind::Name)
        } else if key == 7 {
            Some(AttributeKind::Description)
        } else if key == 8 {
            Some(AttributeKind::External)
        } else if key == 9 {
            Some(AttributeKind::Resource)
        } else if key == 10 {
            Some(AttributeKind::MaybeResource)
        } else if key == 11 {
            Some(AttributeKind::Enum)
        } else {
            None
        }
    }
}

/// Keys and kinds correspond one to one.
pub proof fn lemma_key_round_trip(k: AttributeKind)
    ensures
        AttributeKind::spec_from_key(k.spec_key()) == Some(k),
        k.spec_key() < ATTRIBUTE_KIND_COUNT,
{
}

/// Declares a component as serializable. The serializing functions themselves
/// are bound to the component's Rust type by the runtime.
#[derive(Clone, Copy, PartialEq, Eq, Structural, Debug)]
pub struct Serializable;

/// Declares a component as printable for debugging. The printing function is
/// bound to the component's Rust type by the runtime.
#[derive(Clone, Copy, PartialEq, Eq, Structural, Debug)]
pub struct Debuggable;

/// Allows constructing a default value of the component. The constructing
/// function is bound to the component's Rust type by the runtime.
#[derive(Clone, Copy, PartialEq, Eq, Structural, Debug)]
pub struct MakeDefault;

/// Store the component on disk. Provides `Serializable`.
#[derive(Clone, Copy, PartialEq, Eq, Structural, Debug, Default, Hash)]
pub struct Store;

/// Synchronize the component over the network to the clients. Provides
/// `Serializable`.
#[derive(Clone, Copy, PartialEq, Eq, Structural, Debug, Default, Hash)]
pub struct Networked;

/// The path under which a component was registered.
pub struct ComponentPath(pub String);

/// A user-friendly name annotation, as opposed to the ID (e.g. "Player Health"
/// vs "player_health").
pub struct Name(pub String);

/// A user-friendly description (e.g. "The player's health from 0 to 1.").
pub struct Description(pub String);

/// Indicates that this component was externally added.
#[derive(Clone, Copy, PartialEq, Eq, Structural, Debug)]
pub struct External;

/// Indicates that this component should be used as a resource only.
#[derive(Clone, Copy, PartialEq, Eq, Structural, Debug)]
pub struct Resource;

/// Indicates that this component can be used as a resource or component.
#[derive(Clone, Copy, PartialEq, Eq, Structural, Debug)]
pub struct MaybeResource;

/// This component can be converted to/from a `u32`. The conversion functions
/// are bound to the component's Rust type by the runtime.
#[derive(Clone, Copy, PartialEq, Eq, Structural, Debug)]
pub struct Enum;

/// An attribute of any kind.
pub enum Attribute {
    Serializable(Serializable),
    Debuggable(Debuggable),
    MakeDefault(MakeDefault),
    Store(Store),
    Networked(Networked),
    ComponentPath(ComponentPath),
    Name(Name),
    Description(Description),
    External(External),
    Resource(Resource),
    MaybeResource(MaybeResource),
    Enum(Enum),
}

impl Attribute {
    pub open spec fn spec_kind(&self) -> AttributeKind {
        match self {
            Attribute::Serializable(_) => AttributeKind::Serializable,
            Attribute::Debuggable(_) => AttributeKind::Debuggable,
            Attribute::MakeDefault(_) => AttributeKind::MakeDefault,
            Attribute::Store(_) => AttributeKind::Store,
            Attribute::Networked(_) => AttributeKind::Networked,
            Attribute::ComponentPath(_) => AttributeKind::ComponentPath,
            Attribute::Name(_) => AttributeKind::Name,
            Attribute::Description(_) => AttributeKind::Description,
            Attribute::External(_) => AttributeKind::External,
            Attribute::Resource(_) => AttributeKind::Resource,
            Attribute::MaybeResource(_) => AttributeKind::MaybeResource,
            Attribute::Enum(_) => AttributeKind::Enum,
        }
    }

    /// The kind of this attribute.
    #[verifier::when_used_as_spec(spec_kind)]
    pub fn kind(&self) -> (r: AttributeKind)
        ensures
            r == self.spec_kind(),
    {
        match self {
            Attribute::Serializable(_) => AttributeKind::Serializable,
            Attribute::Debuggable(_) => AttributeKind::Debuggable,
            Attribute::MakeDefault(_) => AttributeKind::MakeDefault,
            Attribute::Store(_) => AttributeKind::Store,
            Attribute::Networked(_) => AttributeKind::Networked,
            Attribute::ComponentPath(_) => AttributeKind::ComponentPath,
            Attribute::Name(_) => AttributeKind::Name,
            Attribute::Description(_) => AttributeKind::Description,
            Attribute::External(_) => AttributeKind::External,
            Attribute::Resource(_) => AttributeKind::Resource,
            Attribute::MaybeResource(_) => AttributeKind::MaybeResource,
            Attribute::Enum(_) => AttributeKind::Enum,
        }
    }

    /// A copy of this attribute.
    pub fn duplicate(&self) -> (r: Attribute)
        ensures
            r == *self,
    {
        match self {
            Attribute::Serializable(a) => Attribute::Serializable(*a),
            Attribute::Debuggable(a) => Attribute::Debuggable(*a),
            Attribute::MakeDefault(a) => Attribute::MakeDefault(*a),
            Attribute::Store(a) => Attribute::Store(*a),
            Attribute::Networked(a) => Attribute::Networked(*a),
            Attribute::ComponentPath(a) => Attribute::ComponentPath(ComponentPath(a.0.clone())),
            Attribute::Name(a) => Attribute::Name(Name(a.0.clone())),
            Attribute::Description(a) => Attribute::Description(Description(a.0.clone())),
            Attribute::External(a) => Attribute::External(*a),
            Attribute::Resource(a) => Attribute::Resource(*a),
            Attribute::MaybeResource(a) => Attribute::MaybeResource(*a),
            Attribute::Enum(a) => Attribute::Enum(*a),
        }
    }
}

/// An attribute type: it can be stored in an `AttributeStore` and read back.
pub trait ComponentAttribute: Sized {
    /// The kind of attribute that this type is.
    spec fn spec_kind() -> AttributeKind;

    /// This value as an attribute.
    spec fn spec_into_attribute(self) -> Attribute;

    fn kind() -> (r: AttributeKind)
        ensures
            r == Self::spec_kind(),
    ;

    fn into_attribute(self) -> (r: Attribute)
        ensures
            r == self.spec_into_attribute(),
            r.spec_kind() == Self::spec_kind(),
    ;

    /// The value held by `a`, if `a` is an attribute of this type.
    fn from_attribute(a: &Attribute) -> (r: Option<&Self>)
        ensures
            r is Some <==> a.spec_kind() == Self::spec_kind(),
            r matches Some(v) ==> v.spec_into_attribute() == *a,
    ;

    /// Distinct values are distinct attributes.
    proof fn lemma_into_attribute_injective(x: Self, y: Self)
        requires
            x.spec_into_attribute() == y.spec_into_attribute(),
        ensures
            x == y,
    ;
}

impl ComponentAttribute for Serializable {
    open spec fn spec_kind() -> AttributeKind {
        AttributeKind::Serializable
    }

    open spec fn spec_into_attribute(self) -> Attribute {
        Attribute::Serializable(self)
    }

    fn kind() -> (r: AttributeKind) {
        AttributeKind::Serializable
    }

    fn into_attribute(self) -> (r: Attribute) {
        Attribute::Serializable(self)
    }

    fn from_attribute(a: &Attribute) -> (r: Option<&Self>) {
        match a {
            Attribute::Serializable(v) => Some(v),
            _ => None,
        }
    }

    proof fn lemma_into_attribute_injective(x: Self, y: Self) {
    }
}

impl ComponentAttribute for Debuggable {
    open spec fn spec_kind() -> AttributeKind {
        AttributeKind::Debuggable
    }

    open spec fn spec_into_attribute(self) -> Attribute {
        Attribute::Debuggable(self)
    }

    fn kind() -> (r: AttributeKind) {
        AttributeKind::Debuggable
    }

    fn into_attribute(self) -> (r: Attribute) {
        Attribute::Debuggable(self)
    }

    fn from_attribute(a: &Attribute) -> (r: Option<&Self>) {
        match a {
            Attribute::Debuggable(v) => Some(v),
            _ => None,
        }
    }

    proof fn lemma_into_attribute_injective(x: Self, y: Self) {
    }
}

impl ComponentAttribute for MakeDefault {
    open spec fn spec_kind() -> AttributeKind {
        AttributeKind::MakeDefault
    }

    open spec fn spec_into_attribute(self) -> Attribute {
        Attribute::MakeDefault(self)
    }

    fn kind() -> (r: AttributeKind) {
        AttributeKind::MakeDefault
    }

    fn into_attribute(self) -> (r: Attribute) {
        Attribute::MakeDefault(self)
    }

    fn from_attribute(a: &Attribute) -> (r: Option<&Self>) {
        match a {
            Attribute::MakeDefault(v) => Some(v),
            _ => None,
        }
    }

    proof fn lemma_into_attribute_injective(x: Self, y: Self) {
    }
}

impl ComponentAttribute for Store {
    open spec fn spec_kind() -> AttributeKind {
        AttributeKind::Store
    }

    open spec fn spec_into_attribute(self) -> Attribute {
        Attribute::Store(self)
    }

    fn kind() -> (r: AttributeKind) {
        AttributeKind::Store
    }

    fn into_attribute(self) -> (r: Attribute) {
        Attribute::Store(self)
    }

    fn from_attribute(a: &Attribute) -> (r: Option<&Self>) {
        match a {
            Attribute::Store(v) => Some(v),
            _ => None,
        }
    }

    proof fn lemma_into_attribute_injective(x: Self, y: Self) {
    }
}

impl ComponentAttribute for Networked {
    open spec fn spec_kind() -> AttributeKind {
        AttributeKind::Networked
    }

    open spec fn spec_into_attribute(self) -> Attribute {
        Attribute::Networked(self)
    }

    fn kind() -> (r: AttributeKind) {
        AttributeKind::Networked
    }

    fn into_attribute(self) -> (r: Attribute) {
        Attribute::Networked(self)
    }

    fn from_attribute(a: &Attribute) -> (r: Option<&Self>) {
        match a {
            Attribute::Networked(v) => Some(v),
            _ => None,
        }
    }

    proof fn lemma_into_attribute_injective(x: Self, y: Self) {
    }
}

impl ComponentAttribute for External {
    open spec fn spec_kind() -> AttributeKind {
        AttributeKind::External
    }

    open spec fn spec_into_attribute(self) -> Attribute {
        Attribute::External(self)
    }

    fn kind() -> (r: AttributeKind) {
        AttributeKind::External
    }

    fn into_attribute(self) -> (r: Attribute) {
        Attribute::External(self)
    }

    fn from_attribute(a: &Attribute) -> (r: Option<&Self>) {
        match a {
            Attribute::External(v) => Some(v),
            _ => None,
        }
    }

    proof fn lemma_into_attribute_injective(x: Self, y: Self) {
    }
}

impl ComponentAttribute for Resource {
    open spec fn spec_kind() -> AttributeKind {
        AttributeKind::Resource
    }

    open spec fn spec_into_attribute(self) -> Attribute {
        Attribute::Resource(self)
    }

    fn kind() -> (r: AttributeKind) {
        AttributeKind::Resource
    }

    fn into_attribute(self) -> (r: Attribute) {
        Attribute::Resource(self)
    }

    fn from_attribute(a: &Attribute) -> (r: Option<&Self>) {
        match a {
            Attribute::Resource(v) => Some(v),
            _ => None,
        }
    }

    proof fn lemma_into_attribute_injective(x: Self, y: Self) {
    }
}

impl ComponentAttribute for MaybeResource {
    open spec fn spec_kind() -> AttributeKind {
        AttributeKind::MaybeResource
    }

    open spec fn spec_into_attribute(self) -> Attribute {
        Attribute::MaybeResource(self)
    }

    fn kind() -> (r: AttributeKind) {
        AttributeKind::MaybeResource
    }

    fn into_attribute(self) -> (r: Attribute) {
        Attribute::MaybeResource(self)
    }

    fn from_attribute(a: &Attribute) -> (r: Option<&Self>) {
        match a {
            Attribute::MaybeResource(v) => Some(v),
            _ => None,
        }
    }

    proof fn lemma_into_attribute_injective(x: Self, y: Self) {
    }
}

impl ComponentAttribute for Enum {
    open spec fn spec_kind() -> AttributeKind {
        AttributeKind::Enum
    }

    open spec fn spec_into_attribute(self) -> Attribute {
        Attribute::Enum(self)
    }

    fn kind() -> (r: AttributeKind) {
        AttributeKind::Enum
    }

    fn into_attribute(self) -> (r: Attribute) {
        Attribute::Enum(self)
    }

    fn from_attribute(a: &Attribute) -> (r: Option<&Self>) {
        match a {
            Attribute::Enum(v) => Some(v),
            _ => None,
        }
    }

    proof fn lemma_into_attribute_injective(x: Self, y: Self) {
    }
}

impl ComponentAttribute for ComponentPath {
    open spec fn spec_kind() -> AttributeKind {
        AttributeKind::ComponentPath
    }

    open spec fn spec_into_attribute(self) -> Attribute {
        Attribute::ComponentPath(self)
    }

    fn kind() -> (r: AttributeKind) {
        AttributeKind::ComponentPath
    }

    fn into_attribute(self) -> (r: Attribute) {
        Attribute::ComponentPath(self)
    }

    fn from_attribute(a: &Attribute) -> (r: Option<&Self>) {
        match a {
            Attribute::ComponentPath(v) => Some(v),
            _ => None,
        }
    }

    proof fn lemma_into_attribute_injective(x: Self, y: Self) {
    }
}

impl ComponentAttribute for Name {
    open spec fn spec_kind() -> AttributeKind {
        AttributeKind::Name
    }

    open spec fn spec_into_attribute(self) -> Attribute {
        Attribute::Name(self)
    }

    fn kind() -> (r: AttributeKind) {
        AttributeKind::Name
    }

    fn into_attribute(self) -> (r: Attribute) {
        Attribute::Name(self)
    }

    fn from_attribute(a: &Attribute) -> (r: Option<&Self>) {
        match a {
            Attribute::Name(v) => Some(v),
            _ => None,
        }
    }

    proof fn lemma_into_attribute_injective(x: Self, y: Self) {
    }
}

impl ComponentAttribute for Description {
    open spec fn spec_kind() -> AttributeKind {
        AttributeKind::Description
    }

    open spec fn spec_into_attribute(self) -> Attribute {
        Attribute::Description(self)
    }

    fn kind() -> (r: AttributeKind) {
        AttributeKind::Description
    }

    fn into_attribute(self) -> (r: Attribute) {
        Attribute::Description(self)
    }

    fn from_attribute(a: &Attribute) -> (r: Option<&Self>) {
        match a {
            Attribute::Description(v) => Some(v),
            _ => None,
        }
    }

    proof fn lemma_into_attribute_injective(x: Self, y: Self) {
    }
}


/// Whether every attribute in `m` is stored under its own kind.
pub open spec fn kinds_match(m: Map<AttributeKind, Attribute>) -> bool {
    forall|k: AttributeKind| #[trigger] m.contains_key(k) ==> m[k].spec_kind() == k
}

/// The attributes in `attrs` stored one after the other, later ones replacing
/// earlier ones of the same kind.
pub open spec fn attributes_map(attrs: Seq<Attribute>) -> Map<AttributeKind, Attribute>
    decreases attrs.len(),
{
    if attrs.len() == 0 {
        Map::empty()
    } else {
        attributes_map(attrs.drop_last()).insert(attrs.last().spec_kind(), attrs.last())
    }
}

/// Holds at most one attribute of each kind.
pub struct AttributeStore {
    inner: HashMap<u32, Attribute>,
}

impl View for AttributeStore {
    type V = Map<AttributeKind, Attribute>;

    closed spec fn view(&self) -> Map<AttributeKind, Attribute> {
        Map::new(
            |k: AttributeKind| self.inner@.contains_key(k.spec_key()),
            |k: AttributeKind| self.inner@[k.spec_key()],
        )
    }
}

impl AttributeStore {
    /// Every attribute is stored under the key of its kind.
    pub closed spec fn wf(&self) -> bool {
        forall|key: u32| #[trigger]
            self.inner@.contains_key(key) ==> self.inner@[key].spec_kind().spec_key() == key
    }

    /// In a well-formed store every attribute is held under its own kind.
    pub proof fn lemma_kinds_match(&self)
        requires
            self.wf(),
        ensures
            kinds_match(self@),
            self@.dom().finite(),
    {
        assert forall|k: AttributeKind| #[trigger] self@.contains_key(k) implies self@[k].spec_kind()
            == k by {
            lemma_key_round_trip(k);
            lemma_key_round_trip(self@[k].spec_kind());
        }
        assert(self@.dom() =~= Set::new(|k: AttributeKind| self.inner@.contains_key(k.spec_key())));
        lemma_kind_set_finite(self@.dom());
    }

    pub fn new() -> (r: Self)
        ensures
            r.wf(),
            r@ == Map::<AttributeKind, Attribute>::empty(),
    {
        let r = AttributeStore { inner: HashMap::new() };
        assert(r@ =~= Map::<AttributeKind, Attribute>::empty());
        r
    }

    /// Stores `attribute`, replacing the attribute of the same kind.
    pub fn set<A: ComponentAttribute>(&mut self, attribute: A)
        requires
            old(self).wf(),
        ensures
            final(self).wf(),
            final(self)@ == old(self)@.insert(A::spec_kind(), attribute.spec_into_attribute()),
    {
        self.set_dyn(attribute.into_attribute())
    }

    /// Stores `attribute`, replacing the attribute of the same kind.
    pub fn set_dyn(&mut self, attribute: Attribute)
        requires
            old(self).wf(),
        ensures
            final(self).wf(),
            final(self)@ == old(self)@.insert(attribute.spec_kind(), attribute),
    {
        let ghost kind = attribute.spec_kind();
        let key = attribute.kind().key();
        self.inner.insert(key, attribute);
        proof {
            assert forall|k: AttributeKind| #[trigger] self@.contains_key(k) == old(
                self,
            )@.insert(kind, attribute).contains_key(k) by {
                lemma_key_round_trip(k);
                lemma_key_round_trip(kind);
            }
            assert(self@ =~= old(self)@.insert(kind, attribute)) by {
                assert forall|k: AttributeKind| #[trigger] self@.contains_key(k) implies self@[k]
                    == old(self)@.insert(kind, attribute)[k] by {
                    lemma_key_round_trip(k);
                    lemma_key_round_trip(kind);
                }
            }
        }
    }

    /// The attribute of kind `key`, if any.
    pub fn get_dyn(&self, key: AttributeKind) -> (r: Option<&Attribute>)
        requires
            self.wf(),
        ensures
            r is Some <==> self@.contains_key(key),
            r matches Some(v) ==> *v == self@[key],
    {
        self.inner.get(&key.key())
    }

    /// The attribute of type `A`, if any.
    pub fn get<A: ComponentAttribute>(&self) -> (r: Option<&A>)
        requires
            self.wf(),
        ensures
            r is Some <==> self@.contains_key(A::spec_kind()),
            r matches Some(v) ==> v.spec_into_attribute() == self@[A::spec_kind()],
    {
        proof {
            self.lemma_kinds_match();
        }
        match self.get_dyn(A::kind()) {
            Some(a) => A::from_attribute(a),
            None => None,
        }
    }

    /// Whether an attribute of type `A` is stored.
    pub fn has<A: ComponentAttribute>(&self) -> (r: bool)
        requires
            self.wf(),
        ensures
            r == self@.contains_key(A::spec_kind()),
    {
        self.inner.contains_key(&A::kind().key())
    }

    /// Whether an attribute of kind `kind` is stored.
    pub fn has_kind(&self, kind: AttributeKind) -> (r: bool)
        requires
            self.wf(),
        ensures
            r == self@.contains_key(kind),
    {
        self.inner.contains_key(&kind.key())
    }

    /// Appends all attributes from `other` into self by cloning; those of
    /// `other` replace those of the same kind.
    pub fn append(&mut self, other: &Self)
        requires
            old(self).wf(),
            other.wf(),
        ensures
            final(self).wf(),
            final(self)@ == old(self)@.union_prefer_right(other@),
    {
        let mut key: u32 = 0;
        while key < ATTRIBUTE_KIND_COUNT
            invariant
                key <= ATTRIBUTE_KIND_COUNT,
                self.wf(),
                other.wf(),
                forall|k: AttributeKind| #[trigger]
                    self@.contains_key(k) == (old(self)@.contains_key(k) || (k.spec_key() < key
                        && other@.contains_key(k))),
                forall|k: AttributeKind| #[trigger]
                    self@.contains_key(k) ==> self@[k] == if k.spec_key() < key
                        && other@.contains_key(k) {
                        other@[k]
                    } else {
                        old(self)@[k]
                    },
            decreases ATTRIBUTE_KIND_COUNT - key,
        {
            match other.inner.get(&key) {
                Some(a) => {
                    let ghost before = *self;
                    let copy = a.duplicate();
                    proof {
                        lemma_key_round_trip(copy.spec_kind());
                    }
                    self.set_dyn(copy);
                    proof {
                        assert forall|k: AttributeKind| #[trigger]
                            self@.contains_key(k) == (old(self)@.contains_key(k) || (k.spec_key() < key + 1
                                && other@.contains_key(k))) by {
                            lemma_key_round_trip(k);
                        }
                        assert forall|k: AttributeKind| #[trigger]
                            self@.contains_key(k) implies self@[k] == if k.spec_key() < key + 1
                                && other@.contains_key(k) {
                                other@[k]
                            } else {
                                old(self)@[k]
                            } by {
                            lemma_key_round_trip(k);
                        }
                    }
                },
                None => {
                    proof {
                        assert forall|k: AttributeKind| #[trigger]
                            self@.contains_key(k) == (old(self)@.contains_key(k) || (k.spec_key() < key + 1
                                && other@.contains_key(k))) by {
                            lemma_key_round_trip(k);
                        }
                        assert forall|k: AttributeKind| #[trigger]
                            self@.contains_key(k) implies self@[k] == if k.spec_key() < key + 1
                                && other@.contains_key(k) {
                                other@[k]
                            } else {
                                old(self)@[k]
                            } by {
                            lemma_key_round_trip(k);
                        }
                    }
                },
            }
            key = key + 1;
        }
        proof {
            assert forall|k: AttributeKind| #[trigger] self@.contains_key(k) == old(self)@.union_prefer_right(
                other@,
            ).contains_key(k) by {
                lemma_key_round_trip(k);
            }
            assert(self@ =~= old(self)@.union_prefer_right(other@)) by {
                assert forall|k: AttributeKind| #[trigger] self@.contains_key(k) implies self@[k]
                    == old(self)@.union_prefer_right(other@)[k] by {
                    lemma_key_round_trip(k);
                }
            }
        }
    }

    /// The stored attributes, one per kind, in the order of their kinds.
    pub fn iter(&self) -> (r: Vec<&Attribute>)
        requires
            self.wf(),
        ensures
            forall|i: int| 0 <= i < r@.len() ==> #[trigger] self@.contains_key(r@[i].spec_kind())
                && self@[r@[i].spec_kind()] == *r@[i],
            forall|k: AttributeKind| #[trigger]
                self@.contains_key(k) ==> exists|i: int| 0 <= i < r@.len() && r@[i].spec_kind() == k,
            forall|i: int, j: int|
                0 <= i < j < r@.len() ==> r@[i].spec_kind().spec_key() < r@[j].spec_kind().spec_key(),
    {
        let mut r: Vec<&Attribute> = Vec::new();
        let mut key: u32 = 0;
        while key < ATTRIBUTE_KIND_COUNT
            invariant
                key <= ATTRIBUTE_KIND_COUNT,
                self.wf(),
                forall|i: int| 0 <= i < r@.len() ==> #[trigger] self@.contains_key(r@[i].spec_kind())
                    && self@[r@[i].spec_kind()] == *r@[i] && r@[i].spec_kind().spec_key() < key,
                forall|k: AttributeKind| #[trigger]
                    self@.contains_key(k) && k.spec_key() < key ==> exists|i: int|
                        0 <= i < r@.len() && r@[i].spec_kind() == k,
                forall|i: int, j: int|
                    0 <= i < j < r@.len() ==> r@[i].spec_kind().spec_key() < r@[j].spec_kind().spec_key(),
            decreases ATTRIBUTE_KIND_COUNT - key,
        {
            match self.inner.get(&key) {
                Some(a) => {
                    let ghost old_r = r@;
                    proof {
                        lemma_key_round_trip(a.spec_kind());
                        assert(self.inner@.contains_key(key) && self.inner@[key] == *a);
                        assert(a.spec_kind().spec_key() == key);
                        assert(self@.contains_key(a.spec_kind()));
                        assert(self@[a.spec_kind()] == *a);
                    }
                    r.push(a);
                    proof {
                        assert(r@ == old_r.push(a));
                        assert forall|i: int| 0 <= i < r@.len() implies #[trigger] self@.contains_key(
                            r@[i].spec_kind(),
                        ) && self@[r@[i].spec_kind()] == *r@[i] && r@[i].spec_kind().spec_key() < key
                            + 1 by {
                            if i < old_r.len() {
                                assert(r@[i] == old_r[i]);
                            }
                        }
                        assert forall|i: int, j: int| 0 <= i < j < r@.len() implies r@[i].spec_kind().spec_key()
                            < r@[j].spec_kind().spec_key() by {
                            assert(r@[i] == old_r[i]);
                            assert(self@.contains_key(old_r[i].spec_kind()));
                            if j < old_r.len() {
                                assert(r@[j] == old_r[j]);
                            }
                        }
                        assert forall|k: AttributeKind| #[trigger]
                            self@.contains_key(k) && k.spec_key() < key + 1 implies exists|i: int|
                                0 <= i < r@.len() && r@[i].spec_kind() == k by {
                            lemma_key_round_trip(k);
                            lemma_key_round_trip(a.spec_kind());
                            if k.spec_key() == key {
                                assert(r@[r@.len() - 1].spec_kind() == k);
                            } else {
                                let i = choose|i: int| 0 <= i < old_r.len() && old_r[i].spec_kind() == k;
                                assert(r@[i] == old_r[i]);
                            }
                        }
                    }
                },
                None => {
                    proof {
                        assert forall|k: AttributeKind| #[trigger]
                            self@.contains_key(k) && k.spec_key() < key + 1 implies exists|i: int|
                                0 <= i < r@.len() && r@[i].spec_kind() == k by {
                            lemma_key_round_trip(k);
                        }
                    }
                },
            }
            key = key + 1;
        }
        proof {
            assert forall|k: AttributeKind| #[trigger] self@.contains_key(k) implies exists|i: int|
                0 <= i < r@.len() && r@[i].spec_kind() == k by {
                lemma_key_round_trip(k);
            }
        }
        r
    }

    /// A store holding `attributes`, later ones replacing earlier ones of the
    /// same kind.
    pub fn from_attributes(attributes: Vec<Attribute>) -> (r: Self)
        ensures
            r.wf(),
            r@ == attributes_map(attributes@),
    {
        let mut r = AttributeStore::new();
        let mut attributes = attributes;
        let ghost all = attributes@;
        let mut rest: Vec<Attribute> = Vec::new();
        // Reverse the list, so that items can be popped in their order.
        while attributes.len() > 0
            invariant
                all == attributes@ + rest@.reverse(),
            decreases attributes.len(),
        {
            let ghost before_a = attributes@;
            let ghost before_r = rest@;
            let a = attributes.pop().unwrap();
            rest.push(a);
            assert(rest@.reverse() =~= seq![a] + before_r.reverse());
            assert(before_a =~= attributes@.push(a));
            assert(all =~= attributes@ + rest@.reverse());
        }
        assert(all =~= rest@.reverse());
        while rest.len() > 0
            invariant
                r.wf(),
                rest@.len() <= all.len(),
                all == all.take(all.len() - rest@.len()) + rest@.reverse(),
                r@ == attributes_map(all.take(all.len() - rest@.len())),
            decreases rest.len(),
        {
            let ghost before_r = rest@;
            let ghost n = all.len() - rest@.len();
            let a = rest.pop().unwrap();
            assert(before_r.reverse() =~= seq![a] + rest@.reverse());
            assert(all[n] == a) by {
                assert(all[n] == (all.take(n) + before_r.reverse())[n]);
            }
            r.set_dyn(a);
            assert(all.take(n + 1).drop_last() =~= all.take(n));
            assert(all.take(n + 1).last() == a);
            assert(all =~= all.take(n + 1) + rest@.reverse()) by {
                assert(all =~= all.take(n) + before_r.reverse());
            }
        }
        assert(all.take(all.len() as int) =~= all);
        r
    }
}

/// Any set of attribute kinds is finite.
pub proof fn lemma_kind_set_finite(s: Set<AttributeKind>)
    ensures
        s.finite(),
{
    let all = set![
        AttributeKind::Serializable,
        AttributeKind::Debuggable,
        AttributeKind::MakeDefault,
        AttributeKind::Store,
        AttributeKind::Networked,
        AttributeKind::ComponentPath,
        AttributeKind::Name,
        AttributeKind::Description,
        AttributeKind::External,
        AttributeKind::Resource,
        AttributeKind::MaybeResource,
        AttributeKind::Enum
    ];
    assert(s.subset_of(all)) by {
        assert forall|k: AttributeKind| s.contains(k) implies all.contains(k) by {
            match k {
                _ => {},
            }
        }
    }
    vstd::set_lib::lemma_set_subset_finite(all, s);
}


/// Initializes an attribute of a component and pushes it to the store.
pub trait AttributeConstructor<P> {
    /// Whether `after` is the store `before` once the attribute was built from
    /// `params` and pushed.
    spec fn constructed(
        before: Map<AttributeKind, Attribute>,
        after: Map<AttributeKind, Attribute>,
        params: P,
    ) -> bool;

    /// Constructs a new instance of the attribute value and pushes it to the store.
    fn construct(store: &mut AttributeStore, params: P)
        requires
            old(store).wf(),
        ensures
            final(store).wf(),
            Self::constructed(old(store)@, final(store)@, params),
    ;
}

/// Whether `after` is `before` with a `Name` attribute holding `value`.
pub open spec fn holds_text(
    before: Map<AttributeKind, Attribute>,
    after: Map<AttributeKind, Attribute>,
    kind: AttributeKind,
    value: Seq<char>,
) -> bool {
    &&& after.contains_key(kind)
    &&& after == before.insert(kind, after[kind])
    &&& match after[kind] {
        Attribute::Name(n) => kind == AttributeKind::Name && n.0@ == value,
        Attribute::Description(d) => kind == AttributeKind::Description && d.0@ == value,
        _ => false,
    }
}

impl AttributeConstructor<()> for Serializable {
    open spec fn constructed(
        before: Map<AttributeKind, Attribute>,
        after: Map<AttributeKind, Attribute>,
        params: (),
    ) -> bool {
        after == before.insert(AttributeKind::Serializable, Attribute::Serializable(Serializable))
    }

    fn construct(store: &mut AttributeStore, params: ()) {
        store.set(Serializable)
    }
}

impl AttributeConstructor<()> for Debuggable {
    open spec fn constructed(
        before: Map<AttributeKind, Attribute>,
        after: Map<AttributeKind, Attribute>,
        params: (),
    ) -> bool {
        after == before.insert(AttributeKind::Debuggable, Attribute::Debuggable(Debuggable))
    }

    fn construct(store: &mut AttributeStore, params: ()) {
        store.set(Debuggable)
    }
}

impl AttributeConstructor<()> for MakeDefault {
    open spec fn constructed(
        before: Map<AttributeKind, Attribute>,
        after: Map<AttributeKind, Attribute>,
        params: (),
    ) -> bool {
        after == before.insert(AttributeKind::MakeDefault, Attribute::MakeDefault(MakeDefault))
    }

    fn construct(store: &mut AttributeStore, params: ()) {
        store.set(MakeDefault)
    }
}

/// `Store` also provides `Serializable`.
impl AttributeConstructor<()> for Store {
    open spec fn constructed(
        before: Map<AttributeKind, Attribute>,
        after: Map<AttributeKind, Attribute>,
        params: (),
    ) -> bool {
        after == before.insert(
            AttributeKind::Serializable,
            Attribute::Serializable(Serializable),
        ).insert(AttributeKind::Store, Attribute::Store(Store))
    }

    fn construct(store: &mut AttributeStore, params: ()) {
        <Serializable as AttributeConstructor<()>>::construct(store, params);
        store.set(Store);
    }
}

/// `Networked` also provides `Serializable`.
impl AttributeConstructor<()> for Networked {
    open spec fn constructed(
        before: Map<AttributeKind, Attribute>,
        after: Map<AttributeKind, Attribute>,
        params: (),
    ) -> bool {
        after == before.insert(
            AttributeKind::Serializable,
            Attribute::Serializable(Serializable),
        ).insert(AttributeKind::Networked, Attribute::Networked(Networked))
    }

    fn construct(store: &mut AttributeStore, params: ()) {
        <Serializable as AttributeConstructor<()>>::construct(store, params);
        store.set(Networked);
    }
}

impl<'a> AttributeConstructor<&'a str> for Name {
    open spec fn constructed(
        before: Map<AttributeKind, Attribute>,
        after: Map<AttributeKind, Attribute>,
        params: &'a str,
    ) -> bool {
        holds_text(before, after, AttributeKind::Name, params@)
    }

    fn construct(store: &mut AttributeStore, value: &'a str) {
        store.set(Name(value.to_owned()))
    }
}

impl<'a> AttributeConstructor<&'a str> for Description {
    open spec fn constructed(
        before: Map<AttributeKind, Attribute>,
        after: Map<AttributeKind, Attribute>,
        params: &'a str,
    ) -> bool {
        holds_text(before, after, AttributeKind::Description, params@)
    }

    fn construct(store: &mut AttributeStore, value: &'a str) {
        store.set(Description(value.to_owned()))
    }
}

impl AttributeConstructor<()> for External {
    open spec fn constructed(
        before: Map<AttributeKind, Attribute>,
        after: Map<AttributeKind, Attribute>,
        params: (),
    ) -> bool {
        after == before.insert(AttributeKind::External, Attribute::External(External))
    }

    fn construct(store: &mut AttributeStore, params: ()) {
        store.set(External)
    }
}

impl AttributeConstructor<()> for Resource {
    open spec fn constructed(
        before: Map<AttributeKind, Attribute>,
        after: Map<AttributeKind, Attribute>,
        params: (),
    ) -> bool {
        after == before.insert(AttributeKind::Resource, Attribute::Resource(Resource))
    }

    fn construct(store: &mut AttributeStore, params: ()) {
        store.set(Resource)
    }
}

impl AttributeConstructor<()> for MaybeResource {
    open spec fn constructed(
        before: Map<AttributeKind, Attribute>,
        after: Map<AttributeKind, Attribute>,
        params: (),
    ) -> bool {
        after == before.insert(AttributeKind::MaybeResource, Attribute::MaybeResource(MaybeResource))
    }

    fn construct(store: &mut AttributeStore, params: ()) {
        store.set(MaybeResource)
    }
}

impl AttributeConstructor<()> for Enum {
    open spec fn constructed(
        before: Map<AttributeKind, Attribute>,
        after: Map<AttributeKind, Attribute>,
        params: (),
    ) -> bool {
        after == before.insert(AttributeKind::Enum, Attribute::Enum(Enum))
    }

    fn construct(store: &mut AttributeStore, params: ()) {
        store.set(Enum)
    }
}

/// A store read after an attribute is set gives that attribute for its kind
/// and what it held before for every other kind.
pub proof fn lemma_get_after_set(before: Map<AttributeKind, Attribute>, attribute: Attribute, other: AttributeKind)
    ensures
        before.insert(attribute.spec_kind(), attribute).contains_key(attribute.spec_kind()),
        before.insert(attribute.spec_kind(), attribute)[attribute.spec_kind()] == attribute,
        other != attribute.spec_kind() ==> (before.insert(attribute.spec_kind(), attribute).contains_key(
            other,
        ) == before.contains_key(other) && (before.contains_key(other) ==> before.insert(
            attribute.spec_kind(),
            attribute,
        )[other] == before[other])),
{
}

/// Appending a store keeps every kind of either store, each with the
/// appended store's attribute when it has one; appending the same store
/// again changes nothing.
pub proof fn lemma_append(
    before: Map<AttributeKind, Attribute>,
    other: Map<AttributeKind, Attribute>,
    k: AttributeKind,
)
    ensures
        before.union_prefer_right(other).contains_key(k) == (before.contains_key(k)
            || other.contains_key(k)),
        other.contains_key(k) ==> before.union_prefer_right(other)[k] == other[k],
        !other.contains_key(k) && before.contains_key(k) ==> before.union_prefer_right(other)[k]
            == before[k],
        before.union_prefer_right(other).union_prefer_right(other) == before.union_prefer_right(other),
{
    assert(before.union_prefer_right(other).union_prefer_right(other) =~= before.union_prefer_right(
        other,
    ));
}

} // verus!
