use ambient_core_logic::entity::{deserialize_with_warnings, Entity, EntryProblem};
use ambient_core_logic::attributes::{
    Attribute, AttributeConstructor, AttributeKind, AttributeStore, ComponentAttribute, Debuggable,
    Description, Name, Networked, Serializable, Store,
};
use ambient_core_logic::component_registry::{
    ComponentRegistry, ExternalComponentAttributes, ExternalComponentDesc,
};
use ambient_core_logic::component_set::{ComponentDesc, ComponentSet, ComponentSetSerialized};
use ambient_core_logic::enums::{Align, EnumComponent, Fit, FontStyle, HttpMethod};

fn set_of(count: usize, members: &[usize]) -> ComponentSet {
    let mut s = ComponentSet::new(count);
    for &m in members {
        s.insert_by_index(m);
    }
    s
}

#[test]
fn component_set_insert_remove_contains() {
    let mut s = ComponentSet::new(10);
    assert!(!s.contains_index(3));
    s.insert(ComponentDesc::new(3));
    s.insert_by_index(7);
    assert!(s.contains(ComponentDesc::new(3)));
    assert!(s.contains_index(7));
    assert!(!s.contains_index(4));
    s.remove(ComponentDesc::new(3));
    assert!(!s.contains_index(3));
    s.remove_by_index(7);
    assert!(!s.contains_index(7));
}

#[test]
fn component_set_grows_past_its_capacity() {
    let mut s = ComponentSet::new(2);
    s.insert_by_index(40);
    assert!(s.contains_index(40));
}

#[test]
fn component_set_union_superset_disjoint_intersection() {
    let mut a = set_of(16, &[1, 4, 9]);
    let b = set_of(16, &[4, 12]);
    assert!(!a.is_superset(&b));
    assert!(!a.is_disjoint(&b));
    assert_eq!(a.intersection(&b), vec![4]);
    a.union_with(&b);
    assert!(a.is_superset(&b));
    assert!(a.contains_index(12));
    let c = set_of(16, &[2, 3]);
    assert!(a.is_disjoint(&c));
}

#[test]
fn component_set_eq_ignores_capacity() {
    let a = set_of(4, &[1, 2]);
    let b = set_of(100, &[2, 1]);
    assert!(a.eq(&b));
    let c = b.clone();
    assert!(c.eq(&a));
    assert!(!set_of(4, &[1]).eq(&a));
}

#[test]
fn component_set_serialized_bytes() {
    let s = set_of(10, &[0, 9]);
    let ComponentSetSerialized(count, bytes) = s.to_serialized();
    assert_eq!(count, 2);
    assert_eq!(bytes, vec![0b1000_0000, 0b0100_0000]);
}

#[test]
fn component_set_round_trip_keeps_members_below_count() {
    // Members 0 and 1 of a two-member set lie below the count of two.
    let s = set_of(8, &[0, 1]);
    let back = ComponentSet::from_serialized(&s.to_serialized());
    assert!(back.eq(&s));
    // Member 5 does not: the count stored is 2, and only bits below it come back.
    let t = set_of(8, &[0, 5]);
    let back = ComponentSet::from_serialized(&t.to_serialized());
    assert!(back.contains_index(0));
    assert!(!back.contains_index(5));
}

#[test]
fn component_set_from_serialized_cuts_to_count() {
    let back = ComponentSet::from_serialized(&ComponentSetSerialized(3, vec![0xff]));
    assert!(back.contains_index(0) && back.contains_index(2));
    assert!(!back.contains_index(3));
}

#[test]
fn attribute_store_set_get_has() {
    let mut store = AttributeStore::new();
    assert!(!store.has::<Name>());
    store.set(Name("pos".to_string()));
    assert!(store.has::<Name>());
    assert_eq!(store.get::<Name>().map(|n| n.0.clone()), Some("pos".to_string()));
    store.set(Name("rot".to_string()));
    assert_eq!(store.get::<Name>().map(|n| n.0.clone()), Some("rot".to_string()));
    assert!(store.get::<Description>().is_none());
    assert!(store.get_dyn(AttributeKind::Name).is_some());
    assert!(!store.has_kind(AttributeKind::Store));
}

#[test]
fn attribute_store_append_prefers_appended() {
    let mut a = AttributeStore::new();
    a.set(Name("a".to_string()));
    a.set(Debuggable);
    let mut b = AttributeStore::new();
    b.set(Name("b".to_string()));
    b.set_dyn(Attribute::Networked(Networked));
    a.append(&b);
    assert_eq!(a.get::<Name>().map(|n| n.0.clone()), Some("b".to_string()));
    assert!(a.has::<Debuggable>());
    assert!(a.has::<Networked>());
}

#[test]
fn attribute_store_iter_in_kind_order() {
    let mut store = AttributeStore::new();
    store.set(Name("n".to_string()));
    store.set(Serializable);
    store.set(Debuggable);
    let kinds: Vec<AttributeKind> = store.iter().iter().map(|a| a.kind()).collect();
    assert_eq!(
        kinds,
        vec![AttributeKind::Serializable, AttributeKind::Debuggable, AttributeKind::Name]
    );
}

#[test]
fn attribute_store_from_attributes_later_wins() {
    let store = AttributeStore::from_attributes(vec![
        Attribute::Name(Name("first".to_string())),
        Attribute::Name(Name("second".to_string())),
    ]);
    assert_eq!(store.get::<Name>().map(|n| n.0.clone()), Some("second".to_string()));
}

#[test]
fn constructing_store_adds_serializable() {
    let mut store = AttributeStore::new();
    Store::construct(&mut store, ());
    assert!(store.has::<Store>());
    assert!(store.has::<Serializable>());
    let mut named = AttributeStore::new();
    Description::construct(&mut named, "text");
    assert_eq!(named.get::<Description>().map(|d| d.0.clone()), Some("text".to_string()));
}

#[test]
fn component_attribute_kinds() {
    assert_eq!(Name::kind(), AttributeKind::Name);
    assert_eq!(Attribute::Store(Store).kind(), AttributeKind::Store);
    assert_eq!(AttributeKind::Store.key(), 3);
    assert_eq!(AttributeKind::from_key(3), Some(AttributeKind::Store));
    assert_eq!(AttributeKind::from_key(12), None);
}

#[test]
fn external_flags_names_round_trip() {
    let f = ExternalComponentAttributes::from_names(&["Networked", "Store"]);
    assert!(f.networked && f.store && !f.debuggable);
    assert_eq!(f.iter(), vec!["Networked", "Store"]);
    assert_eq!(ExternalComponentAttributes::try_from_names(&f.iter()), Some(f));
    assert_eq!(ExternalComponentAttributes::try_from_names(&["Store", "Bogus"]), None);
    assert_eq!(ExternalComponentAttributes::none().iter(), Vec::<&str>::new());
}

#[test]
fn external_flags_through_a_store() {
    let f = ExternalComponentAttributes::from_names(&["Debuggable", "Enum", "Resource"]);
    let mut store = AttributeStore::new();
    f.construct_for_store(&mut store);
    assert_eq!(ExternalComponentAttributes::from_existing_component(&store), f);
}

#[test]
fn registry_register_and_find() {
    let mut reg: ComponentRegistry<u8> = ComponentRegistry::new();
    let a = reg.register_static("core::a", Some(1));
    let b = reg.register_static("core::b", None);
    assert_eq!(a.index(), 0);
    assert_eq!(b.index(), 1);
    assert_eq!(reg.component_count(), 2);
    assert_eq!(reg.path_to_index("core::b"), Some(1));
    assert_eq!(reg.path_to_index("core::c"), None);
    assert_eq!(reg.get_by_path("core::a").map(|d| d.index()), Some(0));
    assert_eq!(reg.get_by_index(1).map(|d| d.index()), Some(1));
    assert!(reg.get_by_index(2).is_none());
}

#[test]
fn registry_register_again_keeps_index() {
    let mut reg: ComponentRegistry<u8> = ComponentRegistry::new();
    let first = reg.register_static("core::a", Some(1));
    let again = reg.register_static("core::a", Some(2));
    assert_eq!(first.index(), again.index());
    assert_eq!(reg.component_count(), 1);
}

#[test]
fn registry_records_path_attribute() {
    let mut reg: ComponentRegistry<u8> = ComponentRegistry::new();
    reg.register_static("core::a", Some(1));
    let attrs = reg.attributes(0).unwrap();
    assert!(attrs.has_kind(AttributeKind::ComponentPath));
    let prims = reg.all_primitive();
    assert_eq!(prims.len(), 1);
    assert_eq!(prims[0].ty, 1);
}

#[test]
fn registry_external_components() {
    let mut reg: ComponentRegistry<u8> = ComponentRegistry::new();
    reg.add_external(vec![ExternalComponentDesc {
        path: "ext::health".to_string(),
        ty: 7,
        name: Some("Health".to_string()),
        description: None,
        attributes: ExternalComponentAttributes::from_names(&["Networked"]),
    }]);
    let attrs = reg.attributes(0).unwrap();
    assert!(attrs.has::<Networked>());
    assert!(attrs.has::<Serializable>());
    assert_eq!(attrs.get::<Name>().map(|n| n.0.clone()), Some("Health".to_string()));
    let ext = reg.all_external();
    assert_eq!(ext.len(), 1);
    assert_eq!(ext[0].0.path, "ext::health");
    assert!(ext[0].0.attributes.networked);
}

#[test]
fn enum_components_round_trip() {
    assert_eq!(Align::Center.to_u32(), 1);
    assert_eq!(Align::from_u32(2), Some(Align::End));
    assert_eq!(Align::from_u32(3), None);
    assert_eq!(FontStyle::from_u32(FontStyle::LightItalic.to_u32()), Some(FontStyle::LightItalic));
    assert_eq!(Fit::from_u32(Fit::Nothing.to_u32()), Some(Fit::Nothing));
    assert_eq!(HttpMethod::default(), HttpMethod::from_u32(0).unwrap());
    assert_eq!(Align::default(), Align::Begin);
}

#[test]
fn component_attribute_conversions() {
    let a = Name("x".to_string()).into_attribute();
    assert_eq!(a.kind(), AttributeKind::Name);
    assert_eq!(Name::from_attribute(&a).map(|n| n.0.clone()), Some("x".to_string()));
    assert!(Description::from_attribute(&a).is_none());
}

#[test]
fn entity_data_set_get_remove() {
    let a = ComponentDesc::new(2);
    let b = ComponentDesc::new(9);
    let mut e: Entity<u32> = Entity::new();
    assert!(e.is_empty());
    e.set(a, 5);
    e.set(b, 7);
    e.set(a, 6);
    assert_eq!(e.len(), 2);
    assert_eq!(e.get(a), Some(6));
    assert_eq!(e.get_ref(b), Some(&7));
    assert!(!e.contains(ComponentDesc::new(3)));
    assert!(e.active_components().contains(a));
    assert!(e.active_components().contains(b));
    assert!(!e.active_components().contains_index(3));
    let comps: Vec<u32> = e.components().iter().map(|d| d.index()).collect();
    assert_eq!(comps, vec![2, 9]);
    assert_eq!(e.remove_raw(a), Some(6));
    assert_eq!(e.remove_raw(a), None);
    assert!(!e.active_components().contains(a));
    assert_eq!(e.len(), 1);
    assert_eq!(e.remove_self(ComponentDesc::new(100)), None);
}

#[test]
fn entity_data_builders_merge_filter() {
    let c0 = ComponentDesc::new(0);
    let c1 = ComponentDesc::new(1);
    let c4 = ComponentDesc::new(4);
    let e = Entity::new().with(c0, "x").with_opt(c1, None).with_if_empty(c0, "y");
    assert_eq!(e.get(c0), Some("x"));
    assert!(!e.contains(c1));
    let e = e.with_opt(c1, Some("z")).remove(c0);
    assert_eq!(e.components().len(), 1);
    let other = Entity::new().with(c1, "w").with(c4, "v");
    let mut merged = e.with_merge(other);
    assert_eq!(merged.get(c1), Some("w"));
    assert_eq!(merged.get(c4), Some("v"));
    assert_eq!(merged.len(), 2);
    merged.filter(|d: ComponentDesc| d.index() != 4);
    assert!(!merged.contains(c4));
    assert!(merged.contains(c1));
    assert!(!merged.active_components().contains(c4));
}

#[test]
fn entity_data_serializable_keeps_serializable_components() {
    let mut reg: ComponentRegistry<u8> = ComponentRegistry::new();
    let mut attrs = AttributeStore::new();
    attrs.set(Serializable);
    let ser = reg.register("core::ser".to_string(), None, Some(attrs));
    let plain = reg.register_static("core::plain", None);
    let e = Entity::new().with(ser, 1).with(plain, 2);
    let s = e.serializable(&reg);
    assert_eq!(s.get(ser), Some(1));
    assert!(!s.contains(plain));
    assert_eq!(s.len(), 1);
}

#[test]
fn test_serialize_entity_data() {
    let mut reg: ComponentRegistry<u8> = ComponentRegistry::new();
    let mut attrs = AttributeStore::new();
    attrs.set(Networked);
    attrs.set(Serializable);
    let ser_test2 = reg.register("ambient_core::test::ser_test2".to_string(), None, Some(attrs));
    let source: Entity<String> = Entity::new().with(ser_test2, "hello".to_string());
    let entries = source.serialize(&reg, |_d: ComponentDesc, v: &String| serde_json::Value::String(v.clone()));
    let mut map = serde_json::Map::new();
    for (k, v) in entries {
        map.insert(k, v);
    }
    let ser = serde_json::to_string(&serde_json::Value::Object(map)).unwrap();
    assert_eq!(&ser, "{\"ambient_core::test::ser_test2\":\"hello\"}");
    let parsed: serde_json::Map<String, serde_json::Value> = serde_json::from_str(&ser).unwrap();
    let entries: Vec<(String, serde_json::Value)> = parsed.into_iter().collect();
    let deser = Entity::deserialize(&reg, &entries, |_d: ComponentDesc, j: &serde_json::Value| {
        serde_json::from_value::<String>(j.clone()).map_err(|e| e.to_string())
    })
    .unwrap();
    assert_eq!(source.get_ref(ser_test2), deser.get_ref(ser_test2));
}

#[test]
fn entity_data_deserialize_reports_each_bad_entry() {
    let mut reg: ComponentRegistry<u8> = ComponentRegistry::new();
    let mut attrs = AttributeStore::new();
    attrs.set(Serializable);
    let num = reg.register("core::num".to_string(), None, Some(attrs));
    let hidden = reg.register_static("core::hidden", None);
    let entries: Vec<(String, &str)> = vec![
        ("core::missing".to_string(), "1"),
        ("core::hidden".to_string(), "2"),
        ("core::num".to_string(), "x"),
        ("core::num".to_string(), "7"),
    ];
    let read = |_d: ComponentDesc, j: &&str| j.parse::<u32>().map_err(|_| "not a number".to_string());
    let out = deserialize_with_warnings(&reg, &entries, read);
    assert_eq!(out.entity.get(num), Some(7));
    assert!(!out.entity.contains(hidden));
    assert_eq!(out.warnings.len(), 3);
    assert_eq!(out.warnings[0].key, "core::missing");
    assert_eq!(out.warnings[0].problem, EntryProblem::NoSuchComponent);
    assert_eq!(out.warnings[1].problem, EntryProblem::NotDeserializable(hidden));
    assert_eq!(out.warnings[2].problem, EntryProblem::BadValue("not a number".to_string()));
    let strict = Entity::deserialize(&reg, &entries, read);
    assert_eq!(strict.err().map(|w| w.problem), Some(EntryProblem::NoSuchComponent));
    let good: Vec<(String, &str)> = vec![("core::num".to_string(), "3")];
    let ok = Entity::deserialize(&reg, &good, read).unwrap();
    assert_eq!(ok.get(num), Some(3));
}

#[test]
fn entity_data_entries_defaults_and_clones() {
    let c1 = ComponentDesc::new(1);
    let c3 = ComponentDesc::new(3);
    let e = Entity::from_entries(vec![(c3, 30u32), (c1, 10), (c3, 33)]);
    assert_eq!(e.get(c3), Some(33));
    assert_eq!(e.get_cloned(c1), Some(10));
    assert_eq!(e.get_entry(c1), Some((c1, &10)));
    assert_eq!(e.get_entry(ComponentDesc::new(2)), None);
    let entries = e.into_entries();
    assert_eq!(entries, vec![(c1, 10), (c3, 33)]);
    let mut d: Entity<u32> = Entity::new().with_default(c1).with_default_if_empty(c1);
    assert_eq!(d.get(c1), Some(0));
    d.set_entry((c1, 5));
    let d = d.with_default_if_empty(c1).with_default_if_empty(c3);
    assert_eq!(d.get(c1), Some(5));
    assert_eq!(d.get(c3), Some(0));
}

#[test]
fn entity_data_assert_all_names_first_missing() {
    let mut reg: ComponentRegistry<u8> = ComponentRegistry::new();
    let mut attrs = AttributeStore::new();
    attrs.set(Networked);
    let a = reg.register_static("core::a", None);
    let n = reg.register("core::n".to_string(), None, Some(attrs));
    let b = reg.register_static("core::b", None);
    let e = Entity::new().with(n, 1u8);
    assert_eq!(e.first_without_attribute(&reg, AttributeKind::Networked), None);
    e.assert_all(&reg, AttributeKind::Networked);
    let e = e.with(b, 2).with(a, 3);
    assert_eq!(e.first_without_attribute(&reg, AttributeKind::Networked), Some(a));
    assert_eq!(Entity::<u8>::new().first_without_attribute(&reg, AttributeKind::Store), None);
}

#[test]
fn entity_data_round_trip_keeps_serializable_components() {
    let mut reg: ComponentRegistry<u8> = ComponentRegistry::new();
    let mut ser = AttributeStore::new();
    ser.set(Serializable);
    let a = reg.register("core::a".to_string(), None, Some(ser));
    let hidden = reg.register_static("core::hidden", None);
    let mut ser2 = AttributeStore::new();
    ser2.set(Serializable);
    ser2.set(Networked);
    let b = reg.register("core::b".to_string(), None, Some(ser2));
    let e: Entity<u32> = Entity::new().with(b, 20).with(hidden, 99).with(a, 10);
    let entries = e.serialize(&reg, |_d: ComponentDesc, v: &u32| v.to_string());
    assert_eq!(entries, vec![("core::a".to_string(), "10".to_string()), ("core::b".to_string(), "20".to_string())]);
    let read = |_d: ComponentDesc, j: &String| j.parse::<u32>().map_err(|_| "bad".to_string());
    let back = deserialize_with_warnings(&reg, &entries, read);
    assert!(back.warnings.is_empty());
    let strict = Entity::deserialize(&reg, &entries, read).unwrap();
    let expected = Entity::from_entries(vec![(a, 10), (b, 20)]);
    assert_eq!(back.entity.into_entries(), expected.into_entries());
    assert_eq!(strict.into_entries(), vec![(a, 10), (b, 20)]);
}
