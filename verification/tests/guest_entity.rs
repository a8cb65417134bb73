use ambient_core_logic::guest_entity::Entity;
use ambient_core_logic::paths::PackagePath;

#[test]
fn entity_set_get_remove() {
    let mut e: Entity<&str> = Entity::new();
    assert!(e.is_empty());
    e.set(3, "a");
    e.set(5, "b");
    e.set(3, "c");
    assert_eq!(e.len(), 2);
    assert_eq!(e.get_ref(3), Some(&"c"));
    assert!(e.has(5) && !e.has(4));
    assert!(e.has_components(&[3, 5]));
    assert!(!e.has_components(&[3, 4]));
    assert!(e.has_components(&[]));
    assert_eq!(e.remove(5), Some("b"));
    assert_eq!(e.remove(5), None);
    assert!(!e.has(5));
}

#[test]
fn entity_builders_and_merge() {
    let a = Entity::new().with(1, 10).with(2, 20);
    let b = Entity::new().with(2, 99).with(3, 30);
    let merged = a.with_merge(b);
    assert_eq!(merged.len(), 3);
    assert_eq!(merged.get_ref(1), Some(&10));
    assert_eq!(merged.get_ref(2), Some(&99));
    assert_eq!(merged.get_ref(3), Some(&30));
    let smaller = merged.without(2);
    assert!(!smaller.has(2));
    assert_eq!(smaller.len(), 2);
    let mut c = Entity::new().with(7, 1);
    c.merge(Entity::new());
    assert_eq!(c.len(), 1);
}

#[test]
fn path_normalization() {
    let p = PackagePath::parse("../a/./b/../c");
    assert_eq!(p.normalize().components, vec!["..", "a", "c"]);
    let q = PackagePath::parse("/x/../../y");
    assert_eq!(q.normalize().components, vec!["/", "..", "y"]);
    assert_eq!(PackagePath::parse("a/..").normalize().components, Vec::<String>::new());
}
