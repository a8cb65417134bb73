use ambient_core_logic::shader::{
    sanitized_label, BindGroupDesc, ShaderError, ShaderIdent, ShaderModule, ShaderModules,
    WgslValue,
};

fn names(v: &[&str]) -> Vec<String> {
    v.iter().map(|s| s.to_string()).collect()
}

#[test]
fn wgsl_values() {
    assert_eq!(WgslValue::Int32(42).to_wgsl(), "42");
    assert_eq!(WgslValue::Int64(7_000_000_000).to_wgsl(), "7000000000");
    assert_eq!(WgslValue::Raw("vec3(1.0)".to_string()).to_wgsl(), "vec3(1.0)");
    assert_eq!(WgslValue::String("a\"b".to_string()).to_wgsl(), "\"a\\\"b\"");
    assert_eq!(WgslValue::Int32(3).as_integer(), Some(3));
    assert_eq!(WgslValue::Int64(3).as_integer(), None);
}

#[test]
fn labels_are_sanitized() {
    assert_eq!(sanitized_label("my module/v1.2 (x)"), "my?module?v1.2??x?");
    assert_eq!(sanitized_label("ok_name-1"), "ok_name-1");
}

fn sample() -> (ShaderModules<u32>, usize) {
    let mut set: ShaderModules<u32> = ShaderModules::new();
    let base = ShaderModule::new("base", "fn f() -> i32 { return SIZE; }")
        .with_ident(ShaderIdent::constant("SIZE", WgslValue::Int32(4)))
        .with_binding("GLOBALS", 10);
    let b = set.add(base).unwrap();
    let util = ShaderModule::new("util", "// util GLOBALS")
        .with_dependency(b)
        .with_binding_desc(&BindGroupDesc { entries: vec![20, 21], label: "MATERIAL".to_string() });
    let u = set.add(util).unwrap();
    let main = ShaderModule::new("main", "let z = ZERO_INTEGER_ON_WEB_FLOAT_ON_NATIVE;")
        .with_dependencies(vec![u, b])
        .with_binding("GLOBALS", 11);
    let m = set.add(main).unwrap();
    (set, m)
}

#[test]
fn modules_resolve_dependencies_first() {
    let (set, m) = sample();
    assert_eq!(set.resolve(m), vec![0, 1, 2]);
    assert_eq!(set.resolve(0), vec![0]);
}

#[test]
fn modules_refuse_unknown_dependency_and_share_names() {
    let (mut set, _) = sample();
    assert_eq!(set.add(ShaderModule::<u32>::new("x", "").with_dependency(9)), None);
    assert_eq!(set.add(ShaderModule::<u32>::new("base", "")), Some(0));
    assert_eq!(set.add(ShaderModule::<u32>::new("main", "").with_dependency(9)), None);
    assert_eq!(set.len(), 3);
}

#[test]
fn preprocess_groups_and_replaces() {
    let (set, m) = sample();
    let shader = set.preprocess(m, &names(&["GLOBALS", "MATERIAL"]), false).unwrap();
    assert_eq!(shader.bind_groups.len(), 2);
    assert_eq!(shader.bind_groups[0].label, "GLOBALS");
    assert_eq!(shader.bind_groups[0].entries, vec![10, 11]);
    assert_eq!(shader.bind_groups[1].entries, vec![20, 21]);
    let div = "--------------------------------";
    let expected = format!(
        "// {div}\n// @module: base\n// {div}\nfn f() -> i32 {{ return 4; }}\n\n// {div}\n// @module: util\n// {div}\n// util 0\n\n// {div}\n// @module: main\n// {div}\nlet z = 0.0;"
    );
    assert_eq!(shader.source, expected);
    let web = set.preprocess(m, &names(&["GLOBALS", "MATERIAL"]), true).unwrap();
    assert!(web.source.ends_with("let z = 0;"));
}

#[test]
fn preprocess_errors() {
    let (set, m) = sample();
    assert_eq!(
        set.preprocess(m, &names(&["GLOBALS"]), false).err(),
        Some(ShaderError::UnknownBindGroup {
            group: "MATERIAL".to_string(),
            module: "util".to_string()
        })
    );
    assert_eq!(
        set.preprocess(0, &names(&["GLOBALS", "A", "B", "C", "D"]), false).err(),
        Some(ShaderError::TooManyBindGroups(5))
    );
}

#[test]
fn repeated_group_name_uses_last() {
    let (set, _) = sample();
    let shader = set.preprocess(0, &names(&["GLOBALS", "GLOBALS"]), false).unwrap();
    assert!(shader.bind_groups[0].entries.is_empty());
    assert_eq!(shader.bind_groups[1].entries, vec![10]);
}

#[test]
fn module_graph_of_several_roots() {
    let (mut set, m) = sample();
    let other = set.add(ShaderModule::new("other", "// other")).unwrap();
    assert_eq!(set.resolve_module_graph(&[other, 0]), vec![3, 0]);
    assert_eq!(set.resolve_module_graph(&[1, m]), vec![0, 1, 2]);
    assert_eq!(set.resolve_module_graph(&[]), Vec::<usize>::new());
}
