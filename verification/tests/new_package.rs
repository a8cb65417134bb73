use ambient_core_logic::new_package::{api_location, checked_api_location};
use ambient_core_logic::new_package::{
    build_cargo_toml, files_to_write, get_ambient_package_locations, handle, identifier_chars,
    is_in_guest_rust, path_file_name, render_ambient_toml, snake_case_name, AmbientVersion,
    ApiLocation, New, NewPackageError, Render, RustTemplate,
};
use ambient_core_logic::paths::PackagePath;
use ambient_core_logic::text::{decimal_text, replace_all};

fn path(s: &str) -> PackagePath {
    PackagePath::parse(s)
}

fn released(v: &str) -> AmbientVersion {
    AmbientVersion { version: v.to_string(), released: true, tag: None, revision: String::new() }
}

fn new_args(name: Option<&str>, rust: RustTemplate, in_workspace: bool) -> New {
    New { name: name.map(|s| s.to_string()), api_path: None, in_workspace, rust }
}

#[test]
fn replace_all_matches_std() {
    for (s, from, to) in [
        ("a{{x}}b{{x}}", "{{x}}", "Q"),
        ("aaa", "aa", "b"),
        ("abc", "", "-"),
        ("", "", "-"),
        ("none here", "zz", "y"),
    ] {
        assert_eq!(replace_all(s, from, to), s.replace(from, to));
    }
}

#[test]
fn decimal_matches_to_string() {
    for n in [0u64, 7, 10, 255, 1_000_001, u64::MAX] {
        assert_eq!(decimal_text(n), n.to_string());
    }
}

#[test]
fn snake_case_names() {
    assert_eq!(snake_case_name("My Cool Game"), "my_cool_game");
    assert_eq!(snake_case_name("hello-world!"), "hello_world");
    assert_eq!(identifier_chars("a-b_c d!9"), "ab_cd9");
}

#[test]
fn file_names_of_paths() {
    assert_eq!(path_file_name(&path("/home/me/game")), Some("game".to_string()));
    assert_eq!(path_file_name(&path("/")), None);
    assert_eq!(path_file_name(&path("a/..")), None);
}

#[test]
fn template_files_for_quad_outside_workspace() {
    let files = files_to_write(RustTemplate::Quad, false);
    let paths: Vec<&str> = files.iter().map(|f| f.path.as_str()).collect();
    assert_eq!(
        paths,
        vec![
            "ambient.toml",
            "Cargo.toml",
            "build.rs",
            "rust-toolchain.toml",
            ".cargo/config.toml",
            ".vscode/settings.json",
            "src/client.rs",
            "src/server.rs",
            ".gitignore",
            ".vscode/launch.json",
        ]
    );
    assert_eq!(files[7].template, "src/server_quad.rs");
    assert_eq!(files[0].render, Render::AmbientToml);
    assert_eq!(files[1].render, Render::CargoToml);
}

#[test]
fn template_files_without_rust_in_workspace() {
    let files = files_to_write(RustTemplate::Nothing, true);
    assert_eq!(files.len(), 1);
    let empty = files_to_write(RustTemplate::Empty, true);
    let templates: Vec<&str> = empty.iter().map(|f| f.template.as_str()).collect();
    assert_eq!(
        templates,
        vec!["ambient.toml", "Cargo.toml", "build.rs", "src/client.rs", "src/server_empty.rs"]
    );
    assert_eq!(RustTemplate::default(), RustTemplate::Quad);
}

#[test]
fn handle_errors_and_plan() {
    let args = new_args(None, RustTemplate::Quad, false);
    assert_eq!(handle(&args, None, false).err(), Some(NewPackageError::RemoteDirectory));
    let named = new_args(Some("x"), RustTemplate::Quad, false);
    assert_eq!(
        handle(&named, Some(&path("/")), false).err(),
        Some(NewPackageError::NoTerminatingSegment)
    );
    assert_eq!(
        handle(&args, Some(&path("/tmp/My Game")), true).err(),
        Some(NewPackageError::NotEmpty)
    );
    let plan = handle(&args, Some(&path("/tmp/My Game")), false).unwrap();
    assert_eq!(plan.name, "My Game");
    assert_eq!(plan.snake_case_name, "my_game");
    assert_eq!(plan.files.len(), 10);
    let given = handle(&named, Some(&path("/tmp/My Game")), false).unwrap();
    assert_eq!(given.name, "x");
}

#[test]
fn locations_in_guest_workspace() {
    assert!(is_in_guest_rust(&path("/repo/guest/rust/packages/x")));
    assert!(!is_in_guest_rust(&path("/repo/guest/web/rust")));
    let ((api, proj), in_ws) =
        get_ambient_package_locations(&path("/r/guest/rust/p"), None, &released("0.3.0"));
    assert!(in_ws);
    assert_eq!(api, "ambient_api = { workspace = true }");
    assert_eq!(proj, "ambient_package_projection = { workspace = true }");
}

#[test]
fn locations_outside_workspace() {
    let p = path("/home/me/game");
    let ((api, _), in_ws) = get_ambient_package_locations(&p, None, &released("0.3.0"));
    assert!(!in_ws);
    assert_eq!(api, "ambient_api = \"0.3.0\"");
    let tagged = AmbientVersion {
        version: "0.3.1-dev".to_string(),
        released: false,
        tag: Some("v0.3.1".to_string()),
        revision: "abc".to_string(),
    };
    let ((api, proj), _) = get_ambient_package_locations(&p, None, &tagged);
    assert_eq!(
        api,
        "ambient_api = { git = \"https://github.com/AmbientRun/Ambient.git\", tag = \"v0.3.1\" }"
    );
    assert!(proj.starts_with("ambient_package_projection = { git"));
    let rev = AmbientVersion { tag: None, ..tagged };
    let ((api, _), _) = get_ambient_package_locations(&p, None, &rev);
    assert_eq!(
        api,
        "ambient_api = { git = \"https://github.com/AmbientRun/Ambient.git\", rev = \"abc\" }"
    );
    let bare = AmbientVersion {
        version: "0.4.0-nightly".to_string(),
        released: false,
        tag: None,
        revision: String::new(),
    };
    let ((api, _), _) = get_ambient_package_locations(&p, None, &bare);
    assert_eq!(api, "ambient_api = \"0.4.0-nightly\"");
    let local = ApiLocation {
        api: "\"../ambient/guest/rust/api\"".to_string(),
        package_projection: "\"../ambient/guest/rust/api_core/package_projection\"".to_string(),
    };
    let ((api, proj), _) = get_ambient_package_locations(&p, Some(&local), &bare);
    assert_eq!(api, "ambient_api = { path = \"../ambient/guest/rust/api\" }");
    assert_eq!(
        proj,
        "ambient_package_projection = { path = \"../ambient/guest/rust/api_core/package_projection\" }"
    );
}

#[test]
fn cargo_toml_rendering() {
    let template = "[package]\nname = \"{{id}}\"\nversion = \"0.0.1\"\n\n[dependencies]\nambient_api = { path = \"../../../../guest/rust/api\" }\nambient_package_projection = { path = \"../../../../guest/rust/api_core/package_projection\" }\n";
    let outside = build_cargo_toml(template, &path("/home/game"), None, &released("0.3.0"), "game");
    assert_eq!(
        outside,
        "[package]\nname = \"game\"\nversion = \"0.0.1\"\n\n[dependencies]\nambient_api = \"0.3.0\"\nambient_package_projection = \"0.3.0\"\n"
    );
    let inside =
        build_cargo_toml(template, &path("/r/guest/rust/g"), None, &released("0.3.0"), "g");
    assert_eq!(
        inside,
        "[package]\nname = \"g\"\nrust-version = { workspace = true }\nversion = { workspace = true }\n\n[dependencies]\nambient_api = { workspace = true }\nambient_package_projection = { workspace = true }\n"
    );
}

#[test]
fn ambient_toml_rendering() {
    let t = "id = \"{{id}}\"\nname = \"{{name}}\"\nambient_version = \"{{ambient_version}}\"\n";
    assert_eq!(
        render_ambient_toml(t, "abc", "My Game", "0.3.0"),
        "id = \"abc\"\nname = \"My Game\"\nambient_version = \"0.3.0\"\n"
    );
}

#[test]
fn api_location_relative_and_absolute() {
    let p = |s: &str| PackagePath::parse(s);
    let abs = api_location(&p("/src/ambient/guest/rust/api"), &p("/unused"), &p("/work/pkg"));
    assert_eq!(abs.api, "\"/src/ambient/guest/rust/api\"");
    assert_eq!(abs.package_projection, "\"/src/ambient/guest/rust/api_core/package_projection\"");
    let rel = checked_api_location(&p("../ambient/api"), &p("/home/me/ambient/api"), &p("/home/me/pkg")).unwrap();
    assert_eq!(rel.api, "\"../ambient/api\"");
    assert_eq!(rel.package_projection, "\"../ambient/api_core/package_projection\"");
    assert!(checked_api_location(&p("api"), &p("a"), &p("../b")).is_none());
    let same = api_location(&p("../ambient/api"), &p("/home/me/ambient/api"), &p("/home/me/pkg"));
    assert_eq!(same.api, rel.api);
}
