use ambient_core_logic::campfire::{
    api, build_all, run_in_order, check_all, clean, deploy_all, doc, find_package, get_all_examples,
    get_all_packages, list, regenerate_ids, run, run_all, run_package, serve, CheckAllParams, Doc,
    PackageError, PackageListError, Run, RunParams,
};
use ambient_core_logic::listing::DirListing;
use ambient_core_logic::paths::PackagePath;

fn path(s: &str) -> PackagePath {
    PackagePath::from_components(s.split('/').map(|c| c.to_string()).collect())
}

fn shown(v: &[PackagePath]) -> Vec<String> {
    v.iter().map(|p| p.display()).collect()
}

fn listing(dirs: &[&str], files: &[&str]) -> DirListing {
    let mut l = DirListing::new();
    for d in dirs {
        l.add(path(d), true);
    }
    for f in files {
        l.add(path(f), false);
    }
    l
}

fn repo() -> DirListing {
    listing(
        &[
            "guest",
            "guest/rust",
            "guest/rust/packages",
            "guest/rust/packages/games",
            "guest/rust/packages/games/pong",
            "guest/rust/packages/games/tangent",
            "guest/rust/packages/games/tangent/core",
            "guest/rust/packages/games/tangent/core/ui",
            "guest/rust/packages/games/tangent/core/class",
            "guest/rust/packages/games/tangent/mods",
            "guest/rust/packages/games/tangent/mods/assault",
            "guest/rust/packages/games/tangent/schema",
            "guest/rust/packages/std",
            "guest/rust/packages/std/camera",
            "guest/rust/packages/std/camera/core",
            "guest/rust/packages/std/camera/src",
            "guest/rust/examples",
            "guest/rust/examples/basics",
            "guest/rust/examples/basics/hello",
            "guest/rust/examples/basics/deps_demo",
            "guest/rust/examples/basics/deps_demo/deps",
            "guest/rust/examples/basics/deps_demo/deps/assets",
            "guest/rust/testcases",
            "guest/rust/testcases/t1",
        ],
        &[
            "guest/rust/packages/std/camera/core/ambient.toml",
            "guest/rust/packages/games/pong/ambient.toml",
        ],
    )
}

#[test]
fn listing_add_refuses_a_path_twice() {
    let mut l = DirListing::new();
    assert!(l.add(path("a/b"), true));
    assert!(!l.add(path("a/b"), false));
    assert_eq!(l.len(), 1);
    assert!(l.is_dir(&path("a/b")));
    assert!(!l.is_file(&path("a/b")));
    assert!(!l.contains(&path("a")));
}

#[test]
fn packages_without_examples() {
    let v = get_all_packages(&repo(), false, false, false).unwrap();
    assert_eq!(
        shown(&v),
        vec![
            "guest/rust/packages/games/pong",
            "guest/rust/packages/games/tangent",
            "guest/rust/packages/games/tangent/core/class",
            "guest/rust/packages/games/tangent/core/ui",
            "guest/rust/packages/games/tangent/schema",
            "guest/rust/packages/std/camera",
            "guest/rust/packages/std/camera/core",
        ]
    );
}

#[test]
fn packages_with_mods_and_examples() {
    let v = get_all_packages(&repo(), true, true, true).unwrap();
    assert_eq!(
        shown(&v),
        vec![
            "guest/rust/examples/basics/deps_demo",
            "guest/rust/examples/basics/deps_demo/deps/assets",
            "guest/rust/examples/basics/hello",
            "guest/rust/packages/games/pong",
            "guest/rust/packages/games/tangent",
            "guest/rust/packages/games/tangent/core/class",
            "guest/rust/packages/games/tangent/core/ui",
            "guest/rust/packages/games/tangent/mods/assault",
            "guest/rust/packages/games/tangent/schema",
            "guest/rust/packages/std/camera",
            "guest/rust/packages/std/camera/core",
            "guest/rust/testcases/t1",
        ]
    );
}

#[test]
fn examples_with_and_without_testcases() {
    let v = get_all_examples(&repo(), false).unwrap();
    assert_eq!(
        shown(&v),
        vec![
            "guest/rust/examples/basics/deps_demo",
            "guest/rust/examples/basics/deps_demo/deps/assets",
            "guest/rust/examples/basics/hello",
        ]
    );
    let w = get_all_examples(&repo(), true).unwrap();
    assert_eq!(w.len(), 4);
}

#[test]
fn missing_directories_are_errors() {
    let empty = DirListing::new();
    assert_eq!(
        get_all_packages(&empty, false, false, false).unwrap_err(),
        PackageListError::PackagesDirMissing
    );
    let no_guest_root = listing(&["guest/rust/packages"], &[]);
    assert_eq!(
        get_all_packages(&no_guest_root, true, false, false).unwrap_err(),
        PackageListError::GuestDirMissing
    );
    assert_eq!(get_all_examples(&empty, false).unwrap_err(), PackageListError::GuestDirMissing);
}

#[test]
fn testcases_file_is_an_error_only_when_searched() {
    let l = listing(
        &["guest", "guest/rust", "guest/rust/packages"],
        &["guest/rust/testcases"],
    );
    assert_eq!(
        get_all_packages(&l, true, true, false).unwrap_err(),
        PackageListError::TestcasesNotADirectory
    );
    assert!(get_all_packages(&l, true, false, false).unwrap().is_empty());
}

#[test]
fn examples_directory_missing_is_skipped() {
    let l = listing(&["guest", "guest/web", "guest/rust", "guest/rust/packages"], &[]);
    assert!(get_all_examples(&l, true).unwrap().is_empty());
}

#[test]
fn find_package_takes_first_in_path_order() {
    let p = find_package(&repo(), "camera").unwrap();
    assert_eq!(p.display(), "guest/rust/packages/std/camera");
    let q = find_package(&repo(), "tangent/core/ui").unwrap();
    assert_eq!(q.display(), "guest/rust/packages/games/tangent/core/ui");
    // Mods are not among the runnable packages.
    assert_eq!(
        find_package(&repo(), "assault").unwrap_err(),
        PackageError::NoPackageNamed("assault".to_string())
    );
    assert_eq!(
        find_package(&DirListing::new(), "x").unwrap_err(),
        PackageError::Listing(PackageListError::PackagesDirMissing)
    );
}

#[test]
fn find_package_reads_its_name_as_a_path() {
    assert!(find_package(&repo(), "games//pong/").is_ok());
    assert!(find_package(&repo(), "./pong").is_err());
    assert!(find_package(&repo(), "/pong").is_err());
}

#[test]
fn run_and_serve_invocations() {
    let args = Run {
        package: "hello".to_string(),
        params: RunParams { release: true, args: vec!["--".to_string(), "-v".to_string()] },
    };
    let r = run(&repo(), &args).unwrap();
    assert_eq!(r.args, vec!["run", "guest/rust/examples/basics/hello", "--", "-v"]);
    assert!(r.release && !r.deploying);
    let s = serve(&repo(), &args).unwrap();
    assert_eq!(s.args[0], "serve");
    let missing = Run { package: "nope".to_string(), params: RunParams { release: false, args: vec![] } };
    assert_eq!(
        run(&repo(), &missing).unwrap_err(),
        PackageError::NoPackageNamed("nope".to_string())
    );
}

#[test]
fn run_package_appends_arguments() {
    let params = RunParams { release: false, args: vec!["x".to_string()] };
    let r = run_package("serve", &path("a/b"), &params);
    assert_eq!(r.args, vec!["serve", "a/b", "x"]);
    assert!(!r.release);
}

#[test]
fn run_all_runs_runnable_packages_in_order() {
    let params = RunParams { release: false, args: vec![] };
    let v = run_all(&repo(), &params).unwrap();
    assert_eq!(v.len(), 11);
    assert_eq!(v[0].args, vec!["run", "guest/rust/examples/basics/deps_demo"]);
}

#[test]
fn build_all_and_regenerate_ids() {
    let b = build_all(&repo()).unwrap();
    assert_eq!(b.len(), 12);
    assert_eq!(b[3].args, vec!["build", "guest/rust/packages/games/pong", "--clean-build"]);
    assert!(b[3].release && !b[3].deploying);
    let g = regenerate_ids(&repo()).unwrap();
    assert_eq!(g[0].args, vec!["package", "regenerate-id", "guest/rust/examples/basics/deps_demo"]);
}

#[test]
fn clean_and_list() {
    let c = clean(&repo()).unwrap();
    assert_eq!(c[0].display(), "guest/rust/examples/basics/deps_demo/build");
    let l = list(&repo()).unwrap();
    assert_eq!(l.len(), 12);
    assert_eq!(l[11], "guest/rust/testcases/t1");
}

#[test]
fn deploy_all_joins_packages() {
    let d = deploy_all(&repo(), "tok", false).unwrap();
    assert_eq!(d.args[0], "deploy");
    assert_eq!(d.args[1], "guest/rust/packages/games/pong");
    assert_eq!(d.args[2], "--extra-packages");
    assert_eq!(d.args[3], "guest/rust/packages/games/tangent");
    let n = d.args.len();
    assert_eq!(&d.args[n - 3..], &["--token", "tok", "--clean-build"]);
    assert!(d.release && d.deploying);
    let only_root = listing(&["guest/rust/packages"], &[]);
    let e = deploy_all(&only_root, "t", false).unwrap();
    assert_eq!(e.args, vec!["deploy", "--token", "t", "--clean-build"]);
}

#[test]
fn check_all_steps() {
    let steps = check_all(&CheckAllParams { delete_target: true });
    assert_eq!(steps.len(), 4);
    assert_eq!(steps[0].cargo.args, vec!["clippy", "--", "-A", "clippy::collapsible-if"]);
    assert_eq!(
        steps[3].cargo.args,
        vec!["clippy", "--features", "client,server", "--", "-A", "clippy::collapsible-if"]
    );
    assert_eq!(steps[1].cargo.failure, "Failed to check Rust guest code with features client.");
    assert_eq!(steps[2].remove_first.as_ref().unwrap().display(), "guest/rust/target");
    assert_eq!(steps[0].cargo.env[0].name, "RUSTFLAGS");
    assert_eq!(steps[0].cargo.dir.display(), "guest/rust");
    let kept = check_all(&CheckAllParams { delete_target: false });
    assert!(kept[0].remove_first.is_none());
}

#[test]
fn documentation_runs() {
    let a = api(true, &vec!["--no-deps".to_string()]);
    assert_eq!(
        a.args,
        vec!["+nightly", "doc", "-p", "ambient_api", "--all-features", "--open", "--no-deps"]
    );
    assert_eq!(a.env[0].value, "--cfg docsrs");
    assert_eq!(a.failure, "Failed to document Rust API.");
    assert!(doc(&Doc::Runtime).is_empty());
    assert_eq!(doc(&Doc::Api { open: false, args: vec![] })[0].args.len(), 5);
}

#[test]
fn paths_parse_and_order() {
    assert_eq!(PackagePath::parse("a//b/./c/").components, vec!["a", "b", "c"]);
    assert_eq!(PackagePath::parse("/x").components, vec!["/", "x"]);
    assert_eq!(PackagePath::parse("./x").components, vec![".", "x"]);
    assert_eq!(PackagePath::parse("").components, Vec::<String>::new());
    assert!(path("a/b").le(&path("a/c")));
    assert!(path("a").le(&path("a/b")));
    assert!(!path("b").le(&path("a/z")));
    assert!(path("a/b").ends_with(&path("b")));
    assert!(!path("a/b").ends_with(&path("a")));
    assert_eq!(path("a/b").join("c").display(), "a/b/c");
}

#[test]
fn steps_run_in_order_and_stop_at_first_failure() {
    let ran = std::cell::RefCell::new(Vec::new());
    let steps = vec![1, 2, 3, 4];
    let r = run_in_order(&steps, |s: &i32| {
        ran.borrow_mut().push(*s);
        if *s == 2 { Err(format!("step {s} failed")) } else { Ok(()) }
    });
    assert_eq!(r, Err("step 2 failed".to_string()));
    assert_eq!(*ran.borrow(), vec![1, 2]);
    ran.borrow_mut().clear();
    let ok: Result<(), String> = run_in_order(&steps, |s: &i32| {
        ran.borrow_mut().push(*s);
        Ok(())
    });
    assert_eq!(ok, Ok(()));
    assert_eq!(*ran.borrow(), vec![1, 2, 3, 4]);
    let none: Result<(), String> = run_in_order(&Vec::<i32>::new(), |_s: &i32| Err("never".to_string()));
    assert_eq!(none, Ok(()));
}
