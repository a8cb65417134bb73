//! Creating a new package: what it is called, which template files it gets
//! and where it finds the Ambient API.
use crate::paths::{join_components, normalized, path_view, PackagePath};
use crate::shader::{debug_quoted, quote_debug};
use crate::std_wrappers::{str_eq, string_push, string_push_str};
use crate::text::{concat2, concat3, replace_all, replaced};
use convert_case::{Case, Casing};
use vstd::prelude::*;

verus! {

/// The Rust code that a new package starts with.
#[derive(Clone, Copy, PartialEq, Eq, Structural, Debug)]
pub enum RustTemplate {
    /// No Rust code.
    Nothing,
    /// An empty client and server.
    Empty,
    /// An empty client, and a server with a camera looking at a quad.
    Quad,
}

impl Default for RustTemplate {
    fn default() -> (r: Self)
        ensures
            r == RustTemplate::Quad,
    {
        RustTemplate::Quad
    }
}

/// The options of a new package.
#[derive(Debug)]
pub struct New {
    /// The package's name; the last component of its path when absent.
    pub name: Option<String>,
    /// Where the Ambient API is, when it is taken from a local checkout.
    pub api_path: Option<String>,
    /// Whether the package is made inside an existing Rust workspace, and so
    /// needs no files of its own for the workspace.
    pub in_workspace: bool,
    /// The Rust code it starts with.
    pub rust: RustTemplate,
}

/// How a template file is turned into the package's file.
#[derive(Clone, Copy, PartialEq, Eq, Structural, Debug)]
pub enum Render {
    /// The package manifest, with the package's identifier, name and the
    /// Ambient version filled in.
    AmbientToml,
    /// The crate manifest, with the crate's name and the API's location filled
    /// in.
    CargoToml,
    /// The template as it is.
    AsIs,
}

/// A file of the new package: its path in the package, the template it is
/// made from, and how.
#[derive(Debug)]
pub struct NewFile {
    pub path: String,
    pub template: String,
    pub render: Render,
}

/// A new file as a value.
pub open spec fn new_file_view(f: NewFile) -> (Seq<char>, Seq<char>, Render) {
    (f.path@, f.template@, f.render)
}

/// The files that a new package gets, in the order they are written.
pub open spec fn template_files(rust: RustTemplate, in_workspace: bool) -> Seq<
    (Seq<char>, Seq<char>, Render),
> {
    seq![("ambient.toml"@, "ambient.toml"@, Render::AmbientToml)] + (if rust == RustTemplate::Nothing {
        seq![]
    } else {
        seq![
            ("Cargo.toml"@, "Cargo.toml"@, Render::CargoToml),
            ("build.rs"@, "build.rs"@, Render::AsIs),
        ] + (if in_workspace {
            seq![]
        } else {
            seq![
                ("rust-toolchain.toml"@, "rust-toolchain.toml"@, Render::AsIs),
                (".cargo/config.toml"@, ".cargo/config.toml"@, Render::AsIs),
                (".vscode/settings.json"@, ".vscode/settings.json"@, Render::AsIs),
            ]
        })
    }) + (match rust {
        RustTemplate::Nothing => seq![],
        RustTemplate::Empty => seq![
            ("src/client.rs"@, "src/client.rs"@, Render::AsIs),
            ("src/server.rs"@, "src/server_empty.rs"@, Render::AsIs),
        ],
        RustTemplate::Quad => seq![
            ("src/client.rs"@, "src/client.rs"@, Render::AsIs),
            ("src/server.rs"@, "src/server_quad.rs"@, Render::AsIs),
        ],
    }) + (if in_workspace {
        seq![]
    } else {
        seq![
            (".gitignore"@, ".gitignore"@, Render::AsIs),
            (".vscode/launch.json"@, ".vscode/launch.json"@, Render::AsIs),
        ]
    })
}

/// A file made from `template` as `render` says.
fn new_file(path: &str, template: &str, render: Render) -> (r: NewFile)
    ensures
        new_file_view(r) == (path@, template@, render),
{
    NewFile { path: path.to_owned(), template: template.to_owned(), render }
}

/// The files that a new package gets, in the order they are written.
pub fn files_to_write(rust: RustTemplate, in_workspace: bool) -> (r: Vec<NewFile>)
    ensures
        r@.map_values(|f: NewFile| new_file_view(f)) == template_files(rust, in_workspace),
{
    let mut r: Vec<NewFile> = Vec::new();
    r.push(new_file("ambient.toml", "ambient.toml", Render::AmbientToml));
    let ghost common = r@.map_values(|f: NewFile| new_file_view(f));
    match rust {
        RustTemplate::Nothing => {},
        RustTemplate::Empty | RustTemplate::Quad => {
            r.push(new_file("Cargo.toml", "Cargo.toml", Render::CargoToml));
            r.push(new_file("build.rs", "build.rs", Render::AsIs));
            if !in_workspace {
                r.push(new_file("rust-toolchain.toml", "rust-toolchain.toml", Render::AsIs));
                r.push(new_file(".cargo/config.toml", ".cargo/config.toml", Render::AsIs));
                r.push(new_file(".vscode/settings.json", ".vscode/settings.json", Render::AsIs));
            }
        },
    }
    let ghost with_common = r@.map_values(|f: NewFile| new_file_view(f));
    match rust {
        RustTemplate::Nothing => {},
        RustTemplate::Empty => {
            r.push(new_file("src/client.rs", "src/client.rs", Render::AsIs));
            r.push(new_file("src/server.rs", "src/server_empty.rs", Render::AsIs));
        },
        RustTemplate::Quad => {
            r.push(new_file("src/client.rs", "src/client.rs", Render::AsIs));
            r.push(new_file("src/server.rs", "src/server_quad.rs", Render::AsIs));
        },
    }
    if !in_workspace {
        r.push(new_file(".gitignore", ".gitignore", Render::AsIs));
        r.push(new_file(".vscode/launch.json", ".vscode/launch.json", Render::AsIs));
    }
    assert(r@.map_values(|f: NewFile| new_file_view(f)) =~= template_files(rust, in_workspace));
    r
}

/// The last component of `p` when it is a name: not the root `/`, `.` or
/// `..`.
pub open spec fn file_name(p: Seq<Seq<char>>) -> Option<Seq<char>> {
    if p.len() > 0 && p.last() != "/"@ && p.last() != "."@ && p.last() != ".."@ {
        Some(p.last())
    } else {
        None
    }
}

/// The last component of `path` when it is a name.
pub fn path_file_name(path: &PackagePath) -> (r: Option<String>)
    ensures
        match r {
            Some(s) => file_name(path_view(*path)) == Some(s@),
            None => file_name(path_view(*path)) is None,
        },
{
    let n = path.components.len();
    if n == 0 {
        return None;
    }
    let last = path.components[n - 1].as_str();
    if str_eq(last, "/") || str_eq(last, ".") || str_eq(last, "..") {
        return None;
    }
    Some(last.to_owned())
}

/// What `Casing::to_case` with `Case::Snake` gives for `s`.
pub uninterp spec fn snake_case(s: Seq<char>) -> Seq<char>;

/// `convert_case`'s `to_case(Case::Snake)`: the words of `s`, lower-cased and
/// joined by `_`. Its result is given the name `snake_case`.
#[verifier::external_body]
fn to_snake_case(s: &str) -> (r: String)
    ensures
        r@ == snake_case(s@),
{
    s.to_case(Case::Snake)
}

/// Whether `c` may stand in an identifier: an ASCII letter or digit, or `_`.
pub open spec fn is_identifier_char(c: char) -> bool {
    ('a' <= c && c <= 'z') || ('A' <= c && c <= 'Z') || ('0' <= c && c <= '9') || c == '_'
}

/// The characters of `s` that may stand in an identifier.
pub open spec fn identifier_part(s: Seq<char>) -> Seq<char> {
    s.filter(|c: char| is_identifier_char(c))
}

/// Keeps the characters of `s` that may stand in an identifier.
pub fn identifier_chars(s: &str) -> (r: String)
    ensures
        r@ == identifier_part(s@),
{
    let cs = crate::text::chars_of(s);
    let mut r = String::new();
    let mut i: usize = 0;
    while i < cs.len()
        invariant
            cs@ == s@,
            i <= cs@.len(),
            r@ == identifier_part(cs@.take(i as int)),
        decreases cs@.len() - i,
    {
        let c = cs[i];
        let keep = ('a' <= c && c <= 'z') || ('A' <= c && c <= 'Z') || ('0' <= c && c <= '9') || c
            == '_';
        proof {
            let t = cs@.take(i + 1);
            assert(t.drop_last() =~= cs@.take(i as int));
            assert(t.last() == c);
            cs@.take(i as int).lemma_filter_push(c, |c: char| is_identifier_char(c));
            assert(cs@.take(i as int).push(c) =~= t);
        }
        if keep {
            string_push(&mut r, c);
        }
        i = i + 1;
    }
    assert(cs@.take(cs@.len() as int) =~= cs@);
    r
}

/// The package's name in snake case, keeping only identifier characters.
pub fn snake_case_name(name: &str) -> (r: String)
    ensures
        r@ == identifier_part(snake_case(name@)),
{
    let snake = to_snake_case(name);
    identifier_chars(snake.as_str())
}

/// Why a package could not be created.
#[derive(Clone, Copy, PartialEq, Eq, Structural, Debug)]
pub enum NewPackageError {
    /// The package's location is not on this machine.
    RemoteDirectory,
    /// The package's path does not end with a name.
    NoTerminatingSegment,
    /// The package's directory exists and holds something.
    NotEmpty,
}

/// What creating a package writes: its name, its crate's name and its files.
#[derive(Debug)]
pub struct NewPackagePlan {
    pub name: String,
    pub snake_case_name: String,
    pub files: Vec<NewFile>,
}

/// Decides how the package at `package_path` (absent when the location is
/// remote) is created; `dir_not_empty` says whether its directory exists and
/// holds something. A path that does not end with a name is refused even
/// when a name is given.
pub fn handle(args: &New, package_path: Option<&PackagePath>, dir_not_empty: bool) -> (r: Result<
    NewPackagePlan,
    NewPackageError,
>)
    ensures
        match r {
            Ok(plan) => {
                &&& package_path is Some
                &&& file_name(path_view(*package_path->0)) is Some
                &&& !dir_not_empty
                &&& plan.name@ == match args.name {
                    Some(n) => n@,
                    None => file_name(path_view(*package_path->0))->0,
                }
                &&& plan.snake_case_name@ == identifier_part(snake_case(plan.name@))
                &&& plan.files@.map_values(|f: NewFile| new_file_view(f)) == template_files(
                    args.rust,
                    args.in_workspace,
                )
            },
            Err(NewPackageError::RemoteDirectory) => package_path is None,
            Err(NewPackageError::NoTerminatingSegment) => package_path is Some && file_name(
                path_view(*package_path->0),
            ) is None,
            Err(NewPackageError::NotEmpty) => package_path is Some && file_name(
                path_view(*package_path->0),
            ) is Some && dir_not_empty,
        },
{
    let path = match package_path {
        None => {
            return Err(NewPackageError::RemoteDirectory);
        },
        Some(p) => p,
    };
    let last = match path_file_name(path) {
        None => {
            return Err(NewPackageError::NoTerminatingSegment);
        },
        Some(s) => s,
    };
    if dir_not_empty {
        return Err(NewPackageError::NotEmpty);
    }
    let name = match &args.name {
        Some(n) => n.clone(),
        None => last,
    };
    let snake = snake_case_name(name.as_str());
    let files = files_to_write(args.rust, args.in_workspace);
    Ok(NewPackagePlan { name, snake_case_name: snake, files })
}

/// The version of Ambient that creates the package: its number, whether it
/// is a released version, the tag it was built from if any, and the revision
/// (empty when unknown).
#[derive(Debug)]
pub struct AmbientVersion {
    pub version: String,
    pub released: bool,
    pub tag: Option<String>,
    pub revision: String,
}

/// A local checkout of the API: the paths of the API crate and of the package
/// projection crate, each written as a Rust string literal (quoted and
/// escaped as `{:?}` writes a path).
#[derive(Debug)]
pub struct ApiLocation {
    pub api: String,
    pub package_projection: String,
}

/// What `pathdiff::diff_paths` gives for `path` taken relative to `base`:
/// the path that leads from `base` to `path`, where there is one.
pub uninterp spec fn path_diff(path: Seq<Seq<char>>, base: Seq<Seq<char>>) -> Option<Seq<Seq<char>>>;

/// `pathdiff::diff_paths`: the path that leads from `base` to `path`, where
/// there is one. Its result is given the name `path_diff`.
#[verifier::external_body]
fn diff_paths(path: &PackagePath, base: &PackagePath) -> (r: Option<PackagePath>)
    ensures
        match r {
            Some(p) => path_diff(path_view(*path), path_view(*base)) == Some(path_view(p)),
            None => path_diff(path_view(*path), path_view(*base)) is None,
        },
{
    let path: std::path::PathBuf = path.components.iter().collect();
    let base: std::path::PathBuf = base.components.iter().collect();
    pathdiff::diff_paths(&path, &base).map(|d| PackagePath {
        components: d.components().map(|c| c.as_os_str().to_string_lossy().into_owned()).collect(),
    })
}

/// Whether a path starts at the root.
pub open spec fn is_absolute(p: Seq<Seq<char>>) -> bool {
    p.len() > 0 && p[0] == seq!['/']
}

/// A path as text: its components joined by `/`, the root written once.
pub open spec fn path_text(p: Seq<Seq<char>>) -> Seq<char> {
    if is_absolute(p) {
        seq!['/'] + join_components(p.drop_first())
    } else {
        join_components(p)
    }
}

/// The path as text, the root written once.
fn path_text_of(p: &PackagePath) -> (r: String)
    ensures
        r@ == path_text(path_view(*p)),
{
    proof {
        reveal_strlit("/");
        assert("/"@ =~= seq!['/']);
    }
    let ghost v = path_view(*p);
    let n = p.components.len();
    let rooted = n > 0 && str_eq(p.components[0].as_str(), "/");
    let start: usize = if rooted { 1 } else { 0 };
    let mut r = String::new();
    if rooted {
        string_push(&mut r, '/');
    }
    let ghost head = r@;
    assert(head == (if rooted { seq!['/'] } else { Seq::<char>::empty() }));
    let mut i: usize = start;
    while i < n
        invariant
            n == v.len(),
            v == path_view(*p),
            start <= i <= n,
            r@ == head + join_components(v.subrange(start as int, i as int)),
        decreases n - i,
    {
        let ghost before = v.subrange(start as int, i as int);
        if i > start {
            string_push(&mut r, '/');
        }
        string_push_str(&mut r, p.components[i].as_str());
        assert(v.subrange(start as int, i + 1).drop_last() =~= before);
        assert(v.subrange(start as int, i + 1).last() == v[i as int]);
        assert(r@ =~= head + join_components(v.subrange(start as int, i + 1)));
        i = i + 1;
    }
    assert(v.subrange(start as int, n as int) =~= if rooted { v.drop_first() } else { v });
    r
}

/// The API's path relative to the new package: the given path where it
/// starts at the root, else the path from the package to the API's
/// canonical path, where there is one.
pub open spec fn relative_api(api: Seq<Seq<char>>, canonical: Seq<Seq<char>>, package: Seq<Seq<char>>) -> Option<Seq<Seq<char>>> {
    if is_absolute(api) {
        Some(api)
    } else {
        path_diff(canonical, package)
    }
}

/// The package projection crate beside the API crate at `api`.
pub open spec fn projection_beside(api: Seq<Seq<char>>) -> Seq<Seq<char>> {
    normalized(api + seq![".."@, "api_core"@, "package_projection"@])
}

/// Where a new package at `package_path` finds a local checkout of the API
/// given as `api_path` (whose canonical form is `canonical`): the API crate's
/// path relative to the package and the package projection crate beside it,
/// each written as a quoted literal. A relative path must lead from the
/// package to the API (the `requires`); `checked_api_location` tests that.
pub fn api_location(api_path: &PackagePath, canonical: &PackagePath, package_path: &PackagePath) -> (r: ApiLocation)
    requires
        relative_api(path_view(*api_path), path_view(*canonical), path_view(*package_path)) is Some,
    ensures
        r.api@ == debug_quoted(path_text(relative_api(path_view(*api_path), path_view(*canonical), path_view(*package_path))->0)),
        r.package_projection@ == debug_quoted(path_text(projection_beside(
            relative_api(path_view(*api_path), path_view(*canonical), path_view(*package_path))->0,
        ))),
{
    proof {
        reveal_strlit("/");
        assert("/"@ =~= seq!['/']);
    }
    let absolute = api_path.components.len() > 0 && str_eq(api_path.components[0].as_str(), "/");
    let rel = if absolute {
        api_path.duplicate()
    } else {
        match diff_paths(canonical, package_path) {
            Some(d) => d,
            None => {
                assert(false);
                api_path.duplicate()
            },
        }
    };
    let beside = rel.join("..").join("api_core").join("package_projection");
    assert(path_view(beside) =~= path_view(rel) + seq![".."@, "api_core"@, "package_projection"@]);
    let projection = beside.normalize();
    let api_text = path_text_of(&rel);
    let projection_text = path_text_of(&projection);
    ApiLocation { api: quote_debug(api_text.as_str()), package_projection: quote_debug(projection_text.as_str()) }
}

/// `api_location` where a relative path leads from the package to the API,
/// else `None`.
pub fn checked_api_location(api_path: &PackagePath, canonical: &PackagePath, package_path: &PackagePath) -> (r: Option<ApiLocation>)
    ensures
        match relative_api(path_view(*api_path), path_view(*canonical), path_view(*package_path)) {
            Some(rel) => r matches Some(a) && a.api@ == debug_quoted(path_text(rel))
                && a.package_projection@ == debug_quoted(path_text(projection_beside(rel))),
            None => r is None,
        },
{
    proof {
        reveal_strlit("/");
        assert("/"@ =~= seq!['/']);
    }
    let absolute = api_path.components.len() > 0 && str_eq(api_path.components[0].as_str(), "/");
    if !absolute {
        match diff_paths(canonical, package_path) {
            Some(_) => {},
            None => {
                return None;
            },
        }
    }
    Some(api_location(api_path, canonical, package_path))
}

/// Whether `p` holds `guest` followed by `rust`.
pub open spec fn in_guest_rust(p: Seq<Seq<char>>) -> bool {
    exists|i: int| 0 <= i && i + 1 < p.len() && #[trigger] p[i] == "guest"@ && p[i + 1] == "rust"@
}

/// Whether `path` lies inside the repository's Rust guest workspace.
pub fn is_in_guest_rust(path: &PackagePath) -> (r: bool)
    ensures
        r == in_guest_rust(path_view(*path)),
{
    let ghost v = path_view(*path);
    let n = path.components.len();
    let mut i: usize = 0;
    while i < n
        invariant
            n == v.len(),
            v == path_view(*path),
            i <= n,
            forall|k: int| 0 <= k < i && k + 1 < n ==> !(#[trigger] v[k] == "guest"@ && v[k + 1] == "rust"@),
        decreases n - i,
    {
        if i + 1 < n && str_eq(path.components[i].as_str(), "guest") && str_eq(
            path.components[i + 1].as_str(),
            "rust",
        ) {
            assert(v[i as int] == "guest"@ && v[i + 1] == "rust"@);
            return true;
        }
        i = i + 1;
    }
    false
}

/// The git location of the API at `kind` (`tag` or `rev`) `value`.
pub open spec fn git_location(kind: Seq<char>, value: Seq<char>) -> Seq<char> {
    "{ git = \"https://github.com/AmbientRun/Ambient.git\", "@ + kind + " = \""@ + value + "\" }"@
}

/// The git location of the API at `kind` `value`.
fn git_location_text(kind: &str, value: &str) -> (r: String)
    ensures
        r@ == git_location(kind@, value@),
{
    let head = concat3("{ git = \"https://github.com/AmbientRun/Ambient.git\", ", kind, " = \"");
    concat3(head.as_str(), value, "\" }")
}

/// The dependency lines for the API crate and the package projection crate
/// of a package, given whether it is in the guest workspace, the local
/// checkout to use if any, and the version of Ambient.
pub open spec fn package_locations(
    in_workspace: bool,
    api: Option<(Seq<char>, Seq<char>)>,
    version: Seq<char>,
    released: bool,
    tag: Option<Seq<char>>,
    revision: Seq<char>,
) -> (Seq<char>, Seq<char>) {
    if in_workspace {
        ("ambient_api = { workspace = true }"@, "ambient_package_projection = { workspace = true }"@)
    } else if let Some((api_crate, projection)) = api {
        (
            "ambient_api = { path = "@ + api_crate + " }"@,
            "ambient_package_projection = { path = "@ + projection + " }"@,
        )
    } else if !released && tag is Some {
        (
            "ambient_api = "@ + git_location("tag"@, tag->0),
            "ambient_package_projection = "@ + git_location("tag"@, tag->0),
        )
    } else if !released && revision.len() > 0 {
        (
            "ambient_api = "@ + git_location("rev"@, revision),
            "ambient_package_projection = "@ + git_location("rev"@, revision),
        )
    } else {
        (
            "ambient_api = \""@ + version + "\""@,
            "ambient_package_projection = \""@ + version + "\""@,
        )
    }
}

/// Without a local checkout of the API the two dependency lines name the
/// same source (the workspace, a git tag or revision, or a version): the
/// package projection's line is the API's line with the crate's name
/// changed.
pub proof fn lemma_locations_share_source(
    in_workspace: bool,
    version: Seq<char>,
    released: bool,
    tag: Option<Seq<char>>,
    revision: Seq<char>,
)
    ensures
        "ambient_api = "@.is_prefix_of(package_locations(in_workspace, None, version, released, tag, revision).0),
        package_locations(in_workspace, None, version, released, tag, revision).1 == "ambient_package_projection = "@
            + package_locations(in_workspace, None, version, released, tag, revision).0.skip("ambient_api = "@.len() as int),
{
    reveal_strlit("ambient_api = ");
    reveal_strlit("ambient_package_projection = ");
    reveal_strlit("ambient_api = { workspace = true }");
    reveal_strlit("ambient_package_projection = { workspace = true }");
    reveal_strlit("ambient_api = \"");
    reveal_strlit("ambient_package_projection = \"");
    let (a, p) = package_locations(in_workspace, None, version, released, tag, revision);
    let api = "ambient_api = "@;
    let proj = "ambient_package_projection = "@;
    assert(api.len() == 14);
    if in_workspace {
        assert(api =~= a.take(14));
        assert(p =~= proj + a.skip(14));
    } else if !released && tag is Some {
        let loc = git_location("tag"@, tag->0);
        assert(a =~= api + loc);
        assert(a.take(14) =~= api);
        assert(a.skip(14) =~= loc);
    } else if !released && revision.len() > 0 {
        let loc = git_location("rev"@, revision);
        assert(a =~= api + loc);
        assert(a.take(14) =~= api);
        assert(a.skip(14) =~= loc);
    } else {
        assert(a.take(14) =~= api);
        assert(p =~= proj + a.skip(14));
    }
}

/// Where the new package at `package_path` finds the API crate and the
/// package projection crate, as dependency lines, and whether it is in the
/// guest workspace. Inside the guest workspace the workspace's crates are
/// used; else a local checkout when one is given; else the released version,
/// the tag, the revision or the version number of Ambient, the first that
/// applies.
pub fn get_ambient_package_locations(
    package_path: &PackagePath,
    api_path: Option<&ApiLocation>,
    version: &AmbientVersion,
) -> (r: ((String, String), bool))
    ensures
        api_path is None ==> "ambient_api = "@.is_prefix_of(r.0.0@) && r.0.1@ == "ambient_package_projection = "@
            + r.0.0@.skip("ambient_api = "@.len() as int),
        r.1 == in_guest_rust(path_view(*package_path)),
        (r.0.0@, r.0.1@) == package_locations(
            r.1,
            match api_path {
                Some(a) => Some((a.api@, a.package_projection@)),
                None => None,
            },
            version.version@,
            version.released,
            match version.tag {
                Some(t) => Some(t@),
                None => None,
            },
            version.revision@,
        ),
{
    proof {
        lemma_locations_share_source(
            in_guest_rust(path_view(*package_path)),
            version.version@,
            version.released,
            match &version.tag {
                Some(t) => Some(t@),
                None => None,
            },
            version.revision@,
        );
    }
    if is_in_guest_rust(package_path) {
        return (
            (
                "ambient_api = { workspace = true }".to_owned(),
                "ambient_package_projection = { workspace = true }".to_owned(),
            ),
            true,
        );
    }
    let paths = if let Some(api) = api_path {
        (
            concat3("ambient_api = { path = ", api.api.as_str(), " }"),
            concat3("ambient_package_projection = { path = ", api.package_projection.as_str(), " }"),
        )
    } else if version.released {
        (
            concat3("ambient_api = \"", version.version.as_str(), "\""),
            concat3("ambient_package_projection = \"", version.version.as_str(), "\""),
        )
    } else if let Some(tag) = &version.tag {
        let location = git_location_text("tag", tag.as_str());
        (
            concat2("ambient_api = ", location.as_str()),
            concat2("ambient_package_projection = ", location.as_str()),
        )
    } else if !version.revision.as_str().is_empty() {
        let location = git_location_text("rev", version.revision.as_str());
        (
            concat2("ambient_api = ", location.as_str()),
            concat2("ambient_package_projection = ", location.as_str()),
        )
    } else {
        (
            concat3("ambient_api = \"", version.version.as_str(), "\""),
            concat3("ambient_package_projection = \"", version.version.as_str(), "\""),
        )
    };
    (paths, false)
}

/// The package manifest made from `template`: the identifier, the name and
/// the Ambient version filled in for their placeholders.
pub open spec fn ambient_toml_text(
    template: Seq<char>,
    id: Seq<char>,
    name: Seq<char>,
    version: Seq<char>,
) -> Seq<char> {
    replaced(
        replaced(replaced(template, "{{id}}"@, id), "{{name}}"@, name),
        "{{ambient_version}}"@,
        version,
    )
}

/// Fills in the package manifest's template.
pub fn render_ambient_toml(template: &str, id: &str, name: &str, version: &str) -> (r: String)
    ensures
        r@ == ambient_toml_text(template@, id@, name@, version@),
{
    let a = replace_all(template, "{{id}}", id);
    let b = replace_all(a.as_str(), "{{name}}", name);
    replace_all(b.as_str(), "{{ambient_version}}", version)
}

/// The crate manifest made from `template`: the crate's name filled in, the
/// template's dependency lines for the API and the package projection
/// replaced by the given ones and, inside the guest workspace, the version
/// taken from the workspace.
pub open spec fn cargo_toml_text(
    template: Seq<char>,
    locations: (Seq<char>, Seq<char>),
    in_workspace: bool,
    snake_case_name: Seq<char>,
) -> Seq<char> {
    let named = replaced(template, "{{id}}"@, snake_case_name);
    let with_api = replaced(
        named,
        "ambient_api = { path = \"../../../../guest/rust/api\" }"@,
        locations.0,
    );
    let with_projection = replaced(
        with_api,
        "ambient_package_projection = { path = \"../../../../guest/rust/api_core/package_projection\" }"@,
        locations.1,
    );
    if in_workspace {
        replaced(
            with_projection,
            "version = \"0.0.1\""@,
            "rust-version = { workspace = true }\nversion = { workspace = true }"@,
        )
    } else {
        with_projection
    }
}

/// The crate manifest of the new package at `package_path`, made from
/// `template`.
pub fn build_cargo_toml(
    template: &str,
    package_path: &PackagePath,
    api_path: Option<&ApiLocation>,
    version: &AmbientVersion,
    snake_case_name: &str,
) -> (r: String)
    ensures
        r@ == cargo_toml_text(
            template@,
            package_locations(
                in_guest_rust(path_view(*package_path)),
                match api_path {
                    Some(a) => Some((a.api@, a.package_projection@)),
                    None => None,
                },
                version.version@,
                version.released,
                match version.tag {
                    Some(t) => Some(t@),
                    None => None,
                },
                version.revision@,
            ),
            in_guest_rust(path_view(*package_path)),
            snake_case_name@,
        ),
{
    let ((api, projection), in_workspace) = get_ambient_package_locations(package_path, api_path, version);
    let named = replace_all(template, "{{id}}", snake_case_name);
    let with_api = replace_all(
        named.as_str(),
        "ambient_api = { path = \"../../../../guest/rust/api\" }",
        api.as_str(),
    );
    let with_projection = replace_all(
        with_api.as_str(),
        "ambient_package_projection = { path = \"../../../../guest/rust/api_core/package_projection\" }",
        projection.as_str(),
    );
    if in_workspace {
        replace_all(
            with_projection.as_str(),
            "version = \"0.0.1\"",
            "rust-version = { workspace = true }\nversion = { workspace = true }",
        )
    } else {
        with_projection
    }
}

} // verus!
