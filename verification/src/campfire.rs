//! The repository's package tool: which directories are packages and
//! examples, and what the tool runs for each of its commands. The file system
//! is read elsewhere; here it is a listing of the repository's entries.
use crate::listing::{exists_path, is_dir, is_file, paths_distinct, DirListing, ListingView};
use crate::paths::{
    insert_sorted, join_components, lemma_sorted_paths_unique, path_components, path_ends_with,
    owned_strings, path_le, path_view, paths_sorted, paths_view, push_strings, strings_view,
    PackagePath,
};
use crate::std_wrappers::str_eq;
use vstd::prelude::*;

verus! {

/// `guest/rust/packages`, where the packages live, by category.
pub open spec fn packages_root() -> Seq<Seq<char>> {
    seq!["guest"@, "rust"@, "packages"@]
}

/// `guest`, which holds one directory per guest language.
pub open spec fn guest_root() -> Seq<Seq<char>> {
    seq!["guest"@]
}

/// Whether `p` is a package: `guest/rust/packages/<category>/<package>`;
/// its `core` when that holds an `ambient.toml`, else each directory in its
/// `core`; its `schema`; and, with `include_mods`, each directory in its
/// `mods`. Every directory on the way must be listed as one.
pub open spec fn is_package_path(l: ListingView, p: Seq<Seq<char>>, include_mods: bool) -> bool {
    &&& 5 <= p.len() <= 7
    &&& p.take(3) == packages_root()
    &&& is_dir(l, p.take(3))
    &&& is_dir(l, p.take(4))
    &&& is_dir(l, p.take(5))
    &&& is_dir(l, p)
    &&& (p.len() == 5 || (p.len() == 6 && ((p[5] == "core"@ && is_file(l, p.push("ambient.toml"@)))
        || p[5] == "schema"@)) || (p.len() == 7 && is_dir(l, p.take(6)) && ((include_mods && p[5]
        == "mods"@) || (p[5] == "core"@ && !is_file(l, p.take(6).push("ambient.toml"@))))))
}

/// Whether `p` is an example: `guest/<language>/examples/<category>/<example>`
/// and each directory in such an example's `deps`; with `include_testcases`,
/// each directory in `guest/<language>/testcases`. Every directory on the way
/// must be listed as one.
pub open spec fn is_example_path(l: ListingView, p: Seq<Seq<char>>, include_testcases: bool) -> bool {
    &&& 4 <= p.len()
    &&& p[0] == "guest"@
    &&& is_dir(l, p.take(1))
    &&& is_dir(l, p.take(2))
    &&& is_dir(l, p.take(3))
    &&& is_dir(l, p)
    &&& ((p[2] == "examples"@ && is_dir(l, p.take(4)) && (p.len() == 5 || (p.len() == 7 && is_dir(
        l,
        p.take(5),
    ) && p[5] == "deps"@ && is_dir(l, p.take(6))))) || (include_testcases && p.len() == 4 && p[2]
        == "testcases"@))
}

/// Whether `p` is what a search for the given kinds of package finds.
pub open spec fn is_wanted(
    l: ListingView,
    p: Seq<Seq<char>>,
    packages: bool,
    include_mods: bool,
    examples: bool,
    include_testcases: bool,
) -> bool {
    (packages && is_package_path(l, p, include_mods)) || (examples && is_example_path(
        l,
        p,
        include_testcases,
    ))
}

/// Whether `s` holds, in path order and each once, exactly the paths of
/// the listing that a search for the given kinds of package finds.
pub open spec fn lists_wanted(
    s: Seq<Seq<Seq<char>>>,
    l: ListingView,
    packages: bool,
    include_mods: bool,
    examples: bool,
    include_testcases: bool,
) -> bool {
    &&& paths_sorted(s)
    &&& s.no_duplicates()
    &&& forall|q: Seq<Seq<char>>|
        s.contains(q) <==> is_wanted(l, q, packages, include_mods, examples, include_testcases)
}

/// The paths that a search for the given kinds of package finds, in path
/// order, each once.
pub open spec fn wanted_list(
    l: ListingView,
    packages: bool,
    include_mods: bool,
    examples: bool,
    include_testcases: bool,
) -> Seq<Seq<Seq<char>>> {
    choose|s: Seq<Seq<Seq<char>>>|
        lists_wanted(s, l, packages, include_mods, examples, include_testcases)
}

/// The packages, and the examples with `include_examples`, in path order.
pub open spec fn all_packages(
    l: ListingView,
    include_examples: bool,
    include_testcases: bool,
    include_mods: bool,
) -> Seq<Seq<Seq<char>>> {
    wanted_list(l, true, include_mods, include_examples, include_testcases)
}

/// The examples, in path order.
pub open spec fn all_examples(l: ListingView, include_testcases: bool) -> Seq<Seq<Seq<char>>> {
    wanted_list(l, false, false, true, include_testcases)
}

/// A list that holds, in path order and each once, the paths that a search
/// finds is the one `wanted_list` names: the listing determines the list.
pub proof fn lemma_wanted_list_unique(
    s: Seq<Seq<Seq<char>>>,
    l: ListingView,
    packages: bool,
    include_mods: bool,
    examples: bool,
    include_testcases: bool,
)
    requires
        lists_wanted(s, l, packages, include_mods, examples, include_testcases),
    ensures
        s == wanted_list(l, packages, include_mods, examples, include_testcases),
{
    let t = wanted_list(l, packages, include_mods, examples, include_testcases);
    assert(lists_wanted(t, l, packages, include_mods, examples, include_testcases));
    assert forall|q: Seq<Seq<char>>| s.contains(q) <==> t.contains(q) by {}
    lemma_sorted_paths_unique(s, t);
}

/// Searching with mods finds every package that the search without mods
/// finds, and besides only directories right inside a package's `mods`
/// directory: `guest/rust/packages/<category>/<package>/mods/<mod>`.
pub proof fn lemma_mods_only_add_mod_dirs(
    without_mods: Seq<Seq<Seq<char>>>,
    with_mods: Seq<Seq<Seq<char>>>,
    l: ListingView,
    include_examples: bool,
    include_testcases: bool,
)
    requires
        lists_wanted(without_mods, l, true, false, include_examples, include_testcases),
        lists_wanted(with_mods, l, true, true, include_examples, include_testcases),
    ensures
        forall|q: Seq<Seq<char>>| without_mods.contains(q) ==> with_mods.contains(q),
        forall|q: Seq<Seq<char>>| #[trigger] with_mods.contains(q) && !without_mods.contains(q) ==> {
            &&& q.len() == 7
            &&& q.take(3) == packages_root()
            &&& q[5] == "mods"@
            &&& is_dir(l, q.take(6))
            &&& is_dir(l, q)
        },
{
    assert forall|q: Seq<Seq<char>>| without_mods.contains(q) implies with_mods.contains(q) by {
        assert(is_wanted(l, q, true, false, include_examples, include_testcases));
    }
    assert forall|q: Seq<Seq<char>>| #[trigger] with_mods.contains(q) && !without_mods.contains(q) implies {
        &&& q.len() == 7
        &&& q.take(3) == packages_root()
        &&& q[5] == "mods"@
        &&& is_dir(l, q.take(6))
        &&& is_dir(l, q)
    } by {
        assert(is_wanted(l, q, true, true, include_examples, include_testcases));
        assert(!is_wanted(l, q, true, false, include_examples, include_testcases));
    }
}

/// Why no list of packages could be made.
#[derive(Clone, Copy, PartialEq, Eq, Structural, Debug)]
pub enum PackageListError {
    /// `guest/rust/packages` is not a directory.
    PackagesDirMissing,
    /// `guest` is not a directory.
    GuestDirMissing,
    /// Some `guest/<language>/testcases` is a file.
    TestcasesNotADirectory,
}

/// Whether `p` is a `guest/<language>/testcases` that is a file.
pub open spec fn is_testcases_file(l: ListingView, p: Seq<Seq<char>>) -> bool {
    &&& p.len() == 3
    &&& p[0] == "guest"@
    &&& p[2] == "testcases"@
    &&& is_dir(l, p.take(1))
    &&& is_dir(l, p.take(2))
    &&& is_file(l, p)
}

/// What stops the search for examples, if anything.
pub open spec fn examples_error(l: ListingView, include_testcases: bool) -> Option<PackageListError> {
    if !is_dir(l, guest_root()) {
        Some(PackageListError::GuestDirMissing)
    } else if include_testcases && exists|p: Seq<Seq<char>>| #[trigger] is_testcases_file(l, p) {
        Some(PackageListError::TestcasesNotADirectory)
    } else {
        None
    }
}

/// What stops the search for packages, if anything.
pub open spec fn packages_error(
    l: ListingView,
    include_examples: bool,
    include_testcases: bool,
) -> Option<PackageListError> {
    if !is_dir(l, packages_root()) {
        Some(PackageListError::PackagesDirMissing)
    } else if include_examples {
        examples_error(l, include_testcases)
    } else {
        None
    }
}

/// The directory names that the search tells apart are distinct.
proof fn lemma_names_differ()
    ensures
        "core"@ != "schema"@,
        "examples"@ != "testcases"@,
        "packages"@ != "examples"@,
        "packages"@ != "testcases"@,
{
    reveal_strlit("core");
    reveal_strlit("schema");
    reveal_strlit("examples");
    reveal_strlit("testcases");
    reveal_strlit("packages");
    assert("core"@.len() != "schema"@.len());
    assert("examples"@.len() != "testcases"@.len());
    assert("packages"@[0] != "examples"@[0]);
    assert("packages"@[0] != "testcases"@[0]);
}

/// A path made of the given components.
fn literal_path(parts: &[&str]) -> (r: PackagePath)
    ensures
        path_view(r) == parts@.map_values(|s: &str| s@),
{
    let r = PackagePath::from_components(owned_strings(parts));
    assert(path_view(r) == strings_view(r.components@));
    r
}

/// Whether `p` is listed as a directory, along with every directory it is in.
fn dir_chain(listing: &DirListing, p: &PackagePath, from: usize) -> (r: bool)
    requires
        from <= path_view(*p).len(),
    ensures
        r == forall|k: int| from <= k <= path_view(*p).len() ==> is_dir(listing@, #[trigger] path_view(*p).take(k)),
{
    let n = p.components.len();
    let mut k: usize = from;
    while k < n
        invariant
            n == path_view(*p).len(),
            from <= k <= n,
            forall|j: int| from <= j < k ==> is_dir(listing@, #[trigger] path_view(*p).take(j)),
        decreases n - k,
    {
        let q = p.prefix(k);
        if !listing.is_dir(&q) {
            return false;
        }
        k = k + 1;
    }
    assert(path_view(*p).take(n as int) =~= path_view(*p));
    listing.is_dir(p)
}

/// Whether component `i` of `p` is `name`.
fn component_is(p: &PackagePath, i: usize, name: &str) -> (r: bool)
    requires
        i < path_view(*p).len(),
    ensures
        r == (path_view(*p)[i as int] == name@),
{
    str_eq(p.components[i].as_str(), name)
}

/// Decides `is_package_path`.
fn check_package_path(listing: &DirListing, p: &PackagePath, include_mods: bool) -> (r: bool)
    ensures
        r == is_package_path(listing@, path_view(*p), include_mods),
{
    let ghost v = path_view(*p);
    let n = p.components.len();
    if n < 5 || n > 7 {
        return false;
    }
    if !(component_is(p, 0, "guest") && component_is(p, 1, "rust") && component_is(p, 2, "packages")) {
        assert(v.take(3)[0] == v[0] && v.take(3)[1] == v[1] && v.take(3)[2] == v[2]);
        return false;
    }
    assert(v.take(3) =~= packages_root());
    if !dir_chain(listing, p, 3) {
        proof {
            if is_package_path(listing@, v, include_mods) {
                assert forall|k: int| 3 <= k <= v.len() implies is_dir(listing@, #[trigger] v.take(k)) by {
                    if k == 6 {
                        assert(v.len() == 7 || v.take(6) =~= v);
                    } else if k == v.len() {
                        assert(v.take(k) =~= v);
                    }
                }
            }
        }
        return false;
    }
    proof {
        assert(is_dir(listing@, v.take(3)));
        assert(is_dir(listing@, v.take(4)));
        assert(is_dir(listing@, v.take(5)));
        assert(is_dir(listing@, v.take(n as int)));
        assert(v.take(n as int) =~= v);
    }
    if n == 5 {
        return true;
    }
    if n == 6 {
        proof {
            lemma_names_differ();
        }
        if component_is(p, 5, "core") {
            let toml = p.join("ambient.toml");
            return listing.is_file(&toml);
        }
        return component_is(p, 5, "schema");
    }
    proof {
        assert(is_dir(listing@, v.take(6)));
    }
    if include_mods && component_is(p, 5, "mods") {
        return true;
    }
    if component_is(p, 5, "core") {
        let toml = p.prefix(6).join("ambient.toml");
        return !listing.is_file(&toml);
    }
    false
}

/// Decides `is_example_path`.
fn check_example_path(listing: &DirListing, p: &PackagePath, include_testcases: bool) -> (r: bool)
    ensures
        r == is_example_path(listing@, path_view(*p), include_testcases),
{
    let ghost v = path_view(*p);
    let n = p.components.len();
    if n < 4 || n == 6 || n > 7 {
        return false;
    }
    if !component_is(p, 0, "guest") {
        return false;
    }
    proof {
        lemma_names_differ();
    }
    if component_is(p, 2, "examples") {
        if n == 4 {
            return false;
        }
        if !dir_chain(listing, p, 1) {
            proof {
                if is_example_path(listing@, v, include_testcases) {
                    assert forall|k: int| 1 <= k <= v.len() implies is_dir(listing@, #[trigger] v.take(k)) by {
                        if k == v.len() {
                            assert(v.take(k) =~= v);
                        }
                    }
                }
            }
            return false;
        }
        proof {
            assert(is_dir(listing@, v.take(1)));
            assert(is_dir(listing@, v.take(2)));
            assert(is_dir(listing@, v.take(3)));
            assert(is_dir(listing@, v.take(4)));
            assert(is_dir(listing@, v.take(n as int)));
            assert(v.take(n as int) =~= v);
        }
        if n == 5 {
            return true;
        }
        proof {
            assert(is_dir(listing@, v.take(5)));
            assert(is_dir(listing@, v.take(6)));
        }
        return component_is(p, 5, "deps");
    }
    if include_testcases && n == 4 && component_is(p, 2, "testcases") {
        let r = dir_chain(listing, p, 1);
        proof {
            assert(v.take(4) =~= v);
            if r {
                assert(is_dir(listing@, v.take(1)));
                assert(is_dir(listing@, v.take(2)));
                assert(is_dir(listing@, v.take(3)));
                assert(is_dir(listing@, v.take(4)));
            }
            if is_example_path(listing@, v, include_testcases) {
                assert forall|k: int| 1 <= k <= v.len() implies is_dir(listing@, #[trigger] v.take(k)) by {}
            }
        }
        return r;
    }
    false
}

/// The wanted paths of the listing, in path order.
fn collect_paths(
    listing: &DirListing,
    packages: bool,
    include_mods: bool,
    examples: bool,
    include_testcases: bool,
) -> (r: Vec<PackagePath>)
    ensures
        lists_wanted(paths_view(r@), listing@, packages, include_mods, examples, include_testcases),
        paths_view(r@) == wanted_list(listing@, packages, include_mods, examples, include_testcases),
{
    let n = listing.len();
    let ghost l = listing@;
    let mut r: Vec<PackagePath> = Vec::new();
    let mut i: usize = 0;
    while i < n
        invariant
            n == l.len(),
            l == listing@,
            paths_distinct(l),
            i <= n,
            paths_sorted(paths_view(r@)),
            paths_view(r@).no_duplicates(),
            forall|q: Seq<Seq<char>>|
                paths_view(r@).contains(q) <==> (is_wanted(
                    l,
                    q,
                    packages,
                    include_mods,
                    examples,
                    include_testcases,
                ) && exists|k: int| 0 <= k < i && #[trigger] l[k].0 == q),
        decreases n - i,
    {
        let e = listing.entry(i);
        let ghost ev = path_view(e.path);
        let wanted = (packages && check_package_path(listing, &e.path, include_mods)) || (examples
            && check_example_path(listing, &e.path, include_testcases));
        let ghost before = paths_view(r@);
        if wanted {
            proof {
                if before.contains(ev) {
                    let k = choose|k: int| 0 <= k < i && #[trigger] l[k].0 == ev;
                    assert(l[k].0 == l[i as int].0);
                }
            }
            insert_sorted(&mut r, e.path.duplicate());
            proof {
                let pos = choose|pos: int|
                    0 <= pos <= before.len() && paths_view(r@) == before.insert(pos, ev);
                let after = paths_view(r@);
                assert forall|a: int, b: int| 0 <= a < after.len() && 0 <= b < after.len() && a != b implies after[a]
                    != after[b] by {
                    let oa = if a < pos { a } else { a - 1 };
                    let ob = if b < pos { b } else { b - 1 };
                    if a != pos && b != pos {
                        assert(after[a] == before[oa] && after[b] == before[ob]);
                    } else if a == pos {
                        assert(after[b] == before[ob]);
                        assert(before.contains(before[ob]));
                    } else {
                        assert(after[a] == before[oa]);
                        assert(before.contains(before[oa]));
                    }
                }
                assert forall|q: Seq<Seq<char>>| after.contains(q) <==> (is_wanted(
                    l,
                    q,
                    packages,
                    include_mods,
                    examples,
                    include_testcases,
                ) && exists|k: int| 0 <= k < i + 1 && #[trigger] l[k].0 == q) by {
                    if after.contains(q) {
                        let a = choose|a: int| 0 <= a < after.len() && after[a] == q;
                        if a != pos {
                            let oa = if a < pos { a } else { a - 1 };
                            assert(before[oa] == q);
                            assert(before.contains(q));
                            let k = choose|k: int| 0 <= k < i && #[trigger] l[k].0 == q;
                            assert(0 <= k < i + 1 && l[k].0 == q);
                        } else {
                            assert(l[i as int].0 == q);
                        }
                    }
                    if is_wanted(l, q, packages, include_mods, examples, include_testcases) && exists|
                        k: int,
                    | 0 <= k < i + 1 && #[trigger] l[k].0 == q {
                        let k = choose|k: int| 0 <= k < i + 1 && #[trigger] l[k].0 == q;
                        if k < i {
                            assert(before.contains(q));
                            let b = choose|b: int| 0 <= b < before.len() && before[b] == q;
                            if b < pos {
                                assert(after[b] == q);
                            } else {
                                assert(after[b + 1] == q);
                            }
                        } else {
                            assert(after[pos] == q);
                        }
                    }
                }
            }
        } else {
            proof {
                assert forall|q: Seq<Seq<char>>| before.contains(q) <==> (is_wanted(
                    l,
                    q,
                    packages,
                    include_mods,
                    examples,
                    include_testcases,
                ) && exists|k: int| 0 <= k < i + 1 && #[trigger] l[k].0 == q) by {
                    if is_wanted(l, q, packages, include_mods, examples, include_testcases) && exists|
                        k: int,
                    | 0 <= k < i + 1 && #[trigger] l[k].0 == q {
                        let k = choose|k: int| 0 <= k < i + 1 && #[trigger] l[k].0 == q;
                        assert(k != i);
                        assert(0 <= k < i && l[k].0 == q);
                    }
                }
            }
        }
        i = i + 1;
    }
    proof {
        let v = paths_view(r@);
        assert forall|q: Seq<Seq<char>>| v.contains(q) <==> is_wanted(
            l,
            q,
            packages,
            include_mods,
            examples,
            include_testcases,
        ) by {
            if is_wanted(l, q, packages, include_mods, examples, include_testcases) {
                assert(is_dir(l, q));
                let k = choose|k: int| 0 <= k < l.len() && #[trigger] l[k].0 == q && l[k].1;
                assert(0 <= k < n && l[k].0 == q);
            }
        }
        lemma_wanted_list_unique(v, l, packages, include_mods, examples, include_testcases);
    }
    r
}

/// Decides `is_testcases_file`.
fn check_testcases_file(listing: &DirListing, p: &PackagePath) -> (r: bool)
    ensures
        r == is_testcases_file(listing@, path_view(*p)),
{
    if p.components.len() != 3 || !component_is(p, 0, "guest") || !component_is(p, 2, "testcases") {
        return false;
    }
    listing.is_dir(&p.prefix(1)) && listing.is_dir(&p.prefix(2)) && listing.is_file(p)
}

/// Whether some `guest/<language>/testcases` is a file.
fn has_testcases_file(listing: &DirListing) -> (r: bool)
    ensures
        r == exists|p: Seq<Seq<char>>| #[trigger] is_testcases_file(listing@, p),
{
    let n = listing.len();
    let ghost l = listing@;
    let mut i: usize = 0;
    while i < n
        invariant
            n == l.len(),
            l == listing@,
            paths_distinct(l),
            i <= n,
            forall|k: int| 0 <= k < i ==> !is_testcases_file(l, #[trigger] l[k].0),
        decreases n - i,
    {
        let e = listing.entry(i);
        if check_testcases_file(listing, &e.path) {
            return true;
        }
        i = i + 1;
    }
    proof {
        if exists|p: Seq<Seq<char>>| #[trigger] is_testcases_file(l, p) {
            let p = choose|p: Seq<Seq<char>>| #[trigger] is_testcases_file(l, p);
            let k = choose|k: int| 0 <= k < l.len() && #[trigger] l[k].0 == p && !l[k].1;
            assert(!is_testcases_file(l, l[k].0));
        }
    }
    false
}

/// Checks what `examples_error` checks.
fn check_examples(listing: &DirListing, include_testcases: bool) -> (r: Result<(), PackageListError>)
    ensures
        match r {
            Ok(()) => examples_error(listing@, include_testcases) is None,
            Err(e) => examples_error(listing@, include_testcases) == Some(e),
        },
{
    let guest = literal_path(&["guest"]);
    assert(path_view(guest) =~= guest_root());
    if !listing.is_dir(&guest) {
        return Err(PackageListError::GuestDirMissing);
    }
    if include_testcases && has_testcases_file(listing) {
        return Err(PackageListError::TestcasesNotADirectory);
    }
    Ok(())
}

/// The examples of the repository, in path order: each
/// `guest/<language>/examples/<category>/<example>`, each directory in such an
/// example's `deps` and, with `include_testcases`, each directory in a
/// `guest/<language>/testcases`. Fails when `guest` is not a directory, or
/// when a `testcases` that is to be searched is a file.
pub fn get_all_examples(listing: &DirListing, include_testcases: bool) -> (r: Result<
    Vec<PackagePath>,
    PackageListError,
>)
    ensures
        match r {
            Ok(v) => examples_error(listing@, include_testcases) is None && paths_view(v@)
                == all_examples(listing@, include_testcases) && lists_wanted(
                paths_view(v@),
                listing@,
                false,
                false,
                true,
                include_testcases,
            ),
            Err(e) => examples_error(listing@, include_testcases) == Some(e),
        },
{
    match check_examples(listing, include_testcases) {
        Err(e) => Err(e),
        Ok(()) => {
            Ok(collect_paths(listing, false, false, true, include_testcases))
        },
    }
}

/// The packages of the repository, in path order: each
/// `guest/rust/packages/<category>/<package>`, its `schema`, its `core` when
/// that holds an `ambient.toml` or else each directory in its `core`, with
/// `include_mods` each directory in its `mods`, and with `include_examples`
/// the examples that `get_all_examples` finds. Fails when
/// `guest/rust/packages` is not a directory, or as `get_all_examples` does.
pub fn get_all_packages(
    listing: &DirListing,
    include_examples: bool,
    include_testcases: bool,
    include_mods: bool,
) -> (r: Result<Vec<PackagePath>, PackageListError>)
    ensures
        match r {
            Ok(v) => packages_error(listing@, include_examples, include_testcases) is None
                && paths_view(v@) == all_packages(
                listing@,
                include_examples,
                include_testcases,
                include_mods,
            ) && lists_wanted(
                paths_view(v@),
                listing@,
                true,
                include_mods,
                include_examples,
                include_testcases,
            ),
            Err(e) => packages_error(listing@, include_examples, include_testcases) == Some(e),
        },
{
    let root = literal_path(&["guest", "rust", "packages"]);
    assert(path_view(root) =~= packages_root());
    if !listing.is_dir(&root) {
        return Err(PackageListError::PackagesDirMissing);
    }
    if include_examples {
        match check_examples(listing, include_testcases) {
            Err(e) => {
                return Err(e);
            },
            Ok(()) => {},
        }
    }
    Ok(collect_paths(listing, true, include_mods, include_examples, include_testcases))
}

/// A run of the `ambient` program: its arguments, whether it is built in
/// release mode, and whether the run deploys packages.
#[derive(Debug)]
pub struct AmbientInvocation {
    pub args: Vec<String>,
    pub release: bool,
    pub deploying: bool,
}

/// An invocation as a value.
pub open spec fn invocation_view(i: AmbientInvocation) -> (Seq<Seq<char>>, bool, bool) {
    (strings_view(i.args@), i.release, i.deploying)
}

/// How a package is run or served.
#[derive(Debug)]
pub struct RunParams {
    /// Whether `ambient` is built in release mode.
    pub release: bool,
    /// The arguments handed on to `ambient`.
    pub args: Vec<String>,
}

/// Which package to run or serve, and how.
#[derive(Debug)]
pub struct Run {
    /// The name of the package: the last components of its path.
    pub package: String,
    pub params: RunParams,
}

/// How all packages are checked.
#[derive(Debug)]
pub struct CheckAllParams {
    /// Whether the target directory is removed before each check.
    pub delete_target: bool,
}

/// The invocation that runs `command` on the package at `path`.
pub open spec fn package_run_view(command: Seq<char>, path: Seq<Seq<char>>, params: RunParams) -> (
    Seq<Seq<char>>,
    bool,
    bool,
) {
    (seq![command, join_components(path)] + strings_view(params.args@), params.release, false)
}

/// Runs `ambient` with `run_cmd` on the package at `path`, handing on the
/// arguments of `params`.
pub fn run_package(run_cmd: &str, path: &PackagePath, params: &RunParams) -> (r: AmbientInvocation)
    ensures
        invocation_view(r) == package_run_view(run_cmd@, path_view(*path), *params),
{
    let mut args: Vec<String> = Vec::new();
    args.push(run_cmd.to_owned());
    args.push(path.display());
    let ghost head = strings_view(args@);
    assert(head =~= seq![run_cmd@, join_components(path_view(*path))]);
    push_strings(&mut args, &params.args);
    AmbientInvocation { args, release: params.release, deploying: false }
}

/// Why a package could not be found.
#[derive(Clone, Debug, PartialEq, Eq)]
pub enum PackageError {
    /// No list of packages could be made.
    Listing(PackageListError),
    /// No package has the given name.
    NoPackageNamed(String),
}

/// Whether `p` is among the packages that are run: packages and examples with
/// their test cases, without mods.
pub open spec fn is_runnable(l: ListingView, p: Seq<Seq<char>>) -> bool {
    is_wanted(l, p, true, false, true, true)
}

/// Whether `p` is the first runnable package, in path order, whose path ends
/// with the components of `name`.
pub open spec fn is_first_named(l: ListingView, name: Seq<char>, p: Seq<Seq<char>>) -> bool {
    &&& is_runnable(l, p)
    &&& path_ends_with(p, path_components(name))
    &&& forall|q: Seq<Seq<char>>|
        is_runnable(l, q) && path_ends_with(q, path_components(name)) ==> path_le(p, q)
}

/// Whether `r` is what a search for the package `name` gives.
pub open spec fn find_outcome(
    l: ListingView,
    name: Seq<char>,
    r: Result<Seq<Seq<char>>, PackageError>,
) -> bool {
    match r {
        Ok(p) => packages_error(l, true, true) is None && is_first_named(l, name, p),
        Err(PackageError::Listing(e)) => packages_error(l, true, true) == Some(e),
        Err(PackageError::NoPackageNamed(n)) => n@ == name && packages_error(l, true, true) is None
            && forall|q: Seq<Seq<char>>|
            is_runnable(l, q) ==> !path_ends_with(q, path_components(name)),
    }
}

/// The first package, in path order, among the packages and examples with
/// their test cases, whose path ends with `package` read as a path.
pub fn find_package(listing: &DirListing, package: &str) -> (r: Result<PackagePath, PackageError>)
    ensures
        find_outcome(
            listing@,
            package@,
            match r {
                Ok(p) => Ok(path_view(p)),
                Err(e) => Err(e),
            },
        ),
{
    let paths = match get_all_packages(listing, true, true, false) {
        Ok(v) => v,
        Err(e) => {
            return Err(PackageError::Listing(e));
        },
    };
    let suffix = PackagePath::parse(package);
    let ghost l = listing@;
    let ghost all = paths_view(paths@);
    let mut i: usize = 0;
    while i < paths.len()
        invariant
            l == listing@,
            all == paths_view(paths@),
            all == all_packages(l, true, true, false),
            lists_wanted(all, l, true, false, true, true),
            packages_error(l, true, true) is None,
            path_view(suffix) == path_components(package@),
            i <= all.len(),
            forall|k: int| 0 <= k < i ==> !path_ends_with(#[trigger] all[k], path_components(package@)),
        decreases all.len() - i,
    {
        if paths[i].ends_with(&suffix) {
            let found = paths[i].duplicate();
            proof {
                assert(path_view(found) =~= all[i as int]);
                assert(all.contains(all[i as int]));
                assert(is_runnable(l, all[i as int]));
                assert(path_ends_with(all[i as int], path_components(package@)));
                assert(all[i as int] == path_view(paths@[i as int]));
                assert(all.contains(all[i as int]));
                assert forall|q: Seq<Seq<char>>|
                    is_runnable(l, q) && path_ends_with(q, path_components(package@)) implies path_le(
                    all[i as int],
                    q,
                ) by {
                    assert(all.contains(q));
                    let k = choose|k: int| 0 <= k < all.len() && all[k] == q;
                    if k > i {
                        assert(path_le(all[i as int], all[k]));
                    } else {
                        assert(k == i);
                        crate::paths::lemma_comps_le_total(
                            crate::paths::path_key(q),
                            crate::paths::path_key(q),
                        );
                    }
                }
            }
            return Ok(found);
        }
        i = i + 1;
    }
    proof {
        assert forall|q: Seq<Seq<char>>| is_runnable(l, q) implies !path_ends_with(
            q,
            path_components(package@),
        ) by {
            assert(all.contains(q));
            let k = choose|k: int| 0 <= k < all.len() && all[k] == q;
            assert(!path_ends_with(all[k], path_components(package@)));
        }
    }
    Err(PackageError::NoPackageNamed(package.to_owned()))
}

/// What running or serving a package gives.
pub open spec fn command_outcome(
    l: ListingView,
    command: Seq<char>,
    args: Run,
    r: Result<(Seq<Seq<char>>, bool, bool), PackageError>,
) -> bool {
    match r {
        Ok(inv) => exists|p: Seq<Seq<char>>|
            find_outcome(l, args.package@, Ok(p)) && inv == package_run_view(command, p, args.params),
        Err(e) => find_outcome(l, args.package@, Err(e)),
    }
}

/// Runs the package named `args.package`.
pub fn run(listing: &DirListing, args: &Run) -> (r: Result<AmbientInvocation, PackageError>)
    ensures
        command_outcome(
            listing@,
            "run"@,
            *args,
            match r {
                Ok(i) => Ok(invocation_view(i)),
                Err(e) => Err(e),
            },
        ),
{
    let path = find_package(listing, args.package.as_str())?;
    Ok(run_package("run", &path, &args.params))
}

/// Serves the package named `args.package`.
pub fn serve(listing: &DirListing, args: &Run) -> (r: Result<AmbientInvocation, PackageError>)
    ensures
        command_outcome(
            listing@,
            "serve"@,
            *args,
            match r {
                Ok(i) => Ok(invocation_view(i)),
                Err(e) => Err(e),
            },
        ),
{
    let path = find_package(listing, args.package.as_str())?;
    Ok(run_package("serve", &path, &args.params))
}

/// The invocation that builds the package at `path` from scratch.
pub open spec fn build_view(path: Seq<Seq<char>>) -> (Seq<Seq<char>>, bool, bool) {
    (seq!["build"@, join_components(path), "--clean-build"@], true, false)
}

/// The invocation that gives the package at `path` a new identifier.
pub open spec fn regenerate_id_view(path: Seq<Seq<char>>) -> (Seq<Seq<char>>, bool, bool) {
    (seq!["package"@, "regenerate-id"@, join_components(path)], true, false)
}

/// What is done to each package of a list.
#[derive(Clone, Copy)]
enum PerPackage {
    Run,
    Build,
    RegenerateId,
}

/// The invocation that does `kind` to the package at `path`.
spec fn per_package_view(kind: PerPackage, path: Seq<Seq<char>>, params: RunParams) -> (
    Seq<Seq<char>>,
    bool,
    bool,
) {
    match kind {
        PerPackage::Run => package_run_view("run"@, path, params),
        PerPackage::Build => build_view(path),
        PerPackage::RegenerateId => regenerate_id_view(path),
    }
}

/// One invocation per package, in the order of `paths`.
fn invocations_for(paths: &Vec<PackagePath>, kind: PerPackage, params: &RunParams) -> (r: Vec<
    AmbientInvocation,
>)
    ensures
        r@.len() == paths@.len(),
        forall|i: int|
            0 <= i < r@.len() ==> invocation_view(#[trigger] r@[i]) == per_package_view(
                kind,
                path_view(paths@[i]),
                *params,
            ),
{
    let mut r: Vec<AmbientInvocation> = Vec::new();
    let mut i: usize = 0;
    while i < paths.len()
        invariant
            i <= paths@.len(),
            r@.len() == i,
            forall|k: int|
                0 <= k < i ==> invocation_view(#[trigger] r@[k]) == per_package_view(
                    kind,
                    path_view(paths@[k]),
                    *params,
                ),
        decreases paths@.len() - i,
    {
        let p = &paths[i];
        let inv = match kind {
            PerPackage::Run => run_package("run", p, params),
            PerPackage::Build => {
                let args = vec!["build".to_owned(), p.display(), "--clean-build".to_owned()];
                assert(strings_view(args@) =~= build_view(path_view(*p)).0);
                AmbientInvocation { args, release: true, deploying: false }
            },
            PerPackage::RegenerateId => {
                let args = vec!["package".to_owned(), "regenerate-id".to_owned(), p.display()];
                assert(strings_view(args@) =~= regenerate_id_view(path_view(*p)).0);
                AmbientInvocation { args, release: true, deploying: false }
            },
        };
        r.push(inv);
        i = i + 1;
    }
    r
}

/// Runs every package and example, with their test cases and without mods,
/// in path order.
pub fn run_all(listing: &DirListing, params: &RunParams) -> (r: Result<
    Vec<AmbientInvocation>,
    PackageListError,
>)
    ensures
        match r {
            Ok(v) => packages_error(listing@, true, true) is None && v@.len() == all_packages(
                listing@,
                true,
                true,
                false,
            ).len() && forall|i: int|
                0 <= i < v@.len() ==> invocation_view(#[trigger] v@[i]) == package_run_view(
                    "run"@,
                    all_packages(listing@, true, true, false)[i],
                    *params,
                ),
            Err(e) => packages_error(listing@, true, true) == Some(e),
        },
{
    let paths = get_all_packages(listing, true, true, false)?;
    Ok(invocations_for(&paths, PerPackage::Run, params))
}

/// Builds every package and example, with their test cases and mods, in path
/// order, each from scratch.
pub fn build_all(listing: &DirListing) -> (r: Result<Vec<AmbientInvocation>, PackageListError>)
    ensures
        match r {
            Ok(v) => packages_error(listing@, true, true) is None && v@.len() == all_packages(
                listing@,
                true,
                true,
                true,
            ).len() && forall|i: int|
                0 <= i < v@.len() ==> invocation_view(#[trigger] v@[i]) == build_view(
                    all_packages(listing@, true, true, true)[i],
                ),
            Err(e) => packages_error(listing@, true, true) == Some(e),
        },
{
    let paths = get_all_packages(listing, true, true, true)?;
    let params = RunParams { release: false, args: Vec::new() };
    Ok(invocations_for(&paths, PerPackage::Build, &params))
}

/// Gives every package and example, with their test cases and mods, a new
/// identifier, in path order.
pub fn regenerate_ids(listing: &DirListing) -> (r: Result<Vec<AmbientInvocation>, PackageListError>)
    ensures
        match r {
            Ok(v) => packages_error(listing@, true, true) is None && v@.len() == all_packages(
                listing@,
                true,
                true,
                true,
            ).len() && forall|i: int|
                0 <= i < v@.len() ==> invocation_view(#[trigger] v@[i]) == regenerate_id_view(
                    all_packages(listing@, true, true, true)[i],
                ),
            Err(e) => packages_error(listing@, true, true) == Some(e),
        },
{
    let paths = get_all_packages(listing, true, true, true)?;
    let params = RunParams { release: false, args: Vec::new() };
    Ok(invocations_for(&paths, PerPackage::RegenerateId, &params))
}

/// The `build` directories of every package and example, with their test
/// cases and mods, in path order: those that exist are removed.
pub fn clean(listing: &DirListing) -> (r: Result<Vec<PackagePath>, PackageListError>)
    ensures
        match r {
            Ok(v) => packages_error(listing@, true, true) is None && v@.len() == all_packages(
                listing@,
                true,
                true,
                true,
            ).len() && forall|i: int|
                0 <= i < v@.len() ==> path_view(#[trigger] v@[i]) == all_packages(
                    listing@,
                    true,
                    true,
                    true,
                )[i].push("build"@),
            Err(e) => packages_error(listing@, true, true) == Some(e),
        },
{
    let paths = get_all_packages(listing, true, true, true)?;
    let mut r: Vec<PackagePath> = Vec::new();
    let mut i: usize = 0;
    while i < paths.len()
        invariant
            i <= paths@.len(),
            r@.len() == i,
            forall|k: int| 0 <= k < i ==> path_view(#[trigger] r@[k]) == path_view(paths@[k]).push("build"@),
        decreases paths@.len() - i,
    {
        r.push(paths[i].join("build"));
        i = i + 1;
    }
    proof {
        assert forall|k: int| 0 <= k < r@.len() implies path_view(#[trigger] r@[k]) == all_packages(
            listing@,
            true,
            true,
            true,
        )[k].push("build"@) by {
            assert(paths_view(paths@)[k] == path_view(paths@[k]));
        }
    }
    Ok(r)
}

/// The lines that list every package and example, with their test cases and
/// mods, in path order.
pub fn list(listing: &DirListing) -> (r: Result<Vec<String>, PackageListError>)
    ensures
        match r {
            Ok(v) => packages_error(listing@, true, true) is None && strings_view(v@) == all_packages(
                listing@,
                true,
                true,
                true,
            ).map_values(|p: Seq<Seq<char>>| join_components(p)),
            Err(e) => packages_error(listing@, true, true) == Some(e),
        },
{
    let paths = get_all_packages(listing, true, true, true)?;
    let mut r: Vec<String> = Vec::new();
    let mut i: usize = 0;
    while i < paths.len()
        invariant
            i <= paths@.len(),
            r@.len() == i,
            forall|k: int| 0 <= k < i ==> (#[trigger] r@[k])@ == join_components(path_view(paths@[k])),
        decreases paths@.len() - i,
    {
        r.push(paths[i].display());
        i = i + 1;
    }
    assert(strings_view(r@) =~= paths_view(paths@).map_values(|p: Seq<Seq<char>>| join_components(p)));
    Ok(r)
}

/// The paths handed to a deploy: the first as it is, each other one after
/// `--extra-packages`.
pub open spec fn deploy_paths(paths: Seq<Seq<char>>) -> Seq<Seq<char>>
    decreases paths.len(),
{
    if paths.len() == 0 {
        seq![]
    } else if paths.len() == 1 {
        seq![paths[0]]
    } else {
        deploy_paths(paths.drop_last()) + seq!["--extra-packages"@, paths.last()]
    }
}

/// The invocation that deploys the packages at `paths` with `token`.
pub open spec fn deploy_view(paths: Seq<Seq<Seq<char>>>, token: Seq<char>) -> (Seq<Seq<char>>, bool, bool) {
    (
        seq!["deploy"@] + deploy_paths(paths.map_values(|p: Seq<Seq<char>>| join_components(p))) + seq![
            "--token"@,
            token,
            "--clean-build"@,
        ],
        true,
        true,
    )
}

/// Deploys every package, with the examples when `include_examples` holds,
/// without test cases and with mods, in one run.
pub fn deploy_all(listing: &DirListing, token: &str, include_examples: bool) -> (r: Result<
    AmbientInvocation,
    PackageListError,
>)
    ensures
        match r {
            Ok(i) => packages_error(listing@, include_examples, false) is None && invocation_view(i)
                == deploy_view(all_packages(listing@, include_examples, false, true), token@),
            Err(e) => packages_error(listing@, include_examples, false) == Some(e),
        },
{
    let paths = get_all_packages(listing, include_examples, false, true)?;
    let ghost shown = paths_view(paths@).map_values(|p: Seq<Seq<char>>| join_components(p));
    let mut args: Vec<String> = Vec::new();
    args.push("deploy".to_owned());
    let mut i: usize = 0;
    while i < paths.len()
        invariant
            i <= paths@.len(),
            shown == paths_view(paths@).map_values(|p: Seq<Seq<char>>| join_components(p)),
            strings_view(args@) == seq!["deploy"@] + deploy_paths(shown.take(i as int)),
        decreases paths@.len() - i,
    {
        let ghost before = strings_view(args@);
        if i != 0 {
            args.push("--extra-packages".to_owned());
        }
        args.push(paths[i].display());
        proof {
            let t = shown.take(i + 1);
            assert(t.drop_last() =~= shown.take(i as int));
            assert(shown[i as int] == join_components(path_view(paths@[i as int])));
            assert(t.last() == shown[i as int]);
            if i == 0 {
                assert(strings_view(args@) =~= before.push(shown[0]));
                assert(deploy_paths(t) == seq![t[0]]);
            } else {
                assert(strings_view(args@) =~= before + seq!["--extra-packages"@, shown[i as int]]);
                assert(deploy_paths(t) == deploy_paths(t.drop_last()) + seq![
                    "--extra-packages"@,
                    t.last(),
                ]);
            }
            assert(strings_view(args@) =~= seq!["deploy"@] + deploy_paths(t));
        }
        i = i + 1;
    }
    let ghost before = strings_view(args@);
    args.push("--token".to_owned());
    args.push(token.to_owned());
    args.push("--clean-build".to_owned());
    proof {
        assert(shown.take(paths@.len() as int) =~= shown);
        assert(strings_view(args@) =~= deploy_view(paths_view(paths@), token@).0);
    }
    Ok(AmbientInvocation { args, release: true, deploying: true })
}

/// An environment variable set for a command.
#[derive(Debug)]
pub struct EnvVar {
    pub name: String,
    pub value: String,
}

/// A run of `cargo` in a directory, and the message of the error that its
/// failure gives.
#[derive(Debug)]
pub struct CargoInvocation {
    pub dir: PackagePath,
    pub args: Vec<String>,
    pub env: Vec<EnvVar>,
    pub failure: String,
}

/// A cargo invocation as a value: directory, arguments, environment (name
/// and value) and failure message.
pub open spec fn cargo_view(c: CargoInvocation) -> (
    Seq<Seq<char>>,
    Seq<Seq<char>>,
    Seq<(Seq<char>, Seq<char>)>,
    Seq<char>,
) {
    (
        path_view(c.dir),
        strings_view(c.args@),
        c.env@.map_values(|e: EnvVar| (e.name@, e.value@)),
        c.failure@,
    )
}

/// One check of the Rust guest code: the directory to remove first, if any,
/// and the check itself.
#[derive(Debug)]
pub struct CheckStep {
    pub remove_first: Option<PackagePath>,
    pub cargo: CargoInvocation,
}

/// `guest/rust`, the Rust guest workspace.
pub open spec fn rust_guest_root() -> Seq<Seq<char>> {
    seq!["guest"@, "rust"@]
}

/// The feature sets that the guest code is checked with, in order.
pub open spec fn check_features() -> Seq<Seq<char>> {
    seq![""@, "client"@, "server"@, "client,server"@]
}

/// The check of the guest code with `features`.
pub open spec fn check_view(features: Seq<char>) -> (
    Seq<Seq<char>>,
    Seq<Seq<char>>,
    Seq<(Seq<char>, Seq<char>)>,
    Seq<char>,
) {
    (
        rust_guest_root(),
        seq!["clippy"@] + (if features.len() == 0 {
            seq![]
        } else {
            seq!["--features"@, features]
        }) + seq!["--"@, "-A"@, "clippy::collapsible-if"@],
        seq![("RUSTFLAGS"@, "-Dwarnings"@)],
        "Failed to check Rust guest code with features "@ + features + "."@,
    )
}

/// Whether `step` checks the guest code with `features`, removing the target
/// directory first when `delete_target` holds.
pub open spec fn is_check_step(step: CheckStep, features: Seq<char>, delete_target: bool) -> bool {
    &&& cargo_view(step.cargo) == check_view(features)
    &&& match step.remove_first {
        Some(p) => delete_target && path_view(p) == rust_guest_root().push("target"@),
        None => !delete_target,
    }
}

/// The check of the guest code with `features`.
fn check_with(features: &str, delete_target: bool) -> (r: CheckStep)
    ensures
        is_check_step(r, features@, delete_target),
{
    let root = literal_path(&["guest", "rust"]);
    assert(path_view(root) =~= rust_guest_root());
    let remove_first = if delete_target {
        let t = root.join("target");
        Some(t)
    } else {
        None
    };
    let mut args: Vec<String> = Vec::new();
    args.push("clippy".to_owned());
    if !features.is_empty() {
        args.push("--features".to_owned());
        args.push(features.to_owned());
    }
    args.push("--".to_owned());
    args.push("-A".to_owned());
    args.push("clippy::collapsible-if".to_owned());
    let env = vec![EnvVar { name: "RUSTFLAGS".to_owned(), value: "-Dwarnings".to_owned() }];
    let failure = crate::text::concat3("Failed to check Rust guest code with features ", features, ".");
    let r = CheckStep {
        remove_first,
        cargo: CargoInvocation { dir: root, args, env, failure },
    };
    assert(cargo_view(r.cargo).1 =~= check_view(features@).1);
    assert(cargo_view(r.cargo).2 =~= check_view(features@).2);
    r
}

/// The checks of the Rust guest code, one per feature set of
/// `check_features`, in order.
pub fn check_all(params: &CheckAllParams) -> (r: Vec<CheckStep>)
    ensures
        r@.len() == 4,
        is_check_step(r@[0], ""@, params.delete_target),
        is_check_step(r@[1], "client"@, params.delete_target),
        is_check_step(r@[2], "server"@, params.delete_target),
        is_check_step(r@[3], "client,server"@, params.delete_target),
        r@.len() == check_features().len(),
        forall|i: int|
            0 <= i < r@.len() ==> is_check_step(
                #[trigger] r@[i],
                check_features()[i],
                params.delete_target,
            ),
{
    let mut r: Vec<CheckStep> = Vec::new();
    r.push(check_with("", params.delete_target));
    r.push(check_with("client", params.delete_target));
    r.push(check_with("server", params.delete_target));
    r.push(check_with("client,server", params.delete_target));
    proof {
        lemma_check_features_cover();
        assert(is_check_step(r@[0], check_features()[0], params.delete_target));
        assert(is_check_step(r@[1], check_features()[1], params.delete_target));
        assert(is_check_step(r@[2], check_features()[2], params.delete_target));
        assert(is_check_step(r@[3], check_features()[3], params.delete_target));
    }
    r
}

/// The guest code is checked with four feature sets, each once: no
/// feature, `client`, `server`, and both.
pub proof fn lemma_check_features_cover()
    ensures
        check_features().len() == 4,
        forall|i: int, j: int| 0 <= i < j < check_features().len() ==> check_features()[i] != check_features()[j],
        check_features()[0] == ""@,
        check_features()[1] == "client"@,
        check_features()[2] == "server"@,
        check_features()[3] == "client,server"@,
        check_features().contains("server"@),
{
    reveal_strlit("");
    reveal_strlit("client");
    reveal_strlit("server");
    reveal_strlit("client,server");
    let f = check_features();
    assert(f[0].len() == 0 && f[1].len() == 6 && f[2].len() == 6 && f[3].len() == 13);
    assert(f[1][0] != f[2][0]);
    assert(f[2] == f[2]);
}

/// What is documented.
#[derive(Debug)]
pub enum Doc {
    /// The runtime, of which nothing is documented at present.
    Runtime,
    /// The guest API; `open` opens the result in a browser, `args` go on to
    /// `cargo doc`.
    Api { open: bool, args: Vec<String> },
}

/// The documentation run of the guest API.
pub open spec fn api_doc_view(open: bool, args: Seq<Seq<char>>) -> (
    Seq<Seq<char>>,
    Seq<Seq<char>>,
    Seq<(Seq<char>, Seq<char>)>,
    Seq<char>,
) {
    (
        rust_guest_root(),
        seq!["+nightly"@, "doc"@, "-p"@, "ambient_api"@, "--all-features"@] + (if open {
            seq!["--open"@]
        } else {
            seq![]
        }) + args,
        seq![("RUSTDOCFLAGS"@, "--cfg docsrs"@)],
        "Failed to document Rust API."@,
    )
}

/// Documents the runtime: at present there is nothing to run for it.
pub fn runtime() -> (r: Vec<CargoInvocation>)
    ensures
        r@.len() == 0,
{
    Vec::new()
}

/// Documents the guest API with `cargo doc`.
pub fn api(open: bool, args: &Vec<String>) -> (r: CargoInvocation)
    ensures
        cargo_view(r) == api_doc_view(open, strings_view(args@)),
{
    let dir = literal_path(&["guest", "rust"]);
    assert(path_view(dir) =~= rust_guest_root());
    let mut a: Vec<String> = Vec::new();
    a.push("+nightly".to_owned());
    a.push("doc".to_owned());
    a.push("-p".to_owned());
    a.push("ambient_api".to_owned());
    a.push("--all-features".to_owned());
    if open {
        a.push("--open".to_owned());
    }
    let ghost before = strings_view(a@);
    assert(before =~= seq!["+nightly"@, "doc"@, "-p"@, "ambient_api"@, "--all-features"@] + (if open {
        seq!["--open"@]
    } else {
        seq![]
    }));
    push_strings(&mut a, args);
    let env = vec![EnvVar { name: "RUSTDOCFLAGS".to_owned(), value: "--cfg docsrs".to_owned() }];
    let r = CargoInvocation { dir, args: a, env, failure: "Failed to document Rust API.".to_owned() };
    assert(cargo_view(r).1 =~= api_doc_view(open, strings_view(args@)).1);
    assert(cargo_view(r).2 =~= api_doc_view(open, strings_view(args@)).2);
    r
}

/// The runs that documenting `args` takes: none for the runtime, one for the
/// API.
pub fn doc(args: &Doc) -> (r: Vec<CargoInvocation>)
    ensures
        match *args {
            Doc::Runtime => r@.len() == 0,
            Doc::Api { open, args } => r@.len() == 1 && cargo_view(r@[0]) == api_doc_view(
                open,
                strings_view(args@),
            ),
        },
{
    match args {
        Doc::Runtime => runtime(),
        Doc::Api { open, args } => vec![api(*open, args)],
    }
}

/// The commands of the package tool.
#[derive(Debug)]
pub enum Package {
    /// Removes the build output of every package.
    Clean,
    /// Runs a package.
    Run(Run),
    /// Serves a package.
    Serve(Run),
    /// Lists every package.
    List,
    /// Runs every package in turn.
    RunAll(RunParams),
    /// Checks the guest code of every package.
    CheckAll(CheckAllParams),
    /// Builds every package.
    BuildAll,
    /// Deploys every package.
    DeployAll { token: String, include_examples: bool },
    /// Gives every package a new identifier.
    RegenerateIds,
}

/// The commands of the repository tool that act on packages and
/// documentation.
#[derive(Debug)]
pub enum Cli {
    /// Documentation.
    Doc(Doc),
    /// Package commands.
    Package(Package),
    /// Short for the package command `clean`.
    Clean,
    /// Short for the package command `run`.
    Run(Run),
    /// Short for the package command `serve`.
    Serve(Run),
}

/// Whether `outs` are what running the first `outs.len()` of `steps` in
/// order with `run` may have answered, every one but the last a success.
pub open spec fn ran_in_order<T, E, F: Fn(&T) -> Result<(), E>>(run: F, steps: Seq<T>, outs: Seq<Result<(), E>>) -> bool {
    &&& outs.len() <= steps.len()
    &&& forall|i: int| 0 <= i < outs.len() ==> call_ensures(run, (&steps[i],), #[trigger] outs[i])
    &&& forall|i: int| 0 <= i < outs.len() - 1 ==> (#[trigger] outs[i]) is Ok
}

/// Runs `steps` in order with `run`, stopping at the first that fails and
/// giving back its error; succeeds when every step succeeds (at once when
/// there is none). This is how the repository tool runs the builds, checks
/// and runs that a command plans.
pub fn run_in_order<T, E, F: Fn(&T) -> Result<(), E>>(steps: &[T], run: F) -> (r: Result<(), E>)
    requires
        forall|s: &T| call_requires(run, (s,)),
    ensures
        exists|outs: Seq<Result<(), E>>| {
            &&& ran_in_order(run, steps@, outs)
            &&& match r {
                Ok(()) => outs.len() == steps@.len() && forall|i: int| 0 <= i < outs.len() ==> (#[trigger] outs[i]) is Ok,
                Err(e) => outs.len() > 0 && outs.last() == Err::<(), E>(e),
            }
        },
{
    let ghost mut outs: Seq<Result<(), E>> = Seq::empty();
    let mut i: usize = 0;
    while i < steps.len()
        invariant
            forall|s: &T| call_requires(run, (s,)),
            i <= steps@.len(),
            outs.len() == i,
            forall|j: int| 0 <= j < i ==> call_ensures(run, (&steps@[j],), #[trigger] outs[j]),
            forall|j: int| 0 <= j < i ==> (#[trigger] outs[j]) is Ok,
        decreases steps@.len() - i,
    {
        let res = run(&steps[i]);
        proof {
            outs = outs.push(res);
        }
        match res {
            Ok(()) => {},
            Err(e) => {
                assert(ran_in_order(run, steps@, outs));
                return Err(e);
            },
        }
        i = i + 1;
    }
    assert(ran_in_order(run, steps@, outs));
    Ok(())
}

} // verus!
