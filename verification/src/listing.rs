//! A listing of the directories and files under a root directory: each entry
//! is a relative path and whether it names a directory.
use crate::paths::{path_view, PackagePath};
use crate::std_wrappers::str_eq;
use vstd::prelude::*;

verus! {

/// One entry of a listing.
#[derive(Debug)]
pub struct DirEntry {
    pub path: PackagePath,
    pub is_dir: bool,
}

/// An entry as a value: its path's components and whether it is a directory.
pub open spec fn entry_view(e: DirEntry) -> (Seq<Seq<char>>, bool) {
    (path_view(e.path), e.is_dir)
}

/// The directories and files under a root, each path listed at most once.
#[derive(Debug)]
pub struct DirListing {
    entries: Vec<DirEntry>,
}

/// A listing as a value.
pub type ListingView = Seq<(Seq<Seq<char>>, bool)>;

/// Whether `p` is listed as a directory.
pub open spec fn is_dir(l: ListingView, p: Seq<Seq<char>>) -> bool {
    exists|k: int| 0 <= k < l.len() && #[trigger] l[k].0 == p && l[k].1
}

/// Whether `p` is listed as a file.
pub open spec fn is_file(l: ListingView, p: Seq<Seq<char>>) -> bool {
    exists|k: int| 0 <= k < l.len() && #[trigger] l[k].0 == p && !l[k].1
}

/// Whether `p` is listed at all.
pub open spec fn exists_path(l: ListingView, p: Seq<Seq<char>>) -> bool {
    is_dir(l, p) || is_file(l, p)
}

/// Whether no path is listed twice.
pub open spec fn paths_distinct(l: ListingView) -> bool {
    forall|i: int, j: int| 0 <= i < l.len() && 0 <= j < l.len() && i != j ==> #[trigger] l[i].0 != #[trigger] l[j].0
}

impl View for DirListing {
    type V = ListingView;

    closed spec fn view(&self) -> ListingView {
        self.entries@.map_values(|e: DirEntry| entry_view(e))
    }
}

impl DirListing {
    #[verifier::type_invariant]
    closed spec fn distinct(self) -> bool {
        paths_distinct(self.entries@.map_values(|e: DirEntry| entry_view(e)))
    }

    /// An empty listing.
    pub fn new() -> (r: Self)
        ensures
            r@ == Seq::<(Seq<Seq<char>>, bool)>::empty(),
    {
        let r = DirListing { entries: Vec::new() };
        assert(r.entries@.map_values(|e: DirEntry| entry_view(e)) =~= Seq::<(Seq<Seq<char>>, bool)>::empty());
        r
    }

    /// Lists `path`, as a directory when `is_dir` holds, unless it is listed
    /// already; says whether it was added.
    pub fn add(&mut self, path: PackagePath, is_dir: bool) -> (added: bool)
        ensures
            added == !exists_path(old(self)@, path_view(path)),
            added ==> final(self)@ == old(self)@.push((path_view(path), is_dir)),
            !added ==> final(self)@ == old(self)@,
    {
        proof {
            use_type_invariant(&*self);
        }
        if self.find(&path).is_some() {
            return false;
        }
        let ghost before = self@;
        let mut entries = Vec::new();
        std::mem::swap(&mut entries, &mut self.entries);
        entries.push(DirEntry { path, is_dir });
        let ghost v = entries@.map_values(|e: DirEntry| entry_view(e));
        proof {
            assert(v =~= before.push((path_view(path), is_dir)));
            assert forall|i: int, j: int| 0 <= i < v.len() && 0 <= j < v.len() && i != j implies #[trigger] v[i].0
                != #[trigger] v[j].0 by {
                if i == v.len() - 1 {
                    assert(v[j] == before[j]);
                } else if j == v.len() - 1 {
                    assert(v[i] == before[i]);
                } else {
                    assert(v[i] == before[i] && v[j] == before[j]);
                }
            }
        }
        self.entries = entries;
        true
    }

    /// Whether `path` is listed, and if so whether as a directory.
    pub fn find(&self, path: &PackagePath) -> (r: Option<bool>)
        ensures
            r == Some(true) <==> is_dir(self@, path_view(*path)),
            r == Some(false) <==> is_file(self@, path_view(*path)),
            r is None <==> !exists_path(self@, path_view(*path)),
    {
        proof {
            use_type_invariant(self);
        }
        let ghost l = self@;
        let mut i: usize = 0;
        while i < self.entries.len()
            invariant
                l == self@,
                l == self.entries@.map_values(|e: DirEntry| entry_view(e)),
                paths_distinct(l),
                i <= l.len(),
                forall|k: int| 0 <= k < i ==> l[k].0 != path_view(*path),
            decreases l.len() - i,
        {
            if self.entries[i].path.same_as(path) {
                let d = self.entries[i].is_dir;
                proof {
                    assert(l[i as int] == entry_view(self.entries@[i as int]));
                    assert forall|k: int| 0 <= k < l.len() && #[trigger] l[k].0 == path_view(*path) implies k
                        == i by {
                        if k != i {
                            assert(l[k].0 != l[i as int].0);
                        }
                    }
                    assert(l[i as int].0 == path_view(*path) && l[i as int].1 == d);
                    if d {
                        assert(is_dir(l, path_view(*path)));
                        assert(!is_file(l, path_view(*path)));
                    } else {
                        assert(is_file(l, path_view(*path)));
                        assert(!is_dir(l, path_view(*path)));
                    }
                }
                return Some(d);
            }
            proof {
                assert(l[i as int] == entry_view(self.entries@[i as int]));
            }
            i = i + 1;
        }
        None
    }

    /// Whether `path` is listed as a directory.
    pub fn is_dir(&self, path: &PackagePath) -> (r: bool)
        ensures
            r == is_dir(self@, path_view(*path)),
    {
        match self.find(path) {
            Some(d) => d,
            None => false,
        }
    }

    /// Whether `path` is listed as a file.
    pub fn is_file(&self, path: &PackagePath) -> (r: bool)
        ensures
            r == is_file(self@, path_view(*path)),
    {
        match self.find(path) {
            Some(d) => !d,
            None => false,
        }
    }

    /// Whether `path` is listed.
    pub fn contains(&self, path: &PackagePath) -> (r: bool)
        ensures
            r == exists_path(self@, path_view(*path)),
    {
        self.find(path).is_some()
    }

    /// The number of entries; no path is listed twice.
    pub fn len(&self) -> (r: usize)
        ensures
            r == self@.len(),
            paths_distinct(self@),
    {
        proof {
            use_type_invariant(self);
        }
        self.entries.len()
    }

    /// The entry at `i`.
    pub fn entry(&self, i: usize) -> (r: &DirEntry)
        requires
            i < self@.len(),
        ensures
            entry_view(*r) == self@[i as int],
    {
        &self.entries[i]
    }
}

} // verus!
