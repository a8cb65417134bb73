//! Relative file-system paths held as their components, ordered as paths are
//! ordered: component by component, each component by its bytes.
use crate::std_wrappers::{str_eq, string_push, string_push_str};
use vstd::prelude::*;
use vstd::relations::total_ordering;
use vstd::string::StrSliceExecFns;
use vstd::utf8::encode_utf8;

verus! {

/// Lexicographic order on byte strings.
pub open spec fn bytes_le(a: Seq<u8>, b: Seq<u8>) -> bool
    decreases a.len(),
{
    if a.len() == 0 {
        true
    } else if b.len() == 0 {
        false
    } else if a[0] != b[0] {
        a[0] < b[0]
    } else {
        bytes_le(a.drop_first(), b.drop_first())
    }
}

/// Lexicographic order on sequences of byte strings.
pub open spec fn comps_le(a: Seq<Seq<u8>>, b: Seq<Seq<u8>>) -> bool
    decreases a.len(),
{
    if a.len() == 0 {
        true
    } else if b.len() == 0 {
        false
    } else if a[0] != b[0] {
        bytes_le(a[0], b[0])
    } else {
        comps_le(a.drop_first(), b.drop_first())
    }
}

pub proof fn lemma_bytes_le_total(a: Seq<u8>, b: Seq<u8>)
    ensures
        bytes_le(a, b) || bytes_le(b, a),
        bytes_le(a, b) && bytes_le(b, a) ==> a == b,
    decreases a.len(),
{
    if a.len() > 0 && b.len() > 0 && a[0] == b[0] {
        lemma_bytes_le_total(a.drop_first(), b.drop_first());
        if bytes_le(a, b) && bytes_le(b, a) {
            assert(a =~= seq![a[0]] + a.drop_first());
            assert(b =~= seq![b[0]] + b.drop_first());
        }
    }
}

pub proof fn lemma_bytes_le_trans(a: Seq<u8>, b: Seq<u8>, c: Seq<u8>)
    requires
        bytes_le(a, b),
        bytes_le(b, c),
    ensures
        bytes_le(a, c),
    decreases a.len(),
{
    if a.len() > 0 && b.len() > 0 && c.len() > 0 && a[0] == b[0] && b[0] == c[0] {
        lemma_bytes_le_trans(a.drop_first(), b.drop_first(), c.drop_first());
    }
}

pub proof fn lemma_comps_le_total(a: Seq<Seq<u8>>, b: Seq<Seq<u8>>)
    ensures
        comps_le(a, b) || comps_le(b, a),
        comps_le(a, b) && comps_le(b, a) ==> a == b,
    decreases a.len(),
{
    if a.len() > 0 && b.len() > 0 {
        if a[0] == b[0] {
            lemma_comps_le_total(a.drop_first(), b.drop_first());
            if comps_le(a, b) && comps_le(b, a) {
                assert(a =~= seq![a[0]] + a.drop_first());
                assert(b =~= seq![b[0]] + b.drop_first());
            }
        } else {
            lemma_bytes_le_total(a[0], b[0]);
        }
    }
}

pub proof fn lemma_comps_le_trans(a: Seq<Seq<u8>>, b: Seq<Seq<u8>>, c: Seq<Seq<u8>>)
    requires
        comps_le(a, b),
        comps_le(b, c),
    ensures
        comps_le(a, c),
    decreases a.len(),
{
    if a.len() > 0 && b.len() > 0 && c.len() > 0 {
        if a[0] == b[0] && b[0] == c[0] {
            lemma_comps_le_trans(a.drop_first(), b.drop_first(), c.drop_first());
        } else if a[0] == b[0] {
        } else if b[0] == c[0] {
        } else {
            lemma_bytes_le_trans(a[0], b[0], c[0]);
            if a[0] == c[0] {
                lemma_bytes_le_total(a[0], b[0]);
            }
        }
    }
}

/// A relative path, as its components.
#[derive(Debug)]
pub struct PackagePath {
    pub components: Vec<String>,
}

/// The components of a path, as character strings.
pub open spec fn path_view(p: PackagePath) -> Seq<Seq<char>> {
    p.components@.map_values(|s: String| s@)
}

/// The components of a path, as byte strings: the key by which paths are
/// ordered.
pub open spec fn path_key(p: Seq<Seq<char>>) -> Seq<Seq<u8>> {
    p.map_values(|s: Seq<char>| encode_utf8(s))
}

/// The order of paths.
pub open spec fn path_le(a: Seq<Seq<char>>, b: Seq<Seq<char>>) -> bool {
    comps_le(path_key(a), path_key(b))
}

/// The order of paths, on path values.
pub open spec fn package_path_le(a: PackagePath, b: PackagePath) -> bool {
    path_le(path_view(a), path_view(b))
}

/// Distinct character strings have distinct encodings.
pub proof fn lemma_encode_utf8_injective(a: Seq<char>, b: Seq<char>)
    requires
        encode_utf8(a) == encode_utf8(b),
    ensures
        a == b,
{
    vstd::utf8::encode_utf8_decode_utf8(a);
    vstd::utf8::encode_utf8_decode_utf8(b);
}

pub proof fn lemma_path_key_injective(a: Seq<Seq<char>>, b: Seq<Seq<char>>)
    requires
        path_key(a) == path_key(b),
    ensures
        a == b,
{
    assert(a.len() == path_key(a).len());
    assert forall|i: int| 0 <= i < a.len() implies a[i] == b[i] by {
        assert(path_key(a)[i] == path_key(b)[i]);
        lemma_encode_utf8_injective(a[i], b[i]);
    }
    assert(a =~= b);
}

/// Paths are totally ordered.
pub proof fn lemma_path_le_total_order()
    ensures
        total_ordering(|a: Seq<Seq<char>>, b: Seq<Seq<char>>| path_le(a, b)),
{
    let le = |a: Seq<Seq<char>>, b: Seq<Seq<char>>| path_le(a, b);
    assert forall|a: Seq<Seq<char>>| #[trigger] le(a, a) by {
        lemma_comps_le_total(path_key(a), path_key(a));
    }
    assert forall|a: Seq<Seq<char>>, b: Seq<Seq<char>>| #[trigger] le(a, b) && #[trigger] le(b, a) implies a == b by {
        lemma_comps_le_total(path_key(a), path_key(b));
        lemma_path_key_injective(a, b);
    }
    assert forall|a: Seq<Seq<char>>, b: Seq<Seq<char>>, c: Seq<Seq<char>>|
        #[trigger] le(a, b) && #[trigger] le(b, c) implies le(a, c) by {
        lemma_comps_le_trans(path_key(a), path_key(b), path_key(c));
    }
    assert forall|a: Seq<Seq<char>>, b: Seq<Seq<char>>| #[trigger] le(a, b) || le(b, a) by {
        lemma_comps_le_total(path_key(a), path_key(b));
    }
    assert(vstd::relations::reflexive(le));
    assert(vstd::relations::antisymmetric(le));
    assert(vstd::relations::transitive(le));
    assert(vstd::relations::strongly_connected(le));
}

/// Compares two strings by their bytes.
pub fn str_bytes_le(a: &str, b: &str) -> (r: bool)
    ensures
        r == bytes_le(encode_utf8(a@), encode_utf8(b@)),
{
    let ab = a.as_bytes();
    let bb = b.as_bytes();
    let ghost sa = encode_utf8(a@);
    let ghost sb = encode_utf8(b@);
    let mut i: usize = 0;
    assert(sa.skip(0) =~= sa);
    assert(sb.skip(0) =~= sb);
    while i < ab.len() && i < bb.len()
        invariant
            sa == encode_utf8(a@),
            sb == encode_utf8(b@),
            ab@ == sa,
            bb@ == sb,
            i <= sa.len(),
            i <= sb.len(),
            bytes_le(sa, sb) == bytes_le(sa.skip(i as int), sb.skip(i as int)),
        decreases sa.len() - i,
    {
        if ab[i] != bb[i] {
            let ghost ta = sa.skip(i as int);
            let ghost tb = sb.skip(i as int);
            assert(ta[0] == ab@[i as int] && tb[0] == bb@[i as int]);
            assert(ta.len() > 0 && tb.len() > 0);
            assert(bytes_le(ta, tb) == (ta[0] < tb[0]));
            return ab[i] < bb[i];
        }
        assert(sa.skip(i as int).drop_first() =~= sa.skip(i + 1));
        assert(sb.skip(i as int).drop_first() =~= sb.skip(i + 1));
        i = i + 1;
    }
    assert(sa.skip(i as int).len() == sa.len() - i);
    assert(sb.skip(i as int).len() == sb.len() - i);
    i == ab.len()
}

impl PackagePath {
    /// A path made of the given components.
    pub fn from_components(components: Vec<String>) -> (r: Self)
        ensures
            r.components@ == components@,
    {
        PackagePath { components }
    }

    /// A copy of this path.
    pub fn duplicate(&self) -> (r: Self)
        ensures
            r.components@ == self.components@,
    {
        let mut c: Vec<String> = Vec::new();
        let mut i: usize = 0;
        while i < self.components.len()
            invariant
                i <= self.components@.len(),
                c@ == self.components@.take(i as int),
            decreases self.components@.len() - i,
        {
            c.push(self.components[i].clone());
            assert(c@ =~= self.components@.take(i + 1));
            i = i + 1;
        }
        assert(self.components@.take(self.components@.len() as int) =~= self.components@);
        PackagePath { components: c }
    }

    /// Whether the two paths have the same components.
    pub fn same_as(&self, other: &Self) -> (r: bool)
        ensures
            r == (path_view(*self) == path_view(*other)),
    {
        let n = self.components.len();
        if n != other.components.len() {
            return false;
        }
        let mut i: usize = 0;
        while i < n
            invariant
                n == self.components@.len(),
                n == other.components@.len(),
                i <= n,
                forall|k: int| 0 <= k < i ==> path_view(*self)[k] == path_view(*other)[k],
            decreases n - i,
        {
            if !str_eq(self.components[i].as_str(), other.components[i].as_str()) {
                assert(path_view(*self)[i as int] != path_view(*other)[i as int]);
                return false;
            }
            i = i + 1;
        }
        assert(path_view(*self) =~= path_view(*other));
        true
    }

    /// The first `n` components of this path.
    pub fn prefix(&self, n: usize) -> (r: Self)
        requires
            n <= self.components@.len(),
        ensures
            path_view(r) == path_view(*self).take(n as int),
    {
        let mut c: Vec<String> = Vec::new();
        let mut i: usize = 0;
        while i < n
            invariant
                n <= self.components@.len(),
                i <= n,
                c@ == self.components@.take(i as int),
            decreases n - i,
        {
            c.push(self.components[i].clone());
            assert(c@ =~= self.components@.take(i + 1));
            i = i + 1;
        }
        let r = PackagePath { components: c };
        assert(path_view(r) =~= path_view(*self).take(n as int));
        r
    }

    /// This path with `name` appended as its last component.
    pub fn join(&self, name: &str) -> (r: Self)
        ensures
            path_view(r) == path_view(*self).push(name@),
    {
        let mut r = self.duplicate();
        r.components.push(name.to_owned());
        assert(path_view(r) =~= path_view(*self).push(name@));
        r
    }

    /// Whether `self` is ordered before or equal to `other`.
    pub fn le(&self, other: &Self) -> (r: bool)
        ensures
            r == package_path_le(*self, *other),
    {
        let ghost a = path_key(path_view(*self));
        let ghost b = path_key(path_view(*other));
        let mut i: usize = 0;
        assert(a.skip(0) =~= a);
        assert(b.skip(0) =~= b);
        while i < self.components.len() && i < other.components.len()
            invariant
                a == path_key(path_view(*self)),
                b == path_key(path_view(*other)),
                a.len() == self.components@.len(),
                b.len() == other.components@.len(),
                forall|k: int| 0 <= k < a.len() ==> a[k] == encode_utf8(#[trigger] self.components@[k]@),
                forall|k: int| 0 <= k < b.len() ==> b[k] == encode_utf8(#[trigger] other.components@[k]@),
                i <= a.len(),
                i <= b.len(),
                comps_le(a, b) == comps_le(a.skip(i as int), b.skip(i as int)),
            decreases a.len() - i,
        {
            let x = self.components[i].as_str();
            let y = other.components[i].as_str();
            if !str_eq(x, y) {
                proof {
                    if a[i as int] == b[i as int] {
                        lemma_encode_utf8_injective(x@, y@);
                    }
                }
                assert(a.skip(i as int)[0] == a[i as int]);
                assert(b.skip(i as int)[0] == b[i as int]);
                return str_bytes_le(x, y);
            }
            assert(a.skip(i as int).drop_first() =~= a.skip(i + 1));
            assert(b.skip(i as int).drop_first() =~= b.skip(i + 1));
            i = i + 1;
        }
        assert(a.skip(i as int).len() == a.len() - i);
        assert(b.skip(i as int).len() == b.len() - i);
        i == self.components.len()
    }

    /// Whether the last components of this path are those of `suffix`.
    pub fn ends_with(&self, suffix: &PackagePath) -> (r: bool)
        ensures
            r == path_ends_with(path_view(*self), path_view(*suffix)),
    {
        let n = self.components.len();
        let m = suffix.components.len();
        if m > n {
            return false;
        }
        let ghost tail = path_view(*self).skip(n - m);
        let ghost want = path_view(*suffix);
        let mut i: usize = 0;
        while i < m
            invariant
                n == self.components@.len(),
                m == suffix.components@.len(),
                m <= n,
                i <= m,
                tail == path_view(*self).skip(n - m),
                want == path_view(*suffix),
                forall|k: int| 0 <= k < i ==> tail[k] == want[k],
            decreases m - i,
        {
            if !str_eq(self.components[n - m + i].as_str(), suffix.components[i].as_str()) {
                assert(tail[i as int] != want[i as int]);
                return false;
            }
            i = i + 1;
        }
        assert(tail =~= want);
        true
    }

    /// The components of `text` read as a path, as std's `Path::components`
    /// yields them on Unix: a leading `/` is a component `/`, a leading `.`
    /// (the whole text, or followed by `/`) a component `.`, and then come the
    /// names between slashes, leaving out empty names and `.`.
    pub fn parse(text: &str) -> (r: Self)
        ensures
            path_view(r) == path_components(text@),
    {
        let n = text.unicode_len();
        let mut parts: Vec<String> = Vec::new();
        if n > 0 && text.get_char(0) == '/' {
            parts.push("/".to_owned());
        } else if n > 0 && text.get_char(0) == '.' && (n == 1 || text.get_char(1) == '/') {
            parts.push(".".to_owned());
        }
        let ghost lead = parts@.map_values(|s: String| s@);
        proof {
            reveal_strlit("/");
            reveal_strlit(".");
            assert("/"@ =~= seq!['/']);
            assert("."@ =~= seq!['.']);
            assert(lead =~= leading_component(text@));
        }
        let mut cur = String::new();
        let mut i: usize = 0;
        assert(text@.take(0) =~= Seq::<char>::empty());
        while i < n
            invariant
                n == text@.len(),
                i <= n,
                lead.len() <= parts@.len(),
                parts@.map_values(|s: String| s@) == lead + split_names(text@.take(i as int)).0,
                cur@ == split_names(text@.take(i as int)).1,
            decreases n - i,
        {
            let c = text.get_char(i);
            assert(text@.take(i + 1).drop_last() =~= text@.take(i as int));
            if c == '/' {
                let ghost before = parts@.map_values(|s: String| s@);
                if keeps_name(&cur) {
                    parts.push(cur);
                    assert(parts@.map_values(|s: String| s@) =~= before.push(split_names(text@.take(i as int)).1));
                }
                cur = String::new();
            } else {
                string_push(&mut cur, c);
            }
            i = i + 1;
        }
        assert(text@.take(n as int) =~= text@);
        let ghost before = parts@.map_values(|s: String| s@);
        if keeps_name(&cur) {
            parts.push(cur);
            assert(parts@.map_values(|s: String| s@) =~= before.push(split_names(text@).1));
        }
        let r = PackagePath { components: parts };
        assert(path_view(r) =~= path_components(text@));
        r
    }

    /// The path as text: its components joined by `/`.
    pub fn display(&self) -> (r: String)
        ensures
            r@ == join_components(path_view(*self)),
    {
        let mut r = String::new();
        let mut i: usize = 0;
        while i < self.components.len()
            invariant
                i <= self.components@.len(),
                r@ == join_components(path_view(*self).take(i as int)),
            decreases self.components@.len() - i,
        {
            let ghost before = path_view(*self).take(i as int);
            if i > 0 {
                string_push(&mut r, '/');
            }
            string_push_str(&mut r, self.components[i].as_str());
            assert(path_view(*self).take(i + 1).drop_last() =~= before);
            i = i + 1;
        }
        assert(path_view(*self).take(self.components@.len() as int) =~= path_view(*self));
        r
    }
}

/// Components joined by `/`.
pub open spec fn join_components(c: Seq<Seq<char>>) -> Seq<char>
    decreases c.len(),
{
    if c.len() == 0 {
        seq![]
    } else if c.len() == 1 {
        c[0]
    } else {
        join_components(c.drop_last()) + seq!['/'] + c.last()
    }
}

/// The character strings of `s`.
pub open spec fn strings_view(s: Seq<String>) -> Seq<Seq<char>> {
    s.map_values(|x: String| x@)
}

/// Owned copies of the given strings.
pub fn owned_strings(parts: &[&str]) -> (r: Vec<String>)
    ensures
        strings_view(r@) == parts@.map_values(|s: &str| s@),
{
    let mut c: Vec<String> = Vec::new();
    let mut i: usize = 0;
    while i < parts.len()
        invariant
            i <= parts@.len(),
            c@.len() == i,
            forall|j: int| 0 <= j < i ==> (#[trigger] c@[j])@ == parts@[j]@,
        decreases parts@.len() - i,
    {
        let part = parts[i].to_owned();
        c.push(part);
        i = i + 1;
    }
    assert(strings_view(c@) =~= parts@.map_values(|s: &str| s@));
    c
}

/// Appends copies of the strings of `src` to `dst`.
pub fn push_strings(dst: &mut Vec<String>, src: &Vec<String>)
    ensures
        strings_view(final(dst)@) == strings_view(old(dst)@) + strings_view(src@),
{
    let ghost start = strings_view(dst@);
    let mut i: usize = 0;
    while i < src.len()
        invariant
            i <= src@.len(),
            strings_view(dst@) == start + strings_view(src@.take(i as int)),
        decreases src@.len() - i,
    {
        let ghost before = strings_view(dst@);
        dst.push(src[i].clone());
        assert(strings_view(dst@) =~= before.push(src@[i as int]@));
        assert(strings_view(src@.take(i + 1)) =~= strings_view(src@.take(i as int)).push(src@[i as int]@));
        i = i + 1;
    }
    assert(src@.take(src@.len() as int) =~= src@);
}

/// Whether the last components of `p` are `suffix`.
pub open spec fn path_ends_with(p: Seq<Seq<char>>, suffix: Seq<Seq<char>>) -> bool {
    suffix.len() <= p.len() && p.skip(p.len() - suffix.len()) == suffix
}

/// Whether a name between slashes is kept as a component: it is not empty
/// and not `.`.
pub open spec fn is_kept_name(name: Seq<char>) -> bool {
    name.len() != 0 && name != seq!['.']
}

/// The names of `text` split at each `/`: the complete names kept so far, and
/// the name being read.
pub open spec fn split_names(text: Seq<char>) -> (Seq<Seq<char>>, Seq<char>)
    decreases text.len(),
{
    if text.len() == 0 {
        (seq![], seq![])
    } else {
        let before = split_names(text.drop_last());
        if text.last() == '/' {
            (if is_kept_name(before.1) { before.0.push(before.1) } else { before.0 }, seq![])
        } else {
            (before.0, before.1.push(text.last()))
        }
    }
}

/// The names of `text` between slashes that are kept as components.
pub open spec fn kept_names(text: Seq<char>) -> Seq<Seq<char>> {
    let s = split_names(text);
    if is_kept_name(s.1) {
        s.0.push(s.1)
    } else {
        s.0
    }
}

/// The component that the start of `text` makes, if any: `/` for the root,
/// `.` for the current directory.
pub open spec fn leading_component(text: Seq<char>) -> Seq<Seq<char>> {
    if text.len() > 0 && text[0] == '/' {
        seq![seq!['/']]
    } else if text.len() > 0 && text[0] == '.' && (text.len() == 1 || text[1] == '/') {
        seq![seq!['.']]
    } else {
        seq![]
    }
}

/// The components of `text` read as a path (see `PackagePath::parse`).
pub open spec fn path_components(text: Seq<char>) -> Seq<Seq<char>> {
    leading_component(text) + kept_names(text)
}

/// Whether `name` is kept as a component.
fn keeps_name(name: &String) -> (r: bool)
    ensures
        r == is_kept_name(name@),
{
    let s = name.as_str();
    proof {
        reveal_strlit(".");
        assert("."@ =~= seq!['.']);
    }
    !s.is_empty() && !str_eq(s, ".")
}

/// Whether a component is a name: not the root `/`, `.` or `..`.
pub open spec fn is_name_component(c: Seq<char>) -> bool {
    c != seq!['/'] && c != seq!['.'] && c != seq!['.', '.']
}

/// The components after reading `c`: `.` adds nothing, `..` takes away the
/// name before it when there is one, anything else is added.
pub open spec fn normalize_step(done: Seq<Seq<char>>, c: Seq<char>) -> Seq<Seq<char>> {
    if c == seq!['.'] {
        done
    } else if c == seq!['.', '.'] && done.len() > 0 && is_name_component(done.last()) {
        done.drop_last()
    } else {
        done.push(c)
    }
}

/// The components of `p` with `.` left out and each `..` cancelling the name
/// before it.
pub open spec fn normalized(p: Seq<Seq<char>>) -> Seq<Seq<char>>
    decreases p.len(),
{
    if p.len() == 0 {
        seq![]
    } else {
        normalize_step(normalized(p.drop_last()), p.last())
    }
}

/// Whether a component is a name.
fn is_name(c: &str) -> (r: bool)
    ensures
        r == is_name_component(c@),
{
    proof {
        reveal_strlit("/");
        reveal_strlit(".");
        reveal_strlit("..");
        assert("/"@ =~= seq!['/']);
        assert("."@ =~= seq!['.']);
        assert(".."@ =~= seq!['.', '.']);
    }
    !str_eq(c, "/") && !str_eq(c, ".") && !str_eq(c, "..")
}

impl PackagePath {
    /// This path with `.` left out and each `..` cancelling the name before
    /// it.
    pub fn normalize(&self) -> (r: Self)
        ensures
            path_view(r) == normalized(path_view(*self)),
    {
        proof {
            reveal_strlit(".");
            reveal_strlit("..");
            assert("."@ =~= seq!['.']);
            assert(".."@ =~= seq!['.', '.']);
        }
        let ghost v = path_view(*self);
        let mut out: Vec<String> = Vec::new();
        let mut i: usize = 0;
        assert(v.take(0) =~= Seq::<Seq<char>>::empty());
        while i < self.components.len()
            invariant
                v == path_view(*self),
                i <= v.len(),
                out@.map_values(|s: String| s@) == normalized(v.take(i as int)),
                "."@ == seq!['.'],
                ".."@ == seq!['.', '.'],
            decreases v.len() - i,
        {
            let c = self.components[i].as_str();
            let ghost before = out@.map_values(|s: String| s@);
            assert(v.take(i + 1).drop_last() =~= v.take(i as int));
            assert(v.take(i + 1).last() == c@);
            if str_eq(c, ".") {
            } else if str_eq(c, "..") && out.len() > 0 && is_name(out[out.len() - 1].as_str()) {
                out.pop();
                assert(out@.map_values(|s: String| s@) =~= before.drop_last());
            } else {
                out.push(c.to_owned());
                assert(out@.map_values(|s: String| s@) =~= before.push(c@));
            }
            i = i + 1;
        }
        assert(v.take(v.len() as int) =~= v);
        PackagePath { components: out }
    }
}

/// The components of each path of `s`.
pub open spec fn paths_view(s: Seq<PackagePath>) -> Seq<Seq<Seq<char>>> {
    s.map_values(|p: PackagePath| path_view(p))
}

/// Whether the paths of `s` are in path order.
pub open spec fn paths_sorted(s: Seq<Seq<Seq<char>>>) -> bool {
    forall|i: int, j: int| 0 <= i < j < s.len() ==> path_le(#[trigger] s[i], #[trigger] s[j])
}

/// Inserts `x` into `r`, which is in path order, after every path ordered
/// before or equal to it, so that `r` stays in path order.
pub fn insert_sorted(r: &mut Vec<PackagePath>, x: PackagePath)
    requires
        paths_sorted(paths_view(old(r)@)),
    ensures
        paths_sorted(paths_view(final(r)@)),
        exists|pos: int|
            0 <= pos <= old(r)@.len() && paths_view(final(r)@) == paths_view(old(r)@).insert(
                pos,
                path_view(x),
            ),
{
    let ghost before = paths_view(r@);
    let mut pos: usize = 0;
    while pos < r.len() && r[pos].le(&x)
        invariant
            pos <= r@.len(),
            forall|k: int| 0 <= k < pos ==> package_path_le(#[trigger] r@[k], x),
        decreases r@.len() - pos,
    {
        pos = pos + 1;
    }
    let ghost before_r = r@;
    proof {
        if pos < r@.len() {
            assert(!package_path_le(r@[pos as int], x));
            lemma_comps_le_total(path_key(path_view(r@[pos as int])), path_key(path_view(x)));
        }
    }
    r.insert(pos, x);
    proof {
        assert(paths_view(r@) =~= before.insert(pos as int, path_view(x)));
        let v = paths_view(r@);
        assert forall|i: int, j: int| 0 <= i < j < v.len() implies path_le(
            #[trigger] v[i],
            #[trigger] v[j],
        ) by {
            assert(v[i] == path_view(r@[i]) && v[j] == path_view(r@[j]));
            assert(before[pos as int - 1] == path_view(before_r[pos as int - 1]) || pos == 0);
            if j < pos {
                assert(r@[i] == before_r[i] && r@[j] == before_r[j]);
                assert(before[i] == path_view(before_r[i]) && before[j] == path_view(before_r[j]));
            } else if j == pos {
                assert(r@[i] == before_r[i]);
            } else if i == pos {
                assert(r@[j] == before_r[j - 1]);
                assert(package_path_le(x, before_r[pos as int]));
                if j - 1 > pos {
                    assert(before[pos as int] == path_view(before_r[pos as int]));
                    assert(before[j - 1] == path_view(before_r[j - 1]));
                    lemma_comps_le_trans(
                        path_key(path_view(x)),
                        path_key(path_view(before_r[pos as int])),
                        path_key(path_view(before_r[j - 1])),
                    );
                }
            } else if i < pos {
                assert(r@[i] == before_r[i] && r@[j] == before_r[j - 1]);
                assert(package_path_le(before_r[i], x));
                assert(package_path_le(x, before_r[pos as int]));
                assert(before[pos as int] == path_view(before_r[pos as int]));
                assert(before[j - 1] == path_view(before_r[j - 1]));
                if j - 1 > pos {
                    lemma_comps_le_trans(
                        path_key(path_view(x)),
                        path_key(path_view(before_r[pos as int])),
                        path_key(path_view(before_r[j - 1])),
                    );
                }
                lemma_comps_le_trans(
                    path_key(path_view(before_r[i])),
                    path_key(path_view(x)),
                    path_key(path_view(before_r[j - 1])),
                );
            } else {
                assert(r@[i] == before_r[i - 1] && r@[j] == before_r[j - 1]);
                assert(before[i - 1] == path_view(before_r[i - 1]));
                assert(before[j - 1] == path_view(before_r[j - 1]));
            }
        }
    }
}

/// Two lists of paths, each in path order and without repeats, that hold
/// the same paths are the same list.
pub proof fn lemma_sorted_paths_unique(a: Seq<Seq<Seq<char>>>, b: Seq<Seq<Seq<char>>>)
    requires
        paths_sorted(a),
        paths_sorted(b),
        a.no_duplicates(),
        b.no_duplicates(),
        forall|q: Seq<Seq<char>>| a.contains(q) <==> b.contains(q),
    ensures
        a == b,
    decreases a.len(),
{
    if a.len() == 0 {
        if b.len() > 0 {
            assert(b.contains(b[0]));
        }
        assert(a =~= b);
    } else {
        assert(a.contains(a[0]));
        assert(b.contains(a[0]));
        let j = choose|j: int| 0 <= j < b.len() && b[j] == a[0];
        assert(b.contains(b[0]));
        assert(a.contains(b[0]));
        let i = choose|i: int| 0 <= i < a.len() && a[i] == b[0];
        lemma_comps_le_total(path_key(a[0]), path_key(a[0]));
        lemma_comps_le_total(path_key(b[0]), path_key(b[0]));
        if i > 0 {
            assert(path_le(a[0], a[i]));
        }
        if j > 0 {
            assert(path_le(b[0], b[j]));
        }
        lemma_comps_le_total(path_key(a[0]), path_key(b[0]));
        lemma_path_key_injective(a[0], b[0]);
        let a1 = a.drop_first();
        let b1 = b.drop_first();
        assert forall|q: Seq<Seq<char>>| a1.contains(q) <==> b1.contains(q) by {
            if a1.contains(q) {
                let k = choose|k: int| 0 <= k < a1.len() && a1[k] == q;
                assert(a[k + 1] == q);
                assert(q != a[0]);
                assert(a.contains(q));
                let m = choose|m: int| 0 <= m < b.len() && b[m] == q;
                assert(m != 0);
                assert(b1[m - 1] == q);
            }
            if b1.contains(q) {
                let k = choose|k: int| 0 <= k < b1.len() && b1[k] == q;
                assert(b[k + 1] == q);
                assert(q != b[0]);
                assert(b.contains(q));
                let m = choose|m: int| 0 <= m < a.len() && a[m] == q;
                assert(m != 0);
                assert(a1[m - 1] == q);
            }
        }
        assert(paths_sorted(a1)) by {
            assert forall|x: int, y: int| 0 <= x < y < a1.len() implies path_le(#[trigger] a1[x], #[trigger] a1[y]) by {
                assert(a1[x] == a[x + 1] && a1[y] == a[y + 1]);
            }
        }
        assert(paths_sorted(b1)) by {
            assert forall|x: int, y: int| 0 <= x < y < b1.len() implies path_le(#[trigger] b1[x], #[trigger] b1[y]) by {
                assert(b1[x] == b[x + 1] && b1[y] == b[y + 1]);
            }
        }
        assert(a1.no_duplicates()) by {
            assert forall|x: int, y: int| 0 <= x < a1.len() && 0 <= y < a1.len() && x != y implies a1[x] != a1[y] by {
                assert(a1[x] == a[x + 1] && a1[y] == a[y + 1]);
            }
        }
        assert(b1.no_duplicates()) by {
            assert forall|x: int, y: int| 0 <= x < b1.len() && 0 <= y < b1.len() && x != y implies b1[x] != b1[y] by {
                assert(b1[x] == b[x + 1] && b1[y] == b[y + 1]);
            }
        }
        lemma_sorted_paths_unique(a1, b1);
        assert(a =~= seq![a[0]] + a1);
        assert(b =~= seq![b[0]] + b1);
    }
}

} // verus!
