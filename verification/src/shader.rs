//! Shader modules and their preprocessing: modules depend on other modules,
//! declare identifiers to replace and bindings grouped by name; a shader is
//! made from a module and everything it depends on.
use crate::paths::{
    insert_sorted, lemma_sorted_paths_unique, path_view, paths_sorted, paths_view, strings_view,
    PackagePath,
};
use crate::std_wrappers::{str_eq, string_push, string_push_str};
use crate::text::{chars_of, decimal, decimal_text};
use vstd::prelude::*;

verus! {

/// A value that an identifier of a shader stands for.
#[derive(Debug)]
pub enum WgslValue {
    /// A string, written as a quoted literal.
    String(String),
    /// Text, written as it is.
    Raw(String),
    /// A 32-bit integer.
    Int32(u32),
    /// A 64-bit integer.
    Int64(u64),
}

/// What `format!("{:?}", s)` gives for the string `s`: `s` quoted, with the
/// characters that need it escaped.
pub uninterp spec fn debug_quoted(s: Seq<char>) -> Seq<char>;

/// `<str as Debug>::fmt`, through `format!`: the string as a quoted literal.
/// Its result is given the name `debug_quoted`.
#[verifier::external_body]
pub(crate) fn quote_debug(s: &str) -> (r: String)
    ensures
        r@ == debug_quoted(s@),
{
    format!("{:?}", s)
}

/// How a value is written in a shader.
pub open spec fn wgsl_text(v: WgslValue) -> Seq<char> {
    match v {
        WgslValue::String(s) => debug_quoted(s@),
        WgslValue::Raw(s) => s@,
        WgslValue::Int32(n) => decimal(n as nat),
        WgslValue::Int64(n) => decimal(n as nat),
    }
}

impl WgslValue {
    /// The value when it is a 32-bit integer.
    pub fn as_integer(&self) -> (r: Option<u32>)
        ensures
            r == match *self {
                WgslValue::Int32(n) => Some(n),
                _ => None,
            },
    {
        match self {
            WgslValue::Int32(v) => Some(*v),
            _ => None,
        }
    }

    /// The value as it is written in a shader.
    pub fn to_wgsl(&self) -> (r: String)
        ensures
            r@ == wgsl_text(*self),
    {
        match self {
            WgslValue::String(v) => quote_debug(v.as_str()),
            WgslValue::Raw(v) => v.clone(),
            WgslValue::Int32(v) => decimal_text(*v as u64),
            WgslValue::Int64(v) => decimal_text(*v),
        }
    }
}

/// An identifier of a shader and the value it stands for.
#[derive(Debug)]
pub struct ShaderIdent {
    pub name: String,
    pub value: WgslValue,
}

impl ShaderIdent {
    /// `name` stands for `value`, written as it is.
    pub fn raw(name: &str, value: &str) -> (r: Self)
        ensures
            r.name@ == name@,
            r.value matches WgslValue::Raw(v) && v@ == value@,
    {
        ShaderIdent { name: name.to_owned(), value: WgslValue::Raw(value.to_owned()) }
    }

    /// `name` stands for `value`.
    pub fn constant(name: &str, value: WgslValue) -> (r: Self)
        ensures
            r.name@ == name@,
            r.value == value,
    {
        ShaderIdent { name: name.to_owned(), value }
    }
}

/// The replacement of each identifier of `idents`: its name and its text.
pub open spec fn ident_replacements(idents: Seq<ShaderIdent>) -> Seq<(Seq<char>, Seq<char>)> {
    idents.map_values(|i: ShaderIdent| (i.name@, wgsl_text(i.value)))
}

/// A part of a shader: its name, its source, the modules it depends on (by
/// their place in a `ShaderModules`), the identifiers it replaces and its
/// bindings, each with the name of its group.
#[derive(Debug)]
pub struct ShaderModule<E> {
    pub name: String,
    pub source: String,
    pub dependencies: Vec<usize>,
    pub idents: Vec<ShaderIdent>,
    pub bindings: Vec<(String, E)>,
}

/// The bindings of a group, under the group's name.
#[derive(Debug)]
pub struct BindGroupDesc<E> {
    pub entries: Vec<E>,
    pub label: String,
}

impl<E> ShaderModule<E> {
    /// The bindings, each with its group's name.
    pub open spec fn spec_bindings(&self) -> Seq<(Seq<char>, E)> {
        self.bindings@.map_values(|b: (String, E)| (b.0@, b.1))
    }
}

impl<E: Copy> ShaderModule<E> {
    /// A module with no dependencies, identifiers or bindings.
    pub fn new(name: &str, source: &str) -> (r: Self)
        ensures
            r.name@ == name@,
            r.source@ == source@,
            r.dependencies@.len() == 0,
            r.idents@.len() == 0,
            r.spec_bindings().len() == 0,
    {
        let r = ShaderModule {
            name: name.to_owned(),
            source: source.to_owned(),
            dependencies: Vec::new(),
            idents: Vec::new(),
            bindings: Vec::new(),
        };
        assert(r.spec_bindings() =~= Seq::<(Seq<char>, E)>::empty());
        r
    }

    /// The bindings, each with its group's name.
    pub fn bindings(&self) -> (r: &Vec<(String, E)>)
        ensures
            r@.map_values(|b: (String, E)| (b.0@, b.1)) == self.spec_bindings(),
    {
        &self.bindings
    }

    /// This module, also replacing `ident`.
    pub fn with_ident(self, ident: ShaderIdent) -> (r: Self)
        ensures
            r.name == self.name,
            r.source == self.source,
            r.dependencies == self.dependencies,
            r.idents@ == self.idents@.push(ident),
            r.spec_bindings() == self.spec_bindings(),
    {
        let mut r = self;
        r.idents.push(ident);
        r
    }

    /// This module, also with `entry` in the group `group`.
    pub fn with_binding(self, group: &str, entry: E) -> (r: Self)
        ensures
            r.name == self.name,
            r.source == self.source,
            r.dependencies == self.dependencies,
            r.idents == self.idents,
            r.spec_bindings() == self.spec_bindings().push((group@, entry)),
    {
        let mut r = self;
        r.bindings.push((group.to_owned(), entry));
        assert(r.spec_bindings() =~= self.spec_bindings().push((group@, entry)));
        r
    }

    /// This module, also with `bindings`.
    pub fn with_bindings(self, bindings: Vec<(String, E)>) -> (r: Self)
        ensures
            r.name == self.name,
            r.source == self.source,
            r.dependencies == self.dependencies,
            r.idents == self.idents,
            r.spec_bindings() == self.spec_bindings() + bindings@.map_values(
                |b: (String, E)| (b.0@, b.1),
            ),
    {
        let mut r = self;
        let mut b = bindings;
        r.bindings.append(&mut b);
        assert(r.spec_bindings() =~= self.spec_bindings() + bindings@.map_values(
            |b: (String, E)| (b.0@, b.1),
        ));
        r
    }

    /// This module, also with the entries of `desc`, in the group that
    /// `desc` names.
    pub fn with_binding_desc(self, desc: &BindGroupDesc<E>) -> (r: Self)
        ensures
            r.name == self.name,
            r.source == self.source,
            r.dependencies == self.dependencies,
            r.idents == self.idents,
            r.spec_bindings() == self.spec_bindings() + desc.entries@.map_values(
                |e: E| (desc.label@, e),
            ),
    {
        let mut r = self;
        let ghost start = r.spec_bindings();
        let mut i: usize = 0;
        while i < desc.entries.len()
            invariant
                i <= desc.entries@.len(),
                r.name == self.name,
                r.source == self.source,
                r.dependencies == self.dependencies,
                r.idents == self.idents,
                start == self.spec_bindings(),
                r.spec_bindings() == start + desc.entries@.take(i as int).map_values(
                    |e: E| (desc.label@, e),
                ),
            decreases desc.entries@.len() - i,
        {
            let ghost before = r.spec_bindings();
            r.bindings.push((desc.label.clone(), desc.entries[i]));
            assert(r.spec_bindings() =~= before.push((desc.label@, desc.entries@[i as int])));
            assert(desc.entries@.take(i + 1).map_values(|e: E| (desc.label@, e)) =~= desc.entries@.take(
                i as int,
            ).map_values(|e: E| (desc.label@, e)).push((desc.label@, desc.entries@[i as int])));
            i = i + 1;
        }
        assert(desc.entries@.take(desc.entries@.len() as int) =~= desc.entries@);
        r
    }

    /// This module, also depending on the module at `module`.
    pub fn with_dependency(self, module: usize) -> (r: Self)
        ensures
            r.name == self.name,
            r.source == self.source,
            r.dependencies@ == self.dependencies@.push(module),
            r.idents == self.idents,
            r.spec_bindings() == self.spec_bindings(),
    {
        let mut r = self;
        r.dependencies.push(module);
        r
    }

    /// This module, also depending on the modules at `modules`.
    pub fn with_dependencies(self, modules: Vec<usize>) -> (r: Self)
        ensures
            r.name == self.name,
            r.source == self.source,
            r.dependencies@ == self.dependencies@ + modules@,
            r.idents == self.idents,
            r.spec_bindings() == self.spec_bindings(),
    {
        let mut r = self;
        let mut m = modules;
        r.dependencies.append(&mut m);
        r
    }
}

/// Whether `c` is kept in a module's label: an ASCII letter or digit, `_`,
/// `-` or `.`.
pub open spec fn is_label_char(c: char) -> bool {
    ('a' <= c && c <= 'z') || ('A' <= c && c <= 'Z') || ('0' <= c && c <= '9') || c == '_' || c
        == '-' || c == '.'
}

/// `name` with every character that is not kept in a label replaced by `?`.
pub open spec fn sanitized(name: Seq<char>) -> Seq<char> {
    name.map_values(|c: char| if is_label_char(c) { c } else { '?' })
}

/// The module's name with every character that is not kept in a label
/// replaced by `?`.
pub fn sanitized_label(name: &str) -> (r: String)
    ensures
        r@ == sanitized(name@),
{
    let cs = chars_of(name);
    let mut r = String::new();
    let mut i: usize = 0;
    while i < cs.len()
        invariant
            cs@ == name@,
            i <= cs@.len(),
            r@ == sanitized(cs@.take(i as int)),
        decreases cs@.len() - i,
    {
        let c = cs[i];
        let keep = ('a' <= c && c <= 'z') || ('A' <= c && c <= 'Z') || ('0' <= c && c <= '9') || c
            == '_' || c == '-' || c == '.';
        if keep {
            string_push(&mut r, c);
        } else {
            string_push(&mut r, '?');
        }
        assert(r@ =~= sanitized(cs@.take(i + 1)));
        i = i + 1;
    }
    assert(cs@.take(cs@.len() as int) =~= cs@);
    r
}

/// Whether the set `s` holds every module that one of its modules depends
/// on.
pub open spec fn dependency_closed<E>(ms: Seq<ShaderModule<E>>, s: Set<int>) -> bool {
    forall|x: int, k: int|
        #![trigger s.contains(x), ms[x].dependencies@[k]]
        s.contains(x) && 0 <= x < ms.len() && 0 <= k < ms[x].dependencies@.len() ==> s.contains(
            ms[x].dependencies@[k] as int,
        )
}

/// Whether module `b` is module `a` or one of the modules it depends on,
/// directly or not: every set of modules that holds `a` and the dependencies
/// of its modules holds `b`.
pub open spec fn reaches<E>(ms: Seq<ShaderModule<E>>, a: int, b: int) -> bool {
    forall|s: Set<int>| #[trigger] dependency_closed(ms, s) && s.contains(a) ==> s.contains(b)
}

/// Whether every module of `ms` depends only on modules placed before it,
/// and no two modules share a name.
pub open spec fn modules_wf<E>(ms: Seq<ShaderModule<E>>) -> bool {
    &&& forall|i: int, k: int|
        0 <= i < ms.len() && 0 <= k < ms[i].dependencies@.len() ==> #[trigger] ms[i].dependencies@[k] < i
    &&& forall|i: int, j: int| 0 <= i < ms.len() && 0 <= j < ms.len() && i != j ==> #[trigger] ms[i].name@ != #[trigger] ms[j].name@
}

/// Whether `order` lists modules of `ms`, each once, every module after the
/// modules it depends on, which are listed too.
pub open spec fn is_dependency_order<E>(ms: Seq<ShaderModule<E>>, order: Seq<usize>) -> bool {
    &&& order.no_duplicates()
    &&& forall|p: int| 0 <= p < order.len() ==> #[trigger] order[p] < ms.len()
    &&& forall|p: int, k: int|
        0 <= p < order.len() && 0 <= k < ms[order[p] as int].dependencies@.len() ==> order.contains(
            #[trigger] ms[order[p] as int].dependencies@[k],
        )
    &&& forall|p: int, q: int|
        0 <= p < order.len() && 0 <= q < order.len() && #[trigger] ms[order[p] as int].dependencies@.contains(
            #[trigger] order[q],
        ) ==> q < p
}

/// A module reaches what the modules it depends on reach.
pub proof fn lemma_reaches_step<E>(ms: Seq<ShaderModule<E>>, a: int, k: int, b: int)
    requires
        0 <= a < ms.len(),
        0 <= k < ms[a].dependencies@.len(),
        reaches(ms, ms[a].dependencies@[k] as int, b),
    ensures
        reaches(ms, a, b),
{
    let d = ms[a].dependencies@[k] as int;
    assert forall|s: Set<int>| #[trigger] dependency_closed(ms, s) && s.contains(a) implies s.contains(b) by {
        assert(s.contains(d));
    }
}

/// A module reaches only modules placed before it, or itself.
pub proof fn lemma_reaches_below<E>(ms: Seq<ShaderModule<E>>, a: int, b: int)
    requires
        modules_wf(ms),
        0 <= a < ms.len(),
        reaches(ms, a, b),
    ensures
        0 <= b <= a,
{
    let s = Set::new(|x: int| 0 <= x <= a);
    assert(dependency_closed(ms, s)) by {
        assert forall|x: int, k: int|
            #![trigger s.contains(x), ms[x].dependencies@[k]]
            s.contains(x) && 0 <= x < ms.len() && 0 <= k < ms[x].dependencies@.len() implies s.contains(
            ms[x].dependencies@[k] as int,
        ) by {
            assert(ms[x].dependencies@[k] < x);
        }
    }
    assert(s.contains(a));
}

/// A list that holds the dependencies of all its modules holds every module
/// that one of them reaches.
pub proof fn lemma_closed_holds_reached<E>(ms: Seq<ShaderModule<E>>, order: Seq<usize>, a: usize, b: int)
    requires
        order.contains(a),
        reaches(ms, a as int, b),
        forall|p: int| 0 <= p < order.len() ==> #[trigger] order[p] < ms.len(),
        forall|p: int, k: int|
            0 <= p < order.len() && 0 <= k < ms[order[p] as int].dependencies@.len() ==> order.contains(
                #[trigger] ms[order[p] as int].dependencies@[k],
            ),
    ensures
        0 <= b && order.contains(b as usize),
{
    let s = Set::new(|x: int| 0 <= x && exists|p: int| 0 <= p < order.len() && order[p] as int == x);
    assert(dependency_closed(ms, s)) by {
        assert forall|x: int, k: int|
            #![trigger s.contains(x), ms[x].dependencies@[k]]
            s.contains(x) && 0 <= x < ms.len() && 0 <= k < ms[x].dependencies@.len() implies s.contains(
            ms[x].dependencies@[k] as int,
        ) by {
            let p = choose|p: int| 0 <= p < order.len() && order[p] as int == x;
            assert(order.contains(ms[order[p] as int].dependencies@[k]));
            let q = choose|q: int| 0 <= q < order.len() && order[q] == ms[order[p] as int].dependencies@[k];
            assert(order[q] as int == ms[x].dependencies@[k] as int);
        }
    }
    let p = choose|p: int| 0 <= p < order.len() && order[p] == a;
    assert(s.contains(a as int));
    assert(s.contains(b));
    let q = choose|q: int| 0 <= q < order.len() && order[q] as int == b;
    assert(order[q] == b as usize);
}

/// Modules, each depending only on modules placed before it, with distinct
/// names.
#[derive(Debug)]
pub struct ShaderModules<E> {
    modules: Vec<ShaderModule<E>>,
}

impl<E> ShaderModules<E> {
    #[verifier::type_invariant]
    closed spec fn wf(self) -> bool {
        modules_wf(self.modules@)
    }

    /// The modules, in the order they were added.
    pub closed spec fn spec_modules(&self) -> Seq<ShaderModule<E>> {
        self.modules@
    }

    /// No modules.
    pub fn new() -> (r: Self)
        ensures
            r.spec_modules().len() == 0,
    {
        ShaderModules { modules: Vec::new() }
    }

    /// Whether the modules depend only on modules placed before them and
    /// have distinct names, which always holds; and how many there are.
    pub fn len(&self) -> (r: usize)
        ensures
            r == self.spec_modules().len(),
            modules_wf(self.spec_modules()),
    {
        proof {
            use_type_invariant(self);
        }
        self.modules.len()
    }

    /// The module at `i`.
    pub fn get(&self, i: usize) -> (r: &ShaderModule<E>)
        requires
            i < self.spec_modules().len(),
        ensures
            *r == self.spec_modules()[i as int],
    {
        &self.modules[i]
    }

    /// Adds `module` and says where it stands, unless it depends on a module
    /// that is not there yet. Modules are told apart by name, as in a
    /// module graph: where a module of the same name is there already, that
    /// one stands for it, and its place is given back.
    pub fn add(&mut self, module: ShaderModule<E>) -> (r: Option<usize>)
        ensures
            match r {
                Some(i) => {
                    &&& forall|k: int| 0 <= k < module.dependencies@.len() ==> #[trigger] module.dependencies@[k] < old(self).spec_modules().len()
                    &&& (i < old(self).spec_modules().len() && old(self).spec_modules()[i as int].name@ == module.name@
                        && final(self).spec_modules() == old(self).spec_modules())
                        || (i == old(self).spec_modules().len()
                            && (forall|j: int| 0 <= j < old(self).spec_modules().len() ==> #[trigger] old(self).spec_modules()[j].name@ != module.name@)
                            && final(self).spec_modules() == old(self).spec_modules().push(module))
                },
                None => final(self).spec_modules() == old(self).spec_modules(),
            },
            r is Some <==> (forall|k: int|
                0 <= k < module.dependencies@.len() ==> #[trigger] module.dependencies@[k]
                    < old(self).spec_modules().len()),
    {
        proof {
            use_type_invariant(&*self);
        }
        let n = self.modules.len();
        let mut k: usize = 0;
        while k < module.dependencies.len()
            invariant
                n == self.modules@.len(),
                self.spec_modules() == old(self).spec_modules(),
                k <= module.dependencies@.len(),
                forall|j: int| 0 <= j < k ==> #[trigger] module.dependencies@[j] < n,
            decreases module.dependencies@.len() - k,
        {
            if module.dependencies[k] >= n {
                assert(module.dependencies@[k as int] >= n);
                return None;
            }
            k = k + 1;
        }
        let mut i: usize = 0;
        while i < n
            invariant
                n == self.modules@.len(),
                self.spec_modules() == old(self).spec_modules(),
                forall|k: int| 0 <= k < module.dependencies@.len() ==> #[trigger] module.dependencies@[k] < n,
                i <= n,
                forall|j: int| 0 <= j < i ==> #[trigger] self.modules@[j].name@ != module.name@,
            decreases n - i,
        {
            if str_eq(self.modules[i].name.as_str(), module.name.as_str()) {
                assert(self.modules@[i as int].name@ == module.name@);
                return Some(i);
            }
            i = i + 1;
        }
        let mut all = Vec::new();
        std::mem::swap(&mut all, &mut self.modules);
        let ghost before = all@;
        all.push(module);
        proof {
            let ms = all@;
            assert forall|a: int, k2: int|
                0 <= a < ms.len() && 0 <= k2 < ms[a].dependencies@.len() implies #[trigger] ms[a].dependencies@[k2]
                < a by {
                if a < n {
                    assert(ms[a] == before[a]);
                }
            }
            assert forall|a: int, b: int| 0 <= a < ms.len() && 0 <= b < ms.len() && a != b implies #[trigger] ms[a].name@
                != #[trigger] ms[b].name@ by {
                if a < n && b < n {
                    assert(ms[a] == before[a] && ms[b] == before[b]);
                } else if a < n {
                    assert(ms[a] == before[a]);
                } else {
                    assert(ms[b] == before[b]);
                }
            }
        }
        self.modules = all;
        Some(n)
    }

    /// Lists, after `out`, the module at `v` and the modules it depends on
    /// that `out` does not hold yet, each after its dependencies.
    fn visit(&self, v: usize, visited: &mut Vec<bool>, out: &mut Vec<usize>)
        requires
            modules_wf(self.spec_modules()),
            v < self.spec_modules().len(),
            old(visited)@.len() == self.spec_modules().len(),
            is_dependency_order(self.spec_modules(), old(out)@),
            forall|j: int| 0 <= j < old(visited)@.len() ==> (#[trigger] old(visited)@[j] <==> old(out)@.contains(j as usize)),
        ensures
            final(visited)@.len() == self.spec_modules().len(),
            is_dependency_order(self.spec_modules(), final(out)@),
            forall|j: int| 0 <= j < final(visited)@.len() ==> (#[trigger] final(visited)@[j] <==> final(out)@.contains(j as usize)),
            final(out)@.len() >= old(out)@.len(),
            final(out)@.take(old(out)@.len() as int) == old(out)@,
            final(out)@.contains(v),
            !old(out)@.contains(v) ==> final(out)@.len() > 0 && final(out)@.last() == v,
            forall|p: int|
                old(out)@.len() <= p < final(out)@.len() ==> reaches(
                    self.spec_modules(),
                    v as int,
                    #[trigger] final(out)@[p] as int,
                ),
        decreases v,
    {
        let ghost ms = self.spec_modules();
        if visited[v] {
            assert(out@.take(out@.len() as int) =~= out@);
            return;
        }
        let ghost start = out@;
        let module = self.get(v);
        let mut k: usize = 0;
        while k < module.dependencies.len()
            invariant
                ms == self.spec_modules(),
                modules_wf(ms),
                *module == ms[v as int],
                v < ms.len(),
                k <= module.dependencies@.len(),
                visited@.len() == ms.len(),
                !visited@[v as int],
                is_dependency_order(ms, out@),
                forall|j: int| 0 <= j < visited@.len() ==> (#[trigger] visited@[j] <==> out@.contains(j as usize)),
                out@.len() >= start.len(),
                out@.take(start.len() as int) == start,
                forall|p: int|
                    start.len() <= p < out@.len() ==> reaches(ms, v as int, #[trigger] out@[p] as int),
                forall|j: int| 0 <= j < k ==> out@.contains(#[trigger] module.dependencies@[j]),
            decreases module.dependencies@.len() - k,
        {
            let d = module.dependencies[k];
            assert(d < v);
            let ghost mid = out@;
            assert(!mid.contains(v));
            self.visit(d, visited, out);
            proof {
                assert(out@.take(start.len() as int) =~= start) by {
                    assert(out@.take(mid.len() as int) == mid);
                    assert forall|p: int| 0 <= p < start.len() implies out@[p] == start[p] by {
                        assert(out@.take(mid.len() as int)[p] == mid[p]);
                        assert(mid.take(start.len() as int)[p] == start[p]);
                    }
                }
                assert forall|p: int| start.len() <= p < out@.len() implies reaches(
                    ms,
                    v as int,
                    #[trigger] out@[p] as int,
                ) by {
                    if p < mid.len() {
                        assert(out@.take(mid.len() as int)[p] == mid[p]);
                    } else {
                        assert(reaches(ms, d as int, out@[p] as int));
                        assert(module.dependencies@[k as int] == d);
                        lemma_reaches_step(ms, v as int, k as int, out@[p] as int);
                    }
                }
                assert forall|j: int| 0 <= j < k + 1 implies out@.contains(#[trigger] module.dependencies@[j]) by {
                    if j < k {
                        assert(mid.contains(module.dependencies@[j]));
                        let q = choose|q: int| 0 <= q < mid.len() && mid[q] == module.dependencies@[j];
                        assert(out@.take(mid.len() as int)[q] == mid[q]);
                    }
                }
                if out@.contains(v) {
                    let p = choose|p: int| 0 <= p < out@.len() && out@[p] == v;
                    if p < mid.len() {
                        assert(out@.take(mid.len() as int)[p] == mid[p]);
                        assert(mid.contains(v));
                    } else {
                        assert(reaches(ms, d as int, v as int));
                        lemma_reaches_below(ms, d as int, v as int);
                    }
                }
            }
            k = k + 1;
        }
        proof {
            if out@.contains(v) {
                let p = choose|p: int| 0 <= p < out@.len() && out@[p] == v;
                if p >= start.len() {
                    assert(reaches(ms, v as int, v as int));
                }
            }
        }
        let ghost before = out@;
        out.push(v);
        visited.set(v, true);
        let vl = visited.len();
        proof {
            let o = out@;
            assert(o[o.len() - 1] == v);
            assert(o.take(start.len() as int) =~= start) by {
                assert forall|p: int| 0 <= p < start.len() implies o[p] == start[p] by {
                    assert(before.take(start.len() as int)[p] == start[p]);
                }
            }
            assert(o.no_duplicates()) by {
                assert forall|a: int, b: int| 0 <= a < o.len() && 0 <= b < o.len() && a != b implies o[a] != o[b] by {
                    if a == o.len() - 1 {
                        assert(o[b] == before[b]);
                        assert(before.contains(before[b]));
                    } else if b == o.len() - 1 {
                        assert(o[a] == before[a]);
                        assert(before.contains(before[a]));
                    } else {
                        assert(o[a] == before[a] && o[b] == before[b]);
                    }
                }
            }
            assert forall|p: int, k2: int|
                0 <= p < o.len() && 0 <= k2 < ms[o[p] as int].dependencies@.len() implies o.contains(
                #[trigger] ms[o[p] as int].dependencies@[k2],
            ) by {
                if p < before.len() {
                    assert(o[p] == before[p]);
                    assert(before.contains(ms[before[p] as int].dependencies@[k2]));
                    let q = choose|q: int| 0 <= q < before.len() && before[q] == ms[before[p] as int].dependencies@[k2];
                    assert(o[q] == before[q]);
                } else {
                    assert(o[p] == v);
                    assert(before.contains(module.dependencies@[k2]));
                    let q = choose|q: int| 0 <= q < before.len() && before[q] == module.dependencies@[k2];
                    assert(o[q] == before[q]);
                }
            }
            assert forall|p: int, q: int|
                0 <= p < o.len() && 0 <= q < o.len() && #[trigger] ms[o[p] as int].dependencies@.contains(
                    #[trigger] o[q],
                ) implies q < p by {
                if p < before.len() && q < before.len() {
                    assert(o[p] == before[p] && o[q] == before[q]);
                } else if p < before.len() {
                    assert(o[q] == v);
                    assert(o[p] == before[p]);
                    let kk = choose|kk: int| 0 <= kk < ms[before[p] as int].dependencies@.len() && ms[before[p] as int].dependencies@[kk] == v;
                    assert(before[p] < ms.len());
                    assert(ms[before[p] as int].dependencies@[kk] < before[p]);
                    if p >= start.len() {
                        assert(reaches(ms, v as int, before[p] as int));
                        lemma_reaches_below(ms, v as int, before[p] as int);
                    } else {
                        assert(before.contains(ms[before[p] as int].dependencies@[kk]));
                        let r = choose|r: int| 0 <= r < before.len() && before[r] == v;
                        assert(before.contains(v));
                    }
                } else if q == p {
                    assert(o[p] == v);
                    let kk = choose|kk: int| 0 <= kk < ms[v as int].dependencies@.len() && ms[v as int].dependencies@[kk] == v;
                    assert(ms[v as int].dependencies@[kk] < v);
                } else {
                    assert(q < p);
                }
            }
            assert forall|j: int| 0 <= j < visited@.len() implies (#[trigger] visited@[j] <==> o.contains(j as usize)) by {
                if j != v {
                    if before.contains(j as usize) {
                        let q = choose|q: int| 0 <= q < before.len() && before[q] == j as usize;
                        assert(o[q] == before[q]);
                    }
                    if o.contains(j as usize) {
                        let q = choose|q: int| 0 <= q < o.len() && o[q] == j as usize;
                        assert(q != o.len() - 1);
                        assert(before[q] == o[q]);
                    }
                } else {
                    assert(o[o.len() - 1] == v);
                }
            }
            assert(o[o.len() - 1] == v);
            assert forall|p: int| start.len() <= p < o.len() implies reaches(ms, v as int, #[trigger] o[p] as int) by {
                if p < before.len() {
                    assert(o[p] == before[p]);
                }
            }
        }
    }

    /// The module at `root` and every module it depends on, directly or not,
    /// each once, every module after the modules it depends on, `root` last.
    pub fn resolve(&self, root: usize) -> (r: Vec<usize>)
        requires
            root < self.spec_modules().len(),
        ensures
            is_dependency_order(self.spec_modules(), r@),
            forall|m: int| 0 <= m < self.spec_modules().len() ==> (r@.contains(m as usize) <==> reaches(
                self.spec_modules(),
                root as int,
                m,
            )),
            r@.len() > 0 && r@.last() == root,
    {
        let n = self.len();
        let mut visited: Vec<bool> = Vec::new();
        let mut i: usize = 0;
        while i < n
            invariant
                i <= n,
                visited@.len() == i,
                forall|j: int| 0 <= j < i ==> !(#[trigger] visited@[j]),
            decreases n - i,
        {
            visited.push(false);
            i = i + 1;
        }
        let mut out: Vec<usize> = Vec::new();
        self.visit(root, &mut visited, &mut out);
        proof {
            let ms = self.spec_modules();
            assert forall|m: int| 0 <= m < ms.len() implies (out@.contains(m as usize) <==> reaches(
                ms,
                root as int,
                m,
            )) by {
                if out@.contains(m as usize) {
                    let p = choose|p: int| 0 <= p < out@.len() && out@[p] == m as usize;
                    assert(reaches(ms, root as int, out@[p] as int));
                }
                if reaches(ms, root as int, m) {
                    assert(out@.contains(root));
                    lemma_closed_holds_reached(ms, out@, root, m);
                }
            }
        }
        out
    }
}

impl<E> ShaderModules<E> {
    /// The modules at `roots` and every module they depend on, directly or
    /// not, each once, every module after the modules it depends on.
    pub fn resolve_module_graph(&self, roots: &[usize]) -> (r: Vec<usize>)
        requires
            forall|i: int| 0 <= i < roots@.len() ==> #[trigger] roots@[i] < self.spec_modules().len(),
        ensures
            is_dependency_order(self.spec_modules(), r@),
            forall|m: usize| (m as int) < self.spec_modules().len() ==> (#[trigger] r@.contains(m) <==> exists|i: int|
                0 <= i < roots@.len() && reaches(self.spec_modules(), #[trigger] roots@[i] as int, m as int)),
    {
        proof {
            use_type_invariant(self);
        }
        let ghost ms = self.spec_modules();
        let n = self.len();
        let mut visited: Vec<bool> = Vec::new();
        let mut i: usize = 0;
        while i < n
            invariant
                i <= n,
                visited@.len() == i,
                forall|j: int| 0 <= j < i ==> !(#[trigger] visited@[j]),
            decreases n - i,
        {
            visited.push(false);
            i = i + 1;
        }
        let mut out: Vec<usize> = Vec::new();
        let mut k: usize = 0;
        while k < roots.len()
            invariant
                ms == self.spec_modules(),
                modules_wf(ms),
                n == ms.len(),
                forall|i: int| 0 <= i < roots@.len() ==> #[trigger] roots@[i] < ms.len(),
                k <= roots@.len(),
                visited@.len() == n,
                is_dependency_order(ms, out@),
                forall|j: int| 0 <= j < visited@.len() ==> (#[trigger] visited@[j] <==> out@.contains(j as usize)),
                forall|m: usize| (m as int) < ms.len() ==> (#[trigger] out@.contains(m) <==> exists|i: int|
                    0 <= i < k && reaches(ms, #[trigger] roots@[i] as int, m as int)),
            decreases roots@.len() - k,
        {
            let root = roots[k];
            let ghost before = out@;
            self.visit(root, &mut visited, &mut out);
            proof {
                assert forall|m: usize| (m as int) < ms.len() implies (#[trigger] out@.contains(m) <==> exists|i: int|
                    0 <= i < k + 1 && reaches(ms, #[trigger] roots@[i] as int, m as int)) by {
                    if out@.contains(m) {
                        let p = choose|p: int| 0 <= p < out@.len() && out@[p] == m;
                        if p < before.len() {
                            assert(out@.take(before.len() as int)[p] == before[p]);
                            assert(before.contains(m));
                            let i = choose|i: int| 0 <= i < k && reaches(ms, #[trigger] roots@[i] as int, m as int);
                            assert(0 <= i < k + 1 && reaches(ms, roots@[i] as int, m as int));
                        } else {
                            assert(reaches(ms, root as int, out@[p] as int));
                            assert(roots@[k as int] == root);
                        }
                    }
                    if exists|i: int| 0 <= i < k + 1 && reaches(ms, #[trigger] roots@[i] as int, m as int) {
                        let i = choose|i: int| 0 <= i < k + 1 && reaches(ms, #[trigger] roots@[i] as int, m as int);
                        if i < k {
                            assert(before.contains(m));
                            let p = choose|p: int| 0 <= p < before.len() && before[p] == m;
                            assert(out@.take(before.len() as int)[p] == before[p]);
                            assert(out@[p] == m);
                        } else {
                            lemma_closed_holds_reached(ms, out@, root, m as int);
                        }
                    }
                }
            }
            k = k + 1;
        }
        out
    }
}

#[verifier::external_type_specification]
#[verifier::external_body]
pub struct ExBuildError(aho_corasick::BuildError);

/// Whether `AhoCorasick::new` accepts `patterns`.
pub uninterp spec fn aho_corasick_builds(patterns: Seq<Seq<char>>) -> bool;

/// What `AhoCorasick::replace_all` gives when the automaton made from
/// `patterns` replaces, in `haystack`, each match of a pattern with the
/// replacement at the same place in `replacements`.
pub uninterp spec fn aho_corasick_replaced(
    patterns: Seq<Seq<char>>,
    haystack: Seq<char>,
    replacements: Seq<Seq<char>>,
) -> Seq<char>;

/// `AhoCorasick::new(patterns)`, then `replace_all(haystack, replacements)`
/// on the automaton. Whether the automaton is made is named
/// `aho_corasick_builds`, the text it gives `aho_corasick_replaced`; the
/// replacements must be as many as the patterns.
#[verifier::external_body]
fn aho_corasick_replace_all(
    patterns: &Vec<String>,
    haystack: &str,
    replacements: &Vec<String>,
) -> (r: Result<String, aho_corasick::BuildError>)
    requires
        patterns@.len() == replacements@.len(),
    ensures
        r is Ok <==> aho_corasick_builds(strings_view(patterns@)),
        r matches Ok(t) ==> t@ == aho_corasick_replaced(
            strings_view(patterns@),
            haystack@,
            strings_view(replacements@),
        ),
{
    let ac = aho_corasick::AhoCorasick::new(patterns)?;
    Ok(ac.replace_all(haystack, replacements))
}

/// Whether `order` is what `ShaderModules::resolve` gives for `root`.
pub open spec fn resolves<E>(ms: Seq<ShaderModule<E>>, root: usize, order: Seq<usize>) -> bool {
    &&& is_dependency_order(ms, order)
    &&& forall|m: int| 0 <= m < ms.len() ==> (order.contains(m as usize) <==> reaches(ms, root as int, m))
    &&& order.len() > 0 && order.last() == root
}

/// The bindings of the modules of `order`, in order, each with its group's
/// name and its module's name.
pub open spec fn order_bindings<E>(ms: Seq<ShaderModule<E>>, order: Seq<usize>) -> Seq<
    (Seq<char>, E, Seq<char>),
>
    decreases order.len(),
{
    if order.len() == 0 {
        seq![]
    } else {
        let m = ms[order.last() as int];
        order_bindings(ms, order.drop_last()) + m.spec_bindings().map_values(
            |b: (Seq<char>, E)| (b.0, b.1, m.name@),
        )
    }
}

/// The replacements of the identifiers of the modules of `order`, in order.
pub open spec fn order_idents<E>(ms: Seq<ShaderModule<E>>, order: Seq<usize>) -> Seq<
    (Seq<char>, Seq<char>),
>
    decreases order.len(),
{
    if order.len() == 0 {
        seq![]
    } else {
        order_idents(ms, order.drop_last()) + ident_replacements(ms[order.last() as int].idents@)
    }
}

/// The place of the last name of `names` that is `g`, or -1.
pub open spec fn last_index_of(names: Seq<Seq<char>>, g: Seq<char>) -> int
    decreases names.len(),
{
    if names.len() == 0 {
        -1
    } else if names.last() == g {
        names.len() - 1
    } else {
        last_index_of(names.drop_last(), g)
    }
}

/// Whether a binding's group is the group at `j`.
pub open spec fn in_group<E>(names: Seq<Seq<char>>, j: int) -> spec_fn(
    (Seq<char>, E, Seq<char>),
) -> bool {
    |b: (Seq<char>, E, Seq<char>)| last_index_of(names, b.0) == j
}

/// The entries of `bindings` whose group is the group at `j`.
pub open spec fn group_entries<E>(
    bindings: Seq<(Seq<char>, E, Seq<char>)>,
    names: Seq<Seq<char>>,
    j: int,
) -> Seq<E> {
    bindings.filter(in_group(names, j)).map_values(|b: (Seq<char>, E, Seq<char>)| b.1)
}

/// The group names, once each, in byte order, each as a one-component path.
pub open spec fn group_name_order(names: Seq<Seq<char>>) -> Seq<Seq<Seq<char>>> {
    choose|s: Seq<Seq<Seq<char>>>|
        paths_sorted(s) && s.no_duplicates() && forall|q: Seq<Seq<char>>|
            s.contains(q) <==> exists|i: int| 0 <= i < names.len() && q == seq![names[i]]
}

/// Each group name, in byte order, and the number of its group.
pub open spec fn group_replacements(names: Seq<Seq<char>>) -> Seq<(Seq<char>, Seq<char>)> {
    group_name_order(names).map_values(
        |q: Seq<Seq<char>>| (q[0], decimal(last_index_of(names, q[0]) as nat)),
    )
}

/// The identifier that stands for zero: an integer on the web, a float
/// elsewhere.
pub open spec fn zero_replacement(web: bool) -> (Seq<char>, Seq<char>) {
    ("ZERO_INTEGER_ON_WEB_FLOAT_ON_NATIVE"@, if web { "0"@ } else { "0"@ + "."@ + "0"@ })
}

/// Every replacement made in a shader: the modules' identifiers, the group
/// names, and the zero.
pub open spec fn shader_replacements<E>(
    ms: Seq<ShaderModule<E>>,
    order: Seq<usize>,
    names: Seq<Seq<char>>,
    web: bool,
) -> Seq<(Seq<char>, Seq<char>)> {
    order_idents(ms, order) + group_replacements(names) + seq![zero_replacement(web)]
}

/// The line of dashes around a module's header.
pub open spec fn divider() -> Seq<char> {
    "--------------------------------"@
}

/// A module's source under a header that names it.
pub open spec fn module_text(label: Seq<char>, source: Seq<char>) -> Seq<char> {
    "// "@ + divider() + "\n// @module: "@ + label + "\n// "@ + divider() + "\n"@ + source
}

/// The sources of the modules of `order` under their headers, separated by
/// blank lines.
pub open spec fn joined_sources<E>(ms: Seq<ShaderModule<E>>, order: Seq<usize>) -> Seq<char>
    decreases order.len(),
{
    let m = ms[order.last() as int];
    if order.len() == 0 {
        seq![]
    } else if order.len() == 1 {
        module_text(sanitized(m.name@), m.source@)
    } else {
        joined_sources(ms, order.drop_last()) + "\n\n"@ + module_text(sanitized(m.name@), m.source@)
    }
}

/// Why a shader could not be made.
#[derive(Clone, Debug, PartialEq, Eq)]
pub enum ShaderError {
    /// A module has a binding in a group that is not named.
    UnknownBindGroup { group: String, module: String },
    /// More than four groups are named; the number named.
    TooManyBindGroups(usize),
    /// The identifiers could not be made into a search automaton.
    PatternsRejected,
}

/// A shader's groups of bindings, one per group name, and its source with
/// every identifier replaced.
#[derive(Debug)]
pub struct PreprocessedShader<E> {
    pub bind_groups: Vec<BindGroupDesc<E>>,
    pub source: String,
}

/// Whether a binding's group is not among the names.
pub open spec fn unresolved<E>(b: (Seq<char>, E, Seq<char>), names: Seq<Seq<char>>) -> bool {
    last_index_of(names, b.0) < 0
}

/// What making a shader from the modules of `order` gives.
pub open spec fn preprocess_outcome<E>(
    ms: Seq<ShaderModule<E>>,
    order: Seq<usize>,
    names: Seq<Seq<char>>,
    web: bool,
    r: Result<PreprocessedShader<E>, ShaderError>,
) -> bool {
    let bs = order_bindings(ms, order);
    let reps = shader_replacements(ms, order, names, web);
    match r {
        Err(ShaderError::UnknownBindGroup { group, module }) => exists|k: int|
            0 <= k < bs.len() && #[trigger] unresolved(bs[k], names) && (forall|j: int|
                0 <= j < k ==> !unresolved(#[trigger] bs[j], names)) && group@ == bs[k].0 && module@
                == bs[k].2,
        Err(ShaderError::TooManyBindGroups(n)) => (forall|k: int|
            0 <= k < bs.len() ==> !unresolved(#[trigger] bs[k], names)) && n == names.len() && n > 4,
        Err(ShaderError::PatternsRejected) => (forall|k: int|
            0 <= k < bs.len() ==> !unresolved(#[trigger] bs[k], names)) && names.len() <= 4
            && !aho_corasick_builds(reps.map_values(|p: (Seq<char>, Seq<char>)| p.0)),
        Ok(shader) => {
            &&& forall|k: int| 0 <= k < bs.len() ==> !unresolved(#[trigger] bs[k], names)
            &&& names.len() <= 4
            &&& aho_corasick_builds(reps.map_values(|p: (Seq<char>, Seq<char>)| p.0))
            &&& shader.bind_groups@.len() == names.len()
            &&& forall|j: int|
                0 <= j < names.len() ==> (#[trigger] shader.bind_groups@[j]).label@ == names[j]
                    && shader.bind_groups@[j].entries@ == group_entries(bs, names, j)
            &&& shader.source@ == aho_corasick_replaced(
                reps.map_values(|p: (Seq<char>, Seq<char>)| p.0),
                joined_sources(ms, order),
                reps.map_values(|p: (Seq<char>, Seq<char>)| p.1),
            )
        },
    }
}

/// The bindings of the first modules of a list come first among the
/// bindings of the whole list.
proof fn lemma_order_bindings_prefix<E>(ms: Seq<ShaderModule<E>>, o: Seq<usize>, p: int)
    requires
        0 <= p <= o.len(),
    ensures
        order_bindings(ms, o.take(p)).len() <= order_bindings(ms, o).len(),
        forall|k: int|
            0 <= k < order_bindings(ms, o.take(p)).len() ==> #[trigger] order_bindings(ms, o)[k]
                == order_bindings(ms, o.take(p))[k],
    decreases o.len() - p,
{
    if p == o.len() {
        assert(o.take(p) =~= o);
    } else {
        lemma_order_bindings_prefix(ms, o, p + 1);
        assert(o.take(p + 1).drop_last() =~= o.take(p));
    }
}

/// The identifiers of the first modules of a list come first among the
/// identifiers of the whole list.
proof fn lemma_order_idents_prefix<E>(ms: Seq<ShaderModule<E>>, o: Seq<usize>, p: int)
    requires
        0 <= p <= o.len(),
    ensures
        order_idents(ms, o.take(p)).len() <= order_idents(ms, o).len(),
        forall|k: int|
            0 <= k < order_idents(ms, o.take(p)).len() ==> #[trigger] order_idents(ms, o)[k]
                == order_idents(ms, o.take(p))[k],
    decreases o.len() - p,
{
    if p == o.len() {
        assert(o.take(p) =~= o);
    } else {
        lemma_order_idents_prefix(ms, o, p + 1);
        assert(o.take(p + 1).drop_last() =~= o.take(p));
    }
}

/// The place of the last of `names` that is `g`, if any.
fn last_index(names: &Vec<String>, g: &str) -> (r: Option<usize>)
    ensures
        match r {
            Some(i) => i as int == last_index_of(strings_view(names@), g@) && i < names@.len(),
            None => last_index_of(strings_view(names@), g@) < 0,
        },
{
    let ghost v = strings_view(names@);
    let mut i: usize = names.len();
    assert(v.take(i as int) =~= v);
    while i > 0
        invariant
            v == strings_view(names@),
            i <= names@.len(),
            last_index_of(v, g@) == last_index_of(v.take(i as int), g@),
        decreases i,
    {
        let ghost t = v.take(i as int);
        assert(t.drop_last() =~= v.take(i - 1));
        if str_eq(names[i - 1].as_str(), g) {
            return Some(i - 1);
        }
        i = i - 1;
    }
    None
}

impl<E: Copy> ShaderModules<E> {
    /// The bindings of the modules of `order`, each as the number of its
    /// group and its entry; or the first binding whose group is not named.
    fn resolve_bindings(&self, order: &Vec<usize>, names: &Vec<String>) -> (r: Result<
        Vec<(usize, E)>,
        ShaderError,
    >)
        requires
            forall|p: int| 0 <= p < order@.len() ==> #[trigger] order@[p] < self.spec_modules().len(),
        ensures
            ({
                let bs = order_bindings(self.spec_modules(), order@);
                let names_v = strings_view(names@);
                match r {
                    Ok(flat) => flat@.len() == bs.len() && forall|k: int|
                        0 <= k < bs.len() ==> !unresolved(#[trigger] bs[k], names_v) && flat@[k].0
                            == last_index_of(names_v, bs[k].0) && flat@[k].1 == bs[k].1,
                    Err(ShaderError::UnknownBindGroup { group, module }) => exists|k: int|
                        0 <= k < bs.len() && #[trigger] unresolved(bs[k], names_v) && (forall|j: int|
                            0 <= j < k ==> !unresolved(#[trigger] bs[j], names_v)) && group@ == bs[k].0
                            && module@ == bs[k].2,
                    Err(_) => false,
                }
            }),
    {
        let ghost ms = self.spec_modules();
        let ghost names_v = strings_view(names@);
        let ghost bs = order_bindings(ms, order@);
        let mut flat: Vec<(usize, E)> = Vec::new();
        let mut p: usize = 0;
        assert(order@.take(0) =~= Seq::<usize>::empty());
        while p < order.len()
            invariant
                ms == self.spec_modules(),
                names_v == strings_view(names@),
                bs == order_bindings(ms, order@),
                forall|q: int| 0 <= q < order@.len() ==> #[trigger] order@[q] < ms.len(),
                p <= order@.len(),
                flat@.len() == order_bindings(ms, order@.take(p as int)).len(),
                forall|k: int|
                    0 <= k < flat@.len() ==> !unresolved(#[trigger] bs[k], names_v) && flat@[k].0
                        == last_index_of(names_v, bs[k].0) && flat@[k].1 == bs[k].1,
            decreases order@.len() - p,
        {
            let module = self.get(order[p]);
            let bindings = module.bindings();
            let ghost done = order_bindings(ms, order@.take(p as int));
            let ghost mb = module.spec_bindings().map_values(
                |b: (Seq<char>, E)| (b.0, b.1, module.name@),
            );
            proof {
                assert(order@.take(p + 1).drop_last() =~= order@.take(p as int));
                assert(order_bindings(ms, order@.take(p + 1)) == done + mb);
                lemma_order_bindings_prefix(ms, order@, p + 1);
            }
            let mut i: usize = 0;
            while i < bindings.len()
                invariant
                    ms == self.spec_modules(),
                    names_v == strings_view(names@),
                    bs == order_bindings(ms, order@),
                    *module == ms[order@[p as int] as int],
                    bindings@.map_values(|b: (String, E)| (b.0@, b.1)) == module.spec_bindings(),
                    mb == module.spec_bindings().map_values(|b: (Seq<char>, E)| (b.0, b.1, module.name@)),
                    done + mb == order_bindings(ms, order@.take(p + 1)),
                    (done + mb).len() <= bs.len(),
                    forall|k: int| 0 <= k < (done + mb).len() ==> #[trigger] bs[k] == (done + mb)[k],
                    i <= bindings@.len(),
                    flat@.len() == done.len() + i,
                    forall|k: int|
                        0 <= k < flat@.len() ==> !unresolved(#[trigger] bs[k], names_v) && flat@[k].0
                            == last_index_of(names_v, bs[k].0) && flat@[k].1 == bs[k].1,
                decreases bindings@.len() - i,
            {
                let ghost k = done.len() + i;
                assert(bs[k] == (done + mb)[k]);
                assert((done + mb)[k] == mb[i as int]);
                assert(mb[i as int] == (bindings@[i as int].0@, bindings@[i as int].1, module.name@)) by {
                    assert(module.spec_bindings()[i as int] == (bindings@[i as int].0@, bindings@[i as int].1));
                }
                match last_index(names, bindings[i].0.as_str()) {
                    None => {
                        let group = bindings[i].0.clone();
                        let module_name = module.name.clone();
                        proof {
                            assert(unresolved(bs[k], names_v));
                            assert(group@ == bs[k].0 && module_name@ == bs[k].2);
                            assert(forall|j: int| 0 <= j < k ==> !unresolved(#[trigger] bs[j], names_v));
                        }
                        return Err(ShaderError::UnknownBindGroup { group, module: module_name });
                    },
                    Some(idx) => {
                        flat.push((idx, bindings[i].1));
                    },
                }
                i = i + 1;
            }
            p = p + 1;
        }
        assert(order@.take(order@.len() as int) =~= order@);
        Ok(flat)
    }
}

/// One group per name of `names`, under that name, holding the entries of
/// `flat` whose group is its number, in order.
fn group_bindings<E: Copy>(
    flat: &Vec<(usize, E)>,
    names: &Vec<String>,
    Ghost(bs): Ghost<Seq<(Seq<char>, E, Seq<char>)>>,
) -> (r: Vec<BindGroupDesc<E>>)
    requires
        flat@.len() == bs.len(),
        forall|k: int|
            0 <= k < bs.len() ==> (#[trigger] flat@[k]).0 == last_index_of(strings_view(names@), bs[k].0)
                && flat@[k].1 == bs[k].1,
    ensures
        r@.len() == names@.len(),
        forall|j: int|
            0 <= j < names@.len() ==> (#[trigger] r@[j]).label@ == names@[j]@ && r@[j].entries@
                == group_entries(bs, strings_view(names@), j),
{
    let ghost names_v = strings_view(names@);
    let mut r: Vec<BindGroupDesc<E>> = Vec::new();
    let mut j: usize = 0;
    while j < names.len()
        invariant
            names_v == strings_view(names@),
            flat@.len() == bs.len(),
            forall|k: int|
                0 <= k < bs.len() ==> (#[trigger] flat@[k]).0 == last_index_of(names_v, bs[k].0)
                    && flat@[k].1 == bs[k].1,
            j <= names@.len(),
            r@.len() == j,
            forall|q: int|
                0 <= q < j ==> (#[trigger] r@[q]).label@ == names@[q]@ && r@[q].entries@
                    == group_entries(bs, names_v, q),
        decreases names@.len() - j,
    {
        let mut entries: Vec<E> = Vec::new();
        let mut k: usize = 0;
        assert(bs.take(0) =~= Seq::<(Seq<char>, E, Seq<char>)>::empty());
        while k < flat.len()
            invariant
                names_v == strings_view(names@),
                flat@.len() == bs.len(),
                forall|x: int|
                    0 <= x < bs.len() ==> (#[trigger] flat@[x]).0 == last_index_of(names_v, bs[x].0)
                        && flat@[x].1 == bs[x].1,
                j < names@.len(),
                k <= flat@.len(),
                entries@ == group_entries(bs.take(k as int), names_v, j as int),
            decreases flat@.len() - k,
        {
            let ghost t = bs.take(k + 1);
            let ghost f = in_group::<E>(names_v, j as int);
            assert(t =~= bs.take(k as int).push(bs[k as int]));
            proof {
                bs.take(k as int).lemma_filter_push(bs[k as int], f);
            }
            let ghost before = entries@;
            if flat[k].0 == j {
                entries.push(flat[k].1);
                assert(f(bs[k as int]));
                assert(t.filter(f) == bs.take(k as int).filter(f).push(bs[k as int]));
                assert(entries@ =~= group_entries(t, names_v, j as int));
            } else {
                assert(!f(bs[k as int]));
                assert(t.filter(f) == bs.take(k as int).filter(f));
            }
            k = k + 1;
        }
        assert(bs.take(flat@.len() as int) =~= bs);
        r.push(BindGroupDesc { entries, label: names[j].clone() });
        j = j + 1;
    }
    r
}

/// Whether `s` lists each name of `names` once, as a one-component path, in
/// byte order.
pub open spec fn lists_group_names(s: Seq<Seq<Seq<char>>>, names: Seq<Seq<char>>) -> bool {
    paths_sorted(s) && s.no_duplicates() && forall|q: Seq<Seq<char>>|
        s.contains(q) <==> exists|i: int| 0 <= i < names.len() && q == seq![names[i]]
}

/// The group names, each once, in byte order, as one-component paths.
fn group_name_list(names: &Vec<String>) -> (r: Vec<PackagePath>)
    ensures
        lists_group_names(paths_view(r@), strings_view(names@)),
        paths_view(r@) == group_name_order(strings_view(names@)),
{
    let ghost names_v = strings_view(names@);
    let mut r: Vec<PackagePath> = Vec::new();
    let mut i: usize = 0;
    while i < names.len()
        invariant
            names_v == strings_view(names@),
            i <= names@.len(),
            paths_sorted(paths_view(r@)),
            paths_view(r@).no_duplicates(),
            forall|q: Seq<Seq<char>>|
                paths_view(r@).contains(q) <==> exists|k: int| 0 <= k < i && q == seq![names_v[k]],
        decreases names@.len() - i,
    {
        let mut one: Vec<String> = Vec::new();
        one.push(names[i].clone());
        let p = PackagePath::from_components(one);
        assert(path_view(p) =~= seq![names_v[i as int]]);
        let ghost before = paths_view(r@);
        let mut t: usize = 0;
        while t < r.len() && !r[t].same_as(&p)
            invariant
                t <= r@.len(),
                before == paths_view(r@),
                forall|x: int| 0 <= x < t ==> before[x] != path_view(p),
            decreases r@.len() - t,
        {
            t = t + 1;
        }
        if t == r.len() {
            assert(!before.contains(path_view(p))) by {
                if before.contains(path_view(p)) {
                    let x = choose|x: int| 0 <= x < before.len() && before[x] == path_view(p);
                }
            }
            insert_sorted(&mut r, p);
            proof {
                let pos = choose|pos: int|
                    0 <= pos <= before.len() && paths_view(r@) == before.insert(pos, seq![names_v[i as int]]);
                let after = paths_view(r@);
                assert forall|a: int, b: int| 0 <= a < after.len() && 0 <= b < after.len() && a != b implies after[a]
                    != after[b] by {
                    let oa = if a < pos { a } else { a - 1 };
                    let ob = if b < pos { b } else { b - 1 };
                    if a != pos && b != pos {
                        assert(after[a] == before[oa] && after[b] == before[ob]);
                    } else if a == pos {
                        assert(after[b] == before[ob]);
                        assert(before.contains(before[ob]));
                    } else {
                        assert(after[a] == before[oa]);
                        assert(before.contains(before[oa]));
                    }
                }
                assert forall|q: Seq<Seq<char>>| after.contains(q) <==> exists|k: int|
                    0 <= k < i + 1 && q == seq![names_v[k]] by {
                    if after.contains(q) {
                        let a = choose|a: int| 0 <= a < after.len() && after[a] == q;
                        if a != pos {
                            let oa = if a < pos { a } else { a - 1 };
                            assert(before[oa] == q);
                            assert(before.contains(q));
                            let k = choose|k: int| 0 <= k < i && q == seq![names_v[k]];
                            assert(0 <= k < i + 1 && q == seq![names_v[k]]);
                        } else {
                            assert(q == seq![names_v[i as int]]);
                        }
                    }
                    if exists|k: int| 0 <= k < i + 1 && q == seq![names_v[k]] {
                        let k = choose|k: int| 0 <= k < i + 1 && q == seq![names_v[k]];
                        if k < i {
                            assert(before.contains(q));
                            let b = choose|b: int| 0 <= b < before.len() && before[b] == q;
                            if b < pos {
                                assert(after[b] == q);
                            } else {
                                assert(after[b + 1] == q);
                            }
                        } else {
                            assert(after[pos] == q);
                        }
                    }
                }
            }
        } else {
            proof {
                assert(before[t as int] == path_view(p));
                assert forall|q: Seq<Seq<char>>| before.contains(q) <==> exists|k: int|
                    0 <= k < i + 1 && q == seq![names_v[k]] by {
                    if exists|k: int| 0 <= k < i + 1 && q == seq![names_v[k]] {
                        let k = choose|k: int| 0 <= k < i + 1 && q == seq![names_v[k]];
                        if k == i {
                            assert(before[t as int] == q);
                        }
                    }
                }
            }
        }
        i = i + 1;
    }
    proof {
        let v = paths_view(r@);
        let g = group_name_order(names_v);
        assert(lists_group_names(v, names_v));
        assert(lists_group_names(g, names_v));
        assert forall|q: Seq<Seq<char>>| v.contains(q) <==> g.contains(q) by {}
        lemma_sorted_paths_unique(v, g);
    }
    r
}

impl<E> ShaderModules<E> {
    /// The identifiers of the modules of `order` and their texts, in order.
    fn ident_lists(&self, order: &Vec<usize>) -> (r: (Vec<String>, Vec<String>))
        requires
            forall|p: int| 0 <= p < order@.len() ==> #[trigger] order@[p] < self.spec_modules().len(),
        ensures
            strings_view(r.0@) == order_idents(self.spec_modules(), order@).map_values(
                |x: (Seq<char>, Seq<char>)| x.0,
            ),
            strings_view(r.1@) == order_idents(self.spec_modules(), order@).map_values(
                |x: (Seq<char>, Seq<char>)| x.1,
            ),
    {
        let ghost ms = self.spec_modules();
        let mut names: Vec<String> = Vec::new();
        let mut texts: Vec<String> = Vec::new();
        let mut p: usize = 0;
        assert(order@.take(0) =~= Seq::<usize>::empty());
        while p < order.len()
            invariant
                ms == self.spec_modules(),
                forall|q: int| 0 <= q < order@.len() ==> #[trigger] order@[q] < ms.len(),
                p <= order@.len(),
                strings_view(names@) == order_idents(ms, order@.take(p as int)).map_values(
                    |x: (Seq<char>, Seq<char>)| x.0,
                ),
                strings_view(texts@) == order_idents(ms, order@.take(p as int)).map_values(
                    |x: (Seq<char>, Seq<char>)| x.1,
                ),
            decreases order@.len() - p,
        {
            let module = self.get(order[p]);
            let ghost done = order_idents(ms, order@.take(p as int));
            proof {
                assert(order@.take(p + 1).drop_last() =~= order@.take(p as int));
            }
            let mut i: usize = 0;
            while i < module.idents.len()
                invariant
                    *module == ms[order@[p as int] as int],
                    i <= module.idents@.len(),
                    strings_view(names@) == (done + ident_replacements(module.idents@.take(i as int))).map_values(
                        |x: (Seq<char>, Seq<char>)| x.0,
                    ),
                    strings_view(texts@) == (done + ident_replacements(module.idents@.take(i as int))).map_values(
                        |x: (Seq<char>, Seq<char>)| x.1,
                    ),
                decreases module.idents@.len() - i,
            {
                let ident = &module.idents[i];
                let ghost acc = done + ident_replacements(module.idents@.take(i as int));
                let ghost next = done + ident_replacements(module.idents@.take(i + 1));
                assert(next =~= acc.push((ident.name@, wgsl_text(ident.value))));
                let ghost old_names = strings_view(names@);
                let ghost old_texts = strings_view(texts@);
                let name = ident.name.clone();
                let text = ident.value.to_wgsl();
                names.push(name);
                texts.push(text);
                assert(strings_view(names@) =~= old_names.push(ident.name@));
                assert(strings_view(texts@) =~= old_texts.push(wgsl_text(ident.value)));
                assert(acc.push((ident.name@, wgsl_text(ident.value))).map_values(
                    |x: (Seq<char>, Seq<char>)| x.0,
                ) =~= acc.map_values(|x: (Seq<char>, Seq<char>)| x.0).push(ident.name@));
                assert(acc.push((ident.name@, wgsl_text(ident.value))).map_values(
                    |x: (Seq<char>, Seq<char>)| x.1,
                ) =~= acc.map_values(|x: (Seq<char>, Seq<char>)| x.1).push(wgsl_text(ident.value)));
                i = i + 1;
            }
            assert(module.idents@.take(module.idents@.len() as int) =~= module.idents@);
            p = p + 1;
        }
        assert(order@.take(order@.len() as int) =~= order@);
        (names, texts)
    }

    /// The sources of the modules of `order` under their headers, separated
    /// by blank lines.
    fn joined_source(&self, order: &Vec<usize>) -> (r: String)
        requires
            forall|p: int| 0 <= p < order@.len() ==> #[trigger] order@[p] < self.spec_modules().len(),
        ensures
            r@ == joined_sources(self.spec_modules(), order@),
    {
        let ghost ms = self.spec_modules();
        let mut r = String::new();
        let mut p: usize = 0;
        assert(r@ =~= joined_sources(ms, order@.take(0)));
        while p < order.len()
            invariant
                ms == self.spec_modules(),
                forall|q: int| 0 <= q < order@.len() ==> #[trigger] order@[q] < ms.len(),
                p <= order@.len(),
                r@ == joined_sources(ms, order@.take(p as int)),
            decreases order@.len() - p,
        {
            let module = self.get(order[p]);
            let ghost before = r@;
            if p > 0 {
                string_push_str(&mut r, "\n\n");
            }
            string_push_str(&mut r, "// ");
            string_push_str(&mut r, "--------------------------------");
            string_push_str(&mut r, "\n// @module: ");
            let label = sanitized_label(module.name.as_str());
            string_push_str(&mut r, label.as_str());
            string_push_str(&mut r, "\n// ");
            string_push_str(&mut r, "--------------------------------");
            string_push_str(&mut r, "\n");
            string_push_str(&mut r, module.source.as_str());
            proof {
                let t = order@.take(p + 1);
                assert(t.drop_last() =~= order@.take(p as int));
                assert(t.last() == order@[p as int]);
                let text = module_text(sanitized(module.name@), module.source@);
                if p > 0 {
                    assert(r@ =~= before + "\n\n"@ + text);
                } else {
                    assert(r@ =~= before + text);
                    assert(before =~= Seq::<char>::empty());
                }
            }
            p = p + 1;
        }
        assert(order@.take(order@.len() as int) =~= order@);
        r
    }
}

/// A name in the list has a last place in it.
proof fn lemma_last_index_found(names: Seq<Seq<char>>, i: int)
    requires
        0 <= i < names.len(),
    ensures
        i <= last_index_of(names, names[i]) < names.len(),
    decreases names.len(),
{
    if names.last() != names[i] {
        lemma_last_index_found(names.drop_last(), i);
    }
}

impl<E: Copy> ShaderModules<E> {
    /// Makes the shader of the module at `root`, for the web when `web`
    /// holds: gathers `root` and every module it depends on, each after its
    /// dependencies; puts each binding in the group that
    /// `bind_group_names` names for it (the last group of that name), failing
    /// on the first binding whose group is not named and when more than four
    /// groups are named; and joins the modules' sources under headers that
    /// name them, replacing each identifier of a module by its value, each
    /// group name by its group's number and the zero identifier by the zero
    /// of the target.
    #[verifier::spinoff_prover]
    pub fn preprocess(&self, root: usize, bind_group_names: &Vec<String>, web: bool) -> (r: Result<
        PreprocessedShader<E>,
        ShaderError,
    >)
        requires
            root < self.spec_modules().len(),
        ensures
            exists|order: Seq<usize>|
                resolves(self.spec_modules(), root, order) && preprocess_outcome(
                    self.spec_modules(),
                    order,
                    strings_view(bind_group_names@),
                    web,
                    r,
                ),
    {
        let ghost ms = self.spec_modules();
        let ghost names_v = strings_view(bind_group_names@);
        let order = self.resolve(root);
        let ghost bs = order_bindings(ms, order@);
        let ghost reps_spec = shader_replacements(ms, order@, names_v, web);
        let flat = match self.resolve_bindings(&order, bind_group_names) {
            Ok(f) => f,
            Err(e) => {
                assert(resolves(ms, root, order@));
                return Err(e);
            },
        };
        if bind_group_names.len() > 4 {
            assert(resolves(ms, root, order@));
            return Err(ShaderError::TooManyBindGroups(bind_group_names.len()));
        }
        let groups = group_bindings(&flat, bind_group_names, Ghost(bs));
        let (mut pats, mut reps) = self.ident_lists(&order);
        let sorted = group_name_list(bind_group_names);
        let ghost idents = order_idents(ms, order@);
        let ghost gs = group_name_order(names_v);
        let mut t: usize = 0;
        while t < sorted.len()
            invariant
                names_v == strings_view(bind_group_names@),
                gs == group_name_order(names_v),
                paths_view(sorted@) == gs,
                lists_group_names(gs, names_v),
                t <= sorted@.len(),
                strings_view(pats@) == (idents + group_replacements(names_v).take(t as int)).map_values(
                    |x: (Seq<char>, Seq<char>)| x.0,
                ),
                strings_view(reps@) == (idents + group_replacements(names_v).take(t as int)).map_values(
                    |x: (Seq<char>, Seq<char>)| x.1,
                ),
            decreases sorted@.len() - t,
        {
            let ghost q = gs[t as int];
            assert(gs.contains(q));
            let ghost i0 = choose|i: int| 0 <= i < names_v.len() && q == seq![names_v[i]];
            assert(path_view(sorted@[t as int]) == q);
            assert(sorted@[t as int].components@.len() == 1);
            let name = &sorted[t].components[0];
            assert(path_view(sorted@[t as int])[0] == name@);
            assert(q[0] == names_v[i0]);
            assert(name@ == names_v[i0]);
            proof {
                lemma_last_index_found(names_v, i0);
            }
            let idx = match last_index(bind_group_names, name.as_str()) {
                Some(i) => i,
                None => {
                    assert(false);
                    0
                },
            };
            let ghost acc = idents + group_replacements(names_v).take(t as int);
            let ghost entry = (name@, decimal(idx as nat));
            assert(group_replacements(names_v)[t as int] == entry);
            assert(idents + group_replacements(names_v).take(t + 1) =~= acc.push(entry));
            let ghost old_pats = strings_view(pats@);
            let ghost old_reps = strings_view(reps@);
            pats.push(name.clone());
            reps.push(decimal_text(idx as u64));
            assert(strings_view(pats@) =~= old_pats.push(entry.0));
            assert(strings_view(reps@) =~= old_reps.push(entry.1));
            assert(acc.push(entry).map_values(|x: (Seq<char>, Seq<char>)| x.0) =~= acc.map_values(
                |x: (Seq<char>, Seq<char>)| x.0,
            ).push(entry.0));
            assert(acc.push(entry).map_values(|x: (Seq<char>, Seq<char>)| x.1) =~= acc.map_values(
                |x: (Seq<char>, Seq<char>)| x.1,
            ).push(entry.1));
            t = t + 1;
        }
        let ghost acc = idents + group_replacements(names_v);
        assert(group_replacements(names_v).take(sorted@.len() as int) =~= group_replacements(names_v));
        let ghost old_pats = strings_view(pats@);
        let ghost old_reps = strings_view(reps@);
        pats.push("ZERO_INTEGER_ON_WEB_FLOAT_ON_NATIVE".to_owned());
        let mut zero = "0".to_owned();
        if !web {
            string_push(&mut zero, '.');
            string_push(&mut zero, '0');
        }
        proof {
            reveal_strlit("0");
            reveal_strlit(".");
            assert(zero@ =~= zero_replacement(web).1);
        }
        reps.push(zero);
        assert(strings_view(pats@) =~= reps_spec.map_values(|x: (Seq<char>, Seq<char>)| x.0)) by {
            assert(reps_spec =~= acc.push(zero_replacement(web)));
            assert(strings_view(pats@) =~= old_pats.push(zero_replacement(web).0));
        }
        assert(strings_view(reps@) =~= reps_spec.map_values(|x: (Seq<char>, Seq<char>)| x.1)) by {
            assert(reps_spec =~= acc.push(zero_replacement(web)));
            assert(strings_view(reps@) =~= old_reps.push(zero_replacement(web).1));
        }
        let source = self.joined_source(&order);
        assert(resolves(ms, root, order@));
        match aho_corasick_replace_all(&pats, source.as_str(), &reps) {
            Ok(text) => Ok(PreprocessedShader { bind_groups: groups, source: text }),
            Err(_) => Err(ShaderError::PatternsRejected),
        }
    }
}

} // verus!
