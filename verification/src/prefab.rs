//! Which prefab files to load for the entities that ask for one, each file
//! once.
use crate::std_wrappers::{str_ends_with, str_eq, string_push_str};
use vstd::prelude::*;

verus! {

/// The ending of the URL of a prefab's main file.
pub open spec fn main_suffix() -> Seq<char> {
    "/prefabs/main.json"@
}

/// The URL of the main file of the prefab at `url`: `url` itself where it
/// already ends with `/prefabs/main.json`, else `url` followed by it.
pub open spec fn main_url(url: Seq<char>) -> Seq<char> {
    if main_suffix().len() <= url.len() && url.subrange(url.len() - main_suffix().len(), url.len() as int) == main_suffix() {
        url
    } else {
        url + main_suffix()
    }
}

/// The URL of the main file of the prefab at `url`.
pub fn prefab_main_url(url: &str) -> (r: String)
    ensures
        r@ == main_url(url@),
{
    let suffix = "/prefabs/main.json";
    proof {
        assert(suffix@ == main_suffix());
    }
    let mut r = url.to_owned();
    if !str_ends_with(url, suffix) {
        string_push_str(&mut r, suffix);
    }
    r
}

/// The ids among `requests` whose prefab's main file is `url`, in order.
pub open spec fn ids_for<I>(requests: Seq<(I, String)>, url: Seq<char>) -> Seq<I>
    decreases requests.len(),
{
    if requests.len() == 0 {
        Seq::empty()
    } else {
        let rest = ids_for(requests.drop_last(), url);
        if main_url(requests.last().1@) == url {
            rest.push(requests.last().0)
        } else {
            rest
        }
    }
}

/// Whether `loads` groups `requests` by prefab file: each main-file URL once,
/// each with the ids that ask for it, in order; every request's file among
/// them.
pub open spec fn groups_requests<I>(loads: Seq<(String, Vec<I>)>, requests: Seq<(I, String)>) -> bool {
    &&& forall|a: int, b: int| 0 <= a < b < loads.len() ==> (#[trigger] loads[a]).0@ != (#[trigger] loads[b]).0@
    &&& forall|a: int| 0 <= a < loads.len() ==> (#[trigger] loads[a]).1@ == ids_for(requests, loads[a].0@)
    &&& forall|a: int| #![trigger loads[a]] 0 <= a < loads.len() ==> exists|i: int| 0 <= i < requests.len() && main_url((#[trigger] requests[i]).1@) == loads[a].0@
    &&& forall|i: int| #![trigger requests[i]] 0 <= i < requests.len() ==> exists|a: int| 0 <= a < loads.len() && (#[trigger] loads[a]).0@ == main_url(requests[i].1@)
}

/// A request whose file is not `url` adds nothing to the ids for `url`.
proof fn lemma_ids_for_step<I>(requests: Seq<(I, String)>, n: int, url: Seq<char>)
    requires
        0 <= n < requests.len(),
    ensures
        ids_for(requests.take(n + 1), url) == if main_url(requests[n].1@) == url {
            ids_for(requests.take(n), url).push(requests[n].0)
        } else {
            ids_for(requests.take(n), url)
        },
{
    assert(requests.take(n + 1).drop_last() =~= requests.take(n));
}

/// No request for another file adds to the ids for `url`.
proof fn lemma_ids_for_absent<I>(requests: Seq<(I, String)>, url: Seq<char>)
    requires
        forall|j: int| 0 <= j < requests.len() ==> main_url((#[trigger] requests[j]).1@) != url,
    ensures
        ids_for(requests, url) == Seq::<I>::empty(),
    decreases requests.len(),
{
    if requests.len() > 0 {
        let rest = requests.drop_last();
        assert forall|j: int| 0 <= j < rest.len() implies main_url((#[trigger] rest[j]).1@) != url by {
            assert(rest[j] == requests[j]);
        }
        lemma_ids_for_absent(rest, url);
        assert(main_url(requests[requests.len() - 1].1@) != url);
    }
}

/// Adding one request to a grouping: its id joins the group of its file
/// where there is one, or starts a new group.
proof fn lemma_group_step<I>(
    before: Seq<(String, Vec<I>)>,
    after: Seq<(String, Vec<I>)>,
    done: Seq<(I, String)>,
    req: (I, String),
    found: bool,
    a: int,
)
    requires
        groups_requests(before, done),
        found ==> {
            &&& 0 <= a < before.len()
            &&& before[a].0@ == main_url(req.1@)
            &&& after.len() == before.len()
            &&& forall|b: int| 0 <= b < before.len() && b != a ==> after[b] == before[b]
            &&& after[a].0 == before[a].0
            &&& after[a].1@ == before[a].1@.push(req.0)
        },
        !found ==> {
            &&& forall|b: int| 0 <= b < before.len() ==> (#[trigger] before[b]).0@ != main_url(req.1@)
            &&& after.len() == before.len() + 1
            &&& forall|b: int| 0 <= b < before.len() ==> after[b] == before[b]
            &&& after[before.len() as int].0@ == main_url(req.1@)
            &&& after[before.len() as int].1@ == seq![req.0]
        },
    ensures
        groups_requests(after, done.push(req)),
{
    let next = done.push(req);
    let url = main_url(req.1@);
    assert(next.drop_last() =~= done);
    assert forall|b: int| 0 <= b < after.len() implies (#[trigger] after[b]).1@ == ids_for(next, after[b].0@) by {
        if !found && b == before.len() {
            assert forall|j: int| 0 <= j < done.len() implies main_url((#[trigger] done[j]).1@) != url by {
                let c = choose|c: int| 0 <= c < before.len() && (#[trigger] before[c]).0@ == main_url(done[j].1@);
            }
            lemma_ids_for_absent(done, url);
        } else if found && b == a {
        } else {
            assert(after[b] == before[b]);
        }
    }
    assert forall|x: int, y: int| 0 <= x < y < after.len() implies (#[trigger] after[x]).0@ != (#[trigger] after[y]).0@ by {
        if !found && y == before.len() {
            assert(after[x] == before[x]);
        } else if found && x == a {
            assert(after[y] == before[y]);
        } else if found && y == a {
            assert(after[x] == before[x]);
        } else {
            assert(after[x] == before[x]);
            assert(after[y] == before[y]);
        }
    }
    assert forall|b: int| #![trigger after[b]] 0 <= b < after.len() implies exists|j: int| 0 <= j < next.len() && main_url((#[trigger] next[j]).1@) == after[b].0@ by {
        if !found && b == before.len() {
            assert(main_url(next[done.len() as int].1@) == after[b].0@);
        } else {
            let j = choose|j: int| 0 <= j < done.len() && main_url((#[trigger] done[j]).1@) == before[b].0@;
            assert(next[j] == done[j]);
            if !(found && b == a) {
                assert(after[b] == before[b]);
            }
        }
    }
    assert forall|j: int| #![trigger next[j]] 0 <= j < next.len() implies exists|b: int| 0 <= b < after.len() && (#[trigger] after[b]).0@ == main_url(next[j].1@) by {
        if j < done.len() {
            assert(next[j] == done[j]);
            let b = choose|b: int| 0 <= b < before.len() && (#[trigger] before[b]).0@ == main_url(done[j].1@);
            if !(found && b == a) {
                assert(after[b] == before[b]);
            }
        } else if found {
            assert(after[a].0@ == url);
        } else {
            assert(after[before.len() as int].0@ == url);
        }
    }
}

/// The prefab files to load for `requests`, each an entity id and the URL of
/// the prefab it asks for: each main-file URL once, in the order first asked
/// for, with the ids that ask for it, in order.
pub fn group_prefab_loads<I: Copy>(requests: &[(I, String)]) -> (r: Vec<(String, Vec<I>)>)
    ensures
        groups_requests(r@, requests@),
{
    let mut loads: Vec<(String, Vec<I>)> = Vec::new();
    let mut i: usize = 0;
    while i < requests.len()
        invariant
            i <= requests@.len(),
            groups_requests(loads@, requests@.take(i as int)),
        decreases requests@.len() - i,
    {
        let ghost done = requests@.take(i as int);
        let ghost next = requests@.take(i + 1);
        let id = requests[i].0;
        let url = prefab_main_url(requests[i].1.as_str());
        assert(next[i as int] == requests@[i as int]);
        let mut a: usize = 0;
        let mut found = false;
        while !found && a < loads.len()
            invariant
                a <= loads@.len(),
                found ==> a < loads@.len() && loads@[a as int].0@ == url@,
                !found ==> forall|b: int| 0 <= b < a ==> (#[trigger] loads@[b]).0@ != url@,
            decreases loads@.len() - a + (if found { 0int } else { 1int }),
        {
            if str_eq(loads[a].0.as_str(), url.as_str()) {
                found = true;
            } else {
                a = a + 1;
            }
        }
        let ghost before = loads@;
        assert(url@ == main_url(requests@[i as int].1@));
        assert(!found ==> a == loads@.len());
        if found {
            let mut entry: (String, Vec<I>) = (String::new(), Vec::new());
            loads.set_and_swap(a, &mut entry);
            entry.1.push(id);
            loads.set_and_swap(a, &mut entry);
        } else {
            let mut ids: Vec<I> = Vec::new();
            ids.push(id);
            assert(ids@ =~= seq![id]);
            loads.push((url, ids));
        }
        proof {
            assert(next =~= done.push(requests@[i as int]));
            lemma_group_step(before, loads@, done, requests@[i as int], found, a as int);
        }
        i = i + 1;
    }
    assert(requests@.take(requests@.len() as int) =~= requests@);
    loads
}

} // verus!
