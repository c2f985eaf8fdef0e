//! The dependents graph: for each issue, the issues that name it as a blocker.

use vstd::prelude::*;
use crate::cache::SnapshotCache;
use crate::model::{issue_views, BlockerView, Issue, IssueView};
use crate::strmap::StrMap;
use crate::text::views;

verus! {

/// The ids of a sequence of issues, in order.
pub open spec fn issue_ids(issues: Seq<IssueView>) -> Seq<Seq<char>> {
    issues.map_values(|i: IssueView| i.id)
}

/// Whether some blocker of `deps` has the id `target`.
pub open spec fn names_blocker(deps: Seq<BlockerView>, target: Seq<char>) -> bool {
    exists|d: int| 0 <= d < deps.len() && (#[trigger] deps[d]).id == target
}

/// One copy of `from` for every blocker of `deps` whose id is `target`.
pub open spec fn edges_to(deps: Seq<BlockerView>, target: Seq<char>, from: Seq<char>) -> Seq<
    Seq<char>,
>
    decreases deps.len(),
{
    if deps.len() == 0 {
        Seq::empty()
    } else {
        let rest = edges_to(deps.drop_last(), target, from);
        if deps.last().id == target {
            rest.push(from)
        } else {
            rest
        }
    }
}

/// What the issue `id` adds to the dependents of `target`: nothing where its
/// detail is unknown.
pub open spec fn contribution(
    id: Seq<char>,
    details: Map<Seq<char>, IssueView>,
    target: Seq<char>,
) -> Seq<Seq<char>> {
    if details.contains_key(id) {
        edges_to(details[id].dependencies, target, id)
    } else {
        Seq::empty()
    }
}

/// The dependents of `target`: the ids, in listing order, of the issues
/// whose detailed dependency list names `target`.
pub open spec fn dependents_of(
    ids: Seq<Seq<char>>,
    details: Map<Seq<char>, IssueView>,
    target: Seq<char>,
) -> Seq<Seq<char>>
    decreases ids.len(),
{
    if ids.len() == 0 {
        Seq::empty()
    } else {
        dependents_of(ids.drop_last(), details, target) + contribution(ids.last(), details, target)
    }
}

proof fn lemma_edges_to_members(
    deps: Seq<BlockerView>,
    target: Seq<char>,
    from: Seq<char>,
    x: Seq<char>,
)
    ensures
        edges_to(deps, target, from).contains(x) <==> (x == from && names_blocker(deps, target)),
    decreases deps.len(),
{
    if deps.len() > 0 {
        let front = deps.drop_last();
        lemma_edges_to_members(front, target, from, x);
        let rest = edges_to(front, target, from);
        if names_blocker(front, target) {
            let d = choose|d: int| 0 <= d < front.len() && (#[trigger] front[d]).id == target;
            assert(deps[d].id == target);
        }
        if names_blocker(deps, target) && deps.last().id != target {
            let d = choose|d: int| 0 <= d < deps.len() && (#[trigger] deps[d]).id == target;
            assert(front[d].id == target);
        }
        if deps.last().id == target {
            assert(deps[deps.len() - 1].id == target);
            assert(rest.push(from).last() == from);
            if rest.push(from).contains(x) {
                let k = choose|k: int| 0 <= k < rest.push(from).len() && rest.push(from)[k] == x;
                if k < rest.len() {
                    assert(rest[k] == x);
                }
            }
            if rest.contains(x) {
                let k = choose|k: int| 0 <= k < rest.len() && rest[k] == x;
                assert(rest.push(from)[k] == x);
            }
        }
    } else {
        assert(!edges_to(deps, target, from).contains(x));
    }
}

/// The dependents graph is the exact reverse of the dependency relation:
/// `b` is among the dependents of `a` exactly when `b` is a listed issue
/// whose detail is known and names `a` among its blockers.
pub proof fn lemma_dependents_reverse(
    ids: Seq<Seq<char>>,
    details: Map<Seq<char>, IssueView>,
    a: Seq<char>,
    b: Seq<char>,
)
    ensures
        dependents_of(ids, details, a).contains(b) <==> (ids.contains(b) && details.contains_key(b)
            && names_blocker(details[b].dependencies, a)),
    decreases ids.len(),
{
    if ids.len() > 0 {
        let front = ids.drop_last();
        let head = dependents_of(front, details, a);
        let tail = contribution(ids.last(), details, a);
        lemma_dependents_reverse(front, details, a, b);
        if details.contains_key(ids.last()) {
            lemma_edges_to_members(details[ids.last()].dependencies, a, ids.last(), b);
        } else {
            assert(!tail.contains(b));
        }
        if (head + tail).contains(b) {
            let k = choose|k: int| 0 <= k < (head + tail).len() && (head + tail)[k] == b;
            if k < head.len() {
                assert(head[k] == b);
            } else {
                assert(tail[k - head.len()] == b);
            }
        }
        if head.contains(b) {
            let k = choose|k: int| 0 <= k < head.len() && head[k] == b;
            assert((head + tail)[k] == b);
        }
        if tail.contains(b) {
            let k = choose|k: int| 0 <= k < tail.len() && tail[k] == b;
            assert((head + tail)[head.len() + k] == b);
        }
        if front.contains(b) {
            let k = choose|k: int| 0 <= k < front.len() && front[k] == b;
            assert(ids[k] == b);
        }
        if ids.contains(b) && ids.last() != b {
            let k = choose|k: int| 0 <= k < ids.len() && ids[k] == b;
            assert(front[k] == b);
        }
        assert(ids[ids.len() - 1] == ids.last());
    } else {
        assert(!dependents_of(ids, details, a).contains(b));
    }
}

/// For each issue id, the ids of the issues that depend on it.
pub struct DependentsMap {
    lists: StrMap<Vec<String>>,
}

impl DependentsMap {
    /// The internal map is well formed.
    pub closed spec fn wf(&self) -> bool {
        self.lists.wf()
    }

    /// The dependents recorded for `id`, in the order in which they were found.
    pub closed spec fn dependents(&self, id: Seq<char>) -> Seq<Seq<char>> {
        self.lists.list(id)
    }

    /// A graph without edges.
    pub fn new() -> (r: Self)
        ensures
            r.wf(),
            forall|id: Seq<char>| #[trigger] r.dependents(id) == Seq::<Seq<char>>::empty(),
    {
        DependentsMap { lists: StrMap::new() }
    }

    /// Builds the graph for `issues` from the details that `cache` remembers.
    /// An issue whose detail is not remembered adds no edge.
    pub fn build(issues: &Vec<Issue>, cache: &SnapshotCache) -> (r: Self)
        requires
            cache.wf(),
        ensures
            r.wf(),
            forall|id: Seq<char>| #[trigger]
                r.dependents(id) == dependents_of(
                    issue_ids(issue_views(issues@)),
                    cache.cached(),
                    id,
                ),
    {
        let ghost ids = issue_ids(issue_views(issues@));
        let ghost details = cache.cached();
        let mut lists: StrMap<Vec<String>> = StrMap::new();
        let mut i: usize = 0;
        while i < issues.len()
            invariant
                cache.wf(),
                details == cache.cached(),
                ids == issue_ids(issue_views(issues@)),
                i <= issues@.len(),
                lists.wf(),
                forall|t: Seq<char>| #[trigger]
                    lists.list(t) == dependents_of(ids.take(i as int), details, t),
            decreases issues@.len() - i,
        {
            let issue = &issues[i];
            let ghost id = issue.id@;
            assert(ids[i as int] == id);
            assert(ids.take(i + 1).drop_last() =~= ids.take(i as int));
            assert(ids.take(i + 1).last() == id);
            match cache.peek(issue.id.as_str()) {
                Some(full) => {
                    let ghost deps = details[id].dependencies;
                    let mut j: usize = 0;
                    while j < full.dependencies.len()
                        invariant
                            j <= full.dependencies@.len(),
                            deps == crate::model::blocker_views(full.dependencies@),
                            id == issue.id@,
                            lists.wf(),
                            forall|t: Seq<char>| #[trigger]
                                lists.list(t) == dependents_of(ids.take(i as int), details, t)
                                    + edges_to(deps.take(j as int), t, id),
                        decreases full.dependencies@.len() - j,
                    {
                        let dep = &full.dependencies[j];
                        let ghost before = lists;
                        assert(deps[j as int].id == dep.id@);
                        assert(deps.take(j + 1).drop_last() =~= deps.take(j as int));
                        assert(deps.take(j + 1).last() == deps[j as int]);
                        lists.append_to(dep.id.as_str(), issue.id.clone());
                        proof {
                            assert forall|t: Seq<char>| #[trigger]
                                lists.list(t) == dependents_of(ids.take(i as int), details, t)
                                    + edges_to(deps.take(j + 1), t, id) by {
                                let head = dependents_of(ids.take(i as int), details, t);
                                let old_edges = edges_to(deps.take(j as int), t, id);
                                assert(before.list(t) == head + old_edges);
                                if t == dep.id@ {
                                    assert((head + old_edges).push(id) =~= head + old_edges.push(
                                        id,
                                    ));
                                }
                            }
                        }
                        j += 1;
                    }
                    assert(deps.take(full.dependencies@.len() as int) =~= deps);
                },
                None => {
                    assert forall|t: Seq<char>| #[trigger]
                        lists.list(t) == dependents_of(ids.take(i + 1), details, t) by {
                        let head = dependents_of(ids.take(i as int), details, t);
                        assert(head + Seq::<Seq<char>>::empty() =~= head);
                    }
                },
            }
            i += 1;
        }
        assert(ids.take(issues@.len() as int) =~= ids);
        DependentsMap { lists }
    }

    /// How many issues depend on `id`.
    pub fn count(&self, id: &str) -> (r: usize)
        requires
            self.wf(),
        ensures
            r == self.dependents(id@).len(),
    {
        match self.lists.get(id) {
            Some(list) => {
                assert(views(list@).len() == list@.len());
                list.len()
            },
            None => 0,
        }
    }

    /// The ids of the issues that depend on `id`.
    pub fn get(&self, id: &str) -> (r: Vec<String>)
        requires
            self.wf(),
        ensures
            views(r@) == self.dependents(id@),
    {
        let mut out: Vec<String> = Vec::new();
        match self.lists.get(id) {
            Some(list) => {
                let mut i: usize = 0;
                while i < list.len()
                    invariant
                        i <= list@.len(),
                        out@.len() == i,
                        forall|j: int| 0 <= j < i ==> out@[j]@ == list@[j]@,
                    decreases list@.len() - i,
                {
                    out.push(list[i].clone());
                    i += 1;
                }
                assert(views(out@) =~= views(list@));
            },
            None => {
                assert(views(out@) =~= Seq::<Seq<char>>::empty());
            },
        }
        out
    }
}

} // verus!
