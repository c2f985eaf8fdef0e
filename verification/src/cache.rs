//! The snapshot cache: full issue details remembered between two refreshes,
//! and for each issue the place it was listed from.

use vstd::prelude::*;
use crate::model::{clone_opt, opt_view, GatewayError, Issue, IssueView};
use crate::strmap::StrMap;

verus! {

/// Where an issue was listed from.
pub struct IssueSource {
    pub source_directory: String,
    pub db_path: Option<String>,
}

/// Mathematical value of an [`IssueSource`].
pub struct SourceView {
    pub source_directory: Seq<char>,
    pub db_path: Option<Seq<char>>,
}

impl View for IssueSource {
    type V = SourceView;

    open spec fn view(&self) -> SourceView {
        SourceView { source_directory: self.source_directory@, db_path: opt_view(self.db_path) }
    }
}

/// What a lookup in the cache asks of its caller.
#[derive(Debug, PartialEq, Eq)]
pub enum Lookup {
    /// The detail is remembered; no fetch is needed.
    Cached(Issue),
    /// The detail is not remembered: fetch it, at this location if one is given.
    Fetch { db_path: Option<String> },
}

/// How many gateway fetches a lookup of `id` takes when `cached` is remembered.
pub open spec fn fetches_needed(cached: Map<Seq<char>, IssueView>, id: Seq<char>) -> nat {
    if cached.contains_key(id) {
        0
    } else {
        1
    }
}

/// What is remembered after a fetch of `id` ended with `outcome`
/// (`None` for a failed fetch, which leaves nothing behind).
pub open spec fn after_fetch(
    cached: Map<Seq<char>, IssueView>,
    id: Seq<char>,
    outcome: Option<IssueView>,
) -> Map<Seq<char>, IssueView> {
    match outcome {
        Some(detail) => cached.insert(id, detail),
        None => cached,
    }
}

/// What is remembered after one complete lookup of `id`: a hit changes
/// nothing, a miss is followed by one fetch that ends with `outcome`.
pub open spec fn after_lookup(
    cached: Map<Seq<char>, IssueView>,
    id: Seq<char>,
    outcome: Option<IssueView>,
) -> Map<Seq<char>, IssueView> {
    if cached.contains_key(id) {
        cached
    } else {
        after_fetch(cached, id, outcome)
    }
}

/// The detail carried by the result of a fetch, if it succeeded.
pub open spec fn fetched_detail(fetched: Result<Issue, GatewayError>) -> Option<IssueView> {
    match fetched {
        Ok(issue) => Some(issue@),
        Err(_) => None,
    }
}

/// Two lookups of one issue in a row take at most one fetch between them,
/// provided the first fetch, if one was made, succeeded.
pub proof fn lemma_second_lookup_is_free(
    cached: Map<Seq<char>, IssueView>,
    id: Seq<char>,
    outcome: Option<IssueView>,
)
    requires
        cached.contains_key(id) || outcome is Some,
    ensures
        fetches_needed(cached, id) + fetches_needed(after_lookup(cached, id, outcome), id) <= 1,
        after_lookup(cached, id, outcome).contains_key(id),
{
}

/// The first lookup of any issue in an empty cache takes exactly one fetch,
/// whatever was remembered before the cache was emptied.
pub proof fn lemma_lookup_after_clear_fetches(id: Seq<char>)
    ensures
        fetches_needed(Map::<Seq<char>, IssueView>::empty(), id) == 1,
{
}

/// Memo of issue details for one snapshot.
pub struct SnapshotCache {
    get_issue_cache: StrMap<Issue>,
    issue_sources: StrMap<IssueSource>,
}

impl SnapshotCache {
    /// The internal maps are well formed.
    pub closed spec fn wf(&self) -> bool {
        self.get_issue_cache.wf() && self.issue_sources.wf()
    }

    /// The remembered details, by issue id.
    pub closed spec fn cached(&self) -> Map<Seq<char>, IssueView> {
        self.get_issue_cache@.map_values(|i: Issue| i@)
    }

    /// The registered sources, by issue id.
    pub closed spec fn sources(&self) -> Map<Seq<char>, SourceView> {
        self.issue_sources@.map_values(|s: IssueSource| s@)
    }

    /// The location at which `id` is to be fetched: the one registered for
    /// it, or none.
    pub open spec fn hint(&self, id: Seq<char>) -> Option<Seq<char>> {
        if self.sources().contains_key(id) {
            self.sources()[id].db_path
        } else {
            None
        }
    }

    /// An empty cache.
    pub fn new() -> (r: Self)
        ensures
            r.wf(),
            r.cached() == Map::<Seq<char>, IssueView>::empty(),
            r.sources() == Map::<Seq<char>, SourceView>::empty(),
    {
        let r = SnapshotCache { get_issue_cache: StrMap::new(), issue_sources: StrMap::new() };
        assert(r.cached() =~= Map::<Seq<char>, IssueView>::empty());
        assert(r.sources() =~= Map::<Seq<char>, SourceView>::empty());
        r
    }

    /// Forgets every detail and every source.
    pub fn clear(&mut self)
        ensures
            final(self).wf(),
            final(self).cached() == Map::<Seq<char>, IssueView>::empty(),
            final(self).sources() == Map::<Seq<char>, SourceView>::empty(),
            forall|id: Seq<char>| #[trigger] fetches_needed(final(self).cached(), id) == 1,
    {
        self.get_issue_cache.clear();
        self.issue_sources.clear();
        assert(self.cached() =~= Map::<Seq<char>, IssueView>::empty());
        assert(self.sources() =~= Map::<Seq<char>, SourceView>::empty());
    }

    /// Records where `issue_id` was listed from.
    pub fn register_issue_source(
        &mut self,
        issue_id: &str,
        source_directory: &str,
        db_path: Option<String>,
    )
        requires
            old(self).wf(),
        ensures
            final(self).wf(),
            final(self).cached() == old(self).cached(),
            final(self).sources() == old(self).sources().insert(
                issue_id@,
                SourceView { source_directory: source_directory@, db_path: opt_view(db_path) },
            ),
    {
        let source = IssueSource { source_directory: String::from_str(source_directory), db_path };
        self.issue_sources.insert(String::from_str(issue_id), source);
        assert(self.sources() =~= old(self).sources().insert(
            issue_id@,
            SourceView { source_directory: source_directory@, db_path: opt_view(db_path) },
        ));
    }

    /// The remembered detail of `id`, if there is one.
    pub fn peek(&self, id: &str) -> (r: Option<&Issue>)
        requires
            self.wf(),
        ensures
            r is Some == self.cached().contains_key(id@),
            r is Some ==> r->0@ == self.cached()[id@],
    {
        self.get_issue_cache.get(id)
    }

    /// Looks `id` up. A remembered detail is handed back as it is; otherwise
    /// the caller is told to fetch it, at the location registered for `id`.
    pub fn get_issue(&self, id: &str) -> (r: Lookup)
        requires
            self.wf(),
        ensures
            r is Fetch == (fetches_needed(self.cached(), id@) == 1),
            match r {
                Lookup::Cached(issue) => self.cached().contains_key(id@) && issue@
                    == self.cached()[id@],
                Lookup::Fetch { db_path } => opt_view(db_path) == self.hint(id@),
            },
    {
        match self.get_issue_cache.get(id) {
            Some(issue) => Lookup::Cached(issue.clone()),
            None => {
                let db_path = match self.issue_sources.get(id) {
                    Some(source) => clone_opt(&source.db_path),
                    None => None,
                };
                Lookup::Fetch { db_path }
            },
        }
    }

    /// Takes in the result of a fetch of `id`: a detail is remembered and
    /// handed back, a failure is handed back and leaves nothing behind.
    pub fn store_fetched(&mut self, id: &str, fetched: Result<Issue, GatewayError>) -> (r: Result<
        Issue,
        GatewayError,
    >)
        requires
            old(self).wf(),
        ensures
            final(self).wf(),
            final(self).sources() == old(self).sources(),
            final(self).cached() == after_fetch(old(self).cached(), id@, fetched_detail(fetched)),
            fetched is Ok ==> fetches_needed(final(self).cached(), id@) == 0,
            match fetched {
                Ok(issue) => r is Ok && r->Ok_0@ == issue@,
                Err(e) => r == fetched,
            },
    {
        match fetched {
            Ok(issue) => {
                let copy = issue.clone();
                self.get_issue_cache.insert(String::from_str(id), issue);
                assert(self.cached() =~= old(self).cached().insert(id@, issue@));
                Ok(copy)
            },
            Err(e) => Err(e),
        }
    }

    /// Forgets the detail of `id`, so that the next lookup fetches it again.
    pub fn forget(&mut self, id: &str)
        requires
            old(self).wf(),
        ensures
            final(self).wf(),
            final(self).sources() == old(self).sources(),
            final(self).cached() == old(self).cached().remove(id@),
    {
        self.get_issue_cache.remove(id);
        assert(self.cached() =~= old(self).cached().remove(id@));
    }
}

} // verus!
