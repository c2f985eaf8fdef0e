//! One aggregation session: the listed issues, the snapshot cache, the
//! dependents graph and the query settings, advanced step by step as the
//! issue store answers.

use vstd::prelude::*;
use crate::cache::{after_fetch, fetched_detail, Lookup, SnapshotCache, SourceView};
use crate::config::{base_name, base_name_of, AppConfig};
use crate::filter::ColumnFilters;
use crate::gateway::{directory_issues, listed, source_name_of, stamped_one, BdClient};
use crate::graph::{dependents_of, issue_ids, DependentsMap};
use crate::model::{
    directory_views,
    issue_views,
    opt_view,
    DirectoryConfig,
    DirectoryView,
    GatewayError,
    Issue,
    IssueView,
    SortColumn,
};
use crate::order::{
    column_cardinality,
    filter_menu_values,
    is_view_order,
    offers_menu,
    projected,
    strictly_increasing,
    view_order,
};
use crate::query::{
    blockers_count,
    column_value,
    display_row,
    get_column_value,
    known_blocker_statuses,
    row_of,
    row_views,
    IssueDisplay,
    RowView,
};
use crate::readiness::{open_count, readiness_for, readiness_of, Readiness};
use crate::save::{
    collect_failures,
    failure_lines,
    save_error_message,
    save_error_text,
    save_plan,
    update_plan,
    update_views,
    FieldUpdate,
    UpdateOutcome,
};
use crate::text::{lowercase, str_eq, str_to_lowercase, views};

verus! {

/// Where a session stands between two answers of the issue store.
#[derive(Clone, Copy, Debug, PartialEq, Eq, Structural)]
pub enum Phase {
    /// Nothing is awaited.
    Idle,
    /// The listing of the directory at `dir` is awaited.
    Listing { dir: usize },
    /// The detail of the issue at `issue` is awaited; `rebuild` says whether
    /// the dependents graph is rebuilt once no detail is missing.
    Loading { issue: usize, rebuild: bool },
}

/// What happened outside the session.
#[derive(Debug, PartialEq, Eq)]
pub enum Event {
    /// A refresh was requested.
    Refresh,
    /// The details that are still missing are to be fetched.
    Prefetch,
    /// The issue store answered the listing that was asked for.
    Listed(Result<Vec<Issue>, GatewayError>),
    /// The issue store answered the fetch that was asked for.
    Fetched(Result<Issue, GatewayError>),
    /// The updates of the edited issue were sent; these are their outcomes.
    Saved(Vec<UpdateOutcome>),
}

/// What the session asks its caller to do next.
#[derive(Debug, PartialEq, Eq)]
pub enum Action {
    /// List the issues stored under `path`, then report `Event::Listed`.
    List { path: String },
    /// Fetch the detail of `id`, at `db_path` if given, then report
    /// `Event::Fetched`.
    Fetch { id: String, db_path: Option<String> },
    /// Nothing more is to be done.
    Done,
}

/// Mathematical value of an [`Action`].
pub enum ActionView {
    List { path: Seq<char> },
    Fetch { id: Seq<char>, db_path: Option<Seq<char>> },
    Done,
}

impl View for Action {
    type V = ActionView;

    open spec fn view(&self) -> ActionView {
        match self {
            Action::List { path } => ActionView::List { path: path@ },
            Action::Fetch { id, db_path } => ActionView::Fetch {
                id: id@,
                db_path: opt_view(*db_path),
            },
            Action::Done => ActionView::Done,
        }
    }
}

/// The first visible directory at or after `from`; the number of
/// directories where there is none.
pub open spec fn first_visible(dirs: Seq<DirectoryView>, from: int) -> int
    decreases dirs.len() - from,
{
    if from < 0 || from >= dirs.len() {
        dirs.len() as int
    } else if dirs[from].visible {
        from
    } else {
        first_visible(dirs, from + 1)
    }
}

/// The first issue at or after `from` whose detail is not among
/// `details`; the number of issues where there is none.
pub open spec fn first_missing(
    ids: Seq<Seq<char>>,
    details: Map<Seq<char>, IssueView>,
    from: int,
) -> int
    decreases ids.len() - from,
{
    if from < 0 || from >= ids.len() {
        ids.len() as int
    } else if !details.contains_key(ids[from]) {
        from
    } else {
        first_missing(ids, details, from + 1)
    }
}

/// `first_visible` finds a visible directory and skips only hidden ones.
pub proof fn lemma_first_visible(dirs: Seq<DirectoryView>, from: int)
    requires
        0 <= from <= dirs.len(),
    ensures
        from <= first_visible(dirs, from) <= dirs.len(),
        first_visible(dirs, from) < dirs.len() ==> dirs[first_visible(dirs, from)].visible,
        forall|j: int| from <= j < first_visible(dirs, from) ==> !(#[trigger] dirs[j]).visible,
    decreases dirs.len() - from,
{
    if from < dirs.len() && !dirs[from].visible {
        lemma_first_visible(dirs, from + 1);
    }
}

/// No fetch is asked for a detail that is remembered: `first_missing`
/// finds an issue whose detail is missing and skips only issues whose
/// detail is known.
pub proof fn lemma_first_missing(
    ids: Seq<Seq<char>>,
    details: Map<Seq<char>, IssueView>,
    from: int,
)
    requires
        0 <= from <= ids.len(),
    ensures
        from <= first_missing(ids, details, from) <= ids.len(),
        first_missing(ids, details, from) < ids.len() ==> !details.contains_key(
            ids[first_missing(ids, details, from)],
        ),
        forall|j: int|
            from <= j < first_missing(ids, details, from) ==> details.contains_key(
                #[trigger] ids[j],
            ),
    decreases ids.len() - from,
{
    if from < ids.len() && details.contains_key(ids[from]) {
        lemma_first_missing(ids, details, from + 1);
    }
}

/// Whether the issues of `dir` carry the source directory of `issue`.
pub open spec fn source_matches(dir: DirectoryView, issue: IssueView) -> bool {
    dir.visible && (issue.source_directory == dir.display_name || (dir.display_name.len() == 0
        && issue.source_directory == base_name_of(dir.path)))
}

/// `sources` after every issue of `issues` that matches `dir` was
/// registered at the path of `dir`, in listing order.
pub open spec fn registered_in(
    sources: Map<Seq<char>, SourceView>,
    dir: DirectoryView,
    issues: Seq<IssueView>,
) -> Map<Seq<char>, SourceView>
    decreases issues.len(),
{
    if issues.len() == 0 {
        sources
    } else {
        let rest = registered_in(sources, dir, issues.drop_last());
        let issue = issues.last();
        if source_matches(dir, issue) {
            rest.insert(
                issue.id,
                SourceView { source_directory: issue.source_directory, db_path: Some(dir.path) },
            )
        } else {
            rest
        }
    }
}

/// `sources` after the issues were registered directory by directory, in
/// registration order; a later registration of an id replaces an earlier one.
pub open spec fn registered(
    sources: Map<Seq<char>, SourceView>,
    dirs: Seq<DirectoryView>,
    issues: Seq<IssueView>,
) -> Map<Seq<char>, SourceView>
    decreases dirs.len(),
{
    if dirs.len() == 0 {
        sources
    } else {
        registered_in(registered(sources, dirs.drop_last(), issues), dirs.last(), issues)
    }
}

proof fn lemma_registered_in_covers(
    sources: Map<Seq<char>, SourceView>,
    dir: DirectoryView,
    issues: Seq<IssueView>,
    k: int,
)
    requires
        0 <= k < issues.len(),
        source_matches(dir, issues[k]),
    ensures
        registered_in(sources, dir, issues).contains_key(issues[k].id),
    decreases issues.len(),
{
    if k < issues.len() - 1 {
        lemma_registered_in_covers(sources, dir, issues.drop_last(), k);
    }
}

proof fn lemma_registered_in_keeps(
    sources: Map<Seq<char>, SourceView>,
    dir: DirectoryView,
    issues: Seq<IssueView>,
    id: Seq<char>,
)
    requires
        sources.contains_key(id),
    ensures
        registered_in(sources, dir, issues).contains_key(id),
    decreases issues.len(),
{
    if issues.len() > 0 {
        lemma_registered_in_keeps(sources, dir, issues.drop_last(), id);
    }
}

/// After registration every issue that carries the name of some visible
/// directory has a registered source.
pub proof fn lemma_registered_covers(
    sources: Map<Seq<char>, SourceView>,
    dirs: Seq<DirectoryView>,
    issues: Seq<IssueView>,
    d: int,
    k: int,
)
    requires
        0 <= d < dirs.len(),
        0 <= k < issues.len(),
        source_matches(dirs[d], issues[k]),
    ensures
        registered(sources, dirs, issues).contains_key(issues[k].id),
    decreases dirs.len(),
{
    let before = registered(sources, dirs.drop_last(), issues);
    if d == dirs.len() - 1 {
        lemma_registered_in_covers(before, dirs.last(), issues, k);
    } else {
        lemma_registered_covers(sources, dirs.drop_last(), issues, d, k);
        lemma_registered_in_keeps(before, dirs.last(), issues, issues[k].id);
    }
}

/// An issue listed from a visible directory carries that directory's name.
pub proof fn lemma_listed_issue_matches(dir: DirectoryView, issue: IssueView)
    requires
        dir.visible,
    ensures
        source_matches(dir, stamped_one(issue, source_name_of(dir))),
{
}

/// The first visible directory at or after `from`.
pub fn next_visible(directories: &Vec<DirectoryConfig>, from: usize) -> (r: usize)
    ensures
        r == first_visible(directory_views(directories@), from as int),
        from <= r || r == directories@.len(),
        r <= directories@.len(),
{
    let ghost dirs = directory_views(directories@);
    let mut d: usize = from;
    while d < directories.len() && !directories[d].visible
        invariant
            from <= d,
            dirs == directory_views(directories@),
            first_visible(dirs, d as int) == first_visible(dirs, from as int),
        decreases directories@.len() - d,
    {
        assert(dirs[d as int] == directories@[d as int]@);
        d += 1;
    }
    if d < directories.len() {
        assert(dirs[d as int] == directories@[d as int]@);
        d
    } else {
        directories.len()
    }
}

/// The state of one aggregation session.
pub struct Session {
    /// The issues of the last refresh, in aggregation order.
    pub issues: Vec<Issue>,
    /// The position of the selected issue in `issues`, if one is selected.
    pub selected_index: Option<usize>,
    /// The free-text search.
    pub filter_text: String,
    /// The last failure to be shown, if any.
    pub error_message: Option<String>,
    /// The column by which the view is sorted.
    pub sort_by: SortColumn,
    /// Whether the view is sorted upwards.
    pub sort_ascending: bool,
    /// The issue that is shown in detail and may be edited.
    pub current_issue: Option<Issue>,
    /// Whether `current_issue` holds edits that were not saved.
    pub edit_modified: bool,
    /// The directory registry.
    pub config: AppConfig,
    /// The exclusion filter of each column.
    pub column_filters: ColumnFilters,
    /// For each issue, the issues that depend on it.
    pub dependents_map: DependentsMap,
    /// The details remembered since the last refresh.
    pub snapshot_cache: SnapshotCache,
    /// What the session waits for.
    pub phase: Phase,
}

impl Session {
    /// The internal structures are well formed.
    pub open spec fn wf(&self) -> bool {
        self.column_filters.wf() && self.dependents_map.wf() && self.snapshot_cache.wf()
    }

    /// The column filters.
    pub open spec fn filters(&self) -> ColumnFilters {
        self.column_filters
    }

    /// The dependents graph.
    pub open spec fn graph(&self) -> DependentsMap {
        self.dependents_map
    }

    /// The snapshot cache.
    pub open spec fn cache(&self) -> SnapshotCache {
        self.snapshot_cache
    }

    /// The phase of the session.
    pub open spec fn phase(&self) -> Phase {
        self.phase
    }

    /// The values of the registered directories.
    pub open spec fn dirs(&self) -> Seq<DirectoryView> {
        directory_views(self.config.directories@)
    }

    /// The ids of the listed issues.
    pub open spec fn ids(&self) -> Seq<Seq<char>> {
        issue_ids(issue_views(self.issues@))
    }

    /// Whether `self` has the selection, search, sort, filters, edit state
    /// and registry of `other`.
    pub open spec fn keeps_settings(&self, other: Session) -> bool {
        &&& self.selected_index == other.selected_index
        &&& self.filter_text == other.filter_text
        &&& self.sort_by == other.sort_by
        &&& self.sort_ascending == other.sort_ascending
        &&& self.current_issue == other.current_issue
        &&& self.edit_modified == other.edit_modified
        &&& self.config == other.config
        &&& self.filters() == other.filters()
    }

    /// What loading from position `from` leads to, `self` being the state
    /// it leaves: while a detail is missing at or after `from`, the fetch
    /// of the first such issue is asked for, at the location registered
    /// for it; once none is missing the session is idle, and, where
    /// `rebuild` holds, the dependents graph is the reverse of the known
    /// dependencies and no failure is shown.
    pub open spec fn loading_result(
        &self,
        from: int,
        rebuild: bool,
        old_graph: DependentsMap,
        old_error: Option<String>,
        action: Action,
    ) -> bool {
        let ids = self.ids();
        let details = self.cache().cached();
        let next = first_missing(ids, details, from);
        if next < ids.len() {
            &&& self.phase() == (Phase::Loading { issue: next as usize, rebuild })
            &&& action@ == (ActionView::Fetch { id: ids[next], db_path: self.cache().hint(ids[next]) })
            &&& self.graph() == old_graph
            &&& self.error_message == old_error
        } else {
            &&& self.phase() == Phase::Idle
            &&& action@ == ActionView::Done
            &&& if rebuild {
                &&& forall|id: Seq<char>| #[trigger]
                    self.graph().dependents(id) == dependents_of(ids, details, id)
                &&& self.error_message is None
            } else {
                &&& self.graph() == old_graph
                &&& self.error_message == old_error
            }
        }
    }

    /// What listing from directory `from` leads to, `self` being the state
    /// it leaves: while a visible directory stands at or after `from`, its
    /// listing is asked for; after the last one every issue is registered
    /// at its directory and loading starts at the first issue.
    pub open spec fn listing_result(
        &self,
        from: int,
        old_cached: Map<Seq<char>, IssueView>,
        old_sources: Map<Seq<char>, SourceView>,
        old_graph: DependentsMap,
        old_error: Option<String>,
        action: Action,
    ) -> bool {
        let dirs = self.dirs();
        let d = first_visible(dirs, from);
        &&& self.cache().cached() == old_cached
        &&& if d < dirs.len() {
            &&& self.phase() == (Phase::Listing { dir: d as usize })
            &&& action@ == (ActionView::List { path: dirs[d].path })
            &&& self.cache().sources() == old_sources
            &&& self.graph() == old_graph
            &&& self.error_message == old_error
        } else {
            &&& self.cache().sources() == registered(old_sources, dirs, issue_views(self.issues@))
            &&& self.loading_result(0, true, old_graph, old_error, action)
        }
    }

    /// A session over `config` that has listed nothing yet: sorted by
    /// priority upwards, closed issues hidden.
    pub fn new(config: AppConfig) -> (r: Self)
        ensures
            r.wf(),
            r.config == config,
            r.issues@.len() == 0,
            r.selected_index is None,
            r.filter_text@.len() == 0,
            r.error_message is None,
            r.sort_by == SortColumn::Priority,
            r.sort_ascending,
            r.current_issue is None,
            !r.edit_modified,
            r.phase() == Phase::Idle,
            r.cache().cached() == Map::<Seq<char>, IssueView>::empty(),
            r.cache().sources() == Map::<Seq<char>, SourceView>::empty(),
            forall|id: Seq<char>| #[trigger] r.graph().dependents(id) == Seq::<Seq<char>>::empty(),
            r.filters().excluded(SortColumn::Status) == set!["closed"@],
            forall|c: SortColumn|
                c != SortColumn::Status ==> #[trigger] r.filters().excluded(c) == Set::<
                    Seq<char>,
                >::empty(),
    {
        Session {
            issues: Vec::new(),
            selected_index: None,
            filter_text: String::new(),
            error_message: None,
            sort_by: SortColumn::Priority,
            sort_ascending: true,
            current_issue: None,
            edit_modified: false,
            config,
            column_filters: ColumnFilters::initial(),
            dependents_map: DependentsMap::new(),
            snapshot_cache: SnapshotCache::new(),
            phase: Phase::Idle,
        }
    }

    /// The position of the first issue at or after `from` whose detail is
    /// not remembered.
    pub fn next_missing(&self, from: usize) -> (r: usize)
        requires
            self.wf(),
        ensures
            r == first_missing(self.ids(), self.cache().cached(), from as int),
            r <= self.issues@.len(),
            r < self.issues@.len() ==> from <= r && !self.cache().cached().contains_key(
                self.ids()[r as int],
            ),
    {
        let ghost ids = self.ids();
        let ghost details = self.cache().cached();
        let mut k: usize = from;
        while k < self.issues.len()
            invariant
                self.wf(),
                from <= k,
                ids == self.ids(),
                details == self.cache().cached(),
                first_missing(ids, details, k as int) == first_missing(ids, details, from as int),
            decreases self.issues@.len() - k,
        {
            assert(ids[k as int] == self.issues@[k as int].id@);
            if self.snapshot_cache.peek(self.issues[k].id.as_str()).is_none() {
                return k;
            }
            k += 1;
        }
        self.issues.len()
    }

    /// Rebuilds the dependents graph from the details that are remembered.
    pub fn compute_dependents_map(&mut self)
        requires
            old(self).wf(),
        ensures
            final(self).wf(),
            final(self).keeps_settings(*old(self)),
            final(self).issues == old(self).issues,
            final(self).cache() == old(self).cache(),
            final(self).phase() == old(self).phase(),
            final(self).error_message == old(self).error_message,
            forall|id: Seq<char>| #[trigger]
                final(self).graph().dependents(id) == dependents_of(
                    old(self).ids(),
                    old(self).cache().cached(),
                    id,
                ),
    {
        self.dependents_map = DependentsMap::build(&self.issues, &self.snapshot_cache);
    }

    fn start_loading(&mut self, from: usize, rebuild: bool) -> (action: Action)
        requires
            old(self).wf(),
        ensures
            final(self).wf(),
            final(self).keeps_settings(*old(self)),
            final(self).issues == old(self).issues,
            final(self).cache() == old(self).cache(),
            final(self).loading_result(
                from as int,
                rebuild,
                old(self).graph(),
                old(self).error_message,
                action,
            ),
    {
        let next = self.next_missing(from);
        if next < self.issues.len() {
            assert(self.ids()[next as int] == self.issues@[next as int].id@);
            let id = self.issues[next].id.clone();
            let db_path = match self.snapshot_cache.get_issue(id.as_str()) {
                Lookup::Cached(_) => None,
                Lookup::Fetch { db_path } => db_path,
            };
            self.phase = Phase::Loading { issue: next, rebuild };
            Action::Fetch { id, db_path }
        } else {
            if rebuild {
                self.compute_dependents_map();
                let ghost built = self.graph();
                self.error_message = None;
                self.phase = Phase::Idle;
                proof {
                    assert(self.graph() == built);
                    assert forall|id: Seq<char>| #[trigger]
                        self.graph().dependents(id) == dependents_of(
                            self.ids(),
                            self.cache().cached(),
                            id,
                        ) by {
                        assert(built.dependents(id) == dependents_of(
                            old(self).ids(),
                            old(self).cache().cached(),
                            id,
                        ));
                    }
                }
            } else {
                self.phase = Phase::Idle;
            }
            Action::Done
        }
    }

    /// Registers, for every visible directory, each listed issue that
    /// carries the directory's name at the directory's path.
    pub fn register_sources(&mut self)
        requires
            old(self).wf(),
        ensures
            final(self).wf(),
            final(self).keeps_settings(*old(self)),
            final(self).issues == old(self).issues,
            final(self).phase() == old(self).phase(),
            final(self).graph() == old(self).graph(),
            final(self).error_message == old(self).error_message,
            final(self).cache().cached() == old(self).cache().cached(),
            final(self).cache().sources() == registered(
                old(self).cache().sources(),
                old(self).dirs(),
                issue_views(old(self).issues@),
            ),
    {
        let ghost dirs = self.dirs();
        let ghost issues = issue_views(self.issues@);
        let ghost start = self.cache().sources();
        let mut d: usize = 0;
        while d < self.config.directories.len()
            invariant
                self.wf(),
                d <= self.config.directories@.len(),
                self.keeps_settings(*old(self)),
                self.issues == old(self).issues,
                self.phase() == old(self).phase(),
                self.graph() == old(self).graph(),
                self.error_message == old(self).error_message,
                self.cache().cached() == old(self).cache().cached(),
                dirs == self.dirs(),
                issues == issue_views(self.issues@),
                self.cache().sources() == registered(start, dirs.take(d as int), issues),
            decreases self.config.directories@.len() - d,
        {
            let ghost dir = dirs[d as int];
            let ghost base = self.cache().sources();
            proof {
                assert(dirs.take(d + 1).drop_last() =~= dirs.take(d as int));
                assert(dirs.take(d + 1).last() == dir);
                assert(dir == self.config.directories@[d as int]@);
            }
            if self.config.directories[d].visible {
                let unnamed = self.config.directories[d].display_name.as_str().is_empty();
                let base_text = base_name(self.config.directories[d].path.as_str());
                let mut k: usize = 0;
                while k < self.issues.len()
                    invariant
                        self.wf(),
                        d < self.config.directories@.len(),
                        k <= self.issues@.len(),
                        self.keeps_settings(*old(self)),
                        self.issues == old(self).issues,
                        self.phase() == old(self).phase(),
                        self.graph() == old(self).graph(),
                        self.error_message == old(self).error_message,
                        self.cache().cached() == old(self).cache().cached(),
                        dirs == self.dirs(),
                        issues == issue_views(self.issues@),
                        dir == self.config.directories@[d as int]@,
                        dir.visible,
                        unnamed == (dir.display_name.len() == 0),
                        base_text@ == base_name_of(dir.path),
                        self.cache().sources() == registered_in(base, dir, issues.take(k as int)),
                    decreases self.issues@.len() - k,
                {
                    proof {
                        assert(issues.take(k + 1).drop_last() =~= issues.take(k as int));
                        assert(issues.take(k + 1).last() == self.issues@[k as int]@);
                    }
                    let source = self.issues[k].source_directory.as_str();
                    let named = str_eq(source, self.config.directories[d].display_name.as_str());
                    if named || (unnamed && str_eq(source, base_text.as_str())) {
                        let path = self.config.directories[d].path.clone();
                        self.snapshot_cache.register_issue_source(
                            self.issues[k].id.as_str(),
                            self.issues[k].source_directory.as_str(),
                            Some(path),
                        );
                    }
                    k += 1;
                }
                assert(issues.take(self.issues@.len() as int) =~= issues);
            } else {
                proof {
                    lemma_registered_in_hidden(base, dir, issues);
                }
            }
            d += 1;
        }
        assert(dirs.take(self.config.directories@.len() as int) =~= dirs);
    }

    fn continue_listing(&mut self, from: usize) -> (action: Action)
        requires
            old(self).wf(),
        ensures
            final(self).wf(),
            final(self).keeps_settings(*old(self)),
            final(self).issues == old(self).issues,
            final(self).listing_result(
                from as int,
                old(self).cache().cached(),
                old(self).cache().sources(),
                old(self).graph(),
                old(self).error_message,
                action,
            ),
    {
        let d = next_visible(&self.config.directories, from);
        if d < self.config.directories.len() {
            assert(self.dirs()[d as int] == self.config.directories@[d as int]@);
            let path = self.config.directories[d].path.clone();
            self.phase = Phase::Listing { dir: d };
            Action::List { path }
        } else {
            self.register_sources();
            self.start_loading(0, true)
        }
    }

    /// Starts a refresh: every remembered detail and source is dropped,
    /// the list of issues is emptied, and the first visible directory is
    /// asked for its listing.
    pub fn begin_refresh(&mut self) -> (action: Action)
        requires
            old(self).wf(),
        ensures
            final(self).wf(),
            refresh_begun(*old(self), *final(self), action),
    {
        self.snapshot_cache.clear();
        self.issues = Vec::new();
        self.continue_listing(0)
    }

    /// Takes in the listing that was asked for. The issues of a visible
    /// directory are added under its source name, a failed listing adds
    /// nothing; then the next directory is asked for, or loading starts.
    /// Outside the listing phase nothing changes.
    pub fn on_listed(&mut self, listing: Result<Vec<Issue>, GatewayError>) -> (action: Action)
        requires
            old(self).wf(),
        ensures
            final(self).wf(),
            listing_taken(*old(self), *final(self), listing, action),
    {
        match self.phase {
            Phase::Listing { dir } => {
                if dir < self.config.directories.len() {
                    let ghost before = issue_views(self.issues@);
                    assert(self.dirs()[dir as int] == self.config.directories@[dir as int]@);
                    if self.config.directories[dir].visible {
                        match listing {
                            Ok(issues) => {
                                let name = BdClient::source_name(&self.config.directories[dir]);
                                let mut found = BdClient::stamp_source(&issues, name.as_str());
                                let ghost added = issue_views(found@);
                                self.issues.append(&mut found);
                                assert(issue_views(self.issues@) =~= before + added);
                            },
                            Err(_) => {
                                assert(before + Seq::<IssueView>::empty() =~= before);
                            },
                        }
                    } else {
                        assert(before + Seq::<IssueView>::empty() =~= before);
                    }
                    self.continue_listing(dir + 1)
                } else {
                    Action::Done
                }
            },
            _ => Action::Done,
        }
    }

    /// Takes in the detail that was asked for. A detail is remembered, a
    /// failure leaves nothing behind; then the next missing detail is
    /// asked for, or loading ends. Outside the loading phase nothing
    /// changes.
    pub fn on_fetched(&mut self, fetched: Result<Issue, GatewayError>) -> (action: Action)
        requires
            old(self).wf(),
        ensures
            final(self).wf(),
            fetch_taken(*old(self), *final(self), fetched, action),
    {
        match self.phase {
            Phase::Loading { issue, rebuild } => {
                if issue < self.issues.len() {
                    assert(self.ids()[issue as int] == self.issues@[issue as int].id@);
                    let _ = self.snapshot_cache.store_fetched(
                        self.issues[issue].id.as_str(),
                        fetched,
                    );
                    self.start_loading(issue + 1, rebuild)
                } else {
                    Action::Done
                }
            },
            _ => Action::Done,
        }
    }

    /// Asks for the details that are still missing, without dropping
    /// anything and without rebuilding the dependents graph. Outside the
    /// idle phase nothing changes.
    pub fn begin_prefetch(&mut self) -> (action: Action)
        requires
            old(self).wf(),
        ensures
            final(self).wf(),
            prefetch_begun(*old(self), *final(self), action),
    {
        match self.phase {
            Phase::Idle => self.start_loading(0, false),
            _ => Action::Done,
        }
    }
}

/// What starting a refresh in `pre` leads to: the settings stay, nothing is
/// listed or remembered any more, and listing starts at the first directory.
pub open spec fn refresh_begun(pre: Session, post: Session, action: Action) -> bool {
    &&& post.keeps_settings(pre)
    &&& post.issues@.len() == 0
    &&& post.listing_result(
        0,
        Map::<Seq<char>, IssueView>::empty(),
        Map::<Seq<char>, SourceView>::empty(),
        pre.graph(),
        pre.error_message,
        action,
    )
}

/// What taking in `listing` in `pre` leads to: in the listing phase the
/// issues of the awaited directory are added and listing goes on behind
/// it; in any other phase nothing changes.
pub open spec fn listing_taken(
    pre: Session,
    post: Session,
    listing: Result<Vec<Issue>, GatewayError>,
    action: Action,
) -> bool {
    match pre.phase() {
        Phase::Listing { dir } if dir < pre.dirs().len() => {
            &&& post.keeps_settings(pre)
            &&& issue_views(post.issues@) == issue_views(pre.issues@) + directory_issues(
                pre.dirs()[dir as int],
                listed(listing),
            )
            &&& post.listing_result(
                dir + 1,
                pre.cache().cached(),
                pre.cache().sources(),
                pre.graph(),
                pre.error_message,
                action,
            )
        },
        _ => post == pre && action@ == ActionView::Done,
    }
}

/// What taking in `fetched` in `pre` leads to: in the loading phase the
/// awaited detail is remembered, if there is one, and loading goes on
/// behind it; in any other phase nothing changes.
pub open spec fn fetch_taken(
    pre: Session,
    post: Session,
    fetched: Result<Issue, GatewayError>,
    action: Action,
) -> bool {
    match pre.phase() {
        Phase::Loading { issue, rebuild } if issue < pre.issues@.len() => {
            &&& post.keeps_settings(pre)
            &&& post.issues == pre.issues
            &&& post.cache().cached() == after_fetch(
                pre.cache().cached(),
                pre.ids()[issue as int],
                fetched_detail(fetched),
            )
            &&& post.cache().sources() == pre.cache().sources()
            &&& post.loading_result(issue + 1, rebuild, pre.graph(), pre.error_message, action)
        },
        _ => post == pre && action@ == ActionView::Done,
    }
}

/// What asking for the missing details in `pre` leads to: in the idle phase
/// loading starts at the first issue, nothing being dropped; in any other
/// phase nothing changes.
pub open spec fn prefetch_begun(pre: Session, post: Session, action: Action) -> bool {
    match pre.phase() {
        Phase::Idle => {
            &&& post.keeps_settings(pre)
            &&& post.issues == pre.issues
            &&& post.cache() == pre.cache()
            &&& post.loading_result(0, false, pre.graph(), pre.error_message, action)
        },
        _ => post == pre && action@ == ActionView::Done,
    }
}

/// A hidden directory registers nothing.
pub proof fn lemma_registered_in_hidden(
    sources: Map<Seq<char>, SourceView>,
    dir: DirectoryView,
    issues: Seq<IssueView>,
)
    requires
        !dir.visible,
    ensures
        registered_in(sources, dir, issues) == sources,
    decreases issues.len(),
{
    if issues.len() > 0 {
        lemma_registered_in_hidden(sources, dir, issues.drop_last());
    }
}

/// The listing positions of a sequence of rows.
pub open spec fn positions(rows: Seq<IssueDisplay>) -> Seq<usize> {
    rows.map_values(|r: IssueDisplay| r.original_idx)
}

/// What the click on the header of `column` leads to: the direction flips
/// where the view is sorted by `column` already, else the view is sorted
/// by `column` upwards.
pub open spec fn sort_clicked(pre: Session, column: SortColumn) -> Session {
    if pre.sort_by == column {
        Session { sort_ascending: !pre.sort_ascending, ..pre }
    } else {
        Session { sort_by: column, sort_ascending: true, ..pre }
    }
}

/// The selection after one step down a list of `len` issues.
pub open spec fn stepped_down(selected: Option<usize>, len: nat) -> Option<usize> {
    match selected {
        Some(idx) => if idx + 1 < len {
            Some((idx + 1) as usize)
        } else {
            selected
        },
        None => if len > 0 {
            Some(0usize)
        } else {
            None
        },
    }
}

/// The selection after one step up.
pub open spec fn stepped_up(selected: Option<usize>) -> Option<usize> {
    match selected {
        Some(idx) => if idx > 0 {
            Some((idx - 1) as usize)
        } else {
            selected
        },
        None => None,
    }
}

/// What taking in the outcomes of a save leads to. With no failure the
/// edit is dropped, no failure is shown and a refresh begins. With a
/// failure nothing changes but the failure shown, which names every failed
/// field: the edit stays, and no refresh begins.
pub open spec fn save_taken(
    pre: Session,
    post: Session,
    outcomes: Seq<UpdateOutcome>,
    action: Action,
) -> bool {
    let lines = failure_lines(outcomes);
    if lines.len() == 0 {
        refresh_begun(
            Session { error_message: None, edit_modified: false, current_issue: None, ..pre },
            post,
            action,
        )
    } else {
        &&& post == (Session { error_message: post.error_message, ..pre })
        &&& post.error_message is Some
        &&& post.error_message->0@ == save_error_text(lines)
        &&& action@ == ActionView::Done
    }
}

/// What `event` leads to in `pre`.
pub open spec fn stepped(pre: Session, post: Session, event: Event, action: Action) -> bool {
    match event {
        Event::Refresh => refresh_begun(pre, post, action),
        Event::Prefetch => prefetch_begun(pre, post, action),
        Event::Listed(listing) => listing_taken(pre, post, listing, action),
        Event::Fetched(fetched) => fetch_taken(pre, post, fetched, action),
        Event::Saved(outcomes) => save_taken(pre, post, outcomes@, action),
    }
}

impl Session {
    /// The row of every listed issue, in listing order.
    pub open spec fn rows(&self) -> Seq<RowView> {
        Seq::new(
            self.issues@.len(),
            |i: int| row_of(self.issues@[i]@, i, self.cache().cached(), self.graph()),
        )
    }

    /// Advances the session by one event and says what to do next.
    pub fn step(&mut self, event: Event) -> (action: Action)
        requires
            old(self).wf(),
        ensures
            final(self).wf(),
            stepped(*old(self), *final(self), event, action),
    {
        match event {
            Event::Refresh => self.begin_refresh(),
            Event::Prefetch => self.begin_prefetch(),
            Event::Listed(listing) => self.on_listed(listing),
            Event::Fetched(fetched) => self.on_fetched(fetched),
            Event::Saved(outcomes) => self.save_issue_changes(&outcomes),
        }
    }

    /// Looks `id` up in the snapshot cache.
    pub fn lookup(&self, id: &str) -> (r: Lookup)
        requires
            self.wf(),
        ensures
            r is Fetch == !self.cache().cached().contains_key(id@),
            match r {
                Lookup::Cached(issue) => issue@ == self.cache().cached()[id@],
                Lookup::Fetch { db_path } => opt_view(db_path) == self.cache().hint(id@),
            },
    {
        self.snapshot_cache.get_issue(id)
    }

    /// The number of blockers of `issue_id` that are not closed, as far as
    /// its detail is remembered.
    pub fn get_blockers_count(&self, issue_id: &str) -> (r: usize)
        requires
            self.wf(),
        ensures
            r == open_count(known_blocker_statuses(self.cache().cached(), issue_id@)),
    {
        blockers_count(&self.snapshot_cache, issue_id)
    }

    /// The number of issues that depend on `issue_id`.
    pub fn get_dependents_count(&self, issue_id: &str) -> (r: usize)
        requires
            self.wf(),
        ensures
            r == self.graph().dependents(issue_id@).len(),
    {
        self.dependents_map.count(issue_id)
    }

    /// The readiness of `issue`.
    pub fn get_readiness(&self, issue: &Issue) -> (r: Readiness)
        requires
            self.wf(),
        ensures
            r == readiness_of(
                issue@.status,
                known_blocker_statuses(self.cache().cached(), issue@.id),
            ),
    {
        let blockers = self.get_blockers_count(issue.id.as_str());
        readiness_for(issue.status.as_str(), blockers)
    }

    /// The text shown for `issue` in `column`.
    pub fn get_column_value(&self, issue: &Issue, column: SortColumn) -> (r: String)
        requires
            self.wf(),
        ensures
            r@ == column_value(row_of(issue@, 0, self.cache().cached(), self.graph()), column),
    {
        let row = display_row(issue, 0, &self.snapshot_cache, &self.dependents_map);
        get_column_value(&row, column)
    }

    /// The row of every listed issue, in listing order.
    pub fn display_rows(&self) -> (r: Vec<IssueDisplay>)
        requires
            self.wf(),
        ensures
            row_views(r@) == self.rows(),
            forall|i: int| 0 <= i < r@.len() ==> (#[trigger] r@[i]).original_idx == i,
    {
        let mut out: Vec<IssueDisplay> = Vec::new();
        let mut i: usize = 0;
        while i < self.issues.len()
            invariant
                self.wf(),
                i <= self.issues@.len(),
                out@.len() == i,
                forall|j: int| 0 <= j < i ==> (#[trigger] out@[j])@ == self.rows()[j],
            decreases self.issues@.len() - i,
        {
            out.push(display_row(&self.issues[i], i, &self.snapshot_cache, &self.dependents_map));
            i += 1;
        }
        assert(row_views(out@) =~= self.rows());
        out
    }

    /// The number of distinct texts shown in `column`.
    pub fn get_column_cardinality(&self, column: SortColumn) -> (r: usize)
        requires
            self.wf(),
        ensures
            projected(self.rows(), column).to_set().finite(),
            r == projected(self.rows(), column).to_set().len(),
    {
        let rows = self.display_rows();
        column_cardinality(&rows, column)
    }

    /// The values offered in the filter menu of `column`: none where the
    /// column offers no menu, else its distinct values in lexical order.
    pub fn filter_menu(&self, column: SortColumn) -> (r: Option<Vec<String>>)
        requires
            self.wf(),
        ensures
            r is Some == offers_menu(column, projected(self.rows(), column).to_set().len()),
            r is Some ==> strictly_increasing(views(r->0@)) && views(r->0@).to_set() == projected(
                self.rows(),
                column,
            ).to_set(),
    {
        let rows = self.display_rows();
        filter_menu_values(&rows, column)
    }

    /// The view: the rows that pass the free-text search and the column
    /// filters, sorted by the sort column in the sort direction, rows with
    /// equal keys in listing order.
    pub fn filtered_and_sorted_issues(&self) -> (out: Vec<IssueDisplay>)
        requires
            self.wf(),
        ensures
            is_view_order(
                self.rows(),
                positions(out@),
                lowercase(self.filter_text@),
                self.filters(),
                self.sort_by,
                self.sort_ascending,
            ),
            forall|k: int|
                0 <= k < out@.len() ==> (#[trigger] out@[k])@ == self.rows()[out@[k].original_idx as int],
    {
        let needle = str_to_lowercase(self.filter_text.as_str());
        let rows = self.display_rows();
        let order = view_order(
            &rows,
            needle.as_str(),
            &self.column_filters,
            self.sort_by,
            self.sort_ascending,
        );
        let mut out: Vec<IssueDisplay> = Vec::new();
        let mut k: usize = 0;
        while k < order.len()
            invariant
                k <= order@.len(),
                out@.len() == k,
                row_views(rows@) == self.rows(),
                forall|i: int| 0 <= i < rows@.len() ==> (#[trigger] rows@[i]).original_idx == i,
                forall|j: int| 0 <= j < order@.len() ==> (#[trigger] order@[j]) < rows@.len(),
                forall|j: int|
                    0 <= j < k ==> (#[trigger] out@[j])@ == rows@[order@[j] as int]@
                        && out@[j].original_idx == order@[j],
            decreases order@.len() - k,
        {
            let row = rows[order[k]].clone();
            assert(row.original_idx as int == row@.original_idx);
            out.push(row);
            k += 1;
        }
        proof {
            assert(positions(out@) =~= order@);
            assert forall|j: int| 0 <= j < out@.len() implies (#[trigger] out@[j])@
                == self.rows()[out@[j].original_idx as int] by {
                assert(row_views(rows@)[order@[j] as int] == rows@[order@[j] as int]@);
            }
        }
        out
    }

    /// Takes the click on the header of `column`.
    pub fn sort_by_column(&mut self, column: SortColumn)
        ensures
            *final(self) == sort_clicked(*old(self), column),
    {
        if self.sort_by == column {
            self.sort_ascending = !self.sort_ascending;
        } else {
            self.sort_by = column;
            self.sort_ascending = true;
        }
    }

    /// Flips whether `column` hides `value`.
    pub fn toggle_filter(&mut self, column: SortColumn, value: String)
        requires
            old(self).wf(),
        ensures
            final(self).wf(),
            *final(self) == (Session { column_filters: final(self).column_filters, ..*old(self) }),
            final(self).filters().excluded(column) == if old(self).filters().excluded(
                column,
            ).contains(value@) {
                old(self).filters().excluded(column).remove(value@)
            } else {
                old(self).filters().excluded(column).insert(value@)
            },
            forall|c: SortColumn|
                c != column ==> #[trigger] final(self).filters().excluded(c) == old(
                    self,
                ).filters().excluded(c),
    {
        self.column_filters.toggle_exclude(column, value);
    }

    /// Replaces the free-text search.
    pub fn set_filter_text(&mut self, text: String)
        ensures
            *final(self) == (Session { filter_text: text, ..*old(self) }),
    {
        self.filter_text = text;
    }

    /// Selects the issue at `selected`, or none.
    pub fn select(&mut self, selected: Option<usize>)
        ensures
            *final(self) == (Session { selected_index: selected, ..*old(self) }),
    {
        self.selected_index = selected;
    }

    /// Moves the selection one issue down: to the first issue where none is
    /// selected, and not beyond the last.
    pub fn select_next(&mut self)
        ensures
            *final(self) == (Session {
                selected_index: stepped_down(old(self).selected_index, old(self).issues@.len()),
                ..*old(self)
            }),
    {
        let len = self.issues.len();
        let next = match self.selected_index {
            Some(idx) => {
                if idx < usize::MAX && idx + 1 < len {
                    Some(idx + 1)
                } else {
                    Some(idx)
                }
            },
            None => {
                if len > 0 {
                    Some(0)
                } else {
                    None
                }
            },
        };
        assert(next == stepped_down(old(self).selected_index, old(self).issues@.len()));
        self.selected_index = next;
    }

    /// Moves the selection one issue up, and not beyond the first.
    pub fn select_previous(&mut self)
        ensures
            *final(self) == (Session {
                selected_index: stepped_up(old(self).selected_index),
                ..*old(self)
            }),
    {
        match self.selected_index {
            Some(idx) => {
                if idx > 0 {
                    self.selected_index = Some(idx - 1);
                }
            },
            None => {},
        }
    }

    /// The position of the first listed issue with the id `id`.
    pub fn find_issue(&self, id: &str) -> (r: Option<usize>)
        ensures
            match r {
                Some(k) => k < self.ids().len() && self.ids()[k as int] == id@ && forall|j: int|
                    0 <= j < k ==> self.ids()[j] != id@,
                None => !self.ids().contains(id@),
            },
    {
        let mut k: usize = 0;
        while k < self.issues.len()
            invariant
                k <= self.issues@.len(),
                forall|j: int| 0 <= j < k ==> self.ids()[j] != id@,
            decreases self.issues@.len() - k,
        {
            assert(self.ids()[k as int] == self.issues@[k as int].id@);
            if str_eq(self.issues[k].id.as_str(), id) {
                return Some(k);
            }
            k += 1;
        }
        None
    }

    /// Whether the detail of `issue_id` has to be loaded before it can be
    /// shown: no issue is shown in detail, or another one.
    pub fn needs_detail(&self, issue_id: &str) -> (r: bool)
        ensures
            r == match self.current_issue {
                Some(issue) => issue.id@ != issue_id@,
                None => true,
            },
    {
        match &self.current_issue {
            Some(issue) => !str_eq(issue.id.as_str(), issue_id),
            None => true,
        }
    }

    /// Takes in the detail that was looked up for the detail view: a detail
    /// is shown, unedited, and no failure; a failure is shown, and no detail.
    pub fn show_detail(&mut self, loaded: Result<Issue, GatewayError>)
        ensures
            match loaded {
                Ok(issue) => *final(self) == (Session {
                    current_issue: Some(issue),
                    edit_modified: false,
                    error_message: None,
                    ..*old(self)
                }),
                Err(e) => {
                    &&& *final(self) == (Session {
                        current_issue: None,
                        error_message: final(self).error_message,
                        ..*old(self)
                    })
                    &&& final(self).error_message is Some
                    &&& final(self).error_message->0@ == "Error loading issue: "@
                        + e.message_text()
                },
            },
    {
        match loaded {
            Ok(issue) => {
                self.current_issue = Some(issue);
                self.edit_modified = false;
                self.error_message = None;
            },
            Err(e) => {
                let detail = e.message();
                self.error_message = Some(
                    String::from_str("Error loading issue: ").concat(detail.as_str()),
                );
                self.current_issue = None;
            },
        }
    }

    /// Drops the detail that is shown, and any edit of it.
    pub fn close_detail(&mut self)
        ensures
            *final(self) == (Session { current_issue: None, edit_modified: false, ..*old(self) }),
    {
        self.current_issue = None;
        self.edit_modified = false;
    }

    /// The updates that saving the edited issue asks for: none where no
    /// issue is shown in detail.
    pub fn pending_updates(&self) -> (r: Vec<FieldUpdate>)
        ensures
            update_views(r@) == match self.current_issue {
                Some(issue) => update_plan(issue@),
                None => Seq::empty(),
            },
    {
        match &self.current_issue {
            Some(issue) => save_plan(issue),
            None => {
                let r: Vec<FieldUpdate> = Vec::new();
                assert(update_views(r@) =~= Seq::<crate::save::FieldUpdateView>::empty());
                r
            },
        }
    }

    /// Takes in the outcomes of the updates of the edited issue. Where
    /// none failed the edit is dropped and a refresh begins; otherwise one
    /// message names every failed field with its failure, the edit stays
    /// and no refresh begins.
    pub fn save_issue_changes(&mut self, outcomes: &Vec<UpdateOutcome>) -> (action: Action)
        requires
            old(self).wf(),
        ensures
            final(self).wf(),
            save_taken(*old(self), *final(self), outcomes@, action),
    {
        let errors = collect_failures(outcomes);
        if errors.len() == 0 {
            self.error_message = None;
            self.edit_modified = false;
            self.current_issue = None;
            self.begin_refresh()
        } else {
            self.error_message = Some(save_error_message(&errors));
            Action::Done
        }
    }
}

} // verus!
