//! Rows, column projection and the two predicates of the query pipeline.

use vstd::prelude::*;
use crate::cache::SnapshotCache;
use crate::filter::{column_at, column_index, ColumnFilters, COLUMN_COUNT};
use crate::graph::DependentsMap;
use crate::model::{Issue, IssueView, SortColumn};
use crate::readiness::{
    blocker_statuses,
    count_open_blockers,
    open_count,
    readiness_for,
    readiness_of,
    Readiness,
};
use crate::text::{
    decimal,
    decimal_string,
    is_infix,
    lowercase,
    signed_decimal,
    signed_decimal_string,
    str_contains,
    str_to_lowercase,
    views,
};

verus! {

/// An issue with the values computed for showing it.
#[derive(Debug, PartialEq, Eq)]
pub struct IssueDisplay {
    pub original_idx: usize,
    pub issue: Issue,
    pub readiness: Readiness,
    pub blockers_count: usize,
    pub dependents_count: usize,
}

/// Mathematical value of an [`IssueDisplay`].
pub struct RowView {
    pub original_idx: int,
    pub issue: IssueView,
    pub readiness: Readiness,
    pub blockers_count: nat,
    pub dependents_count: nat,
}

impl View for IssueDisplay {
    type V = RowView;

    open spec fn view(&self) -> RowView {
        RowView {
            original_idx: self.original_idx as int,
            issue: self.issue@,
            readiness: self.readiness,
            blockers_count: self.blockers_count as nat,
            dependents_count: self.dependents_count as nat,
        }
    }
}

impl Clone for IssueDisplay {
    fn clone(&self) -> (r: Self)
        ensures
            r@ == self@,
    {
        IssueDisplay {
            original_idx: self.original_idx,
            issue: self.issue.clone(),
            readiness: self.readiness,
            blockers_count: self.blockers_count,
            dependents_count: self.dependents_count,
        }
    }
}

/// The values of a sequence of rows.
pub open spec fn row_views(rows: Seq<IssueDisplay>) -> Seq<RowView> {
    rows.map_values(|r: IssueDisplay| r@)
}

/// The statuses of the blockers of `id` as far as `details` knows them:
/// none where the detail of `id` is unknown.
pub open spec fn known_blocker_statuses(details: Map<Seq<char>, IssueView>, id: Seq<char>) -> Seq<
    Seq<char>,
> {
    if details.contains_key(id) {
        blocker_statuses(details[id].dependencies)
    } else {
        Seq::empty()
    }
}

/// The row shown for `issue`, listed at position `idx`.
pub open spec fn row_of(
    issue: IssueView,
    idx: int,
    details: Map<Seq<char>, IssueView>,
    graph: DependentsMap,
) -> RowView {
    let statuses = known_blocker_statuses(details, issue.id);
    RowView {
        original_idx: idx,
        issue,
        readiness: readiness_of(issue.status, statuses),
        blockers_count: open_count(statuses),
        dependents_count: graph.dependents(issue.id).len(),
    }
}

/// Counts the blockers of `id` that are not closed, as far as `cache`
/// remembers the detail of `id`; zero where it does not.
pub fn blockers_count(cache: &SnapshotCache, id: &str) -> (r: usize)
    requires
        cache.wf(),
    ensures
        r == open_count(known_blocker_statuses(cache.cached(), id@)),
{
    match cache.peek(id) {
        Some(full) => count_open_blockers(&full.dependencies),
        None => 0,
    }
}

/// Computes the row of `issue`, listed at position `idx`.
pub fn display_row(issue: &Issue, idx: usize, cache: &SnapshotCache, graph: &DependentsMap) -> (r:
    IssueDisplay)
    requires
        cache.wf(),
        graph.wf(),
    ensures
        r@ == row_of(issue@, idx as int, cache.cached(), *graph),
{
    let blockers = blockers_count(cache, issue.id.as_str());
    let readiness = readiness_for(issue.status.as_str(), blockers);
    IssueDisplay {
        original_idx: idx,
        issue: issue.clone(),
        readiness,
        blockers_count: blockers,
        dependents_count: graph.count(issue.id.as_str()),
    }
}

/// The text shown for `row` in `column`.
pub open spec fn column_value(row: RowView, column: SortColumn) -> Seq<char> {
    match column {
        SortColumn::Id => row.issue.id,
        SortColumn::Directory => row.issue.source_directory,
        SortColumn::Title => row.issue.title,
        SortColumn::Status => row.readiness.label_text(),
        SortColumn::Priority => "P"@ + signed_decimal(row.issue.priority),
        SortColumn::Type => row.issue.issue_type,
        SortColumn::Assignee => match row.issue.assignee {
            Some(a) => a,
            None => "-"@,
        },
        SortColumn::Blockers => decimal(row.blockers_count),
        SortColumn::Dependents => decimal(row.dependents_count),
    }
}

/// The text shown for `row` in `column`.
pub fn get_column_value(row: &IssueDisplay, column: SortColumn) -> (r: String)
    ensures
        r@ == column_value(row@, column),
{
    match column {
        SortColumn::Id => row.issue.id.clone(),
        SortColumn::Directory => row.issue.source_directory.clone(),
        SortColumn::Title => row.issue.title.clone(),
        SortColumn::Status => String::from_str(row.readiness.label()),
        SortColumn::Priority => {
            let digits = signed_decimal_string(row.issue.priority);
            String::from_str("P").concat(digits.as_str())
        },
        SortColumn::Type => row.issue.issue_type.clone(),
        SortColumn::Assignee => match &row.issue.assignee {
            Some(a) => a.clone(),
            None => String::from_str("-"),
        },
        SortColumn::Blockers => decimal_string(row.blockers_count as u64),
        SortColumn::Dependents => decimal_string(row.dependents_count as u64),
    }
}

/// The texts that the free-text search looks into: identifier, title,
/// description, status, type, the assignee if there is one, and the
/// readiness, each in lower case, then the two counts.
pub open spec fn search_fields(row: RowView) -> Seq<Seq<char>> {
    let fixed = seq![
        lowercase(row.issue.id),
        lowercase(row.issue.title),
        lowercase(row.issue.description),
        lowercase(row.issue.status),
        lowercase(row.issue.issue_type),
    ];
    let named = match row.issue.assignee {
        Some(a) => fixed.push(lowercase(a)),
        None => fixed,
    };
    named.push(lowercase(row.readiness.label_text())).push(decimal(row.blockers_count)).push(
        decimal(row.dependents_count),
    )
}

/// Whether `needle` occurs in one of `fields`.
pub open spec fn any_infix(needle: Seq<char>, fields: Seq<Seq<char>>) -> bool {
    exists|i: int| 0 <= i < fields.len() && is_infix(needle, #[trigger] fields[i])
}

/// Whether `row` passes the free-text search for `needle`, which is the
/// search text already in lower case: an empty needle passes every row.
pub open spec fn text_matches(row: RowView, needle: Seq<char>) -> bool {
    needle.len() == 0 || any_infix(needle, search_fields(row))
}

/// Whether `row` passes the column filters: no column hides its value.
pub open spec fn passes_filters(row: RowView, filters: ColumnFilters) -> bool {
    forall|c: SortColumn| !filters.excluded(c).contains(#[trigger] column_value(row, c))
}

/// Whether `row` is kept by the search for `needle` and by `filters`.
pub open spec fn retained(row: RowView, needle: Seq<char>, filters: ColumnFilters) -> bool {
    text_matches(row, needle) && passes_filters(row, filters)
}

/// Filters compose by "and" across columns and by "or" within one column:
/// a row passes exactly when, for every column, its value in that column is
/// none of the values that the column hides.
pub proof fn lemma_filters_compose(row: RowView, filters: ColumnFilters)
    ensures
        passes_filters(row, filters) <==> (forall|c: SortColumn, v: Seq<char>|
            #[trigger] filters.excluded(c).contains(v) ==> column_value(row, c) != v),
{
    if passes_filters(row, filters) {
        assert forall|c: SortColumn, v: Seq<char>| #[trigger]
            filters.excluded(c).contains(v) implies column_value(row, c) != v by {
            assert(!filters.excluded(c).contains(column_value(row, c)));
        }
    }
}

/// The texts that the free-text search looks into.
pub fn search_texts(row: &IssueDisplay) -> (r: Vec<String>)
    ensures
        views(r@) == search_fields(row@),
{
    let mut out: Vec<String> = Vec::new();
    out.push(str_to_lowercase(row.issue.id.as_str()));
    out.push(str_to_lowercase(row.issue.title.as_str()));
    out.push(str_to_lowercase(row.issue.description.as_str()));
    out.push(str_to_lowercase(row.issue.status.as_str()));
    out.push(str_to_lowercase(row.issue.issue_type.as_str()));
    match &row.issue.assignee {
        Some(a) => {
            out.push(str_to_lowercase(a.as_str()));
        },
        None => {},
    }
    out.push(str_to_lowercase(row.readiness.label()));
    out.push(decimal_string(row.blockers_count as u64));
    out.push(decimal_string(row.dependents_count as u64));
    assert(views(out@) =~= search_fields(row@));
    out
}

/// Whether `needle` occurs in one of `fields`.
pub fn any_contains(fields: &Vec<String>, needle: &str) -> (r: bool)
    ensures
        r == any_infix(needle@, views(fields@)),
{
    let mut i: usize = 0;
    while i < fields.len()
        invariant
            i <= fields@.len(),
            forall|j: int| 0 <= j < i ==> !is_infix(needle@, #[trigger] views(fields@)[j]),
        decreases fields@.len() - i,
    {
        if str_contains(fields[i].as_str(), needle) {
            assert(is_infix(needle@, views(fields@)[i as int]));
            return true;
        }
        i += 1;
    }
    false
}

/// Whether `row` passes the free-text search for `needle`, the search text
/// in lower case.
pub fn matches_text(row: &IssueDisplay, needle: &str) -> (r: bool)
    ensures
        r == text_matches(row@, needle@),
{
    if needle.is_empty() {
        return true;
    }
    let fields = search_texts(row);
    any_contains(&fields, needle)
}

/// Whether no column filter hides `row`.
pub fn passes_column_filters(row: &IssueDisplay, filters: &ColumnFilters) -> (r: bool)
    requires
        filters.wf(),
    ensures
        r == passes_filters(row@, *filters),
{
    let mut i: usize = 0;
    while i < COLUMN_COUNT
        invariant
            filters.wf(),
            i <= COLUMN_COUNT,
            forall|c: SortColumn|
                column_index(c) < i ==> !filters.excluded(c).contains(
                    #[trigger] column_value(row@, c),
                ),
        decreases COLUMN_COUNT - i,
    {
        let column = column_at(i);
        let value = get_column_value(row, column);
        if filters.is_filtered(column, value.as_str()) {
            assert(filters.excluded(column).contains(column_value(row@, column)));
            return false;
        }
        assert forall|c: SortColumn| column_index(c) < i + 1 implies !filters.excluded(c).contains(
            #[trigger] column_value(row@, c),
        ) by {
            if column_index(c) == i {
                assert(c == column);
            }
        }
        i += 1;
    }
    assert forall|c: SortColumn| !filters.excluded(c).contains(
        #[trigger] column_value(row@, c),
    ) by {
        assert(column_index(c) < COLUMN_COUNT);
    }
    true
}

/// Whether `row` is kept by the search for `needle` and by `filters`.
pub fn is_retained(row: &IssueDisplay, needle: &str, filters: &ColumnFilters) -> (r: bool)
    requires
        filters.wf(),
    ensures
        r == retained(row@, needle@, *filters),
{
    matches_text(row, needle) && passes_column_filters(row, filters)
}

} // verus!
