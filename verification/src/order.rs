//! Ordering of rows by one column, the view order of the query pipeline,
//! and the distinct values of a column.

use vstd::prelude::*;
use crate::filter::ColumnFilters;
use crate::model::SortColumn;
use crate::query::{
    column_value,
    get_column_value,
    is_retained,
    retained,
    row_views,
    IssueDisplay,
    RowView,
};
use crate::text::{
    lemma_lex_le_transitive,
    lemma_lex_lt_irreflexive,
    lemma_lex_lt_total,
    lemma_lex_lt_transitive,
    lex_lt,
    str_eq,
    str_lt,
    views,
};

verus! {

/// Whether `column` is ordered as a number rather than as text.
pub open spec fn is_numeric(column: SortColumn) -> bool {
    column == SortColumn::Priority || column == SortColumn::Blockers || column
        == SortColumn::Dependents
}

/// The number by which `row` is ordered in a numeric column.
pub open spec fn number_key(row: RowView, column: SortColumn) -> int {
    match column {
        SortColumn::Priority => row.issue.priority,
        SortColumn::Blockers => row.blockers_count as int,
        SortColumn::Dependents => row.dependents_count as int,
        _ => 0,
    }
}

/// The text by which `row` is ordered in a textual column; an absent
/// assignee counts as the empty text.
pub open spec fn text_key(row: RowView, column: SortColumn) -> Seq<char> {
    match column {
        SortColumn::Id => row.issue.id,
        SortColumn::Directory => row.issue.source_directory,
        SortColumn::Title => row.issue.title,
        SortColumn::Status => row.readiness.label_text(),
        SortColumn::Type => row.issue.issue_type,
        SortColumn::Assignee => match row.issue.assignee {
            Some(a) => a,
            None => Seq::empty(),
        },
        _ => Seq::empty(),
    }
}

/// Whether the key of `a` in `column` is strictly below that of `b`.
pub open spec fn key_lt(a: RowView, b: RowView, column: SortColumn) -> bool {
    if is_numeric(column) {
        number_key(a, column) < number_key(b, column)
    } else {
        lex_lt(text_key(a, column), text_key(b, column))
    }
}

/// Whether `a` must come before `b` by its key alone, in the given direction.
pub open spec fn precedes(a: RowView, b: RowView, column: SortColumn, ascending: bool) -> bool {
    if ascending {
        key_lt(a, b, column)
    } else {
        key_lt(b, a, column)
    }
}

/// Whether row `a`, listed at `i`, comes before row `b`, listed at `j`:
/// by key, and among equal keys by listing position.
pub open spec fn ordered_before(
    a: RowView,
    i: int,
    b: RowView,
    j: int,
    column: SortColumn,
    ascending: bool,
) -> bool {
    precedes(a, b, column, ascending) || (!precedes(b, a, column, ascending) && i < j)
}

/// No two rows precede each other.
pub proof fn lemma_precedes_asymmetric(a: RowView, b: RowView, column: SortColumn, ascending: bool)
    requires
        precedes(a, b, column, ascending),
    ensures
        !precedes(b, a, column, ascending),
{
    if !is_numeric(column) {
        let x = text_key(a, column);
        let y = text_key(b, column);
        if lex_lt(x, y) && lex_lt(y, x) {
            lemma_lex_lt_transitive(x, y, x);
            lemma_lex_lt_irreflexive(x);
        }
    }
}

/// "Does not come after" is transitive.
pub proof fn lemma_not_after_transitive(
    a: RowView,
    b: RowView,
    c: RowView,
    column: SortColumn,
    ascending: bool,
)
    requires
        !precedes(b, a, column, ascending),
        !precedes(c, b, column, ascending),
    ensures
        !precedes(c, a, column, ascending),
{
    if !is_numeric(column) {
        let x = text_key(a, column);
        let y = text_key(b, column);
        let z = text_key(c, column);
        if ascending {
            lemma_lex_le_transitive(x, y, z);
        } else {
            lemma_lex_le_transitive(z, y, x);
        }
    }
}

fn text_key_of(row: &IssueDisplay, column: SortColumn) -> (r: &str)
    requires
        !is_numeric(column),
    ensures
        r@ == text_key(row@, column),
{
    proof {
        reveal_strlit("");
        assert(""@ =~= Seq::<char>::empty());
    }
    match column {
        SortColumn::Id => row.issue.id.as_str(),
        SortColumn::Directory => row.issue.source_directory.as_str(),
        SortColumn::Title => row.issue.title.as_str(),
        SortColumn::Status => row.readiness.label(),
        SortColumn::Type => row.issue.issue_type.as_str(),
        SortColumn::Assignee => match &row.issue.assignee {
            Some(a) => a.as_str(),
            None => "",
        },
        _ => "",
    }
}

/// Whether the key of `a` in `column` is strictly below that of `b`.
pub fn row_key_lt(a: &IssueDisplay, b: &IssueDisplay, column: SortColumn) -> (r: bool)
    ensures
        r == key_lt(a@, b@, column),
{
    match column {
        SortColumn::Priority => a.issue.priority < b.issue.priority,
        SortColumn::Blockers => a.blockers_count < b.blockers_count,
        SortColumn::Dependents => a.dependents_count < b.dependents_count,
        _ => str_lt(text_key_of(a, column), text_key_of(b, column)),
    }
}

/// Whether `a` must come before `b` by its key alone, in the given direction.
pub fn row_precedes(a: &IssueDisplay, b: &IssueDisplay, column: SortColumn, ascending: bool) -> (r:
    bool)
    ensures
        r == precedes(a@, b@, column, ascending),
{
    if ascending {
        row_key_lt(a, b, column)
    } else {
        row_key_lt(b, a, column)
    }
}

/// Whether the rows at places `a` and `b` of `order` stand in order.
pub open spec fn in_order(
    rows: Seq<RowView>,
    order: Seq<usize>,
    a: int,
    b: int,
    column: SortColumn,
    ascending: bool,
) -> bool {
    ordered_before(
        rows[order[a] as int],
        order[a] as int,
        rows[order[b] as int],
        order[b] as int,
        column,
        ascending,
    )
}

/// Whether `order` is the view of `rows` under the given search, filters
/// and sort: it lists the positions of exactly the retained rows, each
/// once, ordered by key and among equal keys by position.
pub open spec fn is_view_order(
    rows: Seq<RowView>,
    order: Seq<usize>,
    needle: Seq<char>,
    filters: ColumnFilters,
    column: SortColumn,
    ascending: bool,
) -> bool {
    &&& forall|k: int|
        0 <= k < order.len() ==> (#[trigger] order[k]) < rows.len() && retained(
            rows[order[k] as int],
            needle,
            filters,
        )
    &&& forall|i: int|
        0 <= i < rows.len() && retained(#[trigger] rows[i], needle, filters) ==> order.contains(
            i as usize,
        )
    &&& forall|a: int, b: int|
        0 <= a < b < order.len() ==> #[trigger] in_order(rows, order, a, b, column, ascending)
}

/// Of two places, at most one comes before the other.
pub proof fn lemma_ordered_before_asymmetric(
    a: RowView,
    i: int,
    b: RowView,
    j: int,
    column: SortColumn,
    ascending: bool,
)
    requires
        ordered_before(a, i, b, j, column, ascending),
    ensures
        !ordered_before(b, j, a, i, column, ascending),
{
    if precedes(a, b, column, ascending) {
        lemma_precedes_asymmetric(a, b, column, ascending);
    }
    if precedes(b, a, column, ascending) {
        lemma_precedes_asymmetric(b, a, column, ascending);
    }
}

proof fn lemma_same_places(
    rows: Seq<RowView>,
    first: Seq<usize>,
    second: Seq<usize>,
    column: SortColumn,
    ascending: bool,
    k: int,
)
    requires
        first.len() == second.len(),
        0 <= k <= first.len(),
        first.to_set() == second.to_set(),
        forall|a: int, b: int|
            0 <= a < b < first.len() ==> #[trigger] in_order(rows, first, a, b, column, ascending),
        forall|a: int, b: int|
            0 <= a < b < second.len() ==> #[trigger] in_order(
                rows,
                second,
                a,
                b,
                column,
                ascending,
            ),
    ensures
        forall|j: int| 0 <= j < k ==> first[j] == second[j],
    decreases k,
{
    if k > 0 {
        lemma_same_places(rows, first, second, column, ascending, k - 1);
        let i = k - 1;
        assert(first.to_set().contains(first[i]));
        assert(second.to_set().contains(second[i]));
        let m = choose|m: int| 0 <= m < second.len() && second[m] == first[i];
        let n = choose|n: int| 0 <= n < first.len() && first[n] == second[i];
        let x = rows[first[i] as int];
        let y = rows[second[i] as int];
        if m < i {
            assert(in_order(rows, first, m, i, column, ascending));
            lemma_ordered_before_asymmetric(
                x,
                first[i] as int,
                x,
                first[i] as int,
                column,
                ascending,
            );
        } else if n < i {
            assert(in_order(rows, second, n, i, column, ascending));
            lemma_ordered_before_asymmetric(
                y,
                second[i] as int,
                y,
                second[i] as int,
                column,
                ascending,
            );
        } else if m > i {
            assert(in_order(rows, second, i, m, column, ascending));
            if n > i {
                assert(in_order(rows, first, i, n, column, ascending));
            }
            lemma_ordered_before_asymmetric(
                y,
                second[i] as int,
                x,
                first[i] as int,
                column,
                ascending,
            );
        }
    }
}

/// The view is determined by the rows and the settings: two orders that
/// both list exactly the retained rows, sorted by key and among equal keys
/// by position, are the same order.
pub proof fn lemma_view_order_unique(
    rows: Seq<RowView>,
    first: Seq<usize>,
    second: Seq<usize>,
    needle: Seq<char>,
    filters: ColumnFilters,
    column: SortColumn,
    ascending: bool,
)
    requires
        is_view_order(rows, first, needle, filters, column, ascending),
        is_view_order(rows, second, needle, filters, column, ascending),
    ensures
        first == second,
{
    assert forall|i: int, j: int|
        0 <= i < first.len() && 0 <= j < first.len() && i != j implies first[i] != first[j] by {
        let (a, b) = if i < j { (i, j) } else { (j, i) };
        assert(in_order(rows, first, a, b, column, ascending));
        if first[i] == first[j] {
            lemma_ordered_before_asymmetric(
                rows[first[a] as int],
                first[a] as int,
                rows[first[b] as int],
                first[b] as int,
                column,
                ascending,
            );
        }
    }
    assert forall|i: int, j: int|
        0 <= i < second.len() && 0 <= j < second.len() && i != j implies second[i]
        != second[j] by {
        let (a, b) = if i < j { (i, j) } else { (j, i) };
        assert(in_order(rows, second, a, b, column, ascending));
        if second[i] == second[j] {
            lemma_ordered_before_asymmetric(
                rows[second[a] as int],
                second[a] as int,
                rows[second[b] as int],
                second[b] as int,
                column,
                ascending,
            );
        }
    }
    assert forall|x: usize| first.to_set().contains(x) == second.to_set().contains(x) by {
        if first.contains(x) {
            let k = choose|k: int| 0 <= k < first.len() && first[k] == x;
            assert(retained(rows[first[k] as int], needle, filters));
            assert(second.contains(x as int as usize));
        }
        if second.contains(x) {
            let k = choose|k: int| 0 <= k < second.len() && second[k] == x;
            assert(retained(rows[second[k] as int], needle, filters));
            assert(first.contains(x as int as usize));
        }
    }
    assert(first.to_set() =~= second.to_set());
    first.unique_seq_to_set();
    second.unique_seq_to_set();
    lemma_same_places(rows, first, second, column, ascending, first.len() as int);
    assert(first =~= second);
}

/// The positions of the rows that pass the search for `needle` (the search
/// text in lower case) and `filters`, sorted by `column` in the given
/// direction; rows with equal keys keep their listing order.
pub fn view_order(
    rows: &Vec<IssueDisplay>,
    needle: &str,
    filters: &ColumnFilters,
    column: SortColumn,
    ascending: bool,
) -> (order: Vec<usize>)
    requires
        filters.wf(),
    ensures
        is_view_order(row_views(rows@), order@, needle@, *filters, column, ascending),
{
    let ghost rv = row_views(rows@);
    let mut order: Vec<usize> = Vec::new();
    let mut i: usize = 0;
    while i < rows.len()
        invariant
            filters.wf(),
            rv == row_views(rows@),
            i <= rows@.len(),
            forall|k: int|
                0 <= k < order@.len() ==> (#[trigger] order@[k]) < i && retained(
                    rv[order@[k] as int],
                    needle@,
                    *filters,
                ),
            forall|j: int|
                0 <= j < i && retained(#[trigger] rv[j], needle@, *filters) ==> order@.contains(
                    j as usize,
                ),
            forall|a: int, b: int|
                0 <= a < b < order@.len() ==> #[trigger] in_order(
                    rv,
                    order@,
                    a,
                    b,
                    column,
                    ascending,
                ),
        decreases rows@.len() - i,
    {
        assert(rv[i as int] == rows@[i as int]@);
        if is_retained(&rows[i], needle, filters) {
            let mut p: usize = order.len();
            while p > 0 && row_precedes(&rows[i], &rows[order[p - 1]], column, ascending)
                invariant
                    rv == row_views(rows@),
                    i < rows@.len(),
                    p <= order@.len(),
                    forall|k: int| 0 <= k < order@.len() ==> (#[trigger] order@[k]) < i,
                    forall|b: int|
                        p <= b < order@.len() ==> precedes(
                            rv[i as int],
                            rv[(#[trigger] order@[b]) as int],
                            column,
                            ascending,
                        ),
                decreases p,
            {
                p -= 1;
            }
            let ghost before = order@;
            order.insert(p, i);
            proof {
                let after = order@;
                assert(after.len() == before.len() + 1);
                assert(after[p as int] == i);
                assert forall|k: int| 0 <= k < p implies after[k] == before[k] by {}
                assert forall|k: int| p < k < after.len() implies after[k] == before[k - 1] by {}
                assert forall|a: int, b: int| 0 <= a < b < after.len() implies #[trigger] in_order(
                    rv,
                    after,
                    a,
                    b,
                    column,
                    ascending,
                ) by {
                    let oa = if a < p { a } else { a - 1 };
                    let ob = if b < p { b } else { b - 1 };
                    if a != p && b != p {
                        assert(in_order(rv, before, oa, ob, column, ascending));
                    } else if a == p {
                        assert(after[b] == before[b - 1]);
                    } else {
                        let x = rv[i as int];
                        let ea = rv[before[a] as int];
                        assert(before[a] < i);
                        if a == p - 1 {
                            assert(!precedes(x, ea, column, ascending));
                        } else {
                            let em = rv[before[p - 1] as int];
                            assert(in_order(rv, before, a, p - 1, column, ascending));
                            if precedes(ea, em, column, ascending) {
                                lemma_precedes_asymmetric(ea, em, column, ascending);
                            }
                            lemma_not_after_transitive(ea, em, x, column, ascending);
                        }
                    }
                }
                assert forall|j: int| 0 <= j < i + 1 && retained(
                    #[trigger] rv[j],
                    needle@,
                    *filters,
                ) implies after.contains(j as usize) by {
                    if j < i {
                        let k = choose|k: int| 0 <= k < before.len() && before[k] == j as usize;
                        if k < p {
                            assert(after[k] == j as usize);
                        } else {
                            assert(after[k + 1] == j as usize);
                        }
                    } else {
                        assert(after[p as int] == j as usize);
                    }
                }
            }
        }
        i += 1;
    }
    order
}

/// Whether each text of `s` is strictly below the next.
pub open spec fn strictly_increasing(s: Seq<Seq<char>>) -> bool {
    forall|i: int, j: int| 0 <= i < j < s.len() ==> lex_lt(s[i], s[j])
}

/// A strictly increasing sequence lists each of its texts once.
pub proof fn lemma_increasing_distinct(s: Seq<Seq<char>>)
    requires
        strictly_increasing(s),
    ensures
        s.no_duplicates(),
        s.to_set().finite(),
        s.to_set().len() == s.len(),
{
    assert forall|i: int, j: int| 0 <= i < s.len() && 0 <= j < s.len() && i != j implies s[i]
        != s[j] by {
        lemma_lex_lt_irreflexive(s[i]);
        if i < j {
            assert(lex_lt(s[i], s[j]));
        } else {
            assert(lex_lt(s[j], s[i]));
        }
    }
    s.unique_seq_to_set();
    vstd::seq_lib::seq_to_set_is_finite(s);
}

/// The distinct texts of `values`, in increasing lexical order.
pub fn sorted_distinct(values: &Vec<String>) -> (out: Vec<String>)
    ensures
        strictly_increasing(views(out@)),
        views(out@).to_set() == views(values@).to_set(),
{
    let ghost all = views(values@);
    let mut out: Vec<String> = Vec::new();
    let mut i: usize = 0;
    while i < values.len()
        invariant
            all == views(values@),
            i <= values@.len(),
            strictly_increasing(views(out@)),
            views(out@).to_set() =~= all.take(i as int).to_set(),
        decreases values@.len() - i,
    {
        let value = &values[i];
        let ghost v = value@;
        let ghost seen = all.take(i as int);
        let ghost next = all.take(i + 1);
        proof {
            assert(next =~= seen.push(v));
            assert forall|k: Seq<char>| next.to_set().contains(k) == seen.to_set().insert(
                v,
            ).contains(k) by {
                if next.contains(k) {
                    let j = choose|j: int| 0 <= j < next.len() && next[j] == k;
                    if j < seen.len() {
                        assert(seen[j] == k);
                    }
                }
                if seen.contains(k) {
                    let j = choose|j: int| 0 <= j < seen.len() && seen[j] == k;
                    assert(next[j] == k);
                }
                assert(next[i as int] == v);
            }
            assert(next.to_set() =~= seen.to_set().insert(v));
        }
        let mut p: usize = 0;
        while p < out.len() && str_lt(out[p].as_str(), value.as_str())
            invariant
                p <= out@.len(),
                v == value@,
                forall|b: int| 0 <= b < p ==> lex_lt(#[trigger] views(out@)[b], v),
            decreases out@.len() - p,
        {
            assert(views(out@)[p as int] == out@[p as int]@);
            p += 1;
        }
        let ghost before = views(out@);
        if p < out.len() && str_eq(out[p].as_str(), value.as_str()) {
            proof {
                assert(before[p as int] == v);
                assert(before.to_set().contains(v));
                assert(before.to_set().insert(v) =~= before.to_set());
            }
        } else {
            out.insert(p, value.clone());
            proof {
                let after = views(out@);
                assert(after.len() == before.len() + 1);
                assert(after[p as int] == v);
                assert forall|k: int| 0 <= k < p implies after[k] == before[k] by {}
                assert forall|k: int| p < k < after.len() implies after[k] == before[k - 1] by {}
                assert forall|a: int, b: int| 0 <= a < b < after.len() implies lex_lt(
                    after[a],
                    after[b],
                ) by {
                    if a != p && b != p {
                        let oa = if a < p { a } else { a - 1 };
                        let ob = if b < p { b } else { b - 1 };
                        assert(lex_lt(before[oa], before[ob]));
                    } else if b == p {
                        assert(lex_lt(before[a], v));
                    } else {
                        assert(!lex_lt(before[p as int], v));
                        assert(before[p as int] != v);
                        lemma_lex_lt_total(v, before[p as int]);
                        if b - 1 > p {
                            assert(lex_lt(before[p as int], before[b - 1]));
                            lemma_lex_lt_transitive(v, before[p as int], before[b - 1]);
                        }
                    }
                }
                assert forall|k: Seq<char>| after.to_set().contains(k) == before.to_set().insert(
                    v,
                ).contains(k) by {
                    if after.contains(k) {
                        let j = choose|j: int| 0 <= j < after.len() && after[j] == k;
                        if j < p {
                            assert(before[j] == k);
                        } else if j > p {
                            assert(before[j - 1] == k);
                        }
                    }
                    if before.contains(k) {
                        let j = choose|j: int| 0 <= j < before.len() && before[j] == k;
                        if j < p {
                            assert(after[j] == k);
                        } else {
                            assert(after[j + 1] == k);
                        }
                    }
                }
                assert(after.to_set() =~= before.to_set().insert(v));
            }
        }
        i += 1;
    }
    assert(all.take(values@.len() as int) =~= all);
    out
}

/// The texts shown in `column`, row by row.
pub open spec fn projected(rows: Seq<RowView>, column: SortColumn) -> Seq<Seq<char>> {
    rows.map_values(|r: RowView| column_value(r, column))
}

/// The texts shown in `column`, row by row.
pub fn column_values(rows: &Vec<IssueDisplay>, column: SortColumn) -> (r: Vec<String>)
    ensures
        views(r@) == projected(row_views(rows@), column),
{
    let mut out: Vec<String> = Vec::new();
    let mut i: usize = 0;
    while i < rows.len()
        invariant
            i <= rows@.len(),
            out@.len() == i,
            forall|j: int| 0 <= j < i ==> out@[j]@ == column_value(rows@[j]@, column),
        decreases rows@.len() - i,
    {
        out.push(get_column_value(&rows[i], column));
        i += 1;
    }
    assert(views(out@) =~= projected(row_views(rows@), column));
    out
}

/// The number of distinct texts shown in `column`.
pub fn column_cardinality(rows: &Vec<IssueDisplay>, column: SortColumn) -> (r: usize)
    ensures
        projected(row_views(rows@), column).to_set().finite(),
        r == projected(row_views(rows@), column).to_set().len(),
{
    let values = column_values(rows, column);
    let distinct = sorted_distinct(&values);
    proof {
        lemma_increasing_distinct(views(distinct@));
    }
    distinct.len()
}

/// The largest number of distinct values for which a column offers a menu
/// of its values.
pub const CARDINALITY_LIMIT: usize = 20;

/// Whether `column` offers a menu of its values when it shows
/// `cardinality` distinct ones: never for the identifier and the title,
/// else only up to the limit.
pub open spec fn offers_menu(column: SortColumn, cardinality: nat) -> bool {
    column != SortColumn::Id && column != SortColumn::Title && cardinality <= CARDINALITY_LIMIT
}

/// Whether `column` offers a menu of its values when it shows
/// `cardinality` distinct ones.
pub fn offers_value_filter(column: SortColumn, cardinality: usize) -> (r: bool)
    ensures
        r == offers_menu(column, cardinality as nat),
        cardinality > CARDINALITY_LIMIT ==> !r,
        column == SortColumn::Id || column == SortColumn::Title ==> !r,
{
    match column {
        SortColumn::Id => false,
        SortColumn::Title => false,
        _ => cardinality <= CARDINALITY_LIMIT,
    }
}

/// The values offered in the filter menu of `column`: none where the
/// column offers no menu, else its distinct values in lexical order.
pub fn filter_menu_values(rows: &Vec<IssueDisplay>, column: SortColumn) -> (r: Option<
    Vec<String>,
>)
    ensures
        r is Some == offers_menu(
            column,
            projected(row_views(rows@), column).to_set().len(),
        ),
        r is Some ==> strictly_increasing(views(r->0@)) && views(r->0@).to_set() == projected(
            row_views(rows@),
            column,
        ).to_set(),
{
    let values = column_values(rows, column);
    let distinct = sorted_distinct(&values);
    proof {
        lemma_increasing_distinct(views(distinct@));
    }
    if offers_value_filter(column, distinct.len()) {
        Some(distinct)
    } else {
        None
    }
}

} // verus!
