//! Per-column exclusion filters.

use vstd::prelude::*;
use crate::model::SortColumn;
use crate::strmap::StrMap;
use crate::text::views;

verus! {

/// The set of values that one column hides.
pub struct ColumnFilter {
    excluded_values: StrMap<()>,
}

impl View for ColumnFilter {
    type V = Set<Seq<char>>;

    closed spec fn view(&self) -> Set<Seq<char>> {
        self.excluded_values@.dom()
    }
}

impl ColumnFilter {
    /// The internal set is well formed.
    pub closed spec fn wf(&self) -> bool {
        self.excluded_values.wf()
    }

    /// A filter that hides nothing.
    pub fn new() -> (r: Self)
        ensures
            r.wf(),
            r@ == Set::<Seq<char>>::empty(),
    {
        let r = ColumnFilter { excluded_values: StrMap::new() };
        assert(r@ =~= Set::<Seq<char>>::empty());
        r
    }

    /// A filter that hides exactly the values of `excluded`.
    pub fn new_with_excluded(excluded: Vec<String>) -> (r: Self)
        ensures
            r.wf(),
            r@ == views(excluded@).to_set(),
    {
        let mut set: StrMap<()> = StrMap::new();
        let mut i: usize = 0;
        while i < excluded.len()
            invariant
                i <= excluded@.len(),
                set.wf(),
                set@.dom() =~= views(excluded@).take(i as int).to_set(),
            decreases excluded@.len() - i,
        {
            let ghost before = views(excluded@).take(i as int);
            let ghost after = views(excluded@).take(i + 1);
            set.insert(excluded[i].clone(), ());
            proof {
                assert(after =~= before.push(excluded@[i as int]@));
                assert forall|k: Seq<char>| after.to_set().contains(k) == before.to_set().insert(
                    excluded@[i as int]@,
                ).contains(k) by {
                    if after.contains(k) {
                        let j = choose|j: int| 0 <= j < after.len() && after[j] == k;
                        if j < before.len() {
                            assert(before[j] == k);
                        }
                    }
                    if before.contains(k) {
                        let j = choose|j: int| 0 <= j < before.len() && before[j] == k;
                        assert(after[j] == k);
                    }
                    assert(after[i as int] == excluded@[i as int]@);
                }
            }
            i += 1;
        }
        assert(views(excluded@).take(excluded@.len() as int) =~= views(excluded@));
        ColumnFilter { excluded_values: set }
    }

    /// Whether `value` is hidden.
    pub fn is_filtered(&self, value: &str) -> (r: bool)
        requires
            self.wf(),
        ensures
            r == self@.contains(value@),
    {
        self.excluded_values.contains_key(value)
    }

    /// Hides `value` if it is shown, shows it if it is hidden.
    pub fn toggle_exclude(&mut self, value: String)
        requires
            old(self).wf(),
        ensures
            final(self).wf(),
            final(self)@ == if old(self)@.contains(value@) {
                old(self)@.remove(value@)
            } else {
                old(self)@.insert(value@)
            },
    {
        if self.excluded_values.contains_key(value.as_str()) {
            self.excluded_values.remove(value.as_str());
            assert(self@ =~= old(self)@.remove(value@));
        } else {
            self.excluded_values.insert(value, ());
            assert(self@ =~= old(self)@.insert(value@));
        }
    }

    /// Whether any value is hidden.
    pub fn has_active_filters(&self) -> (r: bool)
        requires
            self.wf(),
        ensures
            r == !(self@ =~= Set::<Seq<char>>::empty()),
    {
        !self.excluded_values.is_empty()
    }

    /// The hidden values, each once.
    pub fn excluded_values(&self) -> (r: Vec<String>)
        requires
            self.wf(),
        ensures
            views(r@).no_duplicates(),
            views(r@).to_set() == self@,
    {
        proof {
            self.excluded_values.lemma_key_seq();
        }
        self.excluded_values.keys()
    }
}

/// The position of a column in the fixed column order.
pub open spec fn column_index(column: SortColumn) -> int {
    match column {
        SortColumn::Id => 0,
        SortColumn::Directory => 1,
        SortColumn::Title => 2,
        SortColumn::Status => 3,
        SortColumn::Priority => 4,
        SortColumn::Type => 5,
        SortColumn::Assignee => 6,
        SortColumn::Blockers => 7,
        SortColumn::Dependents => 8,
    }
}

/// The number of columns.
pub const COLUMN_COUNT: usize = 9;

/// The position of `column` in the fixed column order.
pub fn column_position(column: SortColumn) -> (r: usize)
    ensures
        r == column_index(column),
        r < COLUMN_COUNT,
{
    match column {
        SortColumn::Id => 0,
        SortColumn::Directory => 1,
        SortColumn::Title => 2,
        SortColumn::Status => 3,
        SortColumn::Priority => 4,
        SortColumn::Type => 5,
        SortColumn::Assignee => 6,
        SortColumn::Blockers => 7,
        SortColumn::Dependents => 8,
    }
}

/// The column at position `i` of the fixed column order.
pub fn column_at(i: usize) -> (r: SortColumn)
    requires
        i < COLUMN_COUNT,
    ensures
        column_index(r) == i,
{
    if i == 0 {
        SortColumn::Id
    } else if i == 1 {
        SortColumn::Directory
    } else if i == 2 {
        SortColumn::Title
    } else if i == 3 {
        SortColumn::Status
    } else if i == 4 {
        SortColumn::Priority
    } else if i == 5 {
        SortColumn::Type
    } else if i == 6 {
        SortColumn::Assignee
    } else if i == 7 {
        SortColumn::Blockers
    } else {
        SortColumn::Dependents
    }
}

/// One exclusion filter for each column.
pub struct ColumnFilters {
    slots: Vec<ColumnFilter>,
}

impl ColumnFilters {
    /// There is one well-formed filter for each column.
    pub closed spec fn wf(&self) -> bool {
        &&& self.slots@.len() == COLUMN_COUNT
        &&& forall|i: int| 0 <= i < self.slots@.len() ==> (#[trigger] self.slots@[i]).wf()
    }

    /// The values that `column` hides.
    pub closed spec fn excluded(&self, column: SortColumn) -> Set<Seq<char>> {
        self.slots@[column_index(column)]@
    }

    /// Filters that hide nothing.
    pub fn new() -> (r: Self)
        ensures
            r.wf(),
            forall|c: SortColumn| #[trigger] r.excluded(c) == Set::<Seq<char>>::empty(),
    {
        let mut slots: Vec<ColumnFilter> = Vec::new();
        let mut i: usize = 0;
        while i < COLUMN_COUNT
            invariant
                i <= COLUMN_COUNT,
                slots@.len() == i,
                forall|j: int|
                    0 <= j < i ==> (#[trigger] slots@[j]).wf() && slots@[j]@ == Set::<
                        Seq<char>,
                    >::empty(),
            decreases COLUMN_COUNT - i,
        {
            slots.push(ColumnFilter::new());
            i += 1;
        }
        ColumnFilters { slots }
    }

    /// The filters a session starts with: closed issues are hidden.
    pub fn initial() -> (r: Self)
        ensures
            r.wf(),
            r.excluded(SortColumn::Status) == set!["closed"@],
            forall|c: SortColumn|
                c != SortColumn::Status ==> #[trigger] r.excluded(c) == Set::<Seq<char>>::empty(),
    {
        let mut r = ColumnFilters::new();
        r.toggle_exclude(SortColumn::Status, String::from_str("closed"));
        assert(r.excluded(SortColumn::Status) =~= set!["closed"@]);
        r
    }

    /// The filter of `column`.
    pub fn filter(&self, column: SortColumn) -> (r: &ColumnFilter)
        requires
            self.wf(),
        ensures
            r.wf(),
            r@ == self.excluded(column),
    {
        &self.slots[column_position(column)]
    }

    /// Whether `column` hides `value`.
    pub fn is_filtered(&self, column: SortColumn, value: &str) -> (r: bool)
        requires
            self.wf(),
        ensures
            r == self.excluded(column).contains(value@),
    {
        self.slots[column_position(column)].is_filtered(value)
    }

    /// Flips whether `column` hides `value`; the other columns keep their
    /// filters.
    pub fn toggle_exclude(&mut self, column: SortColumn, value: String)
        requires
            old(self).wf(),
        ensures
            final(self).wf(),
            final(self).excluded(column) == if old(self).excluded(column).contains(value@) {
                old(self).excluded(column).remove(value@)
            } else {
                old(self).excluded(column).insert(value@)
            },
            forall|c: SortColumn|
                c != column ==> #[trigger] final(self).excluded(c) == old(self).excluded(c),
    {
        let i = column_position(column);
        self.slots[i].toggle_exclude(value);
        proof {
            assert forall|c: SortColumn| c != column implies #[trigger] self.excluded(c) == old(
                self,
            ).excluded(c) by {
                assert(column_index(c) != column_index(column));
            }
        }
    }
}

} // verus!
