//! Readiness: the status of an issue as its blockers leave it.

use vstd::prelude::*;
use crate::model::{blocker_views, BlockerRef, BlockerView};
use crate::text::str_eq;

verus! {

/// Whether an issue can be worked on.
#[derive(Clone, Copy, Debug, PartialEq, Eq, Hash, Structural)]
pub enum Readiness {
    Closed,
    InProgress,
    Blocked,
    Ready,
}

impl Readiness {
    /// The text shown for this readiness.
    pub open spec fn label_text(self) -> Seq<char> {
        match self {
            Readiness::Closed => "closed"@,
            Readiness::InProgress => "in_progress"@,
            Readiness::Blocked => "blocked"@,
            Readiness::Ready => "ready"@,
        }
    }

    /// The text shown for this readiness.
    pub fn label(self) -> (r: &'static str)
        ensures
            r@ == self.label_text(),
    {
        match self {
            Readiness::Closed => "closed",
            Readiness::InProgress => "in_progress",
            Readiness::Blocked => "blocked",
            Readiness::Ready => "ready",
        }
    }
}

/// The statuses of a list of blockers, in order.
pub open spec fn blocker_statuses(deps: Seq<BlockerView>) -> Seq<Seq<char>> {
    deps.map_values(|b: BlockerView| b.status)
}

/// How many of `statuses` are other than `closed`.
pub open spec fn open_count(statuses: Seq<Seq<char>>) -> nat
    decreases statuses.len(),
{
    if statuses.len() == 0 {
        0
    } else {
        open_count(statuses.drop_last()) + if statuses.last() != "closed"@ {
            1nat
        } else {
            0nat
        }
    }
}

/// The readiness of an issue with the given status whose blockers have the
/// given statuses.
pub open spec fn readiness_of(status: Seq<char>, statuses: Seq<Seq<char>>) -> Readiness {
    if status == "closed"@ {
        Readiness::Closed
    } else if status == "in_progress"@ {
        Readiness::InProgress
    } else if open_count(statuses) > 0 {
        Readiness::Blocked
    } else {
        Readiness::Ready
    }
}

/// The count of open statuses is zero exactly when every status is `closed`.
pub proof fn lemma_open_count_zero(statuses: Seq<Seq<char>>)
    ensures
        open_count(statuses) == 0 <==> (forall|i: int|
            0 <= i < statuses.len() ==> statuses[i] == "closed"@),
    decreases statuses.len(),
{
    if statuses.len() > 0 {
        let front = statuses.drop_last();
        lemma_open_count_zero(front);
        if open_count(statuses) == 0 {
            assert forall|i: int| 0 <= i < statuses.len() implies statuses[i] == "closed"@ by {
                if i < front.len() {
                    assert(front[i] == statuses[i]);
                }
            }
        } else if statuses.last() == "closed"@ {
            let i = choose|i: int| 0 <= i < front.len() && front[i] != "closed"@;
            assert(statuses[i] != "closed"@);
        } else {
            assert(statuses[statuses.len() - 1] != "closed"@);
        }
    }
}

/// Readiness depends on the status and the blockers' statuses alone, and:
/// a closed issue is closed whatever its blockers; an issue in progress is
/// in progress; any other issue is ready when all its blockers are closed
/// and blocked when one of them is not.
pub proof fn lemma_readiness_cases(status: Seq<char>, statuses: Seq<Seq<char>>)
    ensures
        status == "closed"@ ==> readiness_of(status, statuses) == Readiness::Closed,
        status == "in_progress"@ ==> readiness_of(status, statuses) == Readiness::InProgress,
        status != "closed"@ && status != "in_progress"@ && (forall|i: int|
            0 <= i < statuses.len() ==> statuses[i] == "closed"@) ==> readiness_of(status, statuses)
            == Readiness::Ready,
        status != "closed"@ && status != "in_progress"@ && (exists|i: int|
            0 <= i < statuses.len() && statuses[i] != "closed"@) ==> readiness_of(status, statuses)
            == Readiness::Blocked,
{
    lemma_open_count_zero(statuses);
    reveal_strlit("closed");
    reveal_strlit("in_progress");
    assert("closed"@.len() != "in_progress"@.len());
}

/// Counts the blockers whose status is other than `closed`.
pub fn count_open_blockers(deps: &Vec<BlockerRef>) -> (r: usize)
    ensures
        r == open_count(blocker_statuses(blocker_views(deps@))),
{
    let ghost statuses = blocker_statuses(blocker_views(deps@));
    let mut count: usize = 0;
    let mut j: usize = 0;
    while j < deps.len()
        invariant
            j <= deps@.len(),
            statuses == blocker_statuses(blocker_views(deps@)),
            count == open_count(statuses.take(j as int)),
            count <= j,
        decreases deps@.len() - j,
    {
        assert(statuses.take(j + 1).drop_last() =~= statuses.take(j as int));
        assert(statuses.take(j + 1).last() == deps@[j as int].status@);
        if !str_eq(deps[j].status.as_str(), "closed") {
            count += 1;
        }
        j += 1;
    }
    assert(statuses.take(deps@.len() as int) =~= statuses);
    count
}

/// The readiness of an issue with status `status` and `open_blockers`
/// blockers that are not closed.
pub fn readiness_for(status: &str, open_blockers: usize) -> (r: Readiness)
    ensures
        r == if status@ == "closed"@ {
            Readiness::Closed
        } else if status@ == "in_progress"@ {
            Readiness::InProgress
        } else if open_blockers > 0 {
            Readiness::Blocked
        } else {
            Readiness::Ready
        },
{
    if str_eq(status, "closed") {
        Readiness::Closed
    } else if str_eq(status, "in_progress") {
        Readiness::InProgress
    } else if open_blockers > 0 {
        Readiness::Blocked
    } else {
        Readiness::Ready
    }
}

} // verus!
