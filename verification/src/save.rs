//! The edit/save pipeline: which field updates an edited issue asks for,
//! and how their failures are gathered into one report.

use vstd::prelude::*;
use crate::model::{GatewayError, Issue, IssueView};
use crate::text::{join, joined, signed_decimal, signed_decimal_string, views};

verus! {

/// One field update to be sent to the issue store.
#[derive(Debug, PartialEq, Eq)]
pub struct FieldUpdate {
    pub field: String,
    pub value: String,
}

/// Mathematical value of a [`FieldUpdate`].
pub struct FieldUpdateView {
    pub field: Seq<char>,
    pub value: Seq<char>,
}

impl View for FieldUpdate {
    type V = FieldUpdateView;

    open spec fn view(&self) -> FieldUpdateView {
        FieldUpdateView { field: self.field@, value: self.value@ }
    }
}

/// The values of a sequence of field updates.
pub open spec fn update_views(v: Seq<FieldUpdate>) -> Seq<FieldUpdateView> {
    v.map_values(|u: FieldUpdate| u@)
}

/// The updates that saving `issue` asks for, in the order in which they
/// are sent: title, status, priority, then assignee and notes where the
/// issue has them.
pub open spec fn update_plan(issue: IssueView) -> Seq<FieldUpdateView> {
    let fixed = seq![
        FieldUpdateView { field: "title"@, value: issue.title },
        FieldUpdateView { field: "status"@, value: issue.status },
        FieldUpdateView { field: "priority"@, value: signed_decimal(issue.priority) },
    ];
    let assigned = match issue.assignee {
        Some(a) => fixed.push(FieldUpdateView { field: "assignee"@, value: a }),
        None => fixed,
    };
    match issue.notes {
        Some(n) => assigned.push(FieldUpdateView { field: "notes"@, value: n }),
        None => assigned,
    }
}

/// The updates that saving `issue` asks for.
pub fn save_plan(issue: &Issue) -> (r: Vec<FieldUpdate>)
    ensures
        update_views(r@) == update_plan(issue@),
{
    let mut plan: Vec<FieldUpdate> = Vec::new();
    plan.push(FieldUpdate { field: String::from_str("title"), value: issue.title.clone() });
    plan.push(FieldUpdate { field: String::from_str("status"), value: issue.status.clone() });
    plan.push(
        FieldUpdate {
            field: String::from_str("priority"),
            value: signed_decimal_string(issue.priority),
        },
    );
    match &issue.assignee {
        Some(a) => {
            plan.push(FieldUpdate { field: String::from_str("assignee"), value: a.clone() });
        },
        None => {},
    }
    match &issue.notes {
        Some(n) => {
            plan.push(FieldUpdate { field: String::from_str("notes"), value: n.clone() });
        },
        None => {},
    }
    assert(update_views(plan@) =~= update_plan(issue@));
    plan
}

/// How the update of one field ended.
#[derive(Debug, PartialEq, Eq)]
pub struct UpdateOutcome {
    pub field: String,
    pub result: Result<(), GatewayError>,
}

/// The line that reports the outcome of one update: none where it succeeded,
/// else the field's name, a colon and the failure's text.
pub open spec fn failure_line(outcome: UpdateOutcome) -> Option<Seq<char>> {
    match outcome.result {
        Ok(_) => None,
        Err(e) => Some(outcome.field@ + ": "@ + e.message_text()),
    }
}

/// The lines of the failed updates among `outcomes`, in order.
pub open spec fn failure_lines(outcomes: Seq<UpdateOutcome>) -> Seq<Seq<char>>
    decreases outcomes.len(),
{
    if outcomes.len() == 0 {
        Seq::empty()
    } else {
        let rest = failure_lines(outcomes.drop_last());
        match failure_line(outcomes.last()) {
            Some(line) => rest.push(line),
            None => rest,
        }
    }
}

/// The single message that reports the given failure lines.
pub open spec fn save_error_text(lines: Seq<Seq<char>>) -> Seq<char> {
    "Failed to save: "@ + joined(lines, ", "@)
}

/// Every failed update has a line, and only those.
pub proof fn lemma_failure_lines(outcomes: Seq<UpdateOutcome>)
    ensures
        failure_lines(outcomes).len() == 0 <==> (forall|i: int|
            0 <= i < outcomes.len() ==> (#[trigger] outcomes[i]).result is Ok),
        forall|i: int|
            0 <= i < outcomes.len() && (#[trigger] outcomes[i]).result is Err ==> failure_lines(
                outcomes,
            ).contains(failure_line(outcomes[i])->0),
    decreases outcomes.len(),
{
    if outcomes.len() > 0 {
        let front = outcomes.drop_last();
        let rest = failure_lines(front);
        lemma_failure_lines(front);
        assert forall|i: int| 0 <= i < front.len() implies front[i] == outcomes[i] by {}
        if failure_lines(outcomes).len() == 0 {
            assert forall|i: int| 0 <= i < outcomes.len() implies (#[trigger] outcomes[i]).result is Ok by {
                if i < front.len() {
                    assert(front[i].result is Ok);
                }
            }
        }
        if rest.len() != 0 {
            let i = choose|i: int| 0 <= i < front.len() && !((#[trigger] front[i]).result is Ok);
            assert(!(outcomes[i].result is Ok));
        }
        assert forall|i: int|
            0 <= i < outcomes.len() && (#[trigger] outcomes[i]).result is Err implies failure_lines(
            outcomes,
        ).contains(failure_line(outcomes[i])->0) by {
            let line = failure_line(outcomes[i])->0;
            let lines = failure_lines(outcomes);
            if i < front.len() {
                assert(front[i].result is Err);
                let k = choose|k: int| 0 <= k < rest.len() && rest[k] == line;
                assert(lines[k] == line);
            } else {
                assert(lines[lines.len() - 1] == line);
            }
        }
    }
}

/// The lines of the failed updates among `outcomes`, in order.
pub fn collect_failures(outcomes: &Vec<UpdateOutcome>) -> (r: Vec<String>)
    ensures
        views(r@) == failure_lines(outcomes@),
{
    let mut errors: Vec<String> = Vec::new();
    let mut i: usize = 0;
    while i < outcomes.len()
        invariant
            i <= outcomes@.len(),
            views(errors@) == failure_lines(outcomes@.take(i as int)),
        decreases outcomes@.len() - i,
    {
        let ghost before = views(errors@);
        assert(outcomes@.take(i + 1).drop_last() =~= outcomes@.take(i as int));
        assert(outcomes@.take(i + 1).last() == outcomes@[i as int]);
        match &outcomes[i].result {
            Ok(_) => {},
            Err(e) => {
                let mut line = outcomes[i].field.clone();
                line.append(": ");
                let detail = e.message();
                line.append(detail.as_str());
                errors.push(line);
                assert(views(errors@) =~= before.push(failure_line(outcomes@[i as int])->0));
            },
        }
        i += 1;
    }
    assert(outcomes@.take(outcomes@.len() as int) =~= outcomes@);
    errors
}

/// The single message that reports `lines`.
pub fn save_error_message(lines: &Vec<String>) -> (r: String)
    ensures
        r@ == save_error_text(views(lines@)),
{
    let list = join(lines, ", ");
    String::from_str("Failed to save: ").concat(list.as_str())
}

} // verus!
