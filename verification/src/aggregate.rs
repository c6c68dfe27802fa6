//! Consolidation of the reported statuses into one: the most severe state,
//! and every message that was given, joined in the order of the reports.

use vstd::prelude::*;
use vstd::string::StringExecFns;
use crate::status::{ScriptState, ScriptStatus, StatusView};

verus! {

/// The reports that are consolidated, each with the id of its reporter.
pub type Reports = Seq<(Seq<char>, StatusView)>;

/// What stands between two messages of the consolidated status: `", "`.
pub open spec fn separator() -> Seq<char> {
    seq![',', ' ']
}

/// The most severe state among the reports, or the lowest state if there
/// is none.
pub open spec fn highest_state(reports: Reports) -> ScriptState
    decreases reports.len(),
{
    if reports.len() == 0 {
        ScriptState::lowest()
    } else {
        let before = highest_state(reports.drop_last());
        let state = reports.last().1.state;
        if state.rank() > before.rank() {
            state
        } else {
            before
        }
    }
}

/// Whether a report carries a message that is not empty.
pub open spec fn has_message(status: StatusView) -> bool {
    status.message is Some && status.message->0.len() > 0
}

/// The messages of the reports, those that are present and not empty, in
/// the order of the reports.
pub open spec fn messages(reports: Reports) -> Seq<Seq<char>>
    decreases reports.len(),
{
    if reports.len() == 0 {
        Seq::empty()
    } else {
        let before = messages(reports.drop_last());
        let status = reports.last().1;
        if has_message(status) {
            before.push(status.message->0)
        } else {
            before
        }
    }
}

/// The parts in order, with the separator between each two.
pub open spec fn join(parts: Seq<Seq<char>>) -> Seq<char>
    decreases parts.len(),
{
    if parts.len() == 0 {
        Seq::empty()
    } else if parts.len() == 1 {
        parts[0]
    } else {
        join(parts.drop_last()) + separator() + parts.last()
    }
}

/// The consolidated message: absent where no report carries one, else the
/// messages joined.
pub open spec fn joined_message(reports: Reports) -> Option<Seq<char>> {
    let parts = messages(reports);
    if parts.len() == 0 {
        None
    } else {
        Some(join(parts))
    }
}

/// The consolidated status of the reports.
pub open spec fn consolidated(reports: Reports) -> StatusView {
    StatusView { state: highest_state(reports), message: joined_message(reports) }
}

/// No reports consolidate to the lowest state and no message.
pub proof fn lemma_consolidated_empty()
    ensures
        consolidated(Reports::empty()) == (StatusView {
            state: ScriptState::lowest(),
            message: None,
        }),
{
}

/// The highest state is the maximum: no report has a more severe state, and
/// it is the state of some report, or the lowest state.
pub proof fn lemma_highest_state_is_max(reports: Reports)
    ensures
        forall|i: int|
            0 <= i < reports.len() ==> (#[trigger] reports[i]).1.state.rank() <= highest_state(
                reports,
            ).rank(),
        highest_state(reports) == ScriptState::lowest() || exists|i: int|
            0 <= i < reports.len() && (#[trigger] reports[i]).1.state == highest_state(reports),
    decreases reports.len(),
{
    if reports.len() > 0 {
        let rest = reports.drop_last();
        lemma_highest_state_is_max(rest);
        let last = reports.len() - 1;
        assert forall|i: int| 0 <= i < reports.len() implies (#[trigger] reports[i]).1.state.rank()
            <= highest_state(reports).rank() by {
            if i < last {
                assert(rest[i] == reports[i]);
            }
        }
    }
}

/// The consolidated state does not depend on the order of the reports: two
/// sequences that hold the same reports, each as often, have the same
/// highest state.
pub proof fn lemma_state_ignores_order(a: Reports, b: Reports)
    requires
        a.to_multiset() == b.to_multiset(),
    ensures
        highest_state(a) == highest_state(b),
{
    a.to_multiset_ensures();
    b.to_multiset_ensures();
    assert forall|i: int| 0 <= i < a.len() implies b.contains(#[trigger] a[i]) by {
        assert(a.to_multiset().count(a[i]) > 0);
    }
    assert forall|i: int| 0 <= i < b.len() implies a.contains(#[trigger] b[i]) by {
        assert(b.to_multiset().count(b[i]) > 0);
    }
    lemma_highest_below(a, b);
    lemma_highest_below(b, a);
    crate::status::lemma_rank_total(highest_state(a), highest_state(b));
}

/// Where every report of `a` occurs in `b`, the highest state of `a` is at
/// most that of `b`.
pub proof fn lemma_highest_below(a: Reports, b: Reports)
    requires
        forall|i: int| 0 <= i < a.len() ==> b.contains(#[trigger] a[i]),
    ensures
        highest_state(a).rank() <= highest_state(b).rank(),
{
    lemma_highest_state_is_max(a);
    lemma_highest_state_is_max(b);
}

/// Reduces a snapshot of the reports to one status. The state is the most
/// severe one reported; the message joins all that were given, whatever the
/// state of the report that carried them.
pub fn aggregate(snapshot: &Vec<(String, ScriptStatus)>) -> (r: ScriptStatus)
    ensures
        r@ == consolidated(snapshot.deep_view()),
{
    let ghost reports = snapshot.deep_view();
    let mut state = ScriptState::default();
    let mut message: Option<String> = None;
    let mut i: usize = 0;
    while i < snapshot.len()
        invariant
            0 <= i <= snapshot.len(),
            reports == snapshot.deep_view(),
            state == highest_state(reports.take(i as int)),
            message.deep_view() == joined_message(reports.take(i as int)),
        decreases snapshot.len() - i,
    {
        let status = &snapshot[i].1;
        proof {
            let upto = reports.take(i + 1);
            assert(upto.drop_last() =~= reports.take(i as int));
        }
        if status.state.outranks(state) {
            state = status.state;
        }
        match &status.message {
            Some(text) => {
                if !text.as_str().is_empty() {
                    proof {
                        let before = messages(reports.take(i as int));
                        assert(before.push(text@).drop_last() =~= before);
                    }
                    message = Some(extend_message(message, text));
                }
            },
            None => {},
        }
        i += 1;
    }
    assert(reports.take(i as int) =~= reports);
    ScriptStatus { state, message }
}

/// The running message with one more part: the part alone where there was
/// none before, else the message, the separator and the part.
fn extend_message(message: Option<String>, part: &String) -> (r: String)
    ensures
        r@ == match message {
            Some(current) => current@ + separator() + part@,
            None => part@,
        },
{
    match message {
        Some(current) => {
            proof {
                reveal_strlit(", ");
            }
            current.concat(", ").concat(part.as_str())
        },
        None => part.clone(),
    }
}

} // verus!
