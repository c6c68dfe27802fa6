//! The status store: for each reporter the status it reported last, kept in
//! the order of the reporter ids.

use vstd::prelude::*;
use crate::aggregate::{consolidated, highest_state, lemma_highest_state_is_max, Reports};
use crate::reporter::{compare_ids, id_before, lemma_id_order, IdOrder};
use crate::status::{ScriptStatus, StatusView};

verus! {

/// The ids of the reports ascend strictly, so none occurs twice.
pub open spec fn ascending(reports: Reports) -> bool {
    forall|i: int, j: int|
        0 <= i < j < reports.len() ==> id_before(#[trigger] reports[i].0, #[trigger] reports[j].0)
}

/// The report at index `i` is that of `id`.
pub open spec fn reported_at(reports: Reports, id: Seq<char>, i: int) -> bool {
    0 <= i < reports.len() && reports[i].0 == id
}

/// Some report is that of `id`.
pub open spec fn has_report(reports: Reports, id: Seq<char>) -> bool {
    exists|i: int| reported_at(reports, id, i)
}

/// The reports as a mapping from reporter id to status.
pub open spec fn as_map(reports: Reports) -> Map<Seq<char>, StatusView> {
    Map::new(
        |id: Seq<char>| has_report(reports, id),
        |id: Seq<char>| reports[choose|i: int| reported_at(reports, id, i)].1,
    )
}

/// In ascending reports, the mapping gives each reporter the status that
/// stands beside its id.
pub proof fn lemma_lookup(reports: Reports, i: int)
    requires
        ascending(reports),
        0 <= i < reports.len(),
    ensures
        as_map(reports).contains_key(reports[i].0),
        as_map(reports)[reports[i].0] == reports[i].1,
{
    let id = reports[i].0;
    assert(reported_at(reports, id, i));
    lemma_id_order(id, id, id);
}

/// Ascending reports with one more, put where its id belongs, stay
/// ascending and map the new id to the new status, the others as before.
pub proof fn lemma_insert_report(reports: Reports, at: int, id: Seq<char>, status: StatusView)
    requires
        ascending(reports),
        0 <= at <= reports.len(),
        forall|i: int| 0 <= i < at ==> id_before(#[trigger] reports[i].0, id),
        forall|i: int| at <= i < reports.len() ==> id_before(id, #[trigger] reports[i].0),
    ensures
        ascending(reports.insert(at, (id, status))),
        as_map(reports.insert(at, (id, status))) == as_map(reports).insert(id, status),
{
    let grown = reports.insert(at, (id, status));
    assert forall|i: int, j: int| 0 <= i < j < grown.len() implies id_before(
        #[trigger] grown[i].0,
        #[trigger] grown[j].0,
    ) by {}
    let expected = as_map(reports).insert(id, status);
    assert forall|k: Seq<char>| #[trigger]
        as_map(grown).dom().contains(k) implies expected.dom().contains(k) by {
        let i = choose|i: int| reported_at(grown, k, i);
        if i != at {
            let oi = if i < at { i } else { i - 1 };
            assert(reported_at(reports, k, oi));
        }
    }
    assert forall|k: Seq<char>| #[trigger]
        expected.dom().contains(k) implies as_map(grown).dom().contains(k) && as_map(grown)[k]
        == expected[k] by {
        if k == id {
            lemma_lookup(grown, at);
        } else {
            let oi = choose|i: int| reported_at(reports, k, i);
            let i = if oi < at { oi } else { oi + 1 };
            lemma_lookup(grown, i);
            lemma_lookup(reports, oi);
        }
    }
}

/// Ascending reports with the status of one reporter replaced stay
/// ascending and map that id to the new status, the others as before.
pub proof fn lemma_replace_report(reports: Reports, at: int, status: StatusView)
    requires
        ascending(reports),
        0 <= at < reports.len(),
    ensures
        ascending(reports.update(at, (reports[at].0, status))),
        as_map(reports.update(at, (reports[at].0, status))) == as_map(reports).insert(
            reports[at].0,
            status,
        ),
{
    let id = reports[at].0;
    let changed = reports.update(at, (id, status));
    assert forall|i: int, j: int| 0 <= i < j < changed.len() implies id_before(
        #[trigger] changed[i].0,
        #[trigger] changed[j].0,
    ) by {}
    let expected = as_map(reports).insert(id, status);
    assert forall|k: Seq<char>| #[trigger]
        as_map(changed).dom().contains(k) implies expected.dom().contains(k) by {
        let i = choose|i: int| reported_at(changed, k, i);
        assert(reported_at(reports, k, i));
    }
    assert forall|k: Seq<char>| #[trigger]
        expected.dom().contains(k) implies as_map(changed).dom().contains(k) && as_map(changed)[k]
        == expected[k] by {
        if k == id {
            lemma_lookup(changed, at);
        } else {
            let i = choose|i: int| reported_at(reports, k, i);
            lemma_lookup(changed, i);
            lemma_lookup(reports, i);
        }
    }
}

/// What `StatusStore::set` does to the reports: they stay ascending, hold
/// `status` for `id`, and hold for every other reporter what they held.
pub open spec fn recorded(before: Reports, after: Reports, id: Seq<char>, status: StatusView) -> bool {
    ascending(after) && as_map(after) == as_map(before).insert(id, status)
}

/// Ascending reports without the last stay ascending, and map all but the
/// last reporter as before.
pub proof fn lemma_drop_last_report(reports: Reports)
    requires
        ascending(reports),
        reports.len() > 0,
    ensures
        ascending(reports.drop_last()),
        as_map(reports.drop_last()) == as_map(reports).remove(reports.last().0),
{
    let rest = reports.drop_last();
    let last = reports.len() - 1;
    assert forall|i: int, j: int| 0 <= i < j < rest.len() implies id_before(
        #[trigger] rest[i].0,
        #[trigger] rest[j].0,
    ) by {}
    let expected = as_map(reports).remove(reports.last().0);
    assert forall|k: Seq<char>| #[trigger]
        as_map(rest).dom().contains(k) implies expected.dom().contains(k) && as_map(rest)[k]
        == expected[k] by {
        let i = choose|i: int| reported_at(rest, k, i);
        lemma_id_order(k, k, k);
        lemma_lookup(rest, i);
        lemma_lookup(reports, i);
    }
    assert forall|k: Seq<char>| #[trigger]
        expected.dom().contains(k) implies as_map(rest).dom().contains(k) by {
        let i = choose|i: int| reported_at(reports, k, i);
        assert(reported_at(rest, k, i));
    }
}

/// The order of a snapshot is fixed by what the store holds: ascending
/// reports that map the same reporters to the same statuses are the same
/// sequence, in whatever order the statuses were reported.
pub proof fn lemma_reports_determined(a: Reports, b: Reports)
    requires
        ascending(a),
        ascending(b),
        as_map(a) == as_map(b),
    ensures
        a == b,
    decreases a.len(),
{
    if a.len() == 0 || b.len() == 0 {
        if a.len() > 0 {
            lemma_lookup(a, 0);
        }
        if b.len() > 0 {
            lemma_lookup(b, 0);
        }
    } else {
        let la = a.len() - 1;
        let lb = b.len() - 1;
        lemma_lookup(a, la);
        lemma_lookup(b, lb);
        lemma_id_order(a[la].0, b[lb].0, a[la].0);
        lemma_drop_last_report(a);
        lemma_drop_last_report(b);
        lemma_reports_determined(a.drop_last(), b.drop_last());
        assert(a =~= a.drop_last().push(a[la]));
    }
}

/// Two snapshots of the same content consolidate to the same status, and so
/// to the same message.
pub proof fn lemma_message_determined(a: Reports, b: Reports)
    requires
        ascending(a),
        ascending(b),
        as_map(a) == as_map(b),
    ensures
        consolidated(a) == consolidated(b),
{
    lemma_reports_determined(a, b);
}

/// To report the same status a second time changes nothing: neither the
/// reports nor the status they consolidate to.
pub proof fn lemma_report_again(
    before: Reports,
    once: Reports,
    twice: Reports,
    id: Seq<char>,
    status: StatusView,
)
    requires
        recorded(before, once, id, status),
        recorded(once, twice, id, status),
    ensures
        twice == once,
        consolidated(twice) == consolidated(once),
{
    assert(as_map(before).insert(id, status).insert(id, status) =~= as_map(before).insert(
        id,
        status,
    ));
    lemma_reports_determined(once, twice);
}

/// A report never lowers the consolidated state, unless it replaces a more
/// severe report of the same reporter: where the reporter is new, or its
/// new state is at least as severe as its last, the highest state stays or
/// rises.
pub proof fn lemma_state_does_not_fall(
    before: Reports,
    after: Reports,
    id: Seq<char>,
    status: StatusView,
)
    requires
        ascending(before),
        recorded(before, after, id, status),
        has_report(before, id) ==> as_map(before)[id].state.rank() <= status.state.rank(),
    ensures
        highest_state(before).rank() <= highest_state(after).rank(),
        status.state.rank() <= highest_state(after).rank(),
{
    lemma_highest_state_is_max(before);
    lemma_highest_state_is_max(after);
    assert(as_map(after).dom().contains(id));
    let at = choose|j: int| reported_at(after, id, j);
    lemma_lookup(after, at);
    if highest_state(before) != crate::status::ScriptState::lowest() {
        let i = choose|i: int|
            0 <= i < before.len() && (#[trigger] before[i]).1.state == highest_state(before);
        lemma_lookup(before, i);
        if before[i].0 != id {
            assert(as_map(after).dom().contains(before[i].0));
            let j = choose|j: int| reported_at(after, before[i].0, j);
            lemma_lookup(after, j);
        }
    }
}

/// The ids of the writes differ from one another.
pub open spec fn distinct_ids(writes: Reports) -> bool {
    forall|i: int, j: int|
        0 <= i < j < writes.len() ==> (#[trigger] writes[i]).0 != (#[trigger] writes[j]).0
}

/// The mapping after the writes have been recorded one after another.
pub open spec fn after_writes(statuses: Map<Seq<char>, StatusView>, writes: Reports) -> Map<
    Seq<char>,
    StatusView,
>
    decreases writes.len(),
{
    if writes.len() == 0 {
        statuses
    } else {
        after_writes(statuses, writes.drop_last()).insert(writes.last().0, writes.last().1)
    }
}

/// No write is lost: once writes to distinct reporters have all been
/// recorded, in whatever order, the store holds each of them; it holds
/// the reporters it held before and those that wrote, and no others; and a
/// reporter that did not write has the status it had.
pub proof fn lemma_writes_kept(statuses: Map<Seq<char>, StatusView>, writes: Reports)
    requires
        distinct_ids(writes),
    ensures
        forall|i: int|
            0 <= i < writes.len() ==> after_writes(statuses, writes).contains_pair(
                (#[trigger] writes[i]).0,
                writes[i].1,
            ),
        forall|id: Seq<char>| #[trigger]
            after_writes(statuses, writes).contains_key(id) <==> statuses.contains_key(id)
                || has_report(writes, id),
        forall|id: Seq<char>|
            statuses.contains_key(id) && !has_report(writes, id) ==> #[trigger] after_writes(
                statuses,
                writes,
            )[id] == statuses[id],
    decreases writes.len(),
{
    let after = after_writes(statuses, writes);
    if writes.len() > 0 {
        let rest = writes.drop_last();
        let last = writes.len() - 1;
        assert(distinct_ids(rest));
        lemma_writes_kept(statuses, rest);
        assert forall|i: int| 0 <= i < writes.len() implies after.contains_pair(
            (#[trigger] writes[i]).0,
            writes[i].1,
        ) by {
            if i < last {
                assert(rest[i] == writes[i]);
            }
        }
        assert forall|id: Seq<char>| #[trigger]
            after.contains_key(id) <==> statuses.contains_key(id) || has_report(writes, id) by {
            if has_report(rest, id) {
                let i = choose|i: int| reported_at(rest, id, i);
                assert(reported_at(writes, id, i));
            }
            if id == writes[last].0 {
                assert(reported_at(writes, id, last));
            }
            assert(after_writes(statuses, rest).contains_key(id) <==> statuses.contains_key(id)
                || has_report(rest, id));
        }
        assert forall|id: Seq<char>|
            statuses.contains_key(id) && !has_report(writes, id) implies #[trigger] after[id]
            == statuses[id] by {
            if id == writes[last].0 {
                assert(reported_at(writes, id, last));
            }
            if has_report(rest, id) {
                let i = choose|i: int| reported_at(rest, id, i);
                assert(reported_at(writes, id, i));
            }
            assert(after_writes(statuses, rest)[id] == statuses[id]);
        }
    }
}

/// The order in which writes to distinct reporters are recorded does not
/// matter: two orders of the same writes leave the same statuses.
pub proof fn lemma_writes_commute(
    statuses: Map<Seq<char>, StatusView>,
    writes: Reports,
    reordered: Reports,
)
    requires
        distinct_ids(writes),
        distinct_ids(reordered),
        writes.to_multiset() == reordered.to_multiset(),
    ensures
        after_writes(statuses, writes) == after_writes(statuses, reordered),
{
    let a = after_writes(statuses, writes);
    let b = after_writes(statuses, reordered);
    lemma_writes_kept(statuses, writes);
    lemma_writes_kept(statuses, reordered);
    writes.to_multiset_ensures();
    reordered.to_multiset_ensures();
    assert forall|id: Seq<char>| has_report(writes, id) implies has_report(reordered, id) && a[id]
        == b[id] by {
        let i = choose|i: int| reported_at(writes, id, i);
        assert(reordered.to_multiset().count(writes[i]) > 0);
        let j = choose|j: int| 0 <= j < reordered.len() && reordered[j] == writes[i];
        assert(reported_at(reordered, id, j));
    }
    assert forall|id: Seq<char>| has_report(reordered, id) implies has_report(writes, id) by {
        let j = choose|j: int| reported_at(reordered, id, j);
        assert(writes.to_multiset().count(reordered[j]) > 0);
        let i = choose|i: int| 0 <= i < writes.len() && writes[i] == reordered[j];
        assert(reported_at(writes, id, i));
    }
    assert(a =~= b);
}

/// Puts the report of `id` where its id belongs among ascending entries,
/// in place of an earlier report of `id` if there is one.
fn upsert(entries: &mut Vec<(String, ScriptStatus)>, id: String, status: ScriptStatus)
    requires
        ascending(old(entries).deep_view()),
    ensures
        recorded(old(entries).deep_view(), final(entries).deep_view(), id@, status@),
{
    let ghost before = entries.deep_view();
    let mut at: usize = 0;
    while at < entries.len()
        invariant
            0 <= at <= entries.len(),
            entries.deep_view() == before,
            old(entries).deep_view() == before,
            ascending(before),
            forall|i: int| 0 <= i < at ==> id_before(#[trigger] before[i].0, id@),
        decreases entries.len() - at,
    {
        match compare_ids(&entries[at].0, &id) {
            IdOrder::Before => {
                at += 1;
            },
            IdOrder::Same => {
                proof {
                    lemma_replace_report(before, at as int, status@);
                }
                let ghost changed = before.update(at as int, (id@, status@));
                entries.set(at, (id, status));
                assert(entries.deep_view() =~= changed);
                return ;
            },
            IdOrder::After => {
                proof {
                    assert forall|i: int| at <= i < before.len() implies id_before(
                        id@,
                        #[trigger] before[i].0,
                    ) by {
                        if at < i {
                            lemma_id_order(id@, before[at as int].0, before[i].0);
                        }
                    }
                    lemma_insert_report(before, at as int, id@, status@);
                }
                let ghost grown = before.insert(at as int, (id@, status@));
                entries.insert(at, (id, status));
                assert(entries.deep_view() =~= grown);
                return ;
            },
        }
    }
    proof {
        lemma_insert_report(before, at as int, id@, status@);
    }
    let ghost grown = before.insert(at as int, (id@, status@));
    entries.insert(at, (id, status));
    assert(entries.deep_view() =~= grown);
}

/// The last reported status of each reporter.
pub struct StatusStore {
    entries: Vec<(String, ScriptStatus)>,
}

impl View for StatusStore {
    type V = Map<Seq<char>, StatusView>;

    /// The store as a mapping from reporter id to status.
    open spec fn view(&self) -> Map<Seq<char>, StatusView> {
        as_map(self.reports())
    }
}

impl StatusStore {
    /// The reports that the store holds, in the order of its snapshots.
    pub closed spec fn reports(&self) -> Reports {
        self.entries.deep_view()
    }

    /// The store's invariant: its reports ascend by reporter id.
    #[verifier::type_invariant]
    spec fn ascends(&self) -> bool {
        ascending(self.entries.deep_view())
    }

    /// A store without reports.
    pub fn new() -> (r: Self)
        ensures
            r.reports() == Reports::empty(),
            r@ == Map::<Seq<char>, StatusView>::empty(),
    {
        StatusStore { entries: Vec::new() }
    }

    /// The number of reporters that have reported.
    pub fn len(&self) -> (n: usize)
        ensures
            n == self.reports().len(),
    {
        self.entries.len()
    }

    /// Records `status` as the last report of `id`, in place of an earlier
    /// one if there is one. The other reporters keep their statuses.
    pub fn set(&mut self, id: String, status: ScriptStatus)
        ensures
            final(self)@ == old(self)@.insert(id@, status@),
            recorded(old(self).reports(), final(self).reports(), id@, status@),
    {
        proof {
            use_type_invariant(&*self);
        }
        let mut entries: Vec<(String, ScriptStatus)> = Vec::new();
        std::mem::swap(&mut self.entries, &mut entries);
        upsert(&mut entries, id, status);
        self.entries = entries;
    }

    /// A copy of the reports as they stand, in ascending order of the
    /// reporter ids. Later changes of the store do not reach it.
    pub fn snapshot(&self) -> (r: Vec<(String, ScriptStatus)>)
        ensures
            r.deep_view() == self.reports(),
            ascending(self.reports()),
    {
        proof {
            use_type_invariant(self);
        }
        let mut copy: Vec<(String, ScriptStatus)> = Vec::new();
        let mut i: usize = 0;
        while i < self.entries.len()
            invariant
                0 <= i <= self.entries.len(),
                copy.len() == i,
                copy.deep_view() =~= self.entries.deep_view().take(i as int),
            decreases self.entries.len() - i,
        {
            let entry = &self.entries[i];
            copy.push((entry.0.clone(), entry.1.clone()));
            i += 1;
        }
        copy
    }
}

} // verus!
