//! What the table of best values says of the events it was built from: each
//! best value bounds every value its team had, and the event recorded beside
//! it is the first event at which the team reached it.
use vstd::prelude::*;

use crate::rankings::{
    events_well_sized, find_team, improve, fresh_best, merge_entries, merge_entry, merge_events,
    records_wf, stats_well_sized, Best, COMPONENTS,
};

verus! {

/// Every value that `r`'s team had at any event is at most `r`'s best.
pub open spec fn entry_bounded(evs: Seq<(Seq<char>, Seq<(i32, Seq<i64>)>)>, r: Best) -> bool {
    forall|e: int, x: int|
        0 <= e < evs.len() && 0 <= x < evs[e].1.len() && (#[trigger] evs[e].1[x]).0 == r.team
            ==> forall|k: int| 0 <= k < COMPONENTS ==> evs[e].1[x].1[k] <= r.values[k]
}

/// The `k`-th best value of `r` was reached at an event with the code
/// recorded beside it, and at no earlier event did the team reach it.
pub open spec fn first_reached_at(evs: Seq<(Seq<char>, Seq<(i32, Seq<i64>)>)>, r: Best, k: int) -> bool {
    exists|e: int, x: int|
        #![trigger evs[e].1[x]]
        0 <= e < evs.len() && 0 <= x < evs[e].1.len() && evs[e].1[x].0 == r.team && evs[e].0
            == r.events[k] && evs[e].1[x].1[k] == r.values[k] && forall|e2: int, x2: int|
            0 <= e2 < e && 0 <= x2 < evs[e2].1.len() && (#[trigger] evs[e2].1[x2]).0 == r.team
                ==> evs[e2].1[x2].1[k] < r.values[k]
}

/// Some record is of `team`.
pub open spec fn has_record(recs: Seq<Best>, team: i32) -> bool {
    exists|i: int| 0 <= i < recs.len() && (#[trigger] recs[i]).team == team
}

/// Every team of every event has a record.
pub open spec fn covered(evs: Seq<(Seq<char>, Seq<(i32, Seq<i64>)>)>, recs: Seq<Best>) -> bool {
    forall|e: int, x: int|
        0 <= e < evs.len() && 0 <= x < evs[e].1.len() ==> has_record(recs, (#[trigger] evs[e].1[x]).0)
}

/// What the records say of the events.
pub open spec fn describes(evs: Seq<(Seq<char>, Seq<(i32, Seq<i64>)>)>, recs: Seq<Best>) -> bool {
    &&& records_wf(recs)
    &&& covered(evs, recs)
    &&& forall|i: int| 0 <= i < recs.len() ==> entry_bounded(evs, #[trigger] recs[i])
    &&& forall|i: int, k: int|
        0 <= i < recs.len() && 0 <= k < COMPONENTS ==> #[trigger] first_reached_at(evs, recs[i], k)
}

/// The earlier events, then the first `m` entries of the event being merged.
pub open spec fn partial_events(
    prev: Seq<(Seq<char>, Seq<(i32, Seq<i64>)>)>,
    code: Seq<char>,
    entries: Seq<(i32, Seq<i64>)>,
    m: int,
) -> Seq<(Seq<char>, Seq<(i32, Seq<i64>)>)> {
    prev.push((code, entries.take(m)))
}

proof fn lemma_partial_events(
    prev: Seq<(Seq<char>, Seq<(i32, Seq<i64>)>)>,
    code: Seq<char>,
    entries: Seq<(i32, Seq<i64>)>,
    m: int,
)
    requires
        0 <= m < entries.len(),
    ensures
        partial_events(prev, code, entries, m).len() == prev.len() + 1,
        partial_events(prev, code, entries, m + 1).len() == prev.len() + 1,
        forall|e: int| 0 <= e < prev.len() ==> #[trigger] partial_events(prev, code, entries, m + 1)[e] == prev[e]
            && partial_events(prev, code, entries, m)[e] == prev[e],
        partial_events(prev, code, entries, m)[prev.len() as int] == (code, entries.take(m)),
        partial_events(prev, code, entries, m + 1)[prev.len() as int] == (code, entries.take(m + 1)),
        entries.take(m + 1).len() == m + 1,
        forall|x: int| 0 <= x < m ==> #[trigger] entries.take(m + 1)[x] == entries.take(m)[x],
        entries.take(m + 1)[m] == entries[m],
{
}

/// A record of another team says the same of the events after the entry.
proof fn lemma_step_other(
    prev: Seq<(Seq<char>, Seq<(i32, Seq<i64>)>)>,
    code: Seq<char>,
    entries: Seq<(i32, Seq<i64>)>,
    m: int,
    r: Best,
)
    requires
        0 <= m < entries.len(),
        entries[m].0 != r.team,
        entry_bounded(partial_events(prev, code, entries, m), r),
        forall|k: int| 0 <= k < COMPONENTS ==> #[trigger] first_reached_at(partial_events(prev, code, entries, m), r, k),
    ensures
        entry_bounded(partial_events(prev, code, entries, m + 1), r),
        forall|k: int| 0 <= k < COMPONENTS ==> #[trigger] first_reached_at(partial_events(prev, code, entries, m + 1), r, k),
{
    let a = partial_events(prev, code, entries, m);
    let b = partial_events(prev, code, entries, m + 1);
    let last = prev.len() as int;
    lemma_partial_events(prev, code, entries, m);
    assert forall|e: int, x: int|
        0 <= e < b.len() && 0 <= x < b[e].1.len() && (#[trigger] b[e].1[x]).0 == r.team implies forall|
            k: int,
        | 0 <= k < COMPONENTS ==> b[e].1[x].1[k] <= r.values[k] by {
        if e < last {
            assert(b[e] == a[e]);
            assert(a[e].1[x].0 == r.team);
        } else {
            assert(x < m);
            assert(b[e].1[x] == a[e].1[x]);
            assert(a[e].1[x].0 == r.team);
        }
    }
    assert forall|k: int| 0 <= k < COMPONENTS implies #[trigger] first_reached_at(b, r, k) by {
        assert(first_reached_at(a, r, k));
        let (e, x) = choose|e: int, x: int|
            #![trigger a[e].1[x]]
            0 <= e < a.len() && 0 <= x < a[e].1.len() && a[e].1[x].0 == r.team && a[e].0 == r.events[k]
                && a[e].1[x].1[k] == r.values[k] && forall|e2: int, x2: int|
                0 <= e2 < e && 0 <= x2 < a[e2].1.len() && (#[trigger] a[e2].1[x2]).0 == r.team ==> a[e2].1[x2].1[k]
                    < r.values[k];
        assert(b[e].1[x] == a[e].1[x]);
        assert(b[e].0 == a[e].0);
        assert forall|e2: int, x2: int|
            0 <= e2 < e && 0 <= x2 < b[e2].1.len() && (#[trigger] b[e2].1[x2]).0 == r.team implies b[e2].1[x2].1[k]
            < r.values[k] by {
            assert(b[e2] == a[e2]);
            assert(a[e2].1[x2].0 == r.team);
        }
    }
}

/// The record of the entry's team, after the entry.
proof fn lemma_step_improved(
    prev: Seq<(Seq<char>, Seq<(i32, Seq<i64>)>)>,
    code: Seq<char>,
    entries: Seq<(i32, Seq<i64>)>,
    m: int,
    r: Best,
)
    requires
        0 <= m < entries.len(),
        entries[m].0 == r.team,
        entries[m].1.len() == COMPONENTS,
        r.values.len() == COMPONENTS,
        r.events.len() == COMPONENTS,
        entry_bounded(partial_events(prev, code, entries, m), r),
        forall|k: int| 0 <= k < COMPONENTS ==> #[trigger] first_reached_at(partial_events(prev, code, entries, m), r, k),
    ensures
        entry_bounded(partial_events(prev, code, entries, m + 1), improve(r, entries[m].1, code)),
        forall|k: int|
            0 <= k < COMPONENTS ==> #[trigger] first_reached_at(
                partial_events(prev, code, entries, m + 1),
                improve(r, entries[m].1, code),
                k,
            ),
{
    let a = partial_events(prev, code, entries, m);
    let b = partial_events(prev, code, entries, m + 1);
    let last = prev.len() as int;
    let v = entries[m].1;
    let n = improve(r, v, code);
    lemma_partial_events(prev, code, entries, m);
    assert forall|e: int, x: int|
        0 <= e < b.len() && 0 <= x < b[e].1.len() && (#[trigger] b[e].1[x]).0 == n.team implies forall|
            k: int,
        | 0 <= k < COMPONENTS ==> b[e].1[x].1[k] <= n.values[k] by {
        if e < last {
            assert(b[e] == a[e]);
            assert(a[e].1[x].0 == r.team);
        } else if x < m {
            assert(b[e].1[x] == a[e].1[x]);
            assert(a[e].1[x].0 == r.team);
        } else {
            assert(b[e].1[x] == entries[m]);
        }
    }
    assert forall|k: int| 0 <= k < COMPONENTS implies #[trigger] first_reached_at(b, n, k) by {
        assert(first_reached_at(a, r, k));
        if v[k] > r.values[k] {
            assert(b[last].1[m] == entries[m]);
            assert(b[last].0 == code);
            assert forall|e2: int, x2: int|
                0 <= e2 < last && 0 <= x2 < b[e2].1.len() && (#[trigger] b[e2].1[x2]).0 == n.team implies b[e2].1[x2].1[k]
                < n.values[k] by {
                assert(b[e2] == a[e2]);
                assert(a[e2].1[x2].0 == r.team);
            }
            assert(b[last].1[m].1[k] == n.values[k]);
        } else {
            let (e, x) = choose|e: int, x: int|
                #![trigger a[e].1[x]]
                0 <= e < a.len() && 0 <= x < a[e].1.len() && a[e].1[x].0 == r.team && a[e].0 == r.events[k]
                    && a[e].1[x].1[k] == r.values[k] && forall|e2: int, x2: int|
                    0 <= e2 < e && 0 <= x2 < a[e2].1.len() && (#[trigger] a[e2].1[x2]).0 == r.team ==> a[e2].1[x2].1[k]
                        < r.values[k];
            assert(b[e].1[x] == a[e].1[x]);
            assert(b[e].0 == a[e].0);
            assert forall|e2: int, x2: int|
                0 <= e2 < e && 0 <= x2 < b[e2].1.len() && (#[trigger] b[e2].1[x2]).0 == n.team implies b[e2].1[x2].1[k]
                < n.values[k] by {
                assert(b[e2] == a[e2]);
                assert(a[e2].1[x2].0 == r.team);
            }
        }
    }
}

/// The record of a team seen for the first time.
proof fn lemma_step_fresh(
    prev: Seq<(Seq<char>, Seq<(i32, Seq<i64>)>)>,
    code: Seq<char>,
    entries: Seq<(i32, Seq<i64>)>,
    m: int,
)
    requires
        0 <= m < entries.len(),
        entries[m].1.len() == COMPONENTS,
        forall|e: int, x: int|
            0 <= e < partial_events(prev, code, entries, m).len() && 0 <= x < partial_events(
                prev,
                code,
                entries,
                m,
            )[e].1.len() ==> (#[trigger] partial_events(prev, code, entries, m)[e].1[x]).0 != entries[m].0,
    ensures
        entry_bounded(partial_events(prev, code, entries, m + 1), fresh_best(entries[m].0, entries[m].1, code)),
        forall|k: int|
            0 <= k < COMPONENTS ==> #[trigger] first_reached_at(
                partial_events(prev, code, entries, m + 1),
                fresh_best(entries[m].0, entries[m].1, code),
                k,
            ),
{
    let a = partial_events(prev, code, entries, m);
    let b = partial_events(prev, code, entries, m + 1);
    let last = prev.len() as int;
    let n = fresh_best(entries[m].0, entries[m].1, code);
    lemma_partial_events(prev, code, entries, m);
    assert forall|e: int, x: int|
        0 <= e < b.len() && 0 <= x < b[e].1.len() && (#[trigger] b[e].1[x]).0 == n.team implies forall|
            k: int,
        | 0 <= k < COMPONENTS ==> b[e].1[x].1[k] <= n.values[k] by {
        if e < last {
            assert(b[e] == a[e]);
            assert(a[e].1[x].0 != n.team);
        } else if x < m {
            assert(b[e].1[x] == a[e].1[x]);
            assert(a[e].1[x].0 != n.team);
        } else {
            assert(b[e].1[x] == entries[m]);
        }
    }
    assert forall|k: int| 0 <= k < COMPONENTS implies #[trigger] first_reached_at(b, n, k) by {
        assert(b[last].1[m] == entries[m]);
        assert(b[last].0 == code);
        assert forall|e2: int, x2: int|
            0 <= e2 < last && 0 <= x2 < b[e2].1.len() && (#[trigger] b[e2].1[x2]).0 == n.team implies b[e2].1[x2].1[k]
            < n.values[k] by {
            assert(b[e2] == a[e2]);
            assert(a[e2].1[x2].0 != n.team);
        }
    }
}

/// One entry keeps the records describing the events, the entry included.
proof fn lemma_step(
    prev: Seq<(Seq<char>, Seq<(i32, Seq<i64>)>)>,
    code: Seq<char>,
    entries: Seq<(i32, Seq<i64>)>,
    m: int,
    recs: Seq<Best>,
)
    requires
        0 <= m < entries.len(),
        stats_well_sized(entries),
        describes(partial_events(prev, code, entries, m), recs),
    ensures
        describes(
            partial_events(prev, code, entries, m + 1),
            merge_entry(recs, code, entries[m].0, entries[m].1),
        ),
{
    let a = partial_events(prev, code, entries, m);
    let b = partial_events(prev, code, entries, m + 1);
    let last = prev.len() as int;
    let (t, v) = entries[m];
    assert(v.len() == COMPONENTS);
    let after = merge_entry(recs, code, t, v);
    let f = find_team(recs, t);
    lemma_partial_events(prev, code, entries, m);
    crate::rankings::lemma_merge_entry_wf(recs, code, t, v);
    if f >= 0 {
        assert(0 <= f < recs.len() && recs[f].team == t);
        assert forall|i: int| 0 <= i < after.len() implies entry_bounded(b, #[trigger] after[i]) && forall|k: int|
            0 <= k < COMPONENTS ==> #[trigger] first_reached_at(b, after[i], k) by {
            assert(entry_bounded(a, recs[i]));
            assert forall|k: int| 0 <= k < COMPONENTS implies #[trigger] first_reached_at(a, recs[i], k) by {
                assert(first_reached_at(a, recs[i], k));
            }
            if i == f {
                lemma_step_improved(prev, code, entries, m, recs[i]);
            } else {
                assert(recs[i].team != t);
                assert(after[i] == recs[i]);
                lemma_step_other(prev, code, entries, m, recs[i]);
            }
        }
        assert forall|e: int, x: int| 0 <= e < b.len() && 0 <= x < b[e].1.len() implies has_record(after, (#[trigger] b[e].1[x]).0) by {
            if e == last && x == m {
                assert(b[e].1[x] == entries[m]);
                assert(after[f].team == t);
            } else {
                if e < last {
                    assert(b[e] == a[e]);
                } else {
                    assert(b[e].1[x] == a[e].1[x]);
                }
                assert(has_record(recs, a[e].1[x].0));
                let i = choose|i: int| 0 <= i < recs.len() && (#[trigger] recs[i]).team == a[e].1[x].0;
                assert(after[i].team == recs[i].team);
            }
        }
    } else {
        assert forall|e: int, x: int|
            0 <= e < a.len() && 0 <= x < a[e].1.len() implies (#[trigger] a[e].1[x]).0 != t by {
            if a[e].1[x].0 == t {
                assert(has_record(recs, a[e].1[x].0));
                let i = choose|i: int| 0 <= i < recs.len() && (#[trigger] recs[i]).team == a[e].1[x].0;
                assert(recs[i].team != t);
            }
        }
        lemma_step_fresh(prev, code, entries, m);
        let n = recs.len() as int;
        assert forall|i: int| 0 <= i < after.len() implies entry_bounded(b, #[trigger] after[i]) && forall|k: int|
            0 <= k < COMPONENTS ==> #[trigger] first_reached_at(b, after[i], k) by {
            if i == n {
                assert(after[i] == fresh_best(t, v, code));
            } else {
                assert(after[i] == recs[i]);
                assert(recs[i].team != t);
                assert(entry_bounded(a, recs[i]));
                assert forall|k: int| 0 <= k < COMPONENTS implies #[trigger] first_reached_at(a, recs[i], k) by {
                    assert(first_reached_at(a, recs[i], k));
                }
                lemma_step_other(prev, code, entries, m, recs[i]);
            }
        }
        assert forall|e: int, x: int| 0 <= e < b.len() && 0 <= x < b[e].1.len() implies has_record(after, (#[trigger] b[e].1[x]).0) by {
            if e == last && x == m {
                assert(b[e].1[x] == entries[m]);
                assert(after[n].team == t);
            } else {
                if e < last {
                    assert(b[e] == a[e]);
                } else {
                    assert(b[e].1[x] == a[e].1[x]);
                }
                assert(has_record(recs, a[e].1[x].0));
                let i = choose|i: int| 0 <= i < recs.len() && (#[trigger] recs[i]).team == a[e].1[x].0;
                assert(after[i].team == recs[i].team);
            }
        }
    }
}

/// Merging the first `m` entries of an event keeps the records describing
/// the events merged so far.
proof fn lemma_merge_entries_describes(
    prev: Seq<(Seq<char>, Seq<(i32, Seq<i64>)>)>,
    code: Seq<char>,
    entries: Seq<(i32, Seq<i64>)>,
    m: int,
    recs: Seq<Best>,
)
    requires
        0 <= m <= entries.len(),
        stats_well_sized(entries),
        describes(partial_events(prev, code, entries, 0), recs),
    ensures
        describes(partial_events(prev, code, entries, m), merge_entries(recs, code, entries.take(m))),
    decreases m,
{
    if m == 0 {
        assert(entries.take(0) =~= Seq::<(i32, Seq<i64>)>::empty());
    } else {
        lemma_merge_entries_describes(prev, code, entries, m - 1, recs);
        assert(entries.take(m).drop_last() =~= entries.take(m - 1));
        assert(entries.take(m).last() == entries[m - 1]);
        lemma_step(prev, code, entries, m - 1, merge_entries(recs, code, entries.take(m - 1)));
    }
}

/// Records that describe some events describe them with one more event that
/// has no entry yet.
proof fn lemma_describes_empty_event(
    prev: Seq<(Seq<char>, Seq<(i32, Seq<i64>)>)>,
    code: Seq<char>,
    entries: Seq<(i32, Seq<i64>)>,
    recs: Seq<Best>,
)
    requires
        describes(prev, recs),
    ensures
        describes(partial_events(prev, code, entries, 0), recs),
{
    let b = partial_events(prev, code, entries, 0);
    let last = prev.len() as int;
    assert(b[last].1 =~= Seq::<(i32, Seq<i64>)>::empty());
    assert forall|e: int| 0 <= e < last implies #[trigger] b[e] == prev[e] by {}
    assert forall|i: int| 0 <= i < recs.len() implies entry_bounded(b, #[trigger] recs[i]) by {
        assert(entry_bounded(prev, recs[i]));
        assert forall|e: int, x: int|
            0 <= e < b.len() && 0 <= x < b[e].1.len() && (#[trigger] b[e].1[x]).0 == recs[i].team implies forall|
                k: int,
            | 0 <= k < COMPONENTS ==> b[e].1[x].1[k] <= recs[i].values[k] by {
            assert(b[e] == prev[e]);
            assert(prev[e].1[x].0 == recs[i].team);
        }
    }
    assert forall|i: int, k: int|
        0 <= i < recs.len() && 0 <= k < COMPONENTS implies #[trigger] first_reached_at(b, recs[i], k) by {
        assert(first_reached_at(prev, recs[i], k));
        let r = recs[i];
        let (e, x) = choose|e: int, x: int|
            #![trigger prev[e].1[x]]
            0 <= e < prev.len() && 0 <= x < prev[e].1.len() && prev[e].1[x].0 == r.team && prev[e].0
                == r.events[k] && prev[e].1[x].1[k] == r.values[k] && forall|e2: int, x2: int|
                0 <= e2 < e && 0 <= x2 < prev[e2].1.len() && (#[trigger] prev[e2].1[x2]).0 == r.team
                    ==> prev[e2].1[x2].1[k] < r.values[k];
        assert(b[e] == prev[e]);
        assert forall|e2: int, x2: int|
            0 <= e2 < e && 0 <= x2 < b[e2].1.len() && (#[trigger] b[e2].1[x2]).0 == r.team implies b[e2].1[x2].1[k]
            < r.values[k] by {
            assert(b[e2] == prev[e2]);
            assert(prev[e2].1[x2].0 == r.team);
        }
    }
    assert forall|e: int, x: int| 0 <= e < b.len() && 0 <= x < b[e].1.len() implies has_record(recs, (#[trigger] b[e].1[x]).0) by {
        assert(b[e] == prev[e]);
        assert(has_record(recs, prev[e].1[x].0));
    }
}

/// The table built from the events describes them: one record per team seen
/// and none other; each best value at least every value the team had at any
/// event; and each recorded event the first at which the team reached that
/// best value.
pub proof fn law_best_table_describes_events(evs: Seq<(Seq<char>, Seq<(i32, Seq<i64>)>)>)
    requires
        events_well_sized(evs),
    ensures
        describes(evs, merge_events(evs)),
    decreases evs.len(),
{
    if evs.len() == 0 {
        assert(describes(evs, Seq::<Best>::empty()));
    } else {
        let prev = evs.drop_last();
        assert(events_well_sized(prev));
        law_best_table_describes_events(prev);
        let (code, entries) = evs.last();
        assert(evs.last() == evs[evs.len() - 1]);
        assert(stats_well_sized(entries));
        lemma_describes_empty_event(prev, code, entries, merge_events(prev));
        lemma_merge_entries_describes(prev, code, entries, entries.len() as int, merge_events(prev));
        assert(entries.take(entries.len() as int) =~= entries);
        assert(partial_events(prev, code, entries, entries.len() as int) =~= evs);
    }
}

} // verus!
