//! Season-wide insights: each team's best component values over all events,
//! the event at which each was reached, and how many teams each best value
//! beats, over all teams and within the team's own district.
//!
//! A component value is held as an order key: an integer that orders the
//! values as the numbers they stand for are ordered.
use vstd::prelude::*;

use crate::team_table::TeamTable;
use crate::text::string_views;

verus! {

/// The number of components per team: OPR, driver-controlled cones,
/// autonomous cones, driver-controlled OPR, autonomous OPR, penalty OPR.
pub const COMPONENTS: usize = 6;

/// One team's component values at one event.
pub struct TeamStats {
    pub team: i32,
    pub values: Vec<i64>,
}

/// The component values of every team at one event.
pub struct EventStats {
    pub eventcode: String,
    pub teams: Vec<TeamStats>,
}

/// A team's best value of each component so far, and the event of each.
pub struct BestRecord {
    pub team: i32,
    pub values: Vec<i64>,
    pub events: Vec<String>,
}

/// The mathematical form of a [`BestRecord`].
pub struct Best {
    pub team: i32,
    pub values: Seq<i64>,
    pub events: Seq<Seq<char>>,
}

impl View for BestRecord {
    type V = Best;

    open spec fn view(&self) -> Best {
        Best { team: self.team, values: self.values@, events: string_views(self.events@) }
    }
}

/// The view of an event's entries: (team, values) pairs.
pub open spec fn stats_view(stats: Seq<TeamStats>) -> Seq<(i32, Seq<i64>)> {
    stats.map_values(|s: TeamStats| (s.team, s.values@))
}

/// Every entry has one value per component.
pub open spec fn stats_well_sized(stats: Seq<(i32, Seq<i64>)>) -> bool {
    forall|i: int| 0 <= i < stats.len() ==> (#[trigger] stats[i]).1.len() == COMPONENTS
}

/// No two records are of the same team, and each has one value and one
/// event per component.
pub open spec fn records_wf(recs: Seq<Best>) -> bool {
    &&& forall|i: int, j: int|
        0 <= i < recs.len() && 0 <= j < recs.len() && i != j ==> (#[trigger] recs[i]).team
            != (#[trigger] recs[j]).team
    &&& forall|i: int|
        0 <= i < recs.len() ==> (#[trigger] recs[i]).values.len() == COMPONENTS
            && recs[i].events.len() == COMPONENTS
}

/// The position of `team`'s record, or -1.
pub open spec fn find_team(recs: Seq<Best>, team: i32) -> int {
    if exists|i: int| 0 <= i < recs.len() && (#[trigger] recs[i]).team == team {
        choose|i: int| 0 <= i < recs.len() && (#[trigger] recs[i]).team == team
    } else {
        -1
    }
}

/// A team seen for the first time: every value is best, reached at `code`.
pub open spec fn fresh_best(team: i32, values: Seq<i64>, code: Seq<char>) -> Best {
    Best { team, values, events: Seq::new(values.len(), |k: int| code) }
}

/// A record after the team reached `values` at `code`: a component is
/// replaced where the new value is strictly greater.
pub open spec fn improve(rec: Best, values: Seq<i64>, code: Seq<char>) -> Best {
    Best {
        team: rec.team,
        values: Seq::new(
            rec.values.len(),
            |k: int|
                if values[k] > rec.values[k] {
                    values[k]
                } else {
                    rec.values[k]
                },
        ),
        events: Seq::new(
            rec.values.len(),
            |k: int|
                if values[k] > rec.values[k] {
                    code
                } else {
                    rec.events[k]
                },
        ),
    }
}

/// The records after one entry of an event.
pub open spec fn merge_entry(recs: Seq<Best>, code: Seq<char>, team: i32, values: Seq<i64>) -> Seq<
    Best,
> {
    let i = find_team(recs, team);
    if i >= 0 {
        recs.update(i, improve(recs[i], values, code))
    } else {
        recs.push(fresh_best(team, values, code))
    }
}

/// The records after the entries of one event, taken in order.
pub open spec fn merge_entries(recs: Seq<Best>, code: Seq<char>, entries: Seq<(i32, Seq<i64>)>) -> Seq<
    Best,
>
    decreases entries.len(),
{
    if entries.len() == 0 {
        recs
    } else {
        let before = merge_entries(recs, code, entries.drop_last());
        merge_entry(before, code, entries.last().0, entries.last().1)
    }
}

/// The view of a sequence of events: (event code, entries) pairs.
pub open spec fn events_view(events: Seq<EventStats>) -> Seq<(Seq<char>, Seq<(i32, Seq<i64>)>)> {
    events.map_values(|e: EventStats| (e.eventcode@, stats_view(e.teams@)))
}

/// The records after the given events, taken in order, from no records.
pub open spec fn merge_events(events: Seq<(Seq<char>, Seq<(i32, Seq<i64>)>)>) -> Seq<Best>
    decreases events.len(),
{
    if events.len() == 0 {
        Seq::empty()
    } else {
        merge_entries(merge_events(events.drop_last()), events.last().0, events.last().1)
    }
}

/// The number of records whose `k`-th value is below `v`.
pub open spec fn rank_count(recs: Seq<Best>, k: int, v: i64) -> nat
    decreases recs.len(),
{
    if recs.len() == 0 {
        0
    } else {
        rank_count(recs.drop_last(), k, v) + if recs.last().values[k] < v {
            1nat
        } else {
            0nat
        }
    }
}

/// The number of records of teams in district `d` whose `k`-th value is
/// below `v`.
pub open spec fn district_rank_count(
    recs: Seq<Best>,
    districts: Map<i32, Seq<char>>,
    d: Seq<char>,
    k: int,
    v: i64,
) -> nat
    decreases recs.len(),
{
    if recs.len() == 0 {
        0
    } else {
        district_rank_count(recs.drop_last(), districts, d, k, v) + if districts[recs.last().team]
            == d && recs.last().values[k] < v {
            1nat
        } else {
            0nat
        }
    }
}

/// The best values of every team over the events merged so far.
pub struct BestTable {
    records: Vec<BestRecord>,
}

/// One row of season-wide insights for a team.
pub struct GeneralInsight {
    pub team: i32,
    pub team_name: String,
    pub district: String,
    /// The team's best value of each component.
    pub values: Vec<i64>,
    /// The event at which each best value was first reached.
    pub events: Vec<String>,
    /// For each component, how many teams' best values are below this one.
    pub global_ranks: Vec<usize>,
    /// As `global_ranks`, counting only teams of the same district.
    pub district_ranks: Vec<usize>,
}

impl BestTable {
    /// The records, in the order in which the teams were first seen.
    pub closed spec fn records_view(&self) -> Seq<Best> {
        self.records@.map_values(|r: BestRecord| r@)
    }

    /// The table is well formed.
    pub open spec fn wf(&self) -> bool {
        records_wf(self@)
    }

    /// A table with no team.
    pub fn new() -> (t: BestTable)
        ensures
            t@ == Seq::<Best>::empty(),
            t.wf(),
    {
        let t = BestTable { records: Vec::new() };
        assert(t.records_view() =~= Seq::<Best>::empty());
        t
    }

    /// The number of teams.
    pub fn len(&self) -> (n: usize)
        ensures
            n == self@.len(),
    {
        self.records.len()
    }

    /// The record at position `i`.
    pub fn record(&self, i: usize) -> (r: &BestRecord)
        requires
            i < self@.len(),
        ensures
            r@ == self@[i as int],
    {
        &self.records[i]
    }

    /// The position of `team`'s record.
    fn position(&self, team: i32) -> (res: Option<usize>)
        requires
            self.wf(),
        ensures
            match res {
                Some(i) => find_team(self@, team) == i,
                None => find_team(self@, team) == -1,
            },
    {
        let n = self.records.len();
        for i in 0..n
            invariant
                n == self@.len(),
                n == self.records@.len(),
                self.wf(),
                forall|j: int| 0 <= j < i ==> (#[trigger] self@[j]).team != team,
        {
            assert(self@[i as int] == self.records@[i as int]@);
            if self.records[i].team == team {
                proof {
                    assert(self@[i as int].team == team);
                    assert(exists|j: int| 0 <= j < self@.len() && (#[trigger] self@[j]).team == team);
                    let c = choose|j: int| 0 <= j < self@.len() && (#[trigger] self@[j]).team == team;
                    if c != i {
                        assert(self@[c].team != self@[i as int].team);
                        assert(false);
                    }
                }
                return Some(i);
            }
        }
        None
    }

    /// Takes one team's values at event `code` into the table.
    fn merge_entry(&mut self, code: &String, stats: &TeamStats)
        requires
            old(self).wf(),
            stats.values@.len() == COMPONENTS,
        ensures
            final(self).wf(),
            final(self)@ == merge_entry(old(self)@, code@, stats.team, stats.values@),
    {
        let ghost old_view = self@;
        match self.position(stats.team) {
            Some(i) => {
                let rec = improve_record(&self.records[i], &stats.values, code);
                self.records.set(i, rec);
                proof {
                    assert(self@ =~= old_view.update(
                        i as int,
                        improve(old_view[i as int], stats.values@, code@),
                    ));
                }
            },
            None => {
                let rec = fresh_record(stats.team, &stats.values, code);
                self.records.push(rec);
                proof {
                    assert(self@ =~= old_view.push(fresh_best(stats.team, stats.values@, code@)));
                    assert forall|j: int| 0 <= j < old_view.len() implies old_view[j].team
                        != stats.team by {
                        if old_view[j].team == stats.team {
                            assert(exists|i: int|
                                0 <= i < old_view.len() && (#[trigger] old_view[i]).team
                                    == stats.team);
                        }
                    }
                }
            },
        }
    }

    /// Takes every team's values at one event into the table, team by team.
    pub fn merge_event(&mut self, event: &EventStats)
        requires
            old(self).wf(),
            stats_well_sized(stats_view(event.teams@)),
        ensures
            final(self).wf(),
            final(self)@ == merge_entries(old(self)@, event.eventcode@, stats_view(event.teams@)),
    {
        let ghost start = self@;
        let ghost entries = stats_view(event.teams@);
        let n = event.teams.len();
        for i in 0..n
            invariant
                n == event.teams@.len(),
                entries == stats_view(event.teams@),
                stats_well_sized(entries),
                self.wf(),
                self@ == merge_entries(start, event.eventcode@, entries.take(i as int)),
        {
            assert(entries.take(i + 1).drop_last() =~= entries.take(i as int));
            assert(entries[i as int].1.len() == COMPONENTS);
            self.merge_entry(&event.eventcode, &event.teams[i]);
        }
        assert(entries.take(n as int) =~= entries);
    }

    /// The table of best values over the given events, taken in order.
    pub fn from_events(events: &Vec<EventStats>) -> (t: BestTable)
        requires
            forall|e: int| 0 <= e < events@.len() ==> stats_well_sized(stats_view(#[trigger] events@[e].teams@)),
        ensures
            t.wf(),
            t@ == merge_events(events_view(events@)),
    {
        let mut t = BestTable::new();
        let ghost ev = events_view(events@);
        let n = events.len();
        for i in 0..n
            invariant
                n == events@.len(),
                ev == events_view(events@),
                forall|e: int| 0 <= e < events@.len() ==> stats_well_sized(stats_view(#[trigger] events@[e].teams@)),
                t.wf(),
                t@ == merge_events(ev.take(i as int)),
        {
            assert(ev.take(i + 1).drop_last() =~= ev.take(i as int));
            t.merge_event(&events[i]);
        }
        assert(ev.take(n as int) =~= ev);
        t
    }

    /// How many teams' `k`-th best values are below `v`.
    pub fn count_below(&self, k: usize, v: i64) -> (n: usize)
        requires
            self.wf(),
            k < COMPONENTS,
        ensures
            n == rank_count(self@, k as int, v),
    {
        let len = self.records.len();
        let mut count: usize = 0;
        for j in 0..len
            invariant
                len == self@.len(),
                len == self.records@.len(),
                self.wf(),
                k < COMPONENTS,
                count == rank_count(self@.take(j as int), k as int, v),
                count <= j,
        {
            assert(self@.take(j + 1).drop_last() =~= self@.take(j as int));
            assert(self@[j as int] == self.records@[j as int]@);
            assert(self@[j as int].values.len() == COMPONENTS);
            if self.records[j].values[k] < v {
                count += 1;
            }
        }
        assert(self@.take(len as int) =~= self@);
        count
    }

    /// How many teams of district `d` have a `k`-th best value below `v`,
    /// given the district of each record in order.
    fn count_below_in_district(
        &self,
        record_districts: &Vec<String>,
        Ghost(districts): Ghost<Map<i32, Seq<char>>>,
        d: &String,
        k: usize,
        v: i64,
    ) -> (n: usize)
        requires
            self.wf(),
            k < COMPONENTS,
            record_districts@.len() == self@.len(),
            forall|j: int|
                0 <= j < self@.len() ==> (#[trigger] record_districts@[j])@
                    == districts[self@[j].team],
        ensures
            n == district_rank_count(self@, districts, d@, k as int, v),
    {
        let len = self.records.len();
        let mut count: usize = 0;
        for j in 0..len
            invariant
                len == self@.len(),
                len == self.records@.len(),
                self.wf(),
                k < COMPONENTS,
                record_districts@.len() == self@.len(),
                forall|j: int|
                    0 <= j < self@.len() ==> (#[trigger] record_districts@[j])@
                        == districts[self@[j].team],
                count == district_rank_count(self@.take(j as int), districts, d@, k as int, v),
                count <= j,
        {
            assert(self@.take(j + 1).drop_last() =~= self@.take(j as int));
            assert(self@[j as int] == self.records@[j as int]@);
            assert(self@[j as int].values.len() == COMPONENTS);
            assert(record_districts@[j as int]@ == districts[self@[j as int].team]);
            if record_districts[j] == *d && self.records[j].values[k] < v {
                count += 1;
            }
        }
        assert(self@.take(len as int) =~= self@);
        count
    }

    /// The season-wide insight row of every team, in table order.
    pub fn general_insights(&self, names: &TeamTable, districts: &TeamTable) -> (res: Vec<
        GeneralInsight,
    >)
        requires
            self.wf(),
            forall|i: int|
                0 <= i < self@.len() ==> names@.contains_key(#[trigger] self@[i].team)
                    && districts@.contains_key(self@[i].team),
        ensures
            res@.len() == self@.len(),
            forall|i: int|
                0 <= i < self@.len() ==> #[trigger] insight_matches(
                    res@[i],
                    self@,
                    i,
                    names@,
                    districts@,
                ),
    {
        let len = self.records.len();
        let mut record_districts: Vec<String> = Vec::new();
        for j in 0..len
            invariant
                len == self@.len(),
                len == self.records@.len(),
                forall|i: int|
                    0 <= i < self@.len() ==> names@.contains_key(#[trigger] self@[i].team)
                        && districts@.contains_key(self@[i].team),
                record_districts@.len() == j,
                forall|i: int|
                    0 <= i < j ==> (#[trigger] record_districts@[i])@ == districts@[self@[i].team],
        {
            assert(self@[j as int] == self.records@[j as int]@);
            assert(districts@.contains_key(self@[j as int].team));
            let d = districts.get(self.records[j].team);
            match d {
                Some(d) => record_districts.push(d),
                None => {},
            }
        }
        let mut res: Vec<GeneralInsight> = Vec::new();
        for i in 0..len
            invariant
                len == self@.len(),
                len == self.records@.len(),
                self.wf(),
                forall|i: int|
                    0 <= i < self@.len() ==> names@.contains_key(#[trigger] self@[i].team)
                        && districts@.contains_key(self@[i].team),
                record_districts@.len() == len,
                forall|j: int|
                    0 <= j < self@.len() ==> (#[trigger] record_districts@[j])@
                        == districts@[self@[j].team],
                res@.len() == i,
                forall|j: int|
                    0 <= j < i ==> #[trigger] insight_matches(
                        res@[j],
                        self@,
                        j,
                        names@,
                        districts@,
                    ),
        {
            let rec = &self.records[i];
            assert(self@[i as int] == rec@);
            assert(names@.contains_key(self@[i as int].team));
            let name = names.get(rec.team);
            let team_name = match name {
                Some(n) => n,
                None => String::new(),
            };
            let district = record_districts[i].clone();
            let mut global_ranks: Vec<usize> = Vec::new();
            let mut district_ranks: Vec<usize> = Vec::new();
            for k in 0..COMPONENTS
                invariant
                    self.wf(),
                    rec@ == self@[i as int],
                    i < self@.len(),
                    record_districts@.len() == self@.len(),
                    forall|j: int|
                        0 <= j < self@.len() ==> (#[trigger] record_districts@[j])@
                            == districts@[self@[j].team],
                    district@ == districts@[rec.team],
                    global_ranks@.len() == k,
                    district_ranks@.len() == k,
                    forall|c: int|
                        0 <= c < k ==> global_ranks@[c] == rank_count(
                            self@,
                            c,
                            rec.values@[c],
                        ),
                    forall|c: int|
                        0 <= c < k ==> district_ranks@[c] == district_rank_count(
                            self@,
                            districts@,
                            districts@[rec.team],
                            c,
                            rec.values@[c],
                        ),
            {
                assert(rec.values@.len() == COMPONENTS);
                let v = rec.values[k];
                global_ranks.push(self.count_below(k, v));
                district_ranks.push(
                    self.count_below_in_district(&record_districts, Ghost(districts@), &district, k, v),
                );
            }
            let row = GeneralInsight {
                team: rec.team,
                team_name,
                district,
                values: rec.values.clone(),
                events: clone_strings(&rec.events),
                global_ranks,
                district_ranks,
            };
            assert(row.values@ =~= rec.values@);
            res.push(row);
            assert(insight_matches(res@[i as int], self@, i as int, names@, districts@));
        }
        res
    }
}

/// `row` is the insight row of record `i`.
pub open spec fn insight_matches(
    row: GeneralInsight,
    recs: Seq<Best>,
    i: int,
    names: Map<i32, Seq<char>>,
    districts: Map<i32, Seq<char>>,
) -> bool {
    let rec = recs[i];
    &&& row.team == rec.team
    &&& row.team_name@ == names[rec.team]
    &&& row.district@ == districts[rec.team]
    &&& row.values@ == rec.values
    &&& string_views(row.events@) == rec.events
    &&& row.global_ranks@.len() == COMPONENTS
    &&& row.district_ranks@.len() == COMPONENTS
    &&& forall|k: int|
        0 <= k < COMPONENTS ==> row.global_ranks@[k] == rank_count(recs, k, rec.values[k])
    &&& forall|k: int|
        0 <= k < COMPONENTS ==> row.district_ranks@[k] == district_rank_count(
            recs,
            districts,
            districts[rec.team],
            k,
            rec.values[k],
        )
}

impl View for BestTable {
    type V = Seq<Best>;

    open spec fn view(&self) -> Seq<Best> {
        self.records_view()
    }
}

/// A copy of a list of strings.
fn clone_strings(v: &Vec<String>) -> (res: Vec<String>)
    ensures
        string_views(res@) == string_views(v@),
{
    let mut res: Vec<String> = Vec::new();
    let n = v.len();
    for i in 0..n
        invariant
            n == v@.len(),
            string_views(res@) == string_views(v@.take(i as int)),
    {
        let s = v[i].clone();
        assert(s == v@[i as int]);
        let ghost prev = res@;
        res.push(s);
        assert(res@ == prev.push(s));
        assert(string_views(res@) =~= string_views(prev).push(s@));
        assert(v@.take(i + 1) =~= v@.take(i as int).push(v@[i as int]));
        assert(string_views(res@) =~= string_views(v@.take(i + 1)));
    }
    assert(v@.take(n as int) =~= v@);
    res
}

/// The record of a team first seen at event `code`.
fn fresh_record(team: i32, values: &Vec<i64>, code: &String) -> (r: BestRecord)
    ensures
        r@ == fresh_best(team, values@, code@),
{
    let n = values.len();
    let mut vals: Vec<i64> = Vec::new();
    let mut events: Vec<String> = Vec::new();
    for k in 0..n
        invariant
            n == values@.len(),
            vals@ == values@.take(k as int),
            string_views(events@) == Seq::new(k as nat, |j: int| code@),
    {
        vals.push(values[k]);
        let c = code.clone();
        assert(c == *code);
        let ghost prev = events@;
        events.push(c);
        assert(string_views(events@) =~= string_views(prev).push(c@));
        assert(string_views(events@) =~= Seq::new((k + 1) as nat, |j: int| code@));
    }
    assert(values@.take(n as int) =~= values@);
    let r = BestRecord { team, values: vals, events };
    assert(r@.events =~= fresh_best(team, values@, code@).events);
    r
}

/// The record after the team reached `values` at event `code`.
fn improve_record(rec: &BestRecord, values: &Vec<i64>, code: &String) -> (r: BestRecord)
    requires
        rec.values@.len() == COMPONENTS,
        rec.events@.len() == COMPONENTS,
        values@.len() == COMPONENTS,
    ensures
        r@ == improve(rec@, values@, code@),
{
    let ghost want = improve(rec@, values@, code@);
    let mut vals: Vec<i64> = Vec::new();
    let mut events: Vec<String> = Vec::new();
    for k in 0..COMPONENTS
        invariant
            rec.values@.len() == COMPONENTS,
            rec.events@.len() == COMPONENTS,
            values@.len() == COMPONENTS,
            want == improve(rec@, values@, code@),
            vals@ == want.values.take(k as int),
            string_views(events@) == want.events.take(k as int),
    {
        let ghost prev = events@;
        if values[k] > rec.values[k] {
            vals.push(values[k]);
            let c = code.clone();
            assert(c == *code);
            events.push(c);
            assert(string_views(events@) =~= string_views(prev).push(code@));
        } else {
            vals.push(rec.values[k]);
            let c = rec.events[k].clone();
            assert(c == rec.events@[k as int]);
            events.push(c);
            assert(string_views(events@) =~= string_views(prev).push(rec.events@[k as int]@));
        }
        assert(vals@ =~= want.values.take(k + 1));
        assert(string_views(events@) =~= want.events.take(k + 1));
    }
    let r = BestRecord { team: rec.team, values: vals, events };
    assert(want.values.take(COMPONENTS as int) =~= want.values);
    assert(want.events.take(COMPONENTS as int) =~= want.events);
    r
}


// ---------------------------------------------------------------------------
// Laws
// ---------------------------------------------------------------------------

/// Every entry of every event has one value per component.
pub open spec fn events_well_sized(evs: Seq<(Seq<char>, Seq<(i32, Seq<i64>)>)>) -> bool {
    forall|e: int| 0 <= e < evs.len() ==> stats_well_sized(#[trigger] evs[e].1)
}

proof fn lemma_find_team(recs: Seq<Best>, team: i32)
    ensures
        find_team(recs, team) == -1 ==> forall|i: int|
            0 <= i < recs.len() ==> (#[trigger] recs[i]).team != team,
        find_team(recs, team) != -1 ==> 0 <= find_team(recs, team) < recs.len() && recs[find_team(
            recs,
            team,
        )].team == team,
{
}

pub(crate) proof fn lemma_merge_entry_wf(recs: Seq<Best>, code: Seq<char>, team: i32, values: Seq<i64>)
    requires
        records_wf(recs),
        values.len() == COMPONENTS,
    ensures
        records_wf(merge_entry(recs, code, team, values)),
{
    lemma_find_team(recs, team);
    let r = merge_entry(recs, code, team, values);
    let f = find_team(recs, team);
    if f >= 0 {
        assert forall|i: int, j: int|
            0 <= i < r.len() && 0 <= j < r.len() && i != j implies (#[trigger] r[i]).team != (
            #[trigger] r[j]).team by {
            assert(r[i].team == recs[i].team);
            assert(r[j].team == recs[j].team);
        }
    } else {
        assert forall|i: int, j: int|
            0 <= i < r.len() && 0 <= j < r.len() && i != j implies (#[trigger] r[i]).team != (
            #[trigger] r[j]).team by {
            if i < recs.len() && j < recs.len() {
                assert(r[i] == recs[i]);
                assert(r[j] == recs[j]);
            } else if i < recs.len() {
                assert(r[i] == recs[i]);
            } else {
                assert(r[j] == recs[j]);
            }
        }
    }
}

proof fn lemma_rank_count_le_len(recs: Seq<Best>, k: int, v: i64)
    ensures
        rank_count(recs, k, v) <= recs.len(),
    decreases recs.len(),
{
    if recs.len() > 0 {
        lemma_rank_count_le_len(recs.drop_last(), k, v);
    }
}

proof fn lemma_rank_count_monotone(recs: Seq<Best>, k: int, v1: i64, v2: i64)
    requires
        v1 <= v2,
    ensures
        rank_count(recs, k, v1) <= rank_count(recs, k, v2),
    decreases recs.len(),
{
    if recs.len() > 0 {
        lemma_rank_count_monotone(recs.drop_last(), k, v1, v2);
    }
}

/// A record whose value lies in `[v1, v2)` is counted below `v2` and not
/// below `v1`.
proof fn lemma_rank_count_strict(recs: Seq<Best>, k: int, v1: i64, v2: i64, j: int)
    requires
        0 <= j < recs.len(),
        v1 <= recs[j].values[k] < v2,
    ensures
        rank_count(recs, k, v1) < rank_count(recs, k, v2),
    decreases recs.len(),
{
    let n = recs.len() - 1;
    assert(recs.last() == recs[n]);
    if j == n {
        lemma_rank_count_monotone(recs.drop_last(), k, v1, v2);
    } else {
        assert(recs.drop_last()[j] == recs[j]);
        lemma_rank_count_strict(recs.drop_last(), k, v1, v2, j);
    }
}

/// No team beats itself: a team's count of teams below it is less than the
/// number of teams.
pub proof fn law_rank_below_team_count(recs: Seq<Best>, i: int, k: int)
    requires
        0 <= i < recs.len(),
    ensures
        rank_count(recs, k, recs[i].values[k]) < recs.len(),
    decreases recs.len(),
{
    let n = recs.len() - 1;
    assert(recs.last() == recs[n]);
    if i == n {
        lemma_rank_count_le_len(recs.drop_last(), k, recs[i].values[k]);
    } else {
        assert(recs.drop_last()[i] == recs[i]);
        law_rank_below_team_count(recs.drop_last(), i, k);
    }
}

/// A team with a greater best value beats more teams.
pub proof fn law_rank_is_monotone(recs: Seq<Best>, a: int, b: int, k: int)
    requires
        0 <= a < recs.len(),
        0 <= b < recs.len(),
        recs[a].values[k] > recs[b].values[k],
    ensures
        rank_count(recs, k, recs[a].values[k]) > rank_count(recs, k, recs[b].values[k]),
{
    lemma_rank_count_strict(recs, k, recs[b].values[k], recs[a].values[k], b);
}

/// A team beats no more teams within its district than over all teams.
pub proof fn law_district_rank_at_most_global(
    recs: Seq<Best>,
    districts: Map<i32, Seq<char>>,
    d: Seq<char>,
    k: int,
    v: i64,
)
    ensures
        district_rank_count(recs, districts, d, k, v) <= rank_count(recs, k, v),
    decreases recs.len(),
{
    if recs.len() > 0 {
        law_district_rank_at_most_global(recs.drop_last(), districts, d, k, v);
    }
}

} // verus!
