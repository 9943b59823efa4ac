//! The insight records that the service answers with, and how they are
//! filled from the rows of the insight cache.
#![allow(non_snake_case)]

use vstd::prelude::*;

use crate::text::{decimal_text, int_to_text, same_text, string_views};

verus! {

/// A team and the events it played.
pub struct InsightTeam {
    pub teamNum: String,
    pub teamName: String,
    pub events: Vec<String>,
}

/// A list of teams.
pub struct InsightTeamReturn {
    pub teams: Vec<InsightTeam>,
}

/// An event and its insights.
pub struct EventInsight {
    pub eventcode: String,
    pub eventname: String,
    pub insights: Vec<String>,
}

/// A list of event insights.
pub struct EventInsightReturn {
    pub teams: Vec<EventInsight>,
}

/// What the service knows of a team for the season: its best component
/// values, the events of them, and its global and district rankings.
pub struct TeamInsight {
    pub teamNum: String,
    pub teamName: String,
    pub region: String,
    pub eventcodes: Vec<String>,
    pub components: Vec<String>,
    pub globRankings: Vec<String>,
    pub districtRankings: Vec<String>,
    pub numGlobal: i32,
    pub numDistrict: String,
}

/// A list of team insights.
pub struct TeamInsightReturn {
    pub teams: Vec<TeamInsight>,
}

/// A team's cone components at one event, one per junction.
pub struct EventCones {
    pub eventcode: String,
    pub cones: Vec<String>,
}

/// A team's cone components at every event it played.
pub struct EventConesReturn {
    pub events: Vec<EventCones>,
}

/// One row of the season summary: team, name, OPR, driver-controlled cones,
/// autonomous cones.
pub struct SummaryRow {
    pub team: String,
    pub teamName: String,
    pub opr: String,
    pub dcCone: String,
    pub autoCone: String,
}

/// One row of the general insights of a team, as the cache holds it.
pub struct GeneralRow {
    pub team: String,
    pub teamName: String,
    /// OPR, driver-controlled cones, autonomous cones, driver-controlled OPR,
    /// autonomous OPR, penalty OPR.
    pub components: Vec<String>,
    /// The global ranking of each component.
    pub globRankings: Vec<String>,
    /// The district ranking of each component.
    pub districtRankings: Vec<String>,
}

/// The answer for a team the service does not know.
pub open spec fn is_unknown_team(t: TeamInsight) -> bool {
    &&& t.teamNum@ == decimal_text(-1)
    &&& t.teamName@ == Seq::<char>::empty()
    &&& t.region@ == Seq::<char>::empty()
    &&& t.eventcodes@.len() == 0
    &&& t.components@.len() == 0
    &&& t.globRankings@.len() == 0
    &&& t.districtRankings@.len() == 0
    &&& t.numGlobal == 0
    &&& t.numDistrict@ == decimal_text(0)
}

/// `t` is the summary of `row`: name and the first three components, nothing
/// else.
pub open spec fn is_summary_of(t: TeamInsight, row: SummaryRow) -> bool {
    &&& t.teamNum@ == row.team@
    &&& t.teamName@ == row.teamName@
    &&& t.region@ == Seq::<char>::empty()
    &&& t.eventcodes@.len() == 0
    &&& string_views(t.components@) == seq![row.opr@, row.dcCone@, row.autoCone@]
    &&& t.globRankings@.len() == 0
    &&& t.districtRankings@.len() == 0
    &&& t.numGlobal == 0
    &&& t.numDistrict@ == decimal_text(0)
}

/// The position of the last row of `team`, or -1.
pub open spec fn last_row_of(rows: Seq<SummaryRow>, team: Seq<char>) -> int
    decreases rows.len(),
{
    if rows.len() == 0 {
        -1
    } else if rows.last().team@ == team {
        rows.len() - 1
    } else {
        last_row_of(rows.drop_last(), team)
    }
}

proof fn lemma_last_row_of(rows: Seq<SummaryRow>, team: Seq<char>)
    ensures
        -1 <= last_row_of(rows, team) < rows.len(),
        last_row_of(rows, team) >= 0 ==> rows[last_row_of(rows, team)].team@ == team,
    decreases rows.len(),
{
    if rows.len() > 0 {
        lemma_last_row_of(rows.drop_last(), team);
    }
}

/// The season summaries: one per team of the rows, from the team's last row.
pub open spec fn summaries_of(res: Seq<TeamInsight>, rows: Seq<SummaryRow>) -> bool {
    &&& forall|i: int, j: int|
        0 <= i < res.len() && 0 <= j < res.len() && i != j ==> (#[trigger] res[i]).teamNum@
            != (#[trigger] res[j]).teamNum@
    &&& forall|i: int|
        0 <= i < res.len() ==> last_row_of(rows, (#[trigger] res[i]).teamNum@) >= 0
            && is_summary_of(res[i], rows[last_row_of(rows, res[i].teamNum@)])
    &&& forall|r: int|
        0 <= r < rows.len() ==> exists|i: int|
            0 <= i < res.len() && (#[trigger] res[i]).teamNum@ == (#[trigger] rows[r]).team@
}

/// `t` is the insight of the team of `row`, with the given counts and region.
pub open spec fn is_general_insight_of(
    t: TeamInsight,
    row: GeneralRow,
    numGlobal: i32,
    numDistrict: i32,
    region: Seq<char>,
) -> bool {
    &&& t.teamNum@ == row.team@
    &&& t.teamName@ == row.teamName@
    &&& t.region@ == region
    &&& t.eventcodes@.len() == 0
    &&& string_views(t.components@) == string_views(row.components@)
    &&& string_views(t.globRankings@) == string_views(row.globRankings@)
    &&& string_views(t.districtRankings@) == string_views(row.districtRankings@)
    &&& t.numGlobal == numGlobal
    &&& t.numDistrict@ == decimal_text(numDistrict as int)
}

/// A copy of a list of strings.
pub fn copy_strings(v: &Vec<String>) -> (res: Vec<String>)
    ensures
        string_views(res@) == string_views(v@),
{
    let mut res: Vec<String> = Vec::new();
    let n = v.len();
    for i in 0..n
        invariant
            n == v@.len(),
            string_views(res@) == string_views(v@.take(i as int)),
    {
        let s = v[i].clone();
        assert(s == v@[i as int]);
        let ghost prev = res@;
        res.push(s);
        assert(res@ == prev.push(s));
        assert(string_views(res@) =~= string_views(prev).push(s@));
        assert(v@.take(i + 1) =~= v@.take(i as int).push(v@[i as int]));
        assert(string_views(res@) =~= string_views(v@.take(i + 1)));
    }
    assert(v@.take(n as int) =~= v@);
    res
}

/// Whether the service has insights for this season.
pub fn is_insight_season(year: &str) -> (res: bool)
    ensures
        res == (year@ == "2022"@),
{
    same_text(year, "2022")
}

impl TeamInsight {
    /// The answer for a team the service does not know.
    pub fn unknown_team() -> (t: TeamInsight)
        ensures
            is_unknown_team(t),
    {
        TeamInsight {
            teamNum: int_to_text(-1),
            teamName: String::new(),
            region: String::new(),
            eventcodes: Vec::new(),
            components: Vec::new(),
            globRankings: Vec::new(),
            districtRankings: Vec::new(),
            numGlobal: 0,
            numDistrict: int_to_text(0),
        }
    }

    /// The season summary of one row.
    pub fn summary(row: &SummaryRow) -> (t: TeamInsight)
        ensures
            is_summary_of(t, *row),
    {
        let mut components: Vec<String> = Vec::new();
        components.push(row.opr.clone());
        components.push(row.dcCone.clone());
        components.push(row.autoCone.clone());
        let t = TeamInsight {
            teamNum: row.team.clone(),
            teamName: row.teamName.clone(),
            region: String::new(),
            eventcodes: Vec::new(),
            components,
            globRankings: Vec::new(),
            districtRankings: Vec::new(),
            numGlobal: 0,
            numDistrict: int_to_text(0),
        };
        assert(string_views(t.components@) =~= seq![row.opr@, row.dcCone@, row.autoCone@]);
        t
    }

    /// The insight of the team of `row`, given the number of teams over all
    /// and in the team's district, and the team's region.
    pub fn from_general_row(row: &GeneralRow, numGlobal: i32, numDistrict: i32, region: String) -> (t: TeamInsight)
        ensures
            is_general_insight_of(t, *row, numGlobal, numDistrict, region@),
    {
        TeamInsight {
            teamNum: row.team.clone(),
            teamName: row.teamName.clone(),
            region,
            eventcodes: Vec::new(),
            components: copy_strings(&row.components),
            globRankings: copy_strings(&row.globRankings),
            districtRankings: copy_strings(&row.districtRankings),
            numGlobal,
            numDistrict: int_to_text(numDistrict as i64),
        }
    }
}

/// The answer for a team that has a region: its insight from its cache row,
/// or the unknown-team answer where the cache holds no row of it.
pub fn answer_for_team(row: Option<&GeneralRow>, numGlobal: i32, numDistrict: i32, region: String) -> (t: TeamInsight)
    ensures
        match row {
            None => is_unknown_team(t),
            Some(r) => is_general_insight_of(t, *r, numGlobal, numDistrict, region@),
        },
{
    match row {
        None => TeamInsight::unknown_team(),
        Some(r) => TeamInsight::from_general_row(r, numGlobal, numDistrict, region),
    }
}

/// The answer for a team, given its region (none where the team is not in the
/// season's district table) and its cache row: the unknown-team answer where
/// either is missing, else the team's insight.
pub fn team_answer(
    region: Option<String>,
    row: Option<&GeneralRow>,
    numGlobal: i32,
    numDistrict: i32,
) -> (t: TeamInsight)
    ensures
        match region {
            None => is_unknown_team(t),
            Some(r) => match row {
                None => is_unknown_team(t),
                Some(g) => is_general_insight_of(t, *g, numGlobal, numDistrict, r@),
            },
        },
{
    match region {
        None => TeamInsight::unknown_team(),
        Some(r) => answer_for_team(row, numGlobal, numDistrict, r),
    }
}

/// The position in `res` of the insight of `team`.
fn find_summary(res: &Vec<TeamInsight>, team: &String) -> (pos: Option<usize>)
    ensures
        match pos {
            Some(i) => i < res@.len() && res@[i as int].teamNum@ == team@,
            None => forall|i: int| 0 <= i < res@.len() ==> (#[trigger] res@[i]).teamNum@ != team@,
        },
{
    let n = res.len();
    for i in 0..n
        invariant
            n == res@.len(),
            forall|j: int| 0 <= j < i ==> (#[trigger] res@[j]).teamNum@ != team@,
    {
        if res[i].teamNum == *team {
            return Some(i);
        }
    }
    None
}

/// The season summaries of the rows: one per team, from the team's last row.
pub fn team_summaries(rows: &Vec<SummaryRow>) -> (res: TeamInsightReturn)
    ensures
        summaries_of(res.teams@, rows@),
{
    let mut res: Vec<TeamInsight> = Vec::new();
    let n = rows.len();
    for r in 0..n
        invariant
            n == rows@.len(),
            summaries_of(res@, rows@.take(r as int)),
    {
        let ghost prefix = rows@.take(r as int);
        let ghost next = rows@.take(r + 1);
        assert(next.drop_last() =~= prefix);
        assert(next.last() == rows@[r as int]);
        let ghost old_res = res@;
        let summary = TeamInsight::summary(&rows[r]);
        match find_summary(&res, &rows[r].team) {
            Some(i) => {
                res.set(i, summary);
                proof {
                    assert forall|x: int|
                        0 <= x < res@.len() && x != i implies last_row_of(
                        next,
                        (#[trigger] res@[x]).teamNum@,
                    ) == last_row_of(prefix, res@[x].teamNum@) by {
                        assert(res@[x] == old_res[x]);
                        assert(old_res[x].teamNum@ != old_res[i as int].teamNum@);
                    }
                    assert forall|x: int|
                        0 <= x < res@.len() implies last_row_of(next, (#[trigger] res@[x]).teamNum@)
                        >= 0 && is_summary_of(
                        res@[x],
                        next[last_row_of(next, res@[x].teamNum@)],
                    ) by {
                        if x != i {
                            assert(res@[x] == old_res[x]);
                            lemma_last_row_of(prefix, res@[x].teamNum@);
                            assert(next[last_row_of(prefix, res@[x].teamNum@)] == prefix[last_row_of(
                                prefix,
                                res@[x].teamNum@,
                            )]);
                        }
                    }
                    assert forall|q: int| 0 <= q < next.len() implies exists|x: int|
                        0 <= x < res@.len() && (#[trigger] res@[x]).teamNum@ == (
                        #[trigger] next[q]).team@ by {
                        if q < prefix.len() {
                            assert(next[q] == prefix[q]);
                            let x = choose|x: int|
                                0 <= x < old_res.len() && (#[trigger] old_res[x]).teamNum@ == (
                                #[trigger] prefix[q]).team@;
                            if x == i {
                                assert(res@[i as int].teamNum@ == next[q].team@);
                            } else {
                                assert(res@[x] == old_res[x]);
                            }
                        } else {
                            assert(res@[i as int].teamNum@ == next[q].team@);
                        }
                    }
                }
            },
            None => {
                res.push(summary);
                proof {
                    let last = res@.len() - 1;
                    assert forall|x: int|
                        0 <= x < last implies last_row_of(next, (#[trigger] res@[x]).teamNum@)
                        == last_row_of(prefix, res@[x].teamNum@) by {
                        assert(res@[x] == old_res[x]);
                    }
                    assert forall|x: int|
                        0 <= x < res@.len() implies last_row_of(next, (#[trigger] res@[x]).teamNum@)
                        >= 0 && is_summary_of(
                        res@[x],
                        next[last_row_of(next, res@[x].teamNum@)],
                    ) by {
                        if x != last {
                            assert(res@[x] == old_res[x]);
                            lemma_last_row_of(prefix, res@[x].teamNum@);
                            assert(next[last_row_of(prefix, res@[x].teamNum@)] == prefix[last_row_of(
                                prefix,
                                res@[x].teamNum@,
                            )]);
                        }
                    }
                    assert forall|x: int, y: int|
                        0 <= x < res@.len() && 0 <= y < res@.len() && x != y implies (
                        #[trigger] res@[x]).teamNum@ != (#[trigger] res@[y]).teamNum@ by {
                        if x != last && y != last {
                            assert(res@[x] == old_res[x]);
                            assert(res@[y] == old_res[y]);
                        } else if x != last {
                            assert(res@[x] == old_res[x]);
                        } else {
                            assert(res@[y] == old_res[y]);
                        }
                    }
                    assert forall|q: int| 0 <= q < next.len() implies exists|x: int|
                        0 <= x < res@.len() && (#[trigger] res@[x]).teamNum@ == (
                        #[trigger] next[q]).team@ by {
                        if q < prefix.len() {
                            assert(next[q] == prefix[q]);
                            let x = choose|x: int|
                                0 <= x < old_res.len() && (#[trigger] old_res[x]).teamNum@ == (
                                #[trigger] prefix[q]).team@;
                            assert(res@[x] == old_res[x]);
                        } else {
                            assert(res@[last].teamNum@ == next[q].team@);
                        }
                    }
                }
            },
        }
    }
    assert(rows@.take(n as int) =~= rows@);
    TeamInsightReturn { teams: res }
}

/// The most teams a search with a partial name or number answers with.
pub const SEARCH_LIMIT: usize = 50;

/// `res` holds at most `limit` of the season summaries of `rows`, each team at
/// most once and each from the team's last row, and every team of the rows
/// where it holds fewer than `limit`.
pub open spec fn summaries_within(res: Seq<TeamInsight>, rows: Seq<SummaryRow>, limit: int) -> bool {
    &&& res.len() <= limit
    &&& forall|i: int, j: int|
        0 <= i < res.len() && 0 <= j < res.len() && i != j ==> (#[trigger] res[i]).teamNum@
            != (#[trigger] res[j]).teamNum@
    &&& forall|i: int|
        0 <= i < res.len() ==> last_row_of(rows, (#[trigger] res[i]).teamNum@) >= 0
            && is_summary_of(res[i], rows[last_row_of(rows, res[i].teamNum@)])
    &&& res.len() < limit ==> forall|r: int|
        0 <= r < rows.len() ==> exists|i: int|
            0 <= i < res.len() && (#[trigger] res[i]).teamNum@ == (#[trigger] rows[r]).team@
}

/// The answer to a team search: every season summary, or, where a partial
/// name or number is given, only the first `SEARCH_LIMIT` of them.
pub fn team_search(rows: &Vec<SummaryRow>, partial: &Option<String>) -> (res: TeamInsightReturn)
    ensures
        partial is None ==> summaries_of(res.teams@, rows@),
        partial is Some ==> summaries_within(res.teams@, rows@, SEARCH_LIMIT as int),
{
    let all = team_summaries(rows);
    let mut teams = all.teams;
    match partial {
        None => {},
        Some(_) => {
            let ghost full = teams@;
            if teams.len() > SEARCH_LIMIT {
                teams.truncate(SEARCH_LIMIT);
                assert forall|i: int, j: int|
                    0 <= i < teams@.len() && 0 <= j < teams@.len() && i != j implies (
                    #[trigger] teams@[i]).teamNum@ != (#[trigger] teams@[j]).teamNum@ by {
                    assert(teams@[i] == full[i] && teams@[j] == full[j]);
                }
                assert forall|i: int| 0 <= i < teams@.len() implies last_row_of(
                    rows@,
                    (#[trigger] teams@[i]).teamNum@,
                ) >= 0 && is_summary_of(teams@[i], rows@[last_row_of(rows@, teams@[i].teamNum@)]) by {
                    assert(teams@[i] == full[i]);
                }
            }
        },
    }
    TeamInsightReturn { teams }
}

/// The cone components of one event.
pub fn event_cones(eventcode: String, cones: Vec<String>) -> (e: EventCones)
    ensures
        e.eventcode@ == eventcode@,
        string_views(e.cones@) == string_views(cones@),
{
    EventCones { eventcode, cones }
}

} // verus!
