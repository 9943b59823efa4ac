use ftc_insights::rankings::{BestTable, EventStats, GeneralInsight, TeamStats};
use ftc_insights::team_table::TeamTable;

fn stats(team: i32, values: [i64; 6]) -> TeamStats {
    TeamStats { team, values: values.to_vec() }
}

fn event(code: &str, teams: Vec<TeamStats>) -> EventStats {
    EventStats { eventcode: code.to_string(), teams }
}

fn record_of(table: &BestTable, team: i32) -> (Vec<i64>, Vec<String>) {
    for i in 0..table.len() {
        let r = table.record(i);
        if r.team == team {
            return (r.values.clone(), r.events.clone());
        }
    }
    panic!("team {} missing", team);
}

#[test]
fn first_event_sets_every_component() {
    let t = BestTable::from_events(&vec![event("E1", vec![stats(5, [1, 2, 3, 4, 5, 6])])]);
    assert_eq!(t.len(), 1);
    let (v, e) = record_of(&t, 5);
    assert_eq!(v, vec![1, 2, 3, 4, 5, 6]);
    assert_eq!(e, vec!["E1".to_string(); 6]);
}

#[test]
fn later_events_replace_only_strictly_better_components() {
    let t = BestTable::from_events(&vec![
        event("E1", vec![stats(5, [10, 2, 3, 4, 5, 6])]),
        event("E2", vec![stats(5, [9, 2, 7, 4, 6, 1])]),
        event("E3", vec![stats(5, [11, 1, 7, 0, 6, 0])]),
    ]);
    let (v, e) = record_of(&t, 5);
    assert_eq!(v, vec![11, 2, 7, 4, 6, 6]);
    assert_eq!(e, vec!["E3", "E1", "E2", "E1", "E2", "E1"]);
}

#[test]
fn best_values_dominate_and_are_attained() {
    let evs = vec![
        event("A", vec![stats(1, [3, 0, 0, 0, 0, 0]), stats(2, [5, 5, 5, 5, 5, 5])]),
        event("B", vec![stats(2, [6, 1, 9, 0, 0, 7]), stats(3, [0, 0, 0, 0, 0, 0])]),
        event("C", vec![stats(1, [2, 8, 0, 0, 0, 0])]),
    ];
    let t = BestTable::from_events(&evs);
    assert_eq!(t.len(), 3);
    for ev in &evs {
        for s in &ev.teams {
            let (v, _) = record_of(&t, s.team);
            for k in 0..6 {
                assert!(v[k] >= s.values[k]);
            }
        }
    }
    for i in 0..t.len() {
        let r = t.record(i);
        for k in 0..6 {
            let found = evs.iter().any(|ev| {
                ev.eventcode == r.events[k]
                    && ev.teams.iter().any(|s| s.team == r.team && s.values[k] == r.values[k])
            });
            assert!(found);
        }
    }
}

fn tables() -> (TeamTable, TeamTable) {
    let mut names = TeamTable::new();
    let mut districts = TeamTable::new();
    for (t, n, d) in [(1, "One", "NY"), (2, "Two", "NY"), (3, "Three", "CA")] {
        names.insert(t, n.to_string());
        districts.insert(t, d.to_string());
    }
    (names, districts)
}

fn row_of(rows: &[GeneralInsight], team: i32) -> &GeneralInsight {
    rows.iter().find(|r| r.team == team).unwrap()
}

#[test]
fn general_insights_rank_globally_and_by_district() {
    let t = BestTable::from_events(&vec![event(
        "E",
        vec![
            stats(1, [10, 1, 0, 0, 0, 5]),
            stats(2, [20, 1, 0, 0, 0, 4]),
            stats(3, [30, 0, 0, 0, 0, 3]),
        ],
    )]);
    let (names, districts) = tables();
    let rows = t.general_insights(&names, &districts);
    assert_eq!(rows.len(), 3);
    let r3 = row_of(&rows, 3);
    assert_eq!(r3.team_name, "Three");
    assert_eq!(r3.district, "CA");
    assert_eq!(r3.global_ranks, vec![2, 0, 0, 0, 0, 0]);
    assert_eq!(r3.district_ranks, vec![0, 0, 0, 0, 0, 0]);
    let r2 = row_of(&rows, 2);
    assert_eq!(r2.global_ranks, vec![1, 1, 0, 0, 0, 1]);
    assert_eq!(r2.district_ranks, vec![1, 0, 0, 0, 0, 0]);
    let r1 = row_of(&rows, 1);
    assert_eq!(r1.global_ranks, vec![0, 1, 0, 0, 0, 2]);
    assert_eq!(r1.district_ranks, vec![0, 0, 0, 0, 0, 1]);
    assert_eq!(r1.values, vec![10, 1, 0, 0, 0, 5]);
    assert_eq!(r1.events, vec!["E".to_string(); 6]);
}

#[test]
fn ranks_are_monotone_bounded_and_district_at_most_global() {
    let t = BestTable::from_events(&vec![event(
        "E",
        (0..8).map(|i| stats(i, [i as i64 % 3, 7 - i as i64, 0, i as i64, 1, 2])).collect(),
    )]);
    let mut names = TeamTable::new();
    let mut districts = TeamTable::new();
    for i in 0..8 {
        names.insert(i, format!("T{}", i));
        districts.insert(i, if i % 2 == 0 { "X".to_string() } else { "Y".to_string() });
    }
    let rows = t.general_insights(&names, &districts);
    for a in &rows {
        for k in 0..6 {
            assert!(a.global_ranks[k] < rows.len());
            assert!(a.district_ranks[k] <= a.global_ranks[k]);
            for b in &rows {
                if a.values[k] > b.values[k] {
                    assert!(a.global_ranks[k] > b.global_ranks[k]);
                }
            }
        }
    }
}

#[test]
fn empty_season_has_no_rows() {
    let t = BestTable::new();
    let (names, districts) = tables();
    assert_eq!(t.general_insights(&names, &districts).len(), 0);
}

#[test]
fn ties_keep_the_first_event() {
    let t = BestTable::from_events(&vec![
        event("E1", vec![stats(9, [5, 5, 5, 5, 5, 5])]),
        event("E2", vec![stats(9, [5, 6, 4, 5, 5, 5])]),
        event("E3", vec![stats(9, [5, 6, 5, 5, 5, 7])]),
    ]);
    let (v, e) = record_of(&t, 9);
    assert_eq!(v, vec![5, 6, 5, 5, 5, 7]);
    assert_eq!(e, vec!["E1", "E2", "E1", "E1", "E1", "E3"]);
}

#[test]
fn merging_event_by_event_matches_building_at_once() {
    let evs = vec![
        event("A", vec![stats(1, [1, 2, 3, 4, 5, 6]), stats(2, [6, 5, 4, 3, 2, 1])]),
        event("B", vec![stats(2, [7, 0, 0, 9, 0, 0])]),
    ];
    let whole = BestTable::from_events(&evs);
    let mut step = BestTable::new();
    for ev in &evs {
        step.merge_event(ev);
    }
    assert_eq!(whole.len(), step.len());
    for i in 0..whole.len() {
        assert_eq!(whole.record(i).team, step.record(i).team);
        assert_eq!(whole.record(i).values, step.record(i).values);
        assert_eq!(whole.record(i).events, step.record(i).events);
    }
}
