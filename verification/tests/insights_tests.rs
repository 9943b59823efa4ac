use ftc_insights::insights::{
    event_cones, is_insight_season, team_answer, team_search, team_summaries, SEARCH_LIMIT, GeneralRow, SummaryRow, TeamInsight,
};

fn srow(team: &str, name: &str, opr: &str) -> SummaryRow {
    SummaryRow {
        team: team.to_string(),
        teamName: name.to_string(),
        opr: opr.to_string(),
        dcCone: "1.5".to_string(),
        autoCone: "0.5".to_string(),
    }
}

#[test]
fn unknown_team_answer() {
    let t = TeamInsight::unknown_team();
    assert_eq!(t.teamNum, "-1");
    assert_eq!(t.teamName, "");
    assert_eq!(t.region, "");
    assert!(t.eventcodes.is_empty() && t.components.is_empty());
    assert!(t.globRankings.is_empty() && t.districtRankings.is_empty());
    assert_eq!(t.numGlobal, 0);
    assert_eq!(t.numDistrict, "0");
}

#[test]
fn summary_of_row() {
    let t = TeamInsight::summary(&srow("7", "Seven", "12.5"));
    assert_eq!(t.teamNum, "7");
    assert_eq!(t.teamName, "Seven");
    assert_eq!(t.components, vec!["12.5", "1.5", "0.5"]);
    assert_eq!(t.numDistrict, "0");
    assert_eq!(t.numGlobal, 0);
}

#[test]
fn summaries_one_per_team_last_row_wins() {
    let rows = vec![srow("1", "A", "1"), srow("2", "B", "2"), srow("1", "A2", "3")];
    let r = team_summaries(&rows);
    assert_eq!(r.teams.len(), 2);
    let one = r.teams.iter().find(|t| t.teamNum == "1").unwrap();
    assert_eq!(one.teamName, "A2");
    assert_eq!(one.components[0], "3");
    assert!(r.teams.iter().any(|t| t.teamNum == "2"));
    assert_eq!(team_summaries(&Vec::new()).teams.len(), 0);
}

#[test]
fn general_row_insight() {
    let row = GeneralRow {
        team: "42".to_string(),
        teamName: "Answer".to_string(),
        components: (0..6).map(|i| i.to_string()).collect(),
        globRankings: (10..16).map(|i| i.to_string()).collect(),
        districtRankings: (20..26).map(|i| i.to_string()).collect(),
    };
    let t = TeamInsight::from_general_row(&row, 900, 37, "NY".to_string());
    assert_eq!(t.teamNum, "42");
    assert_eq!(t.region, "NY");
    assert_eq!(t.components, row.components);
    assert_eq!(t.globRankings, row.globRankings);
    assert_eq!(t.districtRankings, row.districtRankings);
    assert_eq!(t.numGlobal, 900);
    assert_eq!(t.numDistrict, "37");
    assert!(t.eventcodes.is_empty());
}

#[test]
fn seasons_and_cones() {
    assert!(is_insight_season("2022"));
    assert!(!is_insight_season("2023"));
    assert!(!is_insight_season(""));
    let c = event_cones("USNYNYC".to_string(), vec!["0.5".to_string(); 25]);
    assert_eq!(c.eventcode, "USNYNYC");
    assert_eq!(c.cones.len(), 25);
}

#[test]
fn answer_for_missing_row_is_unknown() {
    let t = ftc_insights::insights::answer_for_team(None, 5, 3, "NY".to_string());
    assert_eq!(t.teamNum, "-1");
    assert_eq!(t.region, "");
    assert_eq!(t.numDistrict, "0");
    let row = GeneralRow {
        team: "9".to_string(),
        teamName: "Nine".to_string(),
        components: vec!["1".to_string(); 6],
        globRankings: vec!["2".to_string(); 6],
        districtRankings: vec!["3".to_string(); 6],
    };
    let t = ftc_insights::insights::answer_for_team(Some(&row), 5, 3, "NY".to_string());
    assert_eq!(t.teamNum, "9");
    assert_eq!(t.region, "NY");
    assert_eq!(t.numGlobal, 5);
    assert_eq!(t.numDistrict, "3");
}

#[test]
fn search_with_partial_stops_at_fifty_teams() {
    let rows: Vec<SummaryRow> = (0..80).map(|i| srow(&i.to_string(), "T", "1")).collect();
    let all = team_search(&rows, &None);
    assert_eq!(all.teams.len(), 80);
    let some = team_search(&rows, &Some("1".to_string()));
    assert_eq!(SEARCH_LIMIT, 50);
    assert_eq!(some.teams.len(), 50);
    for (i, t) in some.teams.iter().enumerate() {
        assert!(some.teams.iter().skip(i + 1).all(|u| u.teamNum != t.teamNum));
    }
}

#[test]
fn search_with_partial_and_few_teams_gives_them_all() {
    let rows = vec![srow("1", "A", "1"), srow("2", "B", "2"), srow("1", "A2", "3")];
    let r = team_search(&rows, &Some("A".to_string()));
    assert_eq!(r.teams.len(), 2);
    let one = r.teams.iter().find(|t| t.teamNum == "1").unwrap();
    assert_eq!(one.teamName, "A2");
}

#[test]
fn team_without_region_gets_unknown_answer() {
    let row = GeneralRow {
        team: "42".to_string(),
        teamName: "Answer".to_string(),
        components: (0..6).map(|i| i.to_string()).collect(),
        globRankings: (10..16).map(|i| i.to_string()).collect(),
        districtRankings: (20..26).map(|i| i.to_string()).collect(),
    };
    let none = team_answer(None, Some(&row), 900, 37);
    assert_eq!(none.teamNum, "-1");
    assert_eq!(none.numDistrict, "0");
    let missing = team_answer(Some("NY".to_string()), None, 900, 37);
    assert_eq!(missing.teamNum, "-1");
    let known = team_answer(Some("NY".to_string()), Some(&row), 900, 37);
    assert_eq!(known.teamNum, "42");
    assert_eq!(known.region, "NY");
    assert_eq!(known.numGlobal, 900);
    assert_eq!(known.numDistrict, "37");
}
