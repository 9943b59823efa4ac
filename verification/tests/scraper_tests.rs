use ftc_insights::scraper::{
    flag_code, match_rows, robot_auto_code, serializeJunctionArray, AllianceScore, Cell, ScoredMatch,
};

fn items(v: &[&str]) -> Vec<Option<String>> {
    v.iter().map(|s| Some(s.to_string())).collect()
}

#[test]
fn serializes_cones_in_order() {
    let arr = items(&["MY_CONE", "OTHER_CONE", "MY_CONE"]);
    assert_eq!(serializeJunctionArray(arr), "mom");
}

#[test]
fn serializes_skipping_other_items() {
    let arr = items(&["MY_R1_BEACON", "OTHER_CONE", "", "my_cone"]);
    assert_eq!(serializeJunctionArray(arr), "o");
    assert_eq!(serializeJunctionArray(Vec::new()), "");
}

#[test]
fn serialized_counts_match_items() {
    let arr = items(&["MY_CONE", "OTHER_CONE", "OTHER_CONE", "MY_CONE", "MY_CONE", "X"]);
    let s = serializeJunctionArray(arr);
    assert_eq!(s.chars().filter(|c| *c == 'm').count(), 3);
    assert_eq!(s.chars().filter(|c| *c == 'o').count(), 2);
    assert_eq!(s.len(), 5);
}

#[test]
fn robot_routes() {
    assert_eq!(robot_auto_code("NONE"), 0);
    assert_eq!(robot_auto_code("SUBSTATION_TERMINAL"), 1);
    assert_eq!(robot_auto_code("SIGNAL_ZONE"), 2);
    assert_eq!(robot_auto_code(""), 2);
    assert_eq!(flag_code(true), 1);
    assert_eq!(flag_code(false), 0);
}

fn grid(special: (usize, usize), special_items: &[&str]) -> Vec<Vec<Vec<Option<String>>>> {
    (0..5)
        .map(|i| {
            (0..5)
                .map(|j| if (i, j) == special { items(special_items) } else { Vec::new() })
                .collect()
        })
        .collect()
}

fn alliance(name: &str, team: i32, cones: Vec<i32>) -> AllianceScore {
    AllianceScore {
        alliance: Some(name.to_string()),
        team,
        sideOfField: None,
        initSignalSleeve1: true,
        initSignalSleeve2: false,
        robot1Auto: "SUBSTATION_TERMINAL".to_string(),
        robot2Auto: "NONE".to_string(),
        autoTerminal: 3,
        autoJunctions: grid((0, 1), &["MY_CONE", "OTHER_CONE", "BEACON"]),
        dcJunctions: grid((4, 4), &["OTHER_CONE"]),
        dcTerminalNear: 1,
        dcTerminalFar: 2,
        egNavigated1: false,
        egNavigated2: true,
        minorPenalties: 4,
        majorPenalties: 5,
        autoNavigationPoints: 6,
        signalBonusPoints: 7,
        autoJunctionConePoints: 8,
        autoTerminalConePoints: 9,
        dcJunctionConePoints: 10,
        dcTerminalConePoints: 11,
        ownershipPoints: 12,
        circuitPoints: 13,
        egNavigationPoints: 14,
        autoPoints: 15,
        dcPoints: 16,
        endgamePoints: 17,
        penaltyPointsCommitted: 18,
        prePenaltyTotal: 19,
        autoJunctionCones: cones.clone(),
        dcJunctionCones: cones,
        beacons: 20,
        ownedJunctions: 21,
        circuit: true,
        totalPoints: 22,
    }
}

fn int_of(c: &Cell) -> Option<i64> {
    match c {
        Cell::Int(x) => Some(*x),
        _ => None,
    }
}

fn text(c: &Cell) -> Option<&str> {
    match c {
        Cell::Text(s) => Some(s.as_str()),
        _ => None,
    }
}

#[test]
fn match_rows_name_the_right_teams_and_columns() {
    let scores = ScoredMatch {
        matchNumber: 9,
        randomization: 2,
        alliances: vec![alliance("Blue", 300, vec![1, 2, 3, 4]), alliance("Red", 100, vec![5, 6])],
    };
    let teams = vec![100, 200, 300, 400];
    let (first, second) = match_rows(&"USNYEX".to_string(), &teams, &scores);
    assert_eq!(first.len(), 95);
    assert_eq!(second.len(), 95);
    assert_eq!(text(&first[0]), Some("USNYEX"));
    assert_eq!((int_of(&first[1]), int_of(&first[2])), (Some(300), Some(400)));
    assert_eq!((int_of(&second[1]), int_of(&second[2])), (Some(100), Some(200)));
    assert_eq!((int_of(&first[3]), int_of(&first[4])), (Some(9), Some(2)));
    assert_eq!(text(&first[5]), Some("Blue"));
    assert_eq!(int_of(&first[6]), Some(300));
    assert!(matches!(first[7], Cell::Null));
    assert_eq!((int_of(&first[8]), int_of(&first[9])), (Some(1), Some(0)));
    assert_eq!((int_of(&first[10]), int_of(&first[11])), (Some(1), Some(0)));
    assert_eq!(int_of(&first[12]), Some(3));
    // Autonomous junction row 0, place 1, then driver-controlled row 4, place 4.
    assert_eq!(text(&first[14]), Some("mo"));
    assert_eq!(text(&first[13]), Some(""));
    assert_eq!(text(&first[13 + 25 + 24]), Some("o"));
    assert_eq!(int_of(&first[63]), Some(1));
    assert_eq!((int_of(&first[65]), int_of(&first[66])), (Some(0), Some(1)));
    assert_eq!(int_of(&first[82]), Some(19));
    assert_eq!(int_of(&first[83]), Some(1));
    assert_eq!(int_of(&first[86]), Some(4));
    assert_eq!(int_of(&second[83]), Some(5));
    assert!(matches!(second[85], Cell::Null));
    assert!(matches!(second[86], Cell::Null));
    assert_eq!(int_of(&first[91]), Some(20));
    assert_eq!(int_of(&first[93]), Some(1));
    assert_eq!(int_of(&first[94]), Some(22));
}
