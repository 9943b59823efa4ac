use ftc_insights::opr::{cone_totals, pairing_matrix, score_totals, team_row, ConeRow};

#[test]
fn team_rows_take_last_occurrence() {
    let teams = vec![100, 200, 300, 200];
    assert_eq!(team_row(&teams, 100), Some(0));
    assert_eq!(team_row(&teams, 200), Some(3));
    assert_eq!(team_row(&teams, 400), None);
    assert_eq!(team_row(&Vec::new(), 1), None);
}

#[test]
fn pairing_matrix_counts_pairs() {
    let m = pairing_matrix(3, &vec![(0, 1), (1, 2), (0, 1)]);
    assert_eq!(m, vec![vec![2, 2, 0], vec![2, 3, 1], vec![0, 1, 1]]);
}

#[test]
fn pairing_matrix_same_team_twice() {
    let m = pairing_matrix(2, &vec![(1, 1)]);
    assert_eq!(m, vec![vec![0, 0], vec![0, 4]]);
}

#[test]
fn pairing_matrix_is_symmetric_and_empty_rows_stay_zero() {
    let m = pairing_matrix(4, &vec![(0, 2), (2, 3), (3, 0), (0, 0)]);
    for a in 0..4 {
        for b in 0..4 {
            assert_eq!(m[a][b], m[b][a]);
        }
    }
    assert_eq!(m[1], vec![0, 0, 0, 0]);
    assert_eq!(pairing_matrix(0, &Vec::new()), Vec::<Vec<u64>>::new());
}

fn row(alliance: &str, f: impl Fn(usize) -> String) -> ConeRow {
    ConeRow { alliance: alliance.to_string(), junctions: (0..25).map(f).collect() }
}

#[test]
fn cone_totals_red_reads_directly() {
    let r = row("Red", |c| if c == 1 { "mmo".to_string() } else { String::new() });
    let t = cone_totals(&vec![r]);
    assert_eq!(t.len(), 25);
    assert_eq!(t[1], 2);
    assert_eq!(t.iter().sum::<u128>(), 2);
}

#[test]
fn cone_totals_blue_is_mirrored() {
    // Column 1 of a blue row is field junction 3 (row 0, 4 - 1).
    let r = row("Blue", |c| if c == 1 { "m".to_string() } else { String::new() });
    let t = cone_totals(&vec![r]);
    assert_eq!(t[3], 1);
    assert_eq!(t[1], 0);
    // Column 12 (row 2, middle) stays put.
    let r = row("Blue", |c| if c == 12 { "mm".to_string() } else { String::new() });
    assert_eq!(cone_totals(&vec![r])[12], 2);
}

#[test]
fn cone_totals_sum_rows() {
    let a = row("Red", |c| if c == 0 { "m".to_string() } else { "o".to_string() });
    let b = row("Blue", |c| if c == 4 { "mm".to_string() } else { String::new() });
    let t = cone_totals(&vec![a, b]);
    assert_eq!(t[0], 3);
    assert_eq!(t.iter().sum::<u128>(), 3);
    assert_eq!(cone_totals(&Vec::new()), vec![0u128; 25]);
}

#[test]
fn score_totals_sum_columns() {
    let rows = vec![vec![10, 2, 3, 4, 5, -6], vec![1, 1, 1, 1, 1, 1]];
    assert_eq!(score_totals(&rows), vec![11, 3, 4, 5, 6, -5]);
    assert_eq!(score_totals(&Vec::new()), vec![0i128; 6]);
    let big = vec![vec![i32::MAX; 6], vec![i32::MAX; 6]];
    assert_eq!(score_totals(&big)[0], 2 * (i32::MAX as i128));
}

#[test]
fn mirrored_blue_row_as_red_gives_same_totals() {
    let texts = ["m", "mm", "", "o", "mmm"];
    let blue = row("Blue", |c| texts[c % 5].repeat(1 + c / 5));
    let red = row("Red", |c| texts[4 - c % 5].repeat(1 + c / 5));
    let other = || row("Red", |c| if c % 2 == 0 { "m".to_string() } else { String::new() });
    let with_blue = cone_totals(&vec![other(), blue]);
    let with_red = cone_totals(&vec![other(), red]);
    assert_eq!(with_blue, with_red);
    assert_eq!(with_blue[4], 1 + 1);
}
