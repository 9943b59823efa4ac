use ftc_insights::predictions::{is_red_station, lineup, outcome, rating_change, RatingChange};

#[test]
fn stations() {
    assert!(is_red_station("Red1"));
    assert!(is_red_station("Red2"));
    assert!(!is_red_station("Blue1"));
    assert!(!is_red_station("red1"));
}

#[test]
fn rating_changes() {
    assert!(matches!(rating_change(true, true, false), RatingChange::AddWinChange));
    assert!(matches!(rating_change(false, true, false), RatingChange::SubtractLossChange));
    assert!(matches!(rating_change(true, false, true), RatingChange::SubtractWinChange));
    assert!(matches!(rating_change(false, false, true), RatingChange::AddLossChange));
    assert!(matches!(rating_change(true, false, false), RatingChange::Keep));
    assert!(matches!(rating_change(false, true, true), RatingChange::SubtractLossChange));
}

#[test]
fn outcomes() {
    let o = outcome(true, false, true, true, false);
    assert!(o.realResult && o.realBlueWin && !o.realRedWin && o.predictedcorrect);
    let o = outcome(true, true, false, true, false);
    assert!(o.realRedWin && !o.predictedcorrect);
    let o = outcome(false, true, true, true, true);
    assert!(!o.realResult && !o.realBlueWin && !o.realRedWin && !o.predictedcorrect);
}

#[test]
fn lineups() {
    assert_eq!(lineup(&vec![Some(1), Some(2), Some(3), Some(4), Some(5)]), (1, 2, 3, 4));
}

fn sign(c: RatingChange) -> i32 {
    match c {
        RatingChange::AddWinChange | RatingChange::AddLossChange => 1,
        RatingChange::SubtractWinChange | RatingChange::SubtractLossChange => -1,
        RatingChange::Keep => 0,
    }
}

#[test]
fn sides_move_oppositely() {
    for (r, b) in [(true, false), (false, true), (false, false), (true, true)] {
        assert_eq!(sign(rating_change(true, r, b)), -sign(rating_change(false, r, b)));
    }
    assert_eq!(sign(rating_change(false, false, true)), 1);
    assert_eq!(sign(rating_change(true, false, false)), 0);
}
