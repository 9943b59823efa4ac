//! The decisions of the match predictor that involve no rating arithmetic:
//! which side a station is on, which way a result moves a rating, and how a
//! prediction is scored against the result.
use vstd::prelude::*;

use crate::text::{has_prefix, starts_with};

verus! {

/// How a played match moves one team's rating.
pub enum RatingChange {
    /// Up by the winner's change.
    AddWinChange,
    /// Down by the winner's change.
    SubtractWinChange,
    /// Up by the loser's change.
    AddLossChange,
    /// Down by the loser's change.
    SubtractLossChange,
    /// Unchanged.
    Keep,
}

/// The result fields of a prediction record.
pub struct Outcome {
    pub realResult: bool,
    pub realBlueWin: bool,
    pub realRedWin: bool,
    pub predictedcorrect: bool,
}

/// The red alliance's stations are those whose name begins with `Red`.
pub open spec fn is_red_station_spec(station: Seq<char>) -> bool {
    has_prefix(station, "Red"@)
}

/// Whether a station belongs to the red alliance.
pub fn is_red_station(station: &str) -> (res: bool)
    ensures
        res == is_red_station_spec(station@),
{
    starts_with(station, "Red")
}

/// How a played match moves the rating of a team on the given side: when
/// red wins, red teams gain the winner's change and blue teams lose the
/// loser's change; otherwise, when blue wins, red teams lose the winner's
/// change and blue teams gain the loser's change; a tie moves nothing.
pub fn rating_change(red_team: bool, red_wins: bool, blue_wins: bool) -> (c: RatingChange)
    ensures
        c == change_of(red_team, red_wins, blue_wins),
{
    if red_wins {
        if red_team {
            RatingChange::AddWinChange
        } else {
            RatingChange::SubtractLossChange
        }
    } else if blue_wins {
        if red_team {
            RatingChange::SubtractWinChange
        } else {
            RatingChange::AddLossChange
        }
    } else {
        RatingChange::Keep
    }
}

/// The result fields of a prediction: for a played match, the real winners
/// and whether the predicted side won (the blue prediction when blue won,
/// the red one otherwise); for a match not played yet, all false.
pub fn outcome(played: bool, red_wins: bool, blue_wins: bool, predicts_blue: bool, predicts_red: bool) -> (o: Outcome)
    ensures
        o == outcome_of(played, red_wins, blue_wins, predicts_blue, predicts_red),
{
    if played {
        Outcome {
            realResult: true,
            realBlueWin: blue_wins,
            realRedWin: red_wins,
            predictedcorrect: if blue_wins {
                predicts_blue
            } else {
                predicts_red
            },
        }
    } else {
        Outcome { realResult: false, realBlueWin: false, realRedWin: false, predictedcorrect: false }
    }
}

/// The four team numbers of a match lineup, in the order the schedule lists
/// them.
pub fn lineup(teams: &Vec<Option<i32>>) -> (res: (i32, i32, i32, i32))
    requires
        teams@.len() >= 4,
        forall|i: int| 0 <= i < 4 ==> (#[trigger] teams@[i]) is Some,
    ensures
        Some(res.0) == teams@[0],
        Some(res.1) == teams@[1],
        Some(res.2) == teams@[2],
        Some(res.3) == teams@[3],
{
    let a = teams[0].unwrap();
    let b = teams[1].unwrap();
    let c = teams[2].unwrap();
    let d = teams[3].unwrap();
    (a, b, c, d)
}

/// The direction in which a change moves a rating: up, down, or not at all.
pub open spec fn direction(c: RatingChange) -> int {
    match c {
        RatingChange::AddWinChange => 1,
        RatingChange::AddLossChange => 1,
        RatingChange::SubtractWinChange => -1,
        RatingChange::SubtractLossChange => -1,
        RatingChange::Keep => 0,
    }
}

/// How a played match moves the rating of a team on the given side.
pub open spec fn change_of(red_team: bool, red_wins: bool, blue_wins: bool) -> RatingChange {
    if red_wins {
        if red_team {
            RatingChange::AddWinChange
        } else {
            RatingChange::SubtractLossChange
        }
    } else if blue_wins {
        if red_team {
            RatingChange::SubtractWinChange
        } else {
            RatingChange::AddLossChange
        }
    } else {
        RatingChange::Keep
    }
}

/// The result fields of a prediction.
pub open spec fn outcome_of(played: bool, red_wins: bool, blue_wins: bool, predicts_blue: bool, predicts_red: bool) -> Outcome {
    Outcome {
        realResult: played,
        realBlueWin: played && blue_wins,
        realRedWin: played && red_wins,
        predictedcorrect: played && if blue_wins {
            predicts_blue
        } else {
            predicts_red
        },
    }
}

/// A decided match moves the ratings of the two sides in opposite
/// directions, and the winner's up; a tie moves neither.
pub proof fn law_sides_move_oppositely(red_wins: bool, blue_wins: bool)
    ensures
        direction(change_of(true, red_wins, blue_wins)) == -direction(change_of(false, red_wins, blue_wins)),
        red_wins ==> direction(change_of(true, red_wins, blue_wins)) == 1,
        !red_wins && blue_wins ==> direction(change_of(false, red_wins, blue_wins)) == 1,
        !red_wins && !blue_wins ==> direction(change_of(true, red_wins, blue_wins)) == 0,
{
}

/// A prediction counts as correct only for a match that was played, and a
/// match not played yet has no winner.
pub proof fn law_correct_only_when_played(played: bool, red_wins: bool, blue_wins: bool, predicts_blue: bool, predicts_red: bool)
    ensures
        outcome_of(played, red_wins, blue_wins, predicts_blue, predicts_red).predictedcorrect ==> played,
        !played ==> !outcome_of(played, red_wins, blue_wins, predicts_blue, predicts_red).realBlueWin
            && !outcome_of(played, red_wins, blue_wins, predicts_blue, predicts_red).realRedWin,
{
}

} // verus!
