//! How the web service decides on a request before it answers it: which
//! parameters it needs, and who may read the raw match data.
use vstd::prelude::*;

use crate::text::{parse_i32, parse_i32_spec, split_lines, split_lines_spec, string_views, same_text};

verus! {

/// A refused request: the status and the text of the answer.
pub struct Rejection {
    pub status: u16,
    pub message: String,
}

/// The refusal of a request whose parameters are missing or malformed.
pub open spec fn is_bad_parameters(r: Rejection) -> bool {
    r.status == 400 && r.message@ == "Invalid parameters entered"@
}

/// The refusal of a request for a season without insights.
pub open spec fn is_bad_year(r: Rejection) -> bool {
    r.status == 400 && r.message@ == "Invalid year entered"@
}

/// The refusal of a request without a known developer key.
pub open spec fn is_bad_authorization(r: Rejection) -> bool {
    r.status == 400 && r.message@ == "Invalid authorization entered"@
}

/// The key is one of the developer keys.
pub open spec fn is_dev_key_spec(keys: Seq<Seq<char>>, key: Seq<char>) -> bool {
    exists|i: int| 0 <= i < keys.len() && keys[i] == key
}

fn bad_parameters() -> (r: Rejection)
    ensures
        is_bad_parameters(r),
{
    Rejection { status: 400, message: String::from_str("Invalid parameters entered") }
}

fn bad_year() -> (r: Rejection)
    ensures
        is_bad_year(r),
{
    Rejection { status: 400, message: String::from_str("Invalid year entered") }
}

fn bad_authorization() -> (r: Rejection)
    ensures
        is_bad_authorization(r),
{
    Rejection { status: 400, message: String::from_str("Invalid authorization entered") }
}

/// The developer keys of a key file: one per line, as `split('\n')` cuts it.
pub fn dev_keys_from_text(text: &str) -> (keys: Vec<String>)
    ensures
        string_views(keys@) == split_lines_spec(text@),
{
    split_lines(text)
}

/// Whether `key` is one of the developer keys.
pub fn is_dev_key(keys: &Vec<String>, key: &str) -> (res: bool)
    ensures
        res == is_dev_key_spec(string_views(keys@), key@),
{
    let n = keys.len();
    for i in 0..n
        invariant
            n == keys@.len(),
            forall|j: int| 0 <= j < i ==> keys@[j]@ != key@,
    {
        if same_text(keys[i].as_str(), key) {
            assert(string_views(keys@)[i as int] == key@);
            return true;
        }
    }
    assert forall|j: int| 0 <= j < n implies string_views(keys@)[j] != key@ by {
        assert(string_views(keys@)[j] == keys@[j]@);
    }
    false
}

/// The request for the season's team insights: the season must be given,
/// and must be the one the service has insights for.
pub fn insight_teams_request(year: Option<&str>) -> (res: Result<(), Rejection>)
    ensures
        match year {
            None => res matches Err(r) && is_bad_parameters(r),
            Some(y) => if y@ == "2022"@ {
                res is Ok
            } else {
                res matches Err(r) && is_bad_year(r)
            },
        },
{
    match year {
        None => Err(bad_parameters()),
        Some(y) => {
            if same_text(y, "2022") {
                Ok(())
            } else {
                Err(bad_year())
            }
        },
    }
}

/// The request for one team's insights or cones: the season and the team
/// must be given, and the team must read as a number.
pub fn team_request(year: Option<&str>, team: Option<&str>) -> (res: Result<i32, Rejection>)
    ensures
        match (year, team) {
            (Some(_), Some(t)) => match parse_i32_spec(t@) {
                Some(n) => res == Ok::<i32, Rejection>(n),
                None => res matches Err(r) && is_bad_parameters(r),
            },
            _ => res matches Err(r) && is_bad_parameters(r),
        },
{
    match (year, team) {
        (Some(_), Some(t)) => match parse_i32(t) {
            Some(n) => Ok(n),
            None => Err(bad_parameters()),
        },
        _ => Err(bad_parameters()),
    }
}

/// The request for an event's predictions: the season and the event code
/// must be given.
pub fn predictions_request(year: Option<&str>, eventcode: Option<&str>) -> (res: Result<(), Rejection>)
    ensures
        res is Ok <==> (year is Some && eventcode is Some),
        res matches Err(r) ==> is_bad_parameters(r),
{
    match (year, eventcode) {
        (Some(_), Some(_)) => Ok(()),
        _ => Err(bad_parameters()),
    }
}

/// The request for an event's raw matches: it must carry a developer key,
/// checked first, and the event code.
pub fn dev_matches_request(keys: &Vec<String>, authorization: Option<&str>, eventcode: Option<&str>) -> (res: Result<(), Rejection>)
    ensures
        match authorization {
            None => res matches Err(r) && is_bad_authorization(r),
            Some(a) => if !is_dev_key_spec(string_views(keys@), a@) {
                res matches Err(r) && is_bad_authorization(r)
            } else if eventcode is None {
                res matches Err(r) && is_bad_parameters(r)
            } else {
                res is Ok
            },
        },
{
    match authorization {
        None => Err(bad_authorization()),
        Some(a) => {
            if !is_dev_key(keys, a) {
                Err(bad_authorization())
            } else {
                match eventcode {
                    None => Err(bad_parameters()),
                    Some(_) => Ok(()),
                }
            }
        },
    }
}

} // verus!
