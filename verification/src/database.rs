//! Records read from the match database.
use vstd::prelude::*;

use crate::text::{parse_i32, parse_i32_spec};

verus! {

/// An event of the season: its code, its name and its start time.
pub struct Event {
    pub eventcode: String,
    pub eventname: String,
    pub timestart: i32,
}

/// Every row's start time reads as a number.
pub open spec fn rows_have_start_times(rows: Seq<(String, String, String)>) -> bool {
    forall|i: int| 0 <= i < rows.len() ==> (parse_i32_spec((#[trigger] rows[i]).2@) is Some)
}

/// `e` is the event that `row` describes.
pub open spec fn is_event_of(e: Event, row: (String, String, String)) -> bool {
    &&& e.eventcode@ == row.0@
    &&& e.eventname@ == row.1@
    &&& Some(e.timestart) == parse_i32_spec(row.2@)
}

impl Event {
    /// The event of a row (code, name, start time as text).
    pub fn from_row(row: &(String, String, String)) -> (e: Event)
        requires
            parse_i32_spec(row.2@) is Some,
        ensures
            is_event_of(e, *row),
    {
        let timestart = match parse_i32(row.2.as_str()) {
            Some(t) => t,
            None => 0,
        };
        Event { eventcode: row.0.clone(), eventname: row.1.clone(), timestart }
    }
}

/// The events of the rows, in order.
pub fn events_from_rows(rows: &Vec<(String, String, String)>) -> (res: Vec<Event>)
    requires
        rows_have_start_times(rows@),
    ensures
        res@.len() == rows@.len(),
        forall|i: int| 0 <= i < rows@.len() ==> is_event_of(#[trigger] res@[i], rows@[i]),
{
    let mut res: Vec<Event> = Vec::new();
    let n = rows.len();
    for i in 0..n
        invariant
            n == rows@.len(),
            rows_have_start_times(rows@),
            res@.len() == i,
            forall|j: int| 0 <= j < i ==> is_event_of(#[trigger] res@[j], rows@[j]),
    {
        assert(parse_i32_spec(rows@[i as int].2@) is Some);
        res.push(Event::from_row(&rows[i]));
    }
    res
}

} // verus!
