//! A table from team numbers to text (a team's name, or its region), filled
//! from database rows whose first column is the team number as text.
use vstd::prelude::*;

use crate::text::{parse_i32, parse_i32_spec};

verus! {

/// What the entries say of `team`: the text of the latest entry for it.
pub open spec fn assoc_lookup(entries: Seq<(i32, String)>, team: i32) -> Option<Seq<char>>
    decreases entries.len(),
{
    if entries.len() == 0 {
        None
    } else if entries.last().0 == team {
        Some(entries.last().1@)
    } else {
        assoc_lookup(entries.drop_last(), team)
    }
}

/// Every row's first column reads as a team number.
pub open spec fn rows_have_team_numbers(rows: Seq<(String, String)>) -> bool {
    forall|i: int| 0 <= i < rows.len() ==> (parse_i32_spec(#[trigger] rows[i].0@) is Some)
}

/// The table that inserting the rows one after another gives: a later row
/// for a team replaces an earlier one.
pub open spec fn rows_to_map(rows: Seq<(String, String)>) -> Map<i32, Seq<char>>
    decreases rows.len(),
{
    if rows.len() == 0 {
        Map::empty()
    } else {
        rows_to_map(rows.drop_last()).insert(
            parse_i32_spec(rows.last().0@)->0,
            rows.last().1@,
        )
    }
}

/// Team number to text. A later insertion for a team replaces the earlier one.
pub struct TeamTable {
    entries: Vec<(i32, String)>,
}

impl TeamTable {
    /// The table as a map.
    pub closed spec fn as_map(&self) -> Map<i32, Seq<char>> {
        Map::new(
            |k: i32| assoc_lookup(self.entries@, k) is Some,
            |k: i32| assoc_lookup(self.entries@, k)->0,
        )
    }

    /// An empty table.
    pub fn new() -> (t: TeamTable)
        ensures
            t@ == Map::<i32, Seq<char>>::empty(),
    {
        let t = TeamTable { entries: Vec::new() };
        assert(t.as_map() =~= Map::<i32, Seq<char>>::empty());
        t
    }

    /// Sets the text of `team`, replacing what was there.
    pub fn insert(&mut self, team: i32, value: String)
        ensures
            final(self)@ == old(self)@.insert(team, value@),
    {
        let ghost old_map = self.as_map();
        let ghost v = value@;
        self.entries.push((team, value));
        proof {
            assert(self.entries@.drop_last() =~= old(self).entries@);
            assert(self.as_map() =~= old_map.insert(team, v));
        }
    }

    /// The text of `team`, if the table holds it.
    pub fn get(&self, team: i32) -> (res: Option<String>)
        ensures
            res is Some == self@.contains_key(team),
            res is Some ==> res->0@ == self@[team],
    {
        let mut j = self.entries.len();
        assert(self.entries@.take(j as int) =~= self.entries@);
        while j > 0
            invariant
                j <= self.entries@.len(),
                assoc_lookup(self.entries@, team) == assoc_lookup(
                    self.entries@.take(j as int),
                    team,
                ),
            decreases j,
        {
            assert(self.entries@.take(j as int).drop_last() =~= self.entries@.take(j - 1));
            if self.entries[j - 1].0 == team {
                return Some(self.entries[j - 1].1.clone());
            }
            j -= 1;
        }
        None
    }

    /// Whether the table holds `team`.
    pub fn contains_key(&self, team: i32) -> (res: bool)
        ensures
            res == self@.contains_key(team),
    {
        self.get(team).is_some()
    }

    /// Reads rows of (team number as text, text) into a table, each row
    /// inserted in turn.
    pub fn from_rows(rows: &Vec<(String, String)>) -> (t: TeamTable)
        requires
            rows_have_team_numbers(rows@),
        ensures
            t@ == rows_to_map(rows@),
    {
        let mut t = TeamTable::new();
        let n = rows.len();
        for i in 0..n
            invariant
                n == rows@.len(),
                rows_have_team_numbers(rows@),
                t@ == rows_to_map(rows@.take(i as int)),
        {
            assert(rows@.take(i + 1).drop_last() =~= rows@.take(i as int));
            assert(parse_i32_spec(rows@[i as int].0@) is Some);
            let team = parse_i32(rows[i].0.as_str());
            match team {
                Some(number) => {
                    t.insert(number, rows[i].1.clone());
                },
                None => {},
            }
        }
        assert(rows@.take(n as int) =~= rows@);
        t
    }
}

impl View for TeamTable {
    type V = Map<i32, Seq<char>>;

    open spec fn view(&self) -> Map<i32, Seq<char>> {
        self.as_map()
    }
}

} // verus!
