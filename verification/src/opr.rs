//! The integer inputs of an event's offensive power rating system: which
//! row of the system belongs to which team, how often each pair of teams
//! played together, and each team's summed cones and scores.
use vstd::prelude::*;

use crate::text::{count_char, count_char_in, same_text};

verus! {

/// The number of junctions on the field, five rows of five.
pub const JUNCTIONS: usize = 25;

/// The number of score columns summed per team.
pub const SCORE_COLUMNS: usize = 6;

/// The last position at which `team` occurs in `teams`, or -1.
pub open spec fn last_position(teams: Seq<i64>, team: i64) -> int
    decreases teams.len(),
{
    if teams.len() == 0 {
        -1
    } else if teams.last() == team {
        teams.len() - 1
    } else {
        last_position(teams.drop_last(), team)
    }
}

/// What one match of `pair` adds to cell `(a, b)` of the pairing matrix:
/// one for each of the four cells (first, first), (first, second),
/// (second, first), (second, second) that is `(a, b)`.
pub open spec fn pair_contribution(pair: (usize, usize), a: int, b: int) -> int {
    (if pair.0 == a && pair.0 == b {
        1int
    } else {
        0int
    }) + (if pair.0 == a && pair.1 == b {
        1int
    } else {
        0int
    }) + (if pair.1 == a && pair.0 == b {
        1int
    } else {
        0int
    }) + (if pair.1 == a && pair.1 == b {
        1int
    } else {
        0int
    })
}

/// Cell `(a, b)` of the pairing matrix of the given matches.
pub open spec fn pair_count(pairs: Seq<(usize, usize)>, a: int, b: int) -> int
    decreases pairs.len(),
{
    if pairs.len() == 0 {
        0
    } else {
        pair_count(pairs.drop_last(), a, b) + pair_contribution(pairs.last(), a, b)
    }
}

/// Every index in the pairs is below `n`.
pub open spec fn pairs_in_range(pairs: Seq<(usize, usize)>, n: int) -> bool {
    forall|i: int| 0 <= i < pairs.len() ==> (#[trigger] pairs[i]).0 < n && pairs[i].1 < n
}

/// The junction column that holds field junction `c` for a row of the given
/// alliance: the same column for the red alliance, the column mirrored
/// within its row of five for the blue one.
pub open spec fn source_column(red: bool, c: int) -> int {
    if red {
        c
    } else {
        c - c % 5 + (4 - c % 5)
    }
}

/// One alliance's record of one match: its alliance name and the encoded
/// driver-controlled junctions, in field order.
pub struct ConeRow {
    pub alliance: String,
    pub junctions: Vec<String>,
}

/// The junction texts of a row.
pub open spec fn junction_texts(row: ConeRow) -> Seq<Seq<char>> {
    row.junctions@.map_values(|s: String| s@)
}

/// The own cones that a row holds at field junction `c`.
pub open spec fn row_cones(row: ConeRow, c: int) -> int {
    count_char(junction_texts(row)[source_column(row.alliance@ == "Red"@, c)], 'm') as int
}

/// The own cones of all rows at field junction `c`.
pub open spec fn cone_total(rows: Seq<ConeRow>, c: int) -> int
    decreases rows.len(),
{
    if rows.len() == 0 {
        0
    } else {
        cone_total(rows.drop_last(), c) + row_cones(rows.last(), c)
    }
}

/// Every row has one junction text per field junction.
pub open spec fn cone_rows_ok(rows: Seq<ConeRow>) -> bool {
    forall|r: int| 0 <= r < rows.len() ==> (#[trigger] rows[r]).junctions@.len() == JUNCTIONS
}

/// The sum of column `k` over all rows.
pub open spec fn column_total(rows: Seq<Vec<i32>>, k: int) -> int
    decreases rows.len(),
{
    if rows.len() == 0 {
        0
    } else {
        column_total(rows.drop_last(), k) + rows.last()@[k]
    }
}

/// The row of the system that belongs to `team`: the position of its last
/// occurrence in the list of the event's teams.
pub fn team_row(teams: &Vec<i64>, team: i64) -> (res: Option<usize>)
    ensures
        match res {
            Some(i) => last_position(teams@, team) == i,
            None => last_position(teams@, team) == -1,
        },
{
    let mut j = teams.len();
    assert(teams@.take(j as int) =~= teams@);
    while j > 0
        invariant
            j <= teams@.len(),
            last_position(teams@, team) == last_position(teams@.take(j as int), team),
        decreases j,
    {
        assert(teams@.take(j as int).drop_last() =~= teams@.take(j - 1));
        if teams[j - 1] == team {
            return Some(j - 1);
        }
        j -= 1;
    }
    None
}

/// A cell is never above four times the number of matches.
pub proof fn lemma_pair_count_bounds(pairs: Seq<(usize, usize)>, a: int, b: int)
    ensures
        0 <= pair_count(pairs, a, b) <= 4 * pairs.len(),
    decreases pairs.len(),
{
    if pairs.len() > 0 {
        lemma_pair_count_bounds(pairs.drop_last(), a, b);
    }
}

/// The pairing matrix is symmetric.
pub proof fn law_pair_count_symmetric(pairs: Seq<(usize, usize)>, a: int, b: int)
    ensures
        pair_count(pairs, a, b) == pair_count(pairs, b, a),
    decreases pairs.len(),
{
    if pairs.len() > 0 {
        law_pair_count_symmetric(pairs.drop_last(), a, b);
    }
}

/// A team that played in no match has an empty row.
pub proof fn law_pair_count_absent_team(pairs: Seq<(usize, usize)>, a: int, b: int)
    requires
        forall|i: int| 0 <= i < pairs.len() ==> (#[trigger] pairs[i]).0 != a && pairs[i].1 != a,
    ensures
        pair_count(pairs, a, b) == 0,
    decreases pairs.len(),
{
    if pairs.len() > 0 {
        assert(pairs.last() == pairs[pairs.len() - 1]);
        law_pair_count_absent_team(pairs.drop_last(), a, b);
    }
}

/// Putting in place of one row a row that holds the same own cones at field
/// junction `c` leaves the total at `c` unchanged.
proof fn lemma_cone_total_update(rows: Seq<ConeRow>, i: int, row: ConeRow, c: int)
    requires
        0 <= i < rows.len(),
        row_cones(row, c) == row_cones(rows[i], c),
    ensures
        cone_total(rows.update(i, row), c) == cone_total(rows, c),
    decreases rows.len(),
{
    let updated = rows.update(i, row);
    if i == rows.len() - 1 {
        assert(updated.drop_last() =~= rows.drop_last());
    } else {
        assert(updated.drop_last() =~= rows.drop_last().update(i, row));
        lemma_cone_total_update(rows.drop_last(), i, row, c);
    }
}

/// A row of a non-red alliance and a red row that holds the same grid
/// mirrored left to right (junction `b` of each row of five in place of
/// junction `4 - b`) describe the same field positions: putting the red row
/// in place of the other leaves the cone total at every field junction
/// unchanged.
pub proof fn law_mirrored_row_same_totals(rows: Seq<ConeRow>, i: int, red_row: ConeRow, c: int)
    requires
        0 <= i < rows.len(),
        rows[i].alliance@ != "Red"@,
        red_row.alliance@ == "Red"@,
        forall|x: int|
            0 <= x < JUNCTIONS ==> #[trigger] junction_texts(red_row)[x] == junction_texts(rows[i])[x - x % 5
                + (4 - x % 5)],
        0 <= c < JUNCTIONS,
    ensures
        cone_total(rows.update(i, red_row), c) == cone_total(rows, c),
{
    assert(junction_texts(red_row)[c] == junction_texts(rows[i])[source_column(false, c)]);
    lemma_cone_total_update(rows, i, red_row, c);
}

/// Adds one to cell `(a, b)`.
fn bump(m: &mut Vec<Vec<u64>>, a: usize, b: usize)
    requires
        a < old(m)@.len(),
        b < old(m)@[a as int]@.len(),
        old(m)@[a as int]@[b as int] < u64::MAX,
    ensures
        final(m)@.len() == old(m)@.len(),
        forall|x: int| 0 <= x < old(m)@.len() ==> (#[trigger] final(m)@[x])@.len() == old(m)@[x]@.len(),
        forall|x: int, y: int|
            0 <= x < old(m)@.len() && 0 <= y < old(m)@[x]@.len() ==> #[trigger] final(m)@[x]@[y]
                == old(m)@[x]@[y] + (if x == a && y == b {
                1int
            } else {
                0int
            }),
{
    let mut row = m[a].clone();
    assert(row@ =~= old(m)@[a as int]@);
    let v = row[b];
    row.set(b, v + 1);
    m.set(a, row);
}

/// The pairing matrix of an event: cell `(a, b)` counts, over the matches
/// `(first, second)`, the cells (first, first), (first, second),
/// (second, first), (second, second) that are `(a, b)`.
pub fn pairing_matrix(n: usize, pairs: &Vec<(usize, usize)>) -> (m: Vec<Vec<u64>>)
    requires
        pairs_in_range(pairs@, n as int),
        pairs@.len() < 0x1000_0000_0000_0000,
    ensures
        m@.len() == n,
        forall|a: int| 0 <= a < n ==> (#[trigger] m@[a])@.len() == n,
        forall|a: int, b: int|
            0 <= a < n && 0 <= b < n ==> #[trigger] m@[a]@[b] == pair_count(pairs@, a, b),
{
    let mut m: Vec<Vec<u64>> = Vec::new();
    for a in 0..n
        invariant
            m@.len() == a,
            forall|x: int| 0 <= x < a ==> (#[trigger] m@[x])@ == Seq::new(n as nat, |y: int| 0u64),
    {
        let mut row: Vec<u64> = Vec::new();
        for b in 0..n
            invariant
                row@ == Seq::new(b as nat, |y: int| 0u64),
        {
            row.push(0);
            assert(row@ =~= Seq::new((b + 1) as nat, |y: int| 0u64));
        }
        m.push(row);
    }
    let np = pairs.len();
    for p in 0..np
        invariant
            np == pairs@.len(),
            np < 0x1000_0000_0000_0000,
            pairs_in_range(pairs@, n as int),
            m@.len() == n,
            forall|a: int| 0 <= a < n ==> (#[trigger] m@[a])@.len() == n,
            forall|a: int, b: int|
                0 <= a < n && 0 <= b < n ==> #[trigger] m@[a]@[b] == pair_count(
                    pairs@.take(p as int),
                    a,
                    b,
                ),
    {
        let (t1, t2) = pairs[p];
        assert(pairs@[p as int].0 < n && pairs@[p as int].1 < n);
        let ghost prefix = pairs@.take(p as int);
        assert(pairs@.take(p + 1).drop_last() =~= prefix);
        assert(pairs@.take(p + 1).last() == (t1, t2));
        proof {
            lemma_pair_count_bounds(prefix, t1 as int, t1 as int);
            lemma_pair_count_bounds(prefix, t1 as int, t2 as int);
            lemma_pair_count_bounds(prefix, t2 as int, t1 as int);
            lemma_pair_count_bounds(prefix, t2 as int, t2 as int);
        }
        let ghost start = m@;
        assert(start[t1 as int]@[t1 as int] == pair_count(prefix, t1 as int, t1 as int));
        assert(start[t1 as int]@[t2 as int] == pair_count(prefix, t1 as int, t2 as int));
        assert(start[t2 as int]@[t1 as int] == pair_count(prefix, t2 as int, t1 as int));
        assert(start[t2 as int]@[t2 as int] == pair_count(prefix, t2 as int, t2 as int));
        bump(&mut m, t1, t1);
        bump(&mut m, t1, t2);
        bump(&mut m, t2, t1);
        bump(&mut m, t2, t2);
        assert forall|a: int, b: int| 0 <= a < n && 0 <= b < n implies #[trigger] m@[a]@[b]
            == pair_count(pairs@.take(p + 1), a, b) by {
            assert(start[a]@[b] == pair_count(prefix, a, b));
        }
    }
    assert(pairs@.take(np as int) =~= pairs@);
    m
}

/// The own cones that one row holds at each field junction.
fn cones_of_row(row: &ConeRow) -> (res: Vec<u64>)
    requires
        row.junctions@.len() == JUNCTIONS,
    ensures
        res@.len() == JUNCTIONS,
        forall|c: int| 0 <= c < JUNCTIONS ==> #[trigger] res@[c] == row_cones(*row, c),
{
    let red = same_text(row.alliance.as_str(), "Red");
    let mut res: Vec<u64> = Vec::new();
    for c in 0..JUNCTIONS
        invariant
            row.junctions@.len() == JUNCTIONS,
            red == (row.alliance@ == "Red"@),
            res@.len() == c,
            forall|x: int| 0 <= x < c ==> #[trigger] res@[x] == row_cones(*row, x),
    {
        let src = if red {
            c
        } else {
            c - c % 5 + (4 - c % 5)
        };
        assert(src == source_column(red, c as int));
        let n = count_char_in(row.junctions[src].as_str(), 'm');
        assert(junction_texts(*row)[src as int] == row.junctions@[src as int]@);
        res.push(n as u64);
    }
    res
}

/// The own cones of a team's rows at each field junction, summed over the
/// rows. A blue alliance row is read mirrored, so that every junction is
/// seen from the red side.
pub fn cone_totals(rows: &Vec<ConeRow>) -> (res: Vec<u128>)
    requires
        cone_rows_ok(rows@),
    ensures
        res@.len() == JUNCTIONS,
        forall|c: int| 0 <= c < JUNCTIONS ==> #[trigger] res@[c] == cone_total(rows@, c),
{
    let mut res: Vec<u128> = Vec::new();
    for c in 0..JUNCTIONS
        invariant
            res@.len() == c,
            forall|x: int| 0 <= x < c ==> #[trigger] res@[x] == 0,
    {
        res.push(0);
    }
    let n = rows.len();
    for r in 0..n
        invariant
            n == rows@.len(),
            cone_rows_ok(rows@),
            res@.len() == JUNCTIONS,
            forall|c: int| 0 <= c < JUNCTIONS ==> #[trigger] res@[c] == cone_total(rows@.take(r as int), c),
            forall|c: int| 0 <= c < JUNCTIONS ==> #[trigger] res@[c] <= r * 0xFFFF_FFFF_FFFF_FFFFu128,
    {
        assert(rows@[r as int].junctions@.len() == JUNCTIONS);
        let counts = cones_of_row(&rows[r]);
        let ghost prefix = rows@.take(r as int);
        assert(rows@.take(r + 1).drop_last() =~= prefix);
        assert(rows@.take(r + 1).last() == rows@[r as int]);
        assert forall|x: int| 0 <= x < JUNCTIONS implies #[trigger] cone_total(rows@.take(r + 1), x)
            == cone_total(rows@.take(r as int), x) + row_cones(rows@[r as int], x) by {}
        for c in 0..JUNCTIONS
            invariant
                res@.len() == JUNCTIONS,
                counts@.len() == JUNCTIONS,
                n == rows@.len(),
                r < n,
                forall|x: int|
                    0 <= x < JUNCTIONS ==> #[trigger] cone_total(rows@.take(r + 1), x) == cone_total(
                        rows@.take(r as int),
                        x,
                    ) + row_cones(rows@[r as int], x),
                forall|x: int| 0 <= x < JUNCTIONS ==> #[trigger] counts@[x] == row_cones(rows@[r as int], x),
                forall|x: int|
                    0 <= x < c ==> #[trigger] res@[x] == cone_total(rows@.take(r + 1), x),
                forall|x: int|
                    c <= x < JUNCTIONS ==> #[trigger] res@[x] == cone_total(rows@.take(r as int), x),
                forall|x: int| 0 <= x < c ==> #[trigger] res@[x] <= (r + 1) * 0xFFFF_FFFF_FFFF_FFFFu128,
                forall|x: int| c <= x < JUNCTIONS ==> #[trigger] res@[x] <= r * 0xFFFF_FFFF_FFFF_FFFFu128,
        {
            let v = res[c];
            assert((r + 1) * 0xFFFF_FFFF_FFFF_FFFFu128 == r * 0xFFFF_FFFF_FFFF_FFFFu128 + 0xFFFF_FFFF_FFFF_FFFFu128);
            assert(r * 0xFFFF_FFFF_FFFF_FFFFu128 <= 0xFFFF_FFFF_FFFF_FFFEu128 * 0xFFFF_FFFF_FFFF_FFFFu128) by (nonlinear_arith)
                requires
                    r < 0xFFFF_FFFF_FFFF_FFFFu128,
            ;
            res.set(c, v + counts[c] as u128);
        }
    }
    assert(rows@.take(n as int) =~= rows@);
    res
}

/// The sum of each score column over a team's rows.
pub fn score_totals(rows: &Vec<Vec<i32>>) -> (res: Vec<i128>)
    requires
        forall|r: int| 0 <= r < rows@.len() ==> (#[trigger] rows@[r])@.len() == SCORE_COLUMNS,
    ensures
        res@.len() == SCORE_COLUMNS,
        forall|k: int| 0 <= k < SCORE_COLUMNS ==> #[trigger] res@[k] == column_total(rows@, k),
{
    let mut res: Vec<i128> = Vec::new();
    for k in 0..SCORE_COLUMNS
        invariant
            res@.len() == k,
            forall|x: int| 0 <= x < k ==> #[trigger] res@[x] == 0,
    {
        res.push(0);
    }
    let n = rows.len();
    for r in 0..n
        invariant
            n == rows@.len(),
            forall|r: int| 0 <= r < rows@.len() ==> (#[trigger] rows@[r])@.len() == SCORE_COLUMNS,
            res@.len() == SCORE_COLUMNS,
            forall|k: int|
                0 <= k < SCORE_COLUMNS ==> #[trigger] res@[k] == column_total(rows@.take(r as int), k),
            forall|k: int|
                0 <= k < SCORE_COLUMNS ==> -(r * 0x8000_0000int) <= #[trigger] res@[k] <= r * 0x8000_0000int,
    {
        assert(rows@.take(r + 1).drop_last() =~= rows@.take(r as int));
        assert(rows@.take(r + 1).last() == rows@[r as int]);
        let row = &rows[r];
        assert(row@.len() == SCORE_COLUMNS);
        assert forall|x: int| 0 <= x < SCORE_COLUMNS implies #[trigger] column_total(rows@.take(r + 1), x)
            == column_total(rows@.take(r as int), x) + rows@[r as int]@[x] by {}
        for k in 0..SCORE_COLUMNS
            invariant
                res@.len() == SCORE_COLUMNS,
                row@.len() == SCORE_COLUMNS,
                n == rows@.len(),
                forall|x: int|
                    0 <= x < SCORE_COLUMNS ==> #[trigger] column_total(rows@.take(r + 1), x)
                        == column_total(rows@.take(r as int), x) + rows@[r as int]@[x],
                *row == rows@[r as int],
                r < n,
                forall|x: int|
                    0 <= x < k ==> #[trigger] res@[x] == column_total(rows@.take(r + 1), x),
                forall|x: int|
                    k <= x < SCORE_COLUMNS ==> #[trigger] res@[x] == column_total(rows@.take(r as int), x),
                forall|x: int| 0 <= x < k ==> -((r + 1) * 0x8000_0000int) <= #[trigger] res@[x] <= (r + 1) * 0x8000_0000int,
                forall|x: int| k <= x < SCORE_COLUMNS ==> -(r * 0x8000_0000int) <= #[trigger] res@[x] <= r * 0x8000_0000int,
        {
            let v = res[k];
            assert(r * 0x8000_0000int <= 0x1_0000_0000_0000_0000int * 0x8000_0000int) by (nonlinear_arith)
                requires
                    0 <= r < 0x1_0000_0000_0000_0000int,
            ;
            res.set(k, v + row[k] as i128);
        }
    }
    assert(rows@.take(n as int) =~= rows@);
    res
}

} // verus!
