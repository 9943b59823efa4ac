//! Turning a scored match, as the event API reports it, into the values that
//! are stored for it.
#![allow(non_snake_case)]

use vstd::prelude::*;

use crate::text::{count_char, lemma_count_char_concat, push_char, same_text};

verus! {

/// The code stored for one junction item: `m` for the alliance's own cone,
/// `o` for the other alliance's cone, nothing for anything else.
pub open spec fn junction_code(item: Seq<char>) -> Seq<char> {
    if item == "MY_CONE"@ {
        seq!['m']
    } else if item == "OTHER_CONE"@ {
        seq!['o']
    } else {
        Seq::empty()
    }
}

/// The codes of the items, one after another.
pub open spec fn serialize_spec(items: Seq<Seq<char>>) -> Seq<char>
    decreases items.len(),
{
    if items.len() == 0 {
        Seq::empty()
    } else {
        serialize_spec(items.drop_last()) + junction_code(items.last())
    }
}

/// The texts of a list of present items.
pub open spec fn junction_items(arr: Seq<Option<String>>) -> Seq<Seq<char>> {
    arr.map_values(|o: Option<String>| o->0@)
}

/// The number of items equal to `item`.
pub open spec fn count_items(items: Seq<Seq<char>>, item: Seq<char>) -> nat
    decreases items.len(),
{
    if items.len() == 0 {
        0
    } else {
        count_items(items.drop_last(), item) + if items.last() == item {
            1nat
        } else {
            0nat
        }
    }
}

/// The number stored for a robot's autonomous route: 0 for `NONE`, 1 for
/// `SUBSTATION_TERMINAL`, 2 for any other route.
pub open spec fn robot_auto_spec(route: Seq<char>) -> i32 {
    if route == "NONE"@ {
        0
    } else if route == "SUBSTATION_TERMINAL"@ {
        1
    } else {
        2
    }
}

/// Encodes the items of one junction as a string of `m` (own cone) and `o`
/// (other alliance's cone), in order, skipping any other item.
pub fn serializeJunctionArray(arr: Vec<Option<String>>) -> (res: String)
    requires
        forall|i: int| 0 <= i < arr@.len() ==> (#[trigger] arr@[i]) is Some,
    ensures
        res@ == serialize_spec(junction_items(arr@)),
{
    serialize_items(&arr)
}

/// Encodes the items of one junction, read in place.
fn serialize_items(arr: &Vec<Option<String>>) -> (res: String)
    requires
        forall|i: int| 0 <= i < arr@.len() ==> (#[trigger] arr@[i]) is Some,
    ensures
        res@ == serialize_spec(junction_items(arr@)),
{
    let ghost items = junction_items(arr@);
    let mine = String::from_str("MY_CONE");
    let other = String::from_str("OTHER_CONE");
    let mut res = String::new();
    let n = arr.len();
    for i in 0..n
        invariant
            n == arr@.len(),
            items == junction_items(arr@),
            forall|i: int| 0 <= i < arr@.len() ==> (#[trigger] arr@[i]) is Some,
            mine@ == "MY_CONE"@,
            other@ == "OTHER_CONE"@,
            res@ == serialize_spec(items.take(i as int)),
    {
        assert(items.take(i + 1).drop_last() =~= items.take(i as int));
        assert(arr@[i as int] is Some);
        match &arr[i] {
            Some(item) => {
                assert(items.take(i + 1).last() == item@);
                if *item == mine {
                    push_char(&mut res, 'm');
                    assert(res@ =~= serialize_spec(items.take(i + 1)));
                } else if *item == other {
                    push_char(&mut res, 'o');
                    assert(res@ =~= serialize_spec(items.take(i + 1)));
                } else {
                    assert(res@ =~= serialize_spec(items.take(i + 1)));
                }
            },
            None => {},
        }
    }
    assert(items.take(n as int) =~= items);
    res
}

/// The number stored for a robot's autonomous route.
pub fn robot_auto_code(route: &str) -> (code: i32)
    ensures
        code == robot_auto_spec(route@),
{
    if same_text(route, "NONE") {
        0
    } else if same_text(route, "SUBSTATION_TERMINAL") {
        1
    } else {
        2
    }
}

/// The number stored for a flag: 1 for set, 0 for clear.
pub fn flag_code(flag: bool) -> (code: i32)
    ensures
        code == if flag {
            1i32
        } else {
            0i32
        },
{
    if flag {
        1
    } else {
        0
    }
}

/// One value of a stored match row.
pub enum Cell {
    Int(i64),
    Text(String),
    Null,
}

/// What a stored value holds.
pub enum CellView {
    Int(int),
    Text(Seq<char>),
    Null,
}

/// What a stored value holds.
pub open spec fn cell_view(c: Cell) -> CellView {
    match c {
        Cell::Int(x) => CellView::Int(x as int),
        Cell::Text(s) => CellView::Text(s@),
        Cell::Null => CellView::Null,
    }
}

/// What a stored row holds, value by value.
pub open spec fn cells_view(cells: Seq<Cell>) -> Seq<CellView> {
    cells.map_values(|c: Cell| cell_view(c))
}

/// One alliance's scored record of a match, as the event API reports it.
pub struct AllianceScore {
    pub alliance: Option<String>,
    pub team: i32,
    pub sideOfField: Option<String>,
    pub initSignalSleeve1: bool,
    pub initSignalSleeve2: bool,
    pub robot1Auto: String,
    pub robot2Auto: String,
    pub autoTerminal: i32,
    /// The autonomous junction grid: five rows of five junctions, each the
    /// list of items on it.
    pub autoJunctions: Vec<Vec<Vec<Option<String>>>>,
    /// The driver-controlled junction grid.
    pub dcJunctions: Vec<Vec<Vec<Option<String>>>>,
    pub dcTerminalNear: i32,
    pub dcTerminalFar: i32,
    pub egNavigated1: bool,
    pub egNavigated2: bool,
    pub minorPenalties: i32,
    pub majorPenalties: i32,
    pub autoNavigationPoints: i32,
    pub signalBonusPoints: i32,
    pub autoJunctionConePoints: i32,
    pub autoTerminalConePoints: i32,
    pub dcJunctionConePoints: i32,
    pub dcTerminalConePoints: i32,
    pub ownershipPoints: i32,
    pub circuitPoints: i32,
    pub egNavigationPoints: i32,
    pub autoPoints: i32,
    pub dcPoints: i32,
    pub endgamePoints: i32,
    pub penaltyPointsCommitted: i32,
    pub prePenaltyTotal: i32,
    /// Cones on ground, low, medium and high junctions in autonomous.
    pub autoJunctionCones: Vec<i32>,
    /// Cones on ground, low, medium and high junctions in driver control.
    pub dcJunctionCones: Vec<i32>,
    pub beacons: i32,
    pub ownedJunctions: i32,
    pub circuit: bool,
    pub totalPoints: i32,
}

/// A scored match: its number, its randomization and its alliances' records,
/// the first alliance's first.
pub struct ScoredMatch {
    pub matchNumber: i32,
    pub randomization: i32,
    pub alliances: Vec<AllianceScore>,
}

/// A grid has five rows of at least five junctions each (the first five of
/// each are stored), and every item on those junctions is present.
pub open spec fn grid_ok(grid: Seq<Vec<Vec<Option<String>>>>) -> bool {
    &&& grid.len() >= 5
    &&& forall|i: int| 0 <= i < 5 ==> (#[trigger] grid[i])@.len() >= 5
    &&& forall|i: int, j: int, k: int|
        0 <= i < 5 && 0 <= j < 5 && 0 <= k < grid[i]@[j]@.len() ==> (#[trigger] grid[i]@[j]@[k]) is Some
}

/// Both junction grids of an alliance record are whole.
pub open spec fn alliance_ok(a: AllianceScore) -> bool {
    grid_ok(a.autoJunctions@) && grid_ok(a.dcJunctions@)
}

/// The flag stored as a number.
pub open spec fn flag_spec(flag: bool) -> int {
    if flag {
        1
    } else {
        0
    }
}

/// The stored text of an optional text: the text, or no value.
pub open spec fn text_cell(o: Option<String>) -> CellView {
    match o {
        Some(s) => CellView::Text(s@),
        None => CellView::Null,
    }
}

/// The stored junctions of a grid, row after row: junction `c` is row
/// `c / 5`, place `c % 5`.
pub open spec fn junction_cells_spec(grid: Seq<Vec<Vec<Option<String>>>>) -> Seq<CellView> {
    Seq::new(
        25,
        |c: int| CellView::Text(serialize_spec(junction_items(grid[c / 5]@[c % 5]@))),
    )
}

/// The stored cone counts by junction height: the four given counts, no
/// value where a count is missing.
pub open spec fn cone_cells_spec(counts: Seq<i32>) -> Seq<CellView> {
    Seq::new(
        4,
        |k: int|
            if k < counts.len() {
                CellView::Int(counts[k] as int)
            } else {
                CellView::Null
            },
    )
}

/// The counts and points stored between the junctions and the cone counts.
pub open spec fn point_values(a: AllianceScore) -> Seq<int> {
    seq![
        a.dcTerminalNear as int,
        a.dcTerminalFar as int,
        flag_spec(a.egNavigated1),
        flag_spec(a.egNavigated2),
        a.minorPenalties as int,
        a.majorPenalties as int,
        a.autoNavigationPoints as int,
        a.signalBonusPoints as int,
        a.autoJunctionConePoints as int,
        a.autoTerminalConePoints as int,
        a.dcJunctionConePoints as int,
        a.dcTerminalConePoints as int,
        a.ownershipPoints as int,
        a.circuitPoints as int,
        a.egNavigationPoints as int,
        a.autoPoints as int,
        a.dcPoints as int,
        a.endgamePoints as int,
        a.penaltyPointsCommitted as int,
        a.prePenaltyTotal as int,
    ]
}

/// The stored row of one alliance's record of a match, in column order:
/// event, the two teams of the row, match number, randomization, alliance,
/// team, side of field, the two signal sleeves, the two autonomous routes,
/// autonomous terminal; the autonomous then the driver-controlled junctions;
/// the counts and points; the autonomous then the driver-controlled cone
/// counts; beacons, owned junctions, circuit and total points.
pub open spec fn stored_row(
    eventcode: Seq<char>,
    team1: i32,
    team2: i32,
    matchNumber: i32,
    randomization: i32,
    a: AllianceScore,
) -> Seq<CellView> {
    seq![
        CellView::Text(eventcode),
        CellView::Int(team1 as int),
        CellView::Int(team2 as int),
        CellView::Int(matchNumber as int),
        CellView::Int(randomization as int),
        text_cell(a.alliance),
        CellView::Int(a.team as int),
        text_cell(a.sideOfField),
        CellView::Int(flag_spec(a.initSignalSleeve1)),
        CellView::Int(flag_spec(a.initSignalSleeve2)),
        CellView::Int(robot_auto_spec(a.robot1Auto@) as int),
        CellView::Int(robot_auto_spec(a.robot2Auto@) as int),
        CellView::Int(a.autoTerminal as int),
    ] + junction_cells_spec(a.autoJunctions@) + junction_cells_spec(a.dcJunctions@) + point_values(
        a,
    ).map_values(|x: int| CellView::Int(x)) + cone_cells_spec(a.autoJunctionCones@) + cone_cells_spec(
        a.dcJunctionCones@,
    ) + seq![
        CellView::Int(a.beacons as int),
        CellView::Int(a.ownedJunctions as int),
        CellView::Int(flag_spec(a.circuit)),
        CellView::Int(a.totalPoints as int),
    ]
}

/// The text stored for junction `c` of a grid: row `c / 5`, place `c % 5`
/// (the column `..Junctions` followed by `c / 5 + 1` and `c % 5 + 1`).
pub open spec fn junction_text(grid: Seq<Vec<Vec<Option<String>>>>, c: int) -> CellView {
    CellView::Text(serialize_spec(junction_items(grid[c / 5]@[c % 5]@)))
}

/// The value stored for cone count `k` (ground, low, medium, high): the
/// count, or no value where the record has none.
pub open spec fn cone_count(counts: Seq<i32>, k: int) -> CellView {
    if k < counts.len() {
        CellView::Int(counts[k] as int)
    } else {
        CellView::Null
    }
}

/// Each value of `row` is the field of the record that the stored column at
/// its position names: eventcode, team1, team2, matchNumber, randomization,
/// alliance, team, sideOfField, initSignalSleeve1, initSignalSleeve2,
/// robot1Auto, robot2Auto, autoTerminal; autoJunctions11..55;
/// dcJunctions11..55; dcTerminalNear, dcTerminalFar, egNavigated1,
/// egNavigated2, minorPenalties, majorPenalties, autoNavigationPoints,
/// signalBonusPoints, autoJunctionConePoints, autoTerminalConePoints,
/// dcJunctionConePoints, dcTerminalConePoints, ownershipPoints,
/// circuitPoints, egNavigationPoints, autoPoints, dcPoints, endgamePoints,
/// penaltyPointsCommitted, prePenaltyTotal; autoJunctionConesGnd..High;
/// dcJunctionConesGnd..High; beacons, ownedJunctions, circuit, totalPoints.
pub open spec fn row_holds_fields(
    row: Seq<CellView>,
    eventcode: Seq<char>,
    team1: i32,
    team2: i32,
    matchNumber: i32,
    randomization: i32,
    a: AllianceScore,
) -> bool {
    &&& row.len() == 95
    &&& row[0] == CellView::Text(eventcode)
    &&& row[1] == CellView::Int(team1 as int)
    &&& row[2] == CellView::Int(team2 as int)
    &&& row[3] == CellView::Int(matchNumber as int)
    &&& row[4] == CellView::Int(randomization as int)
    &&& row[5] == text_cell(a.alliance)
    &&& row[6] == CellView::Int(a.team as int)
    &&& row[7] == text_cell(a.sideOfField)
    &&& row[8] == CellView::Int(flag_spec(a.initSignalSleeve1))
    &&& row[9] == CellView::Int(flag_spec(a.initSignalSleeve2))
    &&& row[10] == CellView::Int(robot_auto_spec(a.robot1Auto@) as int)
    &&& row[11] == CellView::Int(robot_auto_spec(a.robot2Auto@) as int)
    &&& row[12] == CellView::Int(a.autoTerminal as int)
    &&& forall|c: int| 0 <= c < 25 ==> row[13 + c] == #[trigger] junction_text(a.autoJunctions@, c)
    &&& forall|c: int| 0 <= c < 25 ==> row[38 + c] == #[trigger] junction_text(a.dcJunctions@, c)
    &&& row[63] == CellView::Int(a.dcTerminalNear as int)
    &&& row[64] == CellView::Int(a.dcTerminalFar as int)
    &&& row[65] == CellView::Int(flag_spec(a.egNavigated1))
    &&& row[66] == CellView::Int(flag_spec(a.egNavigated2))
    &&& row[67] == CellView::Int(a.minorPenalties as int)
    &&& row[68] == CellView::Int(a.majorPenalties as int)
    &&& row[69] == CellView::Int(a.autoNavigationPoints as int)
    &&& row[70] == CellView::Int(a.signalBonusPoints as int)
    &&& row[71] == CellView::Int(a.autoJunctionConePoints as int)
    &&& row[72] == CellView::Int(a.autoTerminalConePoints as int)
    &&& row[73] == CellView::Int(a.dcJunctionConePoints as int)
    &&& row[74] == CellView::Int(a.dcTerminalConePoints as int)
    &&& row[75] == CellView::Int(a.ownershipPoints as int)
    &&& row[76] == CellView::Int(a.circuitPoints as int)
    &&& row[77] == CellView::Int(a.egNavigationPoints as int)
    &&& row[78] == CellView::Int(a.autoPoints as int)
    &&& row[79] == CellView::Int(a.dcPoints as int)
    &&& row[80] == CellView::Int(a.endgamePoints as int)
    &&& row[81] == CellView::Int(a.penaltyPointsCommitted as int)
    &&& row[82] == CellView::Int(a.prePenaltyTotal as int)
    &&& forall|k: int| 0 <= k < 4 ==> row[83 + k] == #[trigger] cone_count(a.autoJunctionCones@, k)
    &&& forall|k: int| 0 <= k < 4 ==> row[87 + k] == #[trigger] cone_count(a.dcJunctionCones@, k)
    &&& row[91] == CellView::Int(a.beacons as int)
    &&& row[92] == CellView::Int(a.ownedJunctions as int)
    &&& row[93] == CellView::Int(flag_spec(a.circuit))
    &&& row[94] == CellView::Int(a.totalPoints as int)
}

/// The stored row of an alliance record holds, at each position, the record
/// field that the column at that position names: the autonomous points under
/// autoPoints, the driver-controlled points under dcPoints, the endgame
/// points under endgamePoints, the penalties under penaltyPointsCommitted,
/// the autonomous cone counts under autoJunctionCones.. and the
/// driver-controlled ones under dcJunctionCones.., and so on for every column.
pub proof fn law_stored_row_columns(
    eventcode: Seq<char>,
    team1: i32,
    team2: i32,
    matchNumber: i32,
    randomization: i32,
    a: AllianceScore,
)
    ensures
        row_holds_fields(stored_row(eventcode, team1, team2, matchNumber, randomization, a), eventcode, team1, team2, matchNumber, randomization, a),
{
    let row = stored_row(eventcode, team1, team2, matchNumber, randomization, a);
    assert(row.len() == 95);
    assert forall|c: int| 0 <= c < 25 implies row[13 + c] == #[trigger] junction_text(a.autoJunctions@, c) by {}
    assert forall|c: int| 0 <= c < 25 implies row[38 + c] == #[trigger] junction_text(a.dcJunctions@, c) by {}
    assert forall|k: int| 0 <= k < 4 implies row[83 + k] == #[trigger] cone_count(a.autoJunctionCones@, k) by {}
    assert forall|k: int| 0 <= k < 4 implies row[87 + k] == #[trigger] cone_count(a.dcJunctionCones@, k) by {}
}

/// The stored value of an optional text.
fn text_value(o: &Option<String>) -> (c: Cell)
    ensures
        cell_view(c) == text_cell(*o),
{
    match o {
        Some(s) => Cell::Text(s.clone()),
        None => Cell::Null,
    }
}

/// The stored value of a number.
fn int_value(x: i32) -> (c: Cell)
    ensures
        cell_view(c) == CellView::Int(x as int),
{
    Cell::Int(x as i64)
}

/// The stored junctions of a grid.
fn junction_cells(grid: &Vec<Vec<Vec<Option<String>>>>) -> (res: Vec<Cell>)
    requires
        grid_ok(grid@),
    ensures
        cells_view(res@) == junction_cells_spec(grid@),
{
    let mut res: Vec<Cell> = Vec::new();
    for c in 0..25usize
        invariant
            grid_ok(grid@),
            res@.len() == c,
            forall|x: int| 0 <= x < c ==> cell_view(#[trigger] res@[x]) == junction_cells_spec(grid@)[x],
    {
        let i = c / 5;
        let j = c % 5;
        assert(grid@[i as int]@.len() >= 5);
        let items = &grid[i][j];
        assert forall|k: int| 0 <= k < items@.len() implies (#[trigger] items@[k]) is Some by {
            assert(grid@[i as int]@[j as int]@[k] is Some);
        }
        let text = serialize_items(items);
        res.push(Cell::Text(text));
    }
    assert(cells_view(res@) =~= junction_cells_spec(grid@));
    res
}

/// The stored cone counts by junction height.
fn cone_cells(counts: &Vec<i32>) -> (res: Vec<Cell>)
    ensures
        cells_view(res@) == cone_cells_spec(counts@),
{
    let mut res: Vec<Cell> = Vec::new();
    for k in 0..4usize
        invariant
            res@.len() == k,
            forall|x: int| 0 <= x < k ==> cell_view(#[trigger] res@[x]) == cone_cells_spec(counts@)[x],
    {
        if k < counts.len() {
            res.push(int_value(counts[k]));
        } else {
            res.push(Cell::Null);
        }
    }
    assert(cells_view(res@) =~= cone_cells_spec(counts@));
    res
}

/// The stored counts and points of a record.
fn point_cells(a: &AllianceScore) -> (res: Vec<Cell>)
    ensures
        cells_view(res@) == point_values(*a).map_values(|x: int| CellView::Int(x)),
{
    let mut res: Vec<Cell> = Vec::new();
    res.push(int_value(a.dcTerminalNear));
    res.push(int_value(a.dcTerminalFar));
    res.push(int_value(flag_code(a.egNavigated1)));
    res.push(int_value(flag_code(a.egNavigated2)));
    res.push(int_value(a.minorPenalties));
    res.push(int_value(a.majorPenalties));
    res.push(int_value(a.autoNavigationPoints));
    res.push(int_value(a.signalBonusPoints));
    res.push(int_value(a.autoJunctionConePoints));
    res.push(int_value(a.autoTerminalConePoints));
    res.push(int_value(a.dcJunctionConePoints));
    res.push(int_value(a.dcTerminalConePoints));
    res.push(int_value(a.ownershipPoints));
    res.push(int_value(a.circuitPoints));
    res.push(int_value(a.egNavigationPoints));
    res.push(int_value(a.autoPoints));
    res.push(int_value(a.dcPoints));
    res.push(int_value(a.endgamePoints));
    res.push(int_value(a.penaltyPointsCommitted));
    res.push(int_value(a.prePenaltyTotal));
    assert(cells_view(res@) =~= point_values(*a).map_values(|x: int| CellView::Int(x)));
    res
}

/// The stored row of one alliance's record of a match, with the two teams
/// that the row names.
pub fn alliance_row(
    eventcode: &String,
    team1: i32,
    team2: i32,
    matchNumber: i32,
    randomization: i32,
    a: &AllianceScore,
) -> (res: Vec<Cell>)
    requires
        alliance_ok(*a),
    ensures
        cells_view(res@) == stored_row(eventcode@, team1, team2, matchNumber, randomization, *a),
        row_holds_fields(cells_view(res@), eventcode@, team1, team2, matchNumber, randomization, *a),
{
    let mut res: Vec<Cell> = Vec::new();
    res.push(Cell::Text(eventcode.clone()));
    res.push(int_value(team1));
    res.push(int_value(team2));
    res.push(int_value(matchNumber));
    res.push(int_value(randomization));
    res.push(text_value(&a.alliance));
    res.push(int_value(a.team));
    res.push(text_value(&a.sideOfField));
    res.push(int_value(flag_code(a.initSignalSleeve1)));
    res.push(int_value(flag_code(a.initSignalSleeve2)));
    res.push(int_value(robot_auto_code(a.robot1Auto.as_str())));
    res.push(int_value(robot_auto_code(a.robot2Auto.as_str())));
    res.push(int_value(a.autoTerminal));
    let ghost head = res@;
    let mut auto_cells = junction_cells(&a.autoJunctions);
    let ghost auto_part = auto_cells@;
    res.append(&mut auto_cells);
    let mut dc_cells = junction_cells(&a.dcJunctions);
    let ghost dc_part = dc_cells@;
    res.append(&mut dc_cells);
    let mut points = point_cells(a);
    let ghost point_part = points@;
    res.append(&mut points);
    let mut auto_cones = cone_cells(&a.autoJunctionCones);
    let ghost auto_cone_part = auto_cones@;
    res.append(&mut auto_cones);
    let mut dc_cones = cone_cells(&a.dcJunctionCones);
    let ghost dc_cone_part = dc_cones@;
    res.append(&mut dc_cones);
    let ghost body = res@;
    res.push(int_value(a.beacons));
    res.push(int_value(a.ownedJunctions));
    res.push(int_value(flag_code(a.circuit)));
    res.push(int_value(a.totalPoints));
    proof {
        assert(body == head + auto_part + dc_part + point_part + auto_cone_part + dc_cone_part);
        assert(cells_view(head) =~= seq![
            CellView::Text(eventcode@),
            CellView::Int(team1 as int),
            CellView::Int(team2 as int),
            CellView::Int(matchNumber as int),
            CellView::Int(randomization as int),
            text_cell(a.alliance),
            CellView::Int(a.team as int),
            text_cell(a.sideOfField),
            CellView::Int(flag_spec(a.initSignalSleeve1)),
            CellView::Int(flag_spec(a.initSignalSleeve2)),
            CellView::Int(robot_auto_spec(a.robot1Auto@) as int),
            CellView::Int(robot_auto_spec(a.robot2Auto@) as int),
            CellView::Int(a.autoTerminal as int),
        ]);
        assert(cells_view(res@) =~= cells_view(head) + cells_view(auto_part) + cells_view(dc_part)
            + cells_view(point_part) + cells_view(auto_cone_part) + cells_view(dc_cone_part) + seq![
            CellView::Int(a.beacons as int),
            CellView::Int(a.ownedJunctions as int),
            CellView::Int(flag_spec(a.circuit)),
            CellView::Int(a.totalPoints as int),
        ]);
        law_stored_row_columns(eventcode@, team1, team2, matchNumber, randomization, *a);
    }
    res
}

/// The two stored rows of a scored match: the first alliance's, which names
/// the third and fourth teams of the match, and the second alliance's, which
/// names the first and second.
pub fn match_rows(eventcode: &String, match_teams: &Vec<i32>, scores: &ScoredMatch) -> (res: (
    Vec<Cell>,
    Vec<Cell>,
))
    requires
        match_teams@.len() >= 4,
        scores.alliances@.len() >= 2,
        alliance_ok(scores.alliances@[0]),
        alliance_ok(scores.alliances@[1]),
    ensures
        cells_view(res.0@) == stored_row(
            eventcode@,
            match_teams@[2],
            match_teams@[3],
            scores.matchNumber,
            scores.randomization,
            scores.alliances@[0],
        ),
        cells_view(res.1@) == stored_row(
            eventcode@,
            match_teams@[0],
            match_teams@[1],
            scores.matchNumber,
            scores.randomization,
            scores.alliances@[1],
        ),
        row_holds_fields(
            cells_view(res.0@),
            eventcode@,
            match_teams@[2],
            match_teams@[3],
            scores.matchNumber,
            scores.randomization,
            scores.alliances@[0],
        ),
        row_holds_fields(
            cells_view(res.1@),
            eventcode@,
            match_teams@[0],
            match_teams@[1],
            scores.matchNumber,
            scores.randomization,
            scores.alliances@[1],
        ),
{
    let first = alliance_row(
        eventcode,
        match_teams[2],
        match_teams[3],
        scores.matchNumber,
        scores.randomization,
        &scores.alliances[0],
    );
    let second = alliance_row(
        eventcode,
        match_teams[0],
        match_teams[1],
        scores.matchNumber,
        scores.randomization,
        &scores.alliances[1],
    );
    (first, second)
}

/// Counting `m` in an encoded junction counts the alliance's own cones, and
/// counting `o` counts the other alliance's.
pub proof fn law_serialized_counts(items: Seq<Seq<char>>)
    ensures
        count_char(serialize_spec(items), 'm') == count_items(items, "MY_CONE"@),
        count_char(serialize_spec(items), 'o') == count_items(items, "OTHER_CONE"@),
        serialize_spec(items).len() == count_items(items, "MY_CONE"@) + count_items(
            items,
            "OTHER_CONE"@,
        ),
    decreases items.len(),
{
    if items.len() > 0 {
        law_serialized_counts(items.drop_last());
        let head = serialize_spec(items.drop_last());
        let code = junction_code(items.last());
        lemma_count_char_concat(head, code, 'm');
        lemma_count_char_concat(head, code, 'o');
        reveal_strlit("MY_CONE");
        reveal_strlit("OTHER_CONE");
        assert("MY_CONE"@ != "OTHER_CONE"@) by {
            assert("MY_CONE"@.len() != "OTHER_CONE"@.len());
        }
        assert(seq!['m'].drop_last() =~= Seq::<char>::empty());
        assert(seq!['o'].drop_last() =~= Seq::<char>::empty());
        assert(count_char(Seq::<char>::empty(), 'm') == 0);
        assert(count_char(Seq::<char>::empty(), 'o') == 0);
        assert(seq!['m'].last() == 'm');
        assert(seq!['o'].last() == 'o');
        assert('m' != 'o');
        assert(count_char(seq!['m'], 'm') == 1);
        assert(count_char(seq!['m'], 'o') == 0);
        assert(count_char(seq!['o'], 'm') == 0);
        assert(count_char(seq!['o'], 'o') == 1);
    }
}

} // verus!
