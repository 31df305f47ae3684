//! Core value types and the laws of the game: cells, sides, game outcomes,
//! errors, and the specification of capturing, legality, flipping and
//! stone counting on a grid.

use vstd::prelude::*;
use crate::geometry::{step_spec, Direction};

verus! {

/// Contents of one board square.
#[derive(Clone, Copy, PartialEq, Eq, Structural, Debug)]
pub enum Cell {
    Empty,
    Black,
    White,
}

/// One of the two players. Black moves first.
#[derive(Clone, Copy, PartialEq, Eq, Structural, Debug)]
pub enum Side {
    Black,
    White,
}

/// Outcome classification of a position.
#[derive(Clone, Copy, PartialEq, Eq, Structural, Debug)]
pub enum GameState {
    Ongoing,
    BlackWin,
    WhiteWin,
    Draw,
}

/// Everything that can go wrong at the engine's interface.
#[derive(Clone, Copy, PartialEq, Eq, Structural, Debug)]
pub enum ReversiError {
    /// A coordinate string is not a letter A-H followed by a digit 1-8.
    BadCoordinate,
    /// A move was requested on a square that is not legal for the side to move.
    IllegalMove,
    /// A strategy was asked to choose although the side to move has no legal move.
    NoLegalMove,
}

/// The stone colour a side plays.
pub open spec fn cell_of(s: Side) -> Cell {
    match s {
        Side::Black => Cell::Black,
        Side::White => Cell::White,
    }
}

/// The other side.
pub open spec fn opp(s: Side) -> Side {
    match s {
        Side::Black => Side::White,
        Side::White => Side::Black,
    }
}

impl Side {
    /// The opponent of this side.
    pub fn opposite(self) -> (r: Side)
        ensures
            r == opp(self),
    {
        match self {
            Side::Black => Side::White,
            Side::White => Side::Black,
        }
    }

    /// The stone colour this side plays.
    pub fn stone(self) -> (r: Cell)
        ensures
            r == cell_of(self),
    {
        match self {
            Side::Black => Cell::Black,
            Side::White => Cell::White,
        }
    }
}

/// Length of the run of consecutive stones of `s`'s opponent on the ray
/// from cell `i` in direction `d`, starting `k` steps out. A step of 8 or
/// more always leaves the board, so the recursion stops there.
pub open spec fn run_len(grid: Seq<Cell>, s: Side, i: int, d: Direction, k: int) -> nat
    decreases 8 - k,
{
    if k < 1 || k >= 8 {
        0
    } else {
        match step_spec(i, d, k) {
            Some(j) => if grid[j] == cell_of(opp(s)) {
                (1 + run_len(grid, s, i, d, k + 1)) as nat
            } else {
                0
            },
            None => 0,
        }
    }
}

/// Whether placing a stone of `s` at cell `i` captures along direction
/// `d`: the ray must start with at least one opponent stone, and the
/// first cell beyond that run must exist and hold a stone of `s`.
pub open spec fn captures_dir(grid: Seq<Cell>, s: Side, i: int, d: Direction) -> bool {
    let n = run_len(grid, s, i, d, 1);
    &&& n >= 1
    &&& match step_spec(i, d, n + 1 as int) {
        Some(c) => grid[c] == cell_of(s),
        None => false,
    }
}

/// A standard Reversi legal move: the cell is on the board and empty, and
/// placing a stone of `s` there flips at least one opposing stone.
pub open spec fn is_legal(grid: Seq<Cell>, s: Side, i: int) -> bool {
    &&& 0 <= i < 64
    &&& grid[i] == Cell::Empty
    &&& exists|d: Direction| captures_dir(grid, s, i, d)
}

/// Cell `j` lies in the captured run of a move of `s` at `i` along `d`.
pub open spec fn captured_in_dir(grid: Seq<Cell>, s: Side, i: int, d: Direction, j: int) -> bool {
    &&& captures_dir(grid, s, i, d)
    &&& exists|k: int|
        1 <= k <= run_len(grid, s, i, d, 1) && step_spec(i, d, k) == Some(j)
}

/// Cell `j` is flipped by a move of `s` at `i` in some direction.
pub open spec fn captured(grid: Seq<Cell>, s: Side, i: int, j: int) -> bool {
    exists|d: Direction| captured_in_dir(grid, s, i, d, j)
}

/// The grid after `s` moves at `i`: the new stone is placed and every
/// captured run in every direction is recoloured to `s` in one step.
pub open spec fn next_grid(grid: Seq<Cell>, s: Side, i: int) -> Seq<Cell> {
    Seq::new(
        64,
        |j: int|
            if j == i {
                cell_of(s)
            } else if captured(grid, s, i, j) {
                cell_of(s)
            } else {
                grid[j]
            },
    )
}

/// The king-move neighbour of `i` in direction `d` exists and holds a
/// stone.
pub open spec fn occupied_neighbor(grid: Seq<Cell>, i: int, d: Direction) -> bool {
    match step_spec(i, d, 1) {
        Some(j) => grid[j] != Cell::Empty,
        None => false,
    }
}

/// A perimeter cell: empty, on the board, and adjacent by a king move to
/// at least one occupied cell.
pub open spec fn perim_cell(grid: Seq<Cell>, i: int) -> bool {
    &&& 0 <= i < 64
    &&& grid[i] == Cell::Empty
    &&& exists|d: Direction| occupied_neighbor(grid, i, d)
}

/// Number of cells holding `c` from index `k` onward.
pub open spec fn count_from(grid: Seq<Cell>, c: Cell, k: int) -> nat
    decreases grid.len() - k,
{
    if k < 0 || k >= grid.len() {
        0
    } else {
        (if grid[k] == c {
            1 as nat
        } else {
            0
        }) + count_from(grid, c, k + 1)
    }
}

/// Number of cells of the grid holding `c`.
pub open spec fn count_cells(grid: Seq<Cell>, c: Cell) -> nat {
    count_from(grid, c, 0)
}

/// Every cell of a captured run holds an opponent stone: cells `k` steps
/// out, for `k` up to the run length, exist and hold the opposite colour.
pub proof fn lemma_run_cells(grid: Seq<Cell>, s: Side, i: int, d: Direction, k: int, m: int)
    requires
        1 <= k <= m,
        m < k + run_len(grid, s, i, d, k),
    ensures
        step_spec(i, d, m) is Some,
        grid[step_spec(i, d, m)->0] == cell_of(opp(s)),
    decreases m - k,
{
    if m > k {
        lemma_run_cells(grid, s, i, d, k + 1, m);
    }
}

/// A flipped cell is a board cell distinct from the move cell and holds
/// an opponent stone before the move.
pub proof fn lemma_captured_opp(grid: Seq<Cell>, s: Side, i: int, j: int)
    requires
        0 <= i < 64,
        captured(grid, s, i, j),
    ensures
        0 <= j < 64,
        j != i,
        grid[j] == cell_of(opp(s)),
{
    let d = choose|d: Direction| captured_in_dir(grid, s, i, d, j);
    let k = choose|k: int|
        1 <= k <= run_len(grid, s, i, d, 1) && step_spec(i, d, k) == Some(j);
    lemma_run_cells(grid, s, i, d, 1, k);
    crate::geometry::lemma_step_on_board(i, d, k);
}

/// A legal move lies on the perimeter: it is empty and its first step in
/// a capturing direction is an adjacent opponent stone.
pub proof fn lemma_legal_in_perim(grid: Seq<Cell>, s: Side, i: int)
    requires
        is_legal(grid, s, i),
    ensures
        perim_cell(grid, i),
{
    let d = choose|d: Direction| captures_dir(grid, s, i, d);
    lemma_run_cells(grid, s, i, d, 1, 1);
    assert(occupied_neighbor(grid, i, d));
}

/// Moving at the board edge does not wrap: a ray whose first step
/// already leaves the board — an east ray from column 7, say — has an
/// empty run and never captures.
pub proof fn lemma_edge_ray_captures_nothing(grid: Seq<Cell>, s: Side, i: int, d: Direction)
    requires
        step_spec(i, d, 1) is None,
    ensures
        run_len(grid, s, i, d, 1) == 0,
        !captures_dir(grid, s, i, d),
{
}

/// Counting is pointwise: grids that agree on membership of `c` from `k`
/// onward have the same count.
proof fn lemma_count_pointwise(a: Seq<Cell>, b: Seq<Cell>, c: Cell, k: int)
    requires
        a.len() == b.len(),
        forall|j: int| k <= j < a.len() ==> ((a[j] == c) <==> (b[j] == c)),
    ensures
        count_from(a, c, k) == count_from(b, c, k),
    decreases a.len() - k,
{
    if 0 <= k < a.len() {
        lemma_count_pointwise(a, b, c, k + 1);
    }
}

/// Counting two grids that agree on membership of `c` everywhere except
/// possibly at one index `i`.
proof fn lemma_count_except_one(a: Seq<Cell>, b: Seq<Cell>, c: Cell, i: int, k: int)
    requires
        0 <= k,
        a.len() == b.len(),
        forall|j: int| k <= j < a.len() && j != i ==> ((a[j] == c) <==> (b[j] == c)),
    ensures
        count_from(b, c, k) + (if k <= i < a.len() && a[i] == c {
            1int
        } else {
            0
        }) == count_from(a, c, k) + (if k <= i < a.len() && b[i] == c {
            1int
        } else {
            0
        }),
    decreases a.len() - k,
{
    if 0 <= k < a.len() {
        lemma_count_except_one(a, b, c, i, k + 1);
    }
}

/// Every cell is exactly one of empty, black or white, so the three
/// counts from `k` onward sum to the number of remaining cells.
pub proof fn lemma_count_partition(grid: Seq<Cell>, k: int)
    requires
        0 <= k <= grid.len(),
    ensures
        count_from(grid, Cell::Empty, k) + count_from(grid, Cell::Black, k) + count_from(
            grid,
            Cell::White,
            k,
        ) == grid.len() - k,
    decreases grid.len() - k,
{
    if k < grid.len() {
        lemma_count_partition(grid, k + 1);
    }
}

/// Stone-count bookkeeping of a move: a move adds exactly one stone to
/// the board — flipping recolours but never adds or removes — so the
/// total stone count grows by one and the empty count shrinks by one.
pub proof fn lemma_move_counts(grid: Seq<Cell>, s: Side, i: int)
    requires
        grid.len() == 64,
        is_legal(grid, s, i),
    ensures
        count_cells(next_grid(grid, s, i), Cell::Black) + count_cells(
            next_grid(grid, s, i),
            Cell::White,
        ) == count_cells(grid, Cell::Black) + count_cells(grid, Cell::White) + 1,
        count_cells(next_grid(grid, s, i), Cell::Empty) == count_cells(grid, Cell::Empty) - 1,
        count_cells(grid, Cell::Empty) >= 1,
{
    let b = next_grid(grid, s, i);
    assert forall|j: int| 0 <= j < 64 && j != i implies ((grid[j] == Cell::Empty) <==> (b[j]
        == Cell::Empty)) by {
        if captured(grid, s, i, j) {
            lemma_captured_opp(grid, s, i, j);
        }
    }
    lemma_count_except_one(grid, b, Cell::Empty, i, 0);
    lemma_count_partition(grid, 0);
    lemma_count_partition(b, 0);
}

/// Number of cells from `k` onward that a move of `s` at `i` flips.
pub open spec fn captured_count(grid: Seq<Cell>, s: Side, i: int, k: int) -> nat
    decreases 64 - k,
{
    if k < 0 || k >= 64 {
        0
    } else {
        (if captured(grid, s, i, k) {
            1 as nat
        } else {
            0
        }) + captured_count(grid, s, i, k + 1)
    }
}

/// Per-colour accounting from index `k` onward: the mover's count grows
/// by the placed stone and the flipped cells, the opponent's count
/// shrinks by the flipped cells.
proof fn lemma_flip_accounting_from(grid: Seq<Cell>, s: Side, i: int, k: int)
    requires
        grid.len() == 64,
        is_legal(grid, s, i),
        0 <= k <= 64,
    ensures
        count_from(next_grid(grid, s, i), cell_of(s), k) == count_from(grid, cell_of(s), k) + (
        if k <= i {
            1int
        } else {
            0
        }) + captured_count(grid, s, i, k),
        count_from(next_grid(grid, s, i), cell_of(opp(s)), k) == count_from(
            grid,
            cell_of(opp(s)),
            k,
        ) - captured_count(grid, s, i, k),
    decreases 64 - k,
{
    if k < 64 {
        lemma_flip_accounting_from(grid, s, i, k + 1);
        if captured(grid, s, i, k) {
            lemma_captured_opp(grid, s, i, k);
        }
    }
}

/// Flip accounting of a move: the mover ends with its previous stones,
/// plus the one it placed, plus every flipped stone; the opponent loses
/// exactly the flipped stones.
pub proof fn lemma_flip_accounting(grid: Seq<Cell>, s: Side, i: int)
    requires
        grid.len() == 64,
        is_legal(grid, s, i),
    ensures
        count_cells(next_grid(grid, s, i), cell_of(s)) == count_cells(grid, cell_of(s)) + 1
            + captured_count(grid, s, i, 0),
        count_cells(next_grid(grid, s, i), cell_of(opp(s))) == count_cells(grid, cell_of(opp(s)))
            - captured_count(grid, s, i, 0),
{
    lemma_flip_accounting_from(grid, s, i, 0);
}

/// Occupancy after a move: exactly the move cell changes from empty to
/// occupied; every other cell keeps its occupancy.
pub proof fn lemma_next_grid_occupancy(grid: Seq<Cell>, s: Side, i: int)
    requires
        grid.len() == 64,
        is_legal(grid, s, i),
    ensures
        forall|j: int|
            0 <= j < 64 ==> ((next_grid(grid, s, i)[j] == Cell::Empty) <==> (grid[j] == Cell::Empty
                && j != i)),
{
    assert forall|j: int| 0 <= j < 64 implies ((next_grid(grid, s, i)[j] == Cell::Empty) <==> (
    grid[j] == Cell::Empty && j != i)) by {
        if j != i && captured(grid, s, i, j) {
            lemma_captured_opp(grid, s, i, j);
        }
    }
}

} // verus!
