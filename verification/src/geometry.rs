//! Edge-aware neighbour arithmetic on the 8x8 board.
//!
//! Cells are numbered 0..64 row-major, row 0 on top, column 0 leftmost.
//! Walking a ray must never wrap between rows: moving east from column 7
//! leaves the board, as does moving west from column 0; diagonals check
//! both axes.

use vstd::prelude::*;
use crate::rules::ReversiError;

verus! {

/// The eight compass directions, in the fixed scan order used everywhere:
/// E, W, S, N, NW, NE, SW, SE.
#[derive(Clone, Copy, PartialEq, Eq, Structural, Debug)]
pub enum Direction {
    East,
    West,
    South,
    North,
    NorthWest,
    NorthEast,
    SouthWest,
    SouthEast,
}

/// Row of a cell index (0 = top).
pub open spec fn row(i: int) -> int {
    i / 8
}

/// Column of a cell index (0 = leftmost).
pub open spec fn col(i: int) -> int {
    i % 8
}

/// The cell at the given row and column, or `None` if that point is off
/// the board.
pub open spec fn square_at(r: int, c: int) -> Option<int> {
    if 0 <= r < 8 && 0 <= c < 8 {
        Some(8 * r + c)
    } else {
        None
    }
}

/// The cell reached from `i` after `k` single-cell steps in direction `d`,
/// or `None` if the ray leaves the board.
pub open spec fn step_spec(i: int, d: Direction, k: int) -> Option<int> {
    match d {
        Direction::East => square_at(row(i), col(i) + k),
        Direction::West => square_at(row(i), col(i) - k),
        Direction::South => square_at(row(i) + k, col(i)),
        Direction::North => square_at(row(i) - k, col(i)),
        Direction::NorthWest => square_at(row(i) - k, col(i) - k),
        Direction::NorthEast => square_at(row(i) - k, col(i) + k),
        Direction::SouthWest => square_at(row(i) + k, col(i) - k),
        Direction::SouthEast => square_at(row(i) + k, col(i) + k),
    }
}

/// `step_spec` with the result narrowed to the `u8` range of cell indices.
pub open spec fn step_opt(i: int, d: Direction, k: int) -> Option<u8> {
    match step_spec(i, d, k) {
        Some(j) => Some(j as u8),
        None => None,
    }
}

/// The direction denoted by a numeric code 0..8, in the fixed scan order.
pub open spec fn dir_of_code(c: int) -> Direction {
    if c == 0 {
        Direction::East
    } else if c == 1 {
        Direction::West
    } else if c == 2 {
        Direction::South
    } else if c == 3 {
        Direction::North
    } else if c == 4 {
        Direction::NorthWest
    } else if c == 5 {
        Direction::NorthEast
    } else if c == 6 {
        Direction::SouthWest
    } else {
        Direction::SouthEast
    }
}

/// The numeric code of a direction; inverse of `dir_of_code` on 0..8.
pub open spec fn code_of_dir(d: Direction) -> int {
    match d {
        Direction::East => 0,
        Direction::West => 1,
        Direction::South => 2,
        Direction::North => 3,
        Direction::NorthWest => 4,
        Direction::NorthEast => 5,
        Direction::SouthWest => 6,
        Direction::SouthEast => 7,
    }
}

/// The direction pointing the opposite way.
pub open spec fn opposite_dir(d: Direction) -> Direction {
    match d {
        Direction::East => Direction::West,
        Direction::West => Direction::East,
        Direction::South => Direction::North,
        Direction::North => Direction::South,
        Direction::NorthWest => Direction::SouthEast,
        Direction::NorthEast => Direction::SouthWest,
        Direction::SouthWest => Direction::NorthEast,
        Direction::SouthEast => Direction::NorthWest,
    }
}

/// King-move adjacency is symmetric: one step from `i` to `j` in
/// direction `d` means one step from `j` back to `i` the opposite way.
pub proof fn lemma_step_symmetry(i: int, d: Direction, j: int)
    requires
        0 <= i < 64,
        step_spec(i, d, 1) == Some(j),
    ensures
        0 <= j < 64,
        step_spec(j, opposite_dir(d), 1) == Some(i),
{
    lemma_step_on_board(i, d, 1);
}

/// The fixed order in which the king-neighbours of a move cell are added
/// to the perimeter: NW, N, NE, W, E, SW, S, SE.
pub open spec fn perim_dir(m: int) -> Direction {
    if m == 0 {
        Direction::NorthWest
    } else if m == 1 {
        Direction::North
    } else if m == 2 {
        Direction::NorthEast
    } else if m == 3 {
        Direction::West
    } else if m == 4 {
        Direction::East
    } else if m == 5 {
        Direction::SouthWest
    } else if m == 6 {
        Direction::South
    } else {
        Direction::SouthEast
    }
}

/// The place of a direction in the perimeter scan order; inverse of
/// `perim_dir` on 0..8.
pub open spec fn perim_code_of(d: Direction) -> int {
    match d {
        Direction::NorthWest => 0,
        Direction::North => 1,
        Direction::NorthEast => 2,
        Direction::West => 3,
        Direction::East => 4,
        Direction::SouthWest => 5,
        Direction::South => 6,
        Direction::SouthEast => 7,
    }
}

/// Every direction is reached by its own place in the perimeter scan.
pub proof fn lemma_perim_code_round_trip(d: Direction)
    ensures
        0 <= perim_code_of(d) < 8,
        perim_dir(perim_code_of(d)) == d,
{
}

/// The perimeter-scan direction of a numeric code 0..8.
pub fn perim_dir_from_code(m: u8) -> (r: Direction)
    requires
        m < 8,
    ensures
        r == perim_dir(m as int),
{
    match m {
        0 => Direction::NorthWest,
        1 => Direction::North,
        2 => Direction::NorthEast,
        3 => Direction::West,
        4 => Direction::East,
        5 => Direction::SouthWest,
        6 => Direction::South,
        _ => Direction::SouthEast,
    }
}

/// Every direction is reached by its own code.
pub proof fn lemma_dir_code_round_trip(d: Direction)
    ensures
        0 <= code_of_dir(d) < 8,
        dir_of_code(code_of_dir(d)) == d,
{
}

/// A ray that has left the board once stays off it: from a cell on the
/// board, no step of 8 or more cells in any direction lands on the board.
pub proof fn lemma_step_far_off_board(i: int, d: Direction, k: int)
    requires
        0 <= i < 64,
        k >= 8,
    ensures
        step_spec(i, d, k) is None,
{
}

/// A step that lands on the board lands on a cell index, and only steps
/// of fewer than 8 cells can do so.
pub proof fn lemma_step_on_board(i: int, d: Direction, k: int)
    requires
        0 <= i < 64,
        k >= 1,
        step_spec(i, d, k) is Some,
    ensures
        0 <= step_spec(i, d, k)->0 < 64,
        k <= 7,
{
}

/// Moving at the board edge does not wrap: an east ray from column 7
/// leaves the board at once, as does a west ray from column 0.
pub proof fn lemma_no_wrap(i: int, k: int)
    requires
        0 <= i < 64,
        k >= 1,
    ensures
        col(i) == 7 ==> step_spec(i, Direction::East, k) is None,
        col(i) == 0 ==> step_spec(i, Direction::West, k) is None,
{
}

/// The direction denoted by a numeric code 0..8.
pub fn dir_from_code(c: u8) -> (r: Direction)
    requires
        c < 8,
    ensures
        r == dir_of_code(c as int),
{
    match c {
        0 => Direction::East,
        1 => Direction::West,
        2 => Direction::South,
        3 => Direction::North,
        4 => Direction::NorthWest,
        5 => Direction::NorthEast,
        6 => Direction::SouthWest,
        _ => Direction::SouthEast,
    }
}

/// The cell reached from `pos` after `k` single-cell steps in direction
/// `d`, or `None` if the ray leaves the 8x8 board at any point.
pub fn step(pos: u8, d: Direction, k: u8) -> (r: Option<u8>)
    requires
        pos < 64,
        k >= 1,
    ensures
        r == step_opt(pos as int, d, k as int),
{
    if k >= 8 {
        proof {
            lemma_step_far_off_board(pos as int, d, k as int);
        }
        return None;
    }
    let r8: u8 = pos / 8;
    let c8: u8 = pos % 8;
    match d {
        Direction::East => if c8 + k < 8 {
            Some(pos + k)
        } else {
            None
        },
        Direction::West => if c8 >= k {
            Some(pos - k)
        } else {
            None
        },
        Direction::South => if r8 + k < 8 {
            Some(pos + 8 * k)
        } else {
            None
        },
        Direction::North => if r8 >= k {
            Some(pos - 8 * k)
        } else {
            None
        },
        Direction::NorthWest => if r8 >= k && c8 >= k {
            Some(pos - 8 * k - k)
        } else {
            None
        },
        Direction::NorthEast => if r8 >= k && c8 + k < 8 {
            Some(pos - 8 * k + k)
        } else {
            None
        },
        Direction::SouthWest => if r8 + k < 8 && c8 >= k {
            Some(pos + 8 * k - k)
        } else {
            None
        },
        Direction::SouthEast => if r8 + k < 8 && c8 + k < 8 {
            Some(pos + 8 * k + k)
        } else {
            None
        },
    }
}

/// Edge-aware ray arithmetic on numeric direction codes: the cell reached
/// from `pos` after `iter` steps in the direction coded by `dir`, on a
/// board of `size` cells. Codes 0..8 mean E, W, S, N, NW, NE, SW, SE; any
/// other code is off the board.
pub fn get_new_pos(dir: u8, pos: u8, iter: u8, size: u8) -> (r: Option<u8>)
    requires
        size == 64,
        pos < 64,
        iter >= 1,
    ensures
        dir < 8 ==> r == step_opt(pos as int, dir_of_code(dir as int), iter as int),
        dir >= 8 ==> r is None,
{
    if dir >= 8 {
        None
    } else {
        step(pos, dir_from_code(dir), iter)
    }
}

/// The column denoted by a coordinate letter, accepted in either case:
/// A or a is column 0, through H or h for column 7.
pub open spec fn col_of_char(c: char) -> Option<int> {
    let v = c as int;
    if 65 <= v <= 72 {
        Some(v - 65)
    } else if 97 <= v <= 104 {
        Some(v - 97)
    } else {
        None
    }
}

/// The row denoted by a coordinate digit: 1 is row 0, through 8 for row 7.
pub open spec fn row_of_char(c: char) -> Option<int> {
    let v = c as int;
    if 49 <= v <= 56 {
        Some(v - 49)
    } else {
        None
    }
}

/// The cell index denoted by a two-character coordinate string, letter
/// A-H (either case) then digit 1-8, or `None` for any other string.
pub open spec fn parse_spec(s: Seq<char>) -> Option<u8> {
    if s.len() == 2 {
        match (col_of_char(s[0]), row_of_char(s[1])) {
            (Some(c), Some(r)) => Some((r * 8 + c) as u8),
            _ => None,
        }
    } else {
        None
    }
}

/// The upper-case letter of a column 0..8.
pub open spec fn letter_of_col(c: int) -> char {
    if c == 0 {
        'A'
    } else if c == 1 {
        'B'
    } else if c == 2 {
        'C'
    } else if c == 3 {
        'D'
    } else if c == 4 {
        'E'
    } else if c == 5 {
        'F'
    } else if c == 6 {
        'G'
    } else {
        'H'
    }
}

/// The digit of a row 0..8.
pub open spec fn digit_of_row(r: int) -> char {
    if r == 0 {
        '1'
    } else if r == 1 {
        '2'
    } else if r == 2 {
        '3'
    } else if r == 3 {
        '4'
    } else if r == 4 {
        '5'
    } else if r == 5 {
        '6'
    } else if r == 6 {
        '7'
    } else {
        '8'
    }
}

/// The two-character label of a cell index: column letter then row digit,
/// so index 0 is "A1" and index 63 is "H8".
pub open spec fn label_spec(i: int) -> Seq<char> {
    seq![letter_of_col(col(i)), digit_of_row(row(i))]
}

/// Round trip: the label of a cell index parses back to that index.
pub proof fn lemma_parse_label_round_trip(i: int)
    requires
        0 <= i < 64,
    ensures
        parse_spec(label_spec(i)) == Some(i as u8),
{
}

/// Round trip the other way: a string that parses as a cell index is the
/// label of that index with its letter upper-cased.
pub proof fn lemma_label_parse_round_trip(s: Seq<char>, i: u8)
    requires
        parse_spec(s) == Some(i),
    ensures
        i < 64,
        label_spec(i as int) == seq![upper_char(s[0]), s[1]],
{
    let c = col_of_char(s[0])->0;
    let r = row_of_char(s[1])->0;
    assert(col(i as int) == c && row(i as int) == r);
    assert(label_spec(i as int) =~= seq![upper_char(s[0]), s[1]]);
}

/// A coordinate letter upper-cased; any other character is unchanged.
pub open spec fn upper_char(c: char) -> char {
    let v = c as int;
    if 97 <= v <= 104 {
        letter_of_col(v - 97)
    } else {
        c
    }
}

/// Parses a two-character coordinate such as "d3" or "H8" into a cell
/// index 0..64; rejects every other string.
pub fn convert_2d(s: &str) -> (r: Result<u8, ReversiError>)
    ensures
        match r {
            Ok(i) => parse_spec(s@) == Some(i) && i < 64,
            Err(e) => parse_spec(s@) is None && e == ReversiError::BadCoordinate,
        },
{
    if s.unicode_len() != 2 {
        return Err(ReversiError::BadCoordinate);
    }
    let v0 = s.get_char(0) as u32;
    let v1 = s.get_char(1) as u32;
    let c: u32 = if 65 <= v0 && v0 <= 72 {
        v0 - 65
    } else if 97 <= v0 && v0 <= 104 {
        v0 - 97
    } else {
        return Err(ReversiError::BadCoordinate);
    };
    let r: u32 = if 49 <= v1 && v1 <= 56 {
        v1 - 49
    } else {
        return Err(ReversiError::BadCoordinate);
    };
    Ok((r * 8 + c) as u8)
}

/// Formats a cell index 0..64 as its coordinate label, "A1" through "H8".
pub fn convert_num(num: u8) -> (r: String)
    requires
        num < 64,
    ensures
        r@ == label_spec(num as int),
{
    let letter: &str = match num % 8 {
        0 => "A",
        1 => "B",
        2 => "C",
        3 => "D",
        4 => "E",
        5 => "F",
        6 => "G",
        _ => "H",
    };
    let digit: &str = match num / 8 {
        0 => "1",
        1 => "2",
        2 => "3",
        3 => "4",
        4 => "5",
        5 => "6",
        6 => "7",
        _ => "8",
    };
    proof {
        reveal_strlit("A");
        reveal_strlit("B");
        reveal_strlit("C");
        reveal_strlit("D");
        reveal_strlit("E");
        reveal_strlit("F");
        reveal_strlit("G");
        reveal_strlit("H");
        reveal_strlit("1");
        reveal_strlit("2");
        reveal_strlit("3");
        reveal_strlit("4");
        reveal_strlit("5");
        reveal_strlit("6");
        reveal_strlit("7");
        reveal_strlit("8");
    }
    let out = String::from_str(letter).concat(digit);
    proof {
        assert(out@ =~= label_spec(num as int));
    }
    out
}

} // verus!
