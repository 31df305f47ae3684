//! Coordinate and ray-arithmetic behaviour at the public interface.

use reversi::geometry::{convert_2d, convert_num, get_new_pos, step, Direction};
use reversi::rules::ReversiError;

#[test]
fn parse_valid_coordinates() {
    assert_eq!(convert_2d("d3"), Ok(19));
    assert_eq!(convert_2d("H8"), Ok(63));
    assert_eq!(convert_2d("A1"), Ok(0));
    assert_eq!(convert_2d("a1"), Ok(0));
    assert_eq!(convert_2d("D4"), Ok(27));
}

#[test]
fn parse_rejects_bad_coordinates() {
    assert_eq!(convert_2d("i2"), Err(ReversiError::BadCoordinate));
    assert_eq!(convert_2d("a9"), Err(ReversiError::BadCoordinate));
    assert_eq!(convert_2d("a0"), Err(ReversiError::BadCoordinate));
    assert_eq!(convert_2d(""), Err(ReversiError::BadCoordinate));
    assert_eq!(convert_2d("a"), Err(ReversiError::BadCoordinate));
    assert_eq!(convert_2d("a12"), Err(ReversiError::BadCoordinate));
    assert_eq!(convert_2d("11"), Err(ReversiError::BadCoordinate));
    assert_eq!(convert_2d("aa"), Err(ReversiError::BadCoordinate));
}

#[test]
fn label_of_corner_cells() {
    assert_eq!(convert_num(0), "A1");
    assert_eq!(convert_num(7), "H1");
    assert_eq!(convert_num(56), "A8");
    assert_eq!(convert_num(63), "H8");
    assert_eq!(convert_num(19), "D3");
}

#[test]
fn parse_label_round_trip_all_cells() {
    for i in 0u8..64 {
        assert_eq!(convert_2d(&convert_num(i)), Ok(i));
    }
}

#[test]
fn label_parse_round_trip_all_valid_strings() {
    for c in [b'a', b'b', b'c', b'd', b'e', b'f', b'g', b'h'] {
        for d in [b'1', b'2', b'3', b'4', b'5', b'6', b'7', b'8'] {
            let lower = String::from_utf8(vec![c, d]).unwrap();
            let upper = lower.to_uppercase();
            let i = convert_2d(&lower).expect("valid coordinate");
            assert_eq!(convert_num(i), upper);
            assert_eq!(convert_2d(&upper), Ok(i));
        }
    }
}

#[test]
fn rays_do_not_wrap_between_rows() {
    // East from column 7 (cell 7 = H1) leaves the board at once.
    assert_eq!(get_new_pos(0, 7, 1, 64), None);
    // West from column 0 (cell 8 = A2) leaves the board.
    assert_eq!(get_new_pos(1, 8, 1, 64), None);
    // South-east from the last cell leaves the board.
    assert_eq!(get_new_pos(7, 63, 1, 64), None);
    // North-west from the first cell leaves the board.
    assert_eq!(get_new_pos(4, 0, 1, 64), None);
    // An unknown direction code is off the board.
    assert_eq!(get_new_pos(8, 27, 1, 64), None);
}

#[test]
fn steps_inside_the_board() {
    assert_eq!(get_new_pos(0, 0, 1, 64), Some(1));
    assert_eq!(get_new_pos(2, 0, 3, 64), Some(24));
    assert_eq!(get_new_pos(7, 0, 7, 64), Some(63));
    assert_eq!(step(27, Direction::North, 1), Some(19));
    assert_eq!(step(27, Direction::West, 3), Some(24));
    assert_eq!(step(27, Direction::West, 4), None);
    assert_eq!(step(27, Direction::SouthEast, 4), Some(63));
    assert_eq!(step(27, Direction::SouthEast, 5), None);
}
