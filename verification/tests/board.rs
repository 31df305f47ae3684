//! Position behaviour: the initial state, move application with
//! flipping, cache maintenance, cloning, and terminal detection.

use reversi::board::Position;
use reversi::rules::{Cell, GameState, ReversiError, Side};

#[test]
fn initial_position() {
    let pos = Position::new();
    assert_eq!(pos.score(), (2, 2));
    assert_eq!(pos.to_move(), Side::Black);
    assert!(pos.is_to_move(Side::Black));
    assert!(!pos.is_to_move(Side::White));
    assert_eq!(pos.cell_at(27), Cell::White);
    assert_eq!(pos.cell_at(28), Cell::Black);
    assert_eq!(pos.cell_at(35), Cell::Black);
    assert_eq!(pos.cell_at(36), Cell::White);
    assert_eq!(pos.cell_at(0), Cell::Empty);
    assert_eq!(pos.terminal_state(), GameState::Ongoing);
}

#[test]
fn initial_legal_moves_in_insertion_order() {
    let pos = Position::new();
    assert_eq!(pos.legal_moves(Side::Black), vec![19, 26, 37, 44]);
    assert_eq!(pos.legal_moves_current(), vec![19, 26, 37, 44]);
    assert_eq!(pos.legal_moves(Side::White), vec![20, 29, 34, 43]);
}

#[test]
fn initial_perimeter_in_scan_order() {
    let pos = Position::new();
    assert_eq!(
        pos.perimeter_cells(),
        vec![18, 19, 20, 21, 26, 29, 34, 37, 42, 43, 44, 45]
    );
}

#[test]
fn black_plays_d3() {
    let mut pos = Position::new();
    assert_eq!(pos.apply_move(19), Ok(()));
    // The white stone on D4 is flipped.
    assert_eq!(pos.cell_at(27), Cell::Black);
    assert_eq!(pos.cell_at(19), Cell::Black);
    assert_eq!(pos.score(), (4, 1));
    assert_eq!(pos.to_move(), Side::White);
    // White's replies, in the recomputation scan's insertion order.
    assert_eq!(pos.legal_moves(Side::White), vec![18, 20, 34]);
}

#[test]
fn perimeter_after_a_move_keeps_its_order() {
    let mut pos = Position::new();
    assert_eq!(pos.apply_move(19), Ok(()));
    // 19 leaves the perimeter with the remaining order preserved; the
    // empty king-neighbours of 19 that were not already present (10,
    // 11, 12) are appended in the fixed NW, N, NE, W, E, SW, S, SE scan.
    assert_eq!(
        pos.perimeter_cells(),
        vec![18, 20, 21, 26, 29, 34, 37, 42, 43, 44, 45, 10, 11, 12]
    );
}

#[test]
fn black_plays_f5() {
    let mut pos = Position::new();
    assert_eq!(pos.apply_move(37), Ok(()));
    assert_eq!(pos.cell_at(36), Cell::Black);
    assert_eq!(pos.score(), (4, 1));
    assert_eq!(pos.to_move(), Side::White);
}

#[test]
fn illegal_move_leaves_position_unchanged() {
    let mut pos = Position::new();
    let before_black = pos.legal_moves(Side::Black);
    let before_white = pos.legal_moves(Side::White);
    let before_perim = pos.perimeter_cells();
    assert_eq!(pos.apply_move(0), Err(ReversiError::IllegalMove));
    assert_eq!(pos.score(), (2, 2));
    assert_eq!(pos.to_move(), Side::Black);
    assert_eq!(pos.legal_moves(Side::Black), before_black);
    assert_eq!(pos.legal_moves(Side::White), before_white);
    assert_eq!(pos.perimeter_cells(), before_perim);
    for i in 0u8..64 {
        let expected = match i {
            27 | 36 => Cell::White,
            28 | 35 => Cell::Black,
            _ => Cell::Empty,
        };
        assert_eq!(pos.cell_at(i), expected);
    }
}

#[test]
fn move_on_occupied_cell_is_illegal() {
    let mut pos = Position::new();
    assert_eq!(pos.apply_move(27), Err(ReversiError::IllegalMove));
    assert_eq!(pos.apply_move(64), Err(ReversiError::IllegalMove));
    assert_eq!(pos.apply_move(255), Err(ReversiError::IllegalMove));
}

#[test]
fn multi_direction_flip_in_one_move() {
    let mut pos = Position::new();
    assert_eq!(pos.apply_move(19), Ok(())); // Black D3 flips 27
    assert_eq!(pos.apply_move(20), Ok(())); // White E3 flips 28
    assert_eq!(pos.score(), (3, 3));
    // Black F3 brackets 20 to the west and 28 to the south-west: both
    // runs flip in one application.
    assert_eq!(pos.apply_move(21), Ok(()));
    assert_eq!(pos.cell_at(20), Cell::Black);
    assert_eq!(pos.cell_at(28), Cell::Black);
    assert_eq!(pos.score(), (6, 1));
}

#[test]
fn every_move_adds_exactly_one_stone() {
    let mut pos = Position::new();
    for mv in [19u8, 20, 21] {
        let (b, w) = pos.score();
        assert_eq!(pos.apply_move(mv), Ok(()));
        let (b2, w2) = pos.score();
        assert_eq!(b2 as u32 + w2 as u32, b as u32 + w as u32 + 1);
    }
}

#[test]
fn clone_is_deep_and_independent() {
    let original = Position::new();
    let mut copy = original.clone();
    assert_eq!(copy.apply_move(19), Ok(()));
    assert_eq!(copy.apply_move(18), Ok(()));
    // The original is untouched by any mutation of the clone.
    assert_eq!(original.score(), (2, 2));
    assert_eq!(original.to_move(), Side::Black);
    assert_eq!(original.legal_moves(Side::Black), vec![19, 26, 37, 44]);
    assert_eq!(
        original.perimeter_cells(),
        vec![18, 19, 20, 21, 26, 29, 34, 37, 42, 43, 44, 45]
    );
    for i in 0u8..64 {
        let expected = match i {
            27 | 36 => Cell::White,
            28 | 35 => Cell::Black,
            _ => Cell::Empty,
        };
        assert_eq!(original.cell_at(i), expected);
    }
    // And the clone really moved on.
    assert_ne!(copy.score(), (2, 2));
}

#[test]
fn clone_matches_original_cell_by_cell() {
    let mut pos = Position::new();
    assert_eq!(pos.apply_move(19), Ok(()));
    let copy = pos.clone();
    assert_eq!(copy.score(), pos.score());
    assert_eq!(copy.to_move(), pos.to_move());
    assert_eq!(copy.legal_moves(Side::Black), pos.legal_moves(Side::Black));
    assert_eq!(copy.legal_moves(Side::White), pos.legal_moves(Side::White));
    assert_eq!(copy.perimeter_cells(), pos.perimeter_cells());
    for i in 0u8..64 {
        assert_eq!(copy.cell_at(i), pos.cell_at(i));
    }
}
