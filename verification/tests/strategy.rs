//! Strategy behaviour: greedy selection with tie-breaks, seeded
//! reproducibility of the random choosers, the empty-legal-set error,
//! and full games through the driver.

use reversi::board::Position;
use reversi::driver::play_game;
use reversi::rules::{GameState, ReversiError, Side};
use reversi::strategy::{
    argmax_first, choose_greedy, EngineKind, FlatMonteCarlo, Greedy, Strategy, UniformRandom,
};

#[test]
fn argmax_takes_the_first_largest_tally() {
    assert_eq!(argmax_first(&vec![3, 5, 5, 1]), 1);
    assert_eq!(argmax_first(&vec![0, 0, 0]), 0);
    assert_eq!(argmax_first(&vec![7]), 0);
    assert_eq!(argmax_first(&vec![1, 2, 9, 2]), 2);
}

#[test]
fn greedy_breaks_ties_by_insertion_order() {
    // From the start every Black move flips exactly one stone, so the
    // earliest-inserted legal move wins the tie.
    let pos = Position::new();
    assert_eq!(choose_greedy(&pos), Ok(19));
}

#[test]
fn greedy_prefers_the_bigger_flip() {
    let mut pos = Position::new();
    assert_eq!(pos.apply_move(19), Ok(()));
    assert_eq!(pos.apply_move(20), Ok(()));
    // Black to move: F3 (21) flips two stones, every other move one.
    assert_eq!(choose_greedy(&pos), Ok(21));
    let mut greedy = Greedy;
    assert_eq!(greedy.choose_move(&pos), Ok(21));
}

#[test]
fn uniform_random_picks_a_legal_move() {
    let pos = Position::new();
    for seed in 0u64..16 {
        let mut chooser = UniformRandom::new(seed);
        let m = chooser.choose_move(&pos).expect("legal moves exist");
        assert!(pos.legal_moves_current().contains(&m));
    }
}

#[test]
fn seeded_uniform_random_is_reproducible() {
    let pos = Position::new();
    let mut a = UniformRandom::new(7);
    let mut b = UniformRandom::new(7);
    for _ in 0..8 {
        assert_eq!(a.choose_move(&pos), b.choose_move(&pos));
    }
}

#[test]
fn flat_monte_carlo_returns_a_legal_move_reproducibly() {
    let pos = Position::new();
    let mut first = FlatMonteCarlo::new(
        1,
        10_000,
        EngineKind::UniformRandom,
        EngineKind::UniformRandom,
        0,
    );
    let m = first.choose_move(&pos).expect("legal moves exist");
    assert!([19u8, 26, 37, 44].contains(&m));
    for _ in 0..3 {
        let mut again = FlatMonteCarlo::new(
            1,
            10_000,
            EngineKind::UniformRandom,
            EngineKind::UniformRandom,
            0,
        );
        assert_eq!(again.choose_move(&pos), Ok(m));
    }
}

#[test]
fn flat_monte_carlo_with_greedy_rollouts() {
    let pos = Position::new();
    let mut chooser = FlatMonteCarlo::new(2, 10_000, EngineKind::Greedy, EngineKind::Greedy, 42);
    let m = chooser.choose_move(&pos).expect("legal moves exist");
    assert!(pos.legal_moves_current().contains(&m));
}

#[test]
fn choosers_fail_without_a_legal_move() {
    // Play greedily until the side to move has nothing left; the game
    // is deterministic, so this always reaches such a position.
    let mut pos = Position::new();
    let mut plies: u32 = 0;
    while !pos.legal_moves_current().is_empty() {
        let m = choose_greedy(&pos).unwrap();
        assert_eq!(pos.apply_move(m), Ok(()));
        plies += 1;
        assert!(plies <= 60, "a game has at most 60 plies");
    }
    assert_eq!(choose_greedy(&pos), Err(ReversiError::NoLegalMove));
    let mut uniform = UniformRandom::new(0);
    assert_eq!(uniform.choose_move(&pos), Err(ReversiError::NoLegalMove));
    let mut mc = FlatMonteCarlo::new(
        1,
        10_000,
        EngineKind::UniformRandom,
        EngineKind::UniformRandom,
        0,
    );
    assert_eq!(mc.choose_move(&pos), Err(ReversiError::NoLegalMove));
}

#[test]
fn driver_plays_a_full_greedy_game() {
    let mut pos = Position::new();
    let mut black = Greedy;
    let mut white = Greedy;
    let result = play_game(&mut pos, &mut black, &mut white);
    assert_ne!(result, GameState::Ongoing);
    assert_eq!(result, pos.terminal_state());
    let (b, w) = pos.score();
    match result {
        GameState::BlackWin => assert!(b > w),
        GameState::WhiteWin => assert!(w > b),
        GameState::Draw => assert_eq!(b, w),
        GameState::Ongoing => unreachable!(),
    }
    // At least one side has run out of moves.
    assert!(
        pos.legal_moves(Side::Black).is_empty() || pos.legal_moves(Side::White).is_empty()
    );
    // Greedy against greedy is deterministic.
    let mut pos2 = Position::new();
    let result2 = play_game(&mut pos2, &mut Greedy, &mut Greedy);
    assert_eq!(result, result2);
    assert_eq!(pos.score(), pos2.score());
}

#[test]
fn driver_plays_seeded_random_games() {
    let mut pos = Position::new();
    let mut black = UniformRandom::new(1);
    let mut white = UniformRandom::new(2);
    let result = play_game(&mut pos, &mut black, &mut white);
    assert_ne!(result, GameState::Ongoing);
    // The same seeds replay the same game.
    let mut pos2 = Position::new();
    let result2 = play_game(&mut pos2, &mut UniformRandom::new(1), &mut UniformRandom::new(2));
    assert_eq!(result, result2);
    assert_eq!(pos.score(), pos2.score());
}
