//! The game driver: alternates sides, consults each side's strategy,
//! applies the chosen moves, and stops at the first terminal state.

use vstd::prelude::*;
use crate::board::{lemma_apply_move_counts, terminal_spec, Position};
use crate::rules::{count_cells, Cell, GameState, Side};
use crate::strategy::Strategy;

verus! {

/// Plays the position to its end: while the game is not over, the side
/// to move chooses through its strategy and the move is applied. Returns
/// the final outcome, which is the terminal classification of the final
/// position. Terminates because every ply consumes one empty cell.
pub fn play_game<B: Strategy, W: Strategy>(pos: &mut Position, black: &mut B, white: &mut W) -> (r:
    GameState)
    requires
        old(pos).wf(),
    ensures
        final(pos).wf(),
        r != GameState::Ongoing,
        r == terminal_spec(final(pos)@),
{
    loop
        invariant
            pos.wf(),
        decreases count_cells(pos@.grid, Cell::Empty),
    {
        let st = pos.terminal_state();
        match st {
            GameState::Ongoing => {},
            _ => {
                return st;
            },
        }
        let chosen = match pos.to_move() {
            Side::Black => black.choose_move(pos),
            Side::White => white.choose_move(pos),
        };
        match chosen {
            Ok(m) => {
                proof {
                    lemma_apply_move_counts(pos@, m);
                }
                let applied = pos.apply_move(m);
                proof {
                    assert(applied is Ok);
                }
            },
            Err(_) => {
                proof {
                    assert(false);
                }
            },
        }
    }
}

} // verus!
