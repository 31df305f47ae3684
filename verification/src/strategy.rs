//! Move-selection strategies: the greedy max-flip heuristic, a uniform
//! random picker, and the flat Monte-Carlo chooser that scores each
//! candidate move by random rollouts.

use vstd::prelude::*;
use crate::board::{PosView, Position};
use crate::clock::{duration_at_least, duration_from_millis, instant_elapsed, instant_now};
use crate::rng::{rng_below, rng_from_seed};
use crate::rules::{cell_of, count_cells, next_grid, Cell, GameState, ReversiError, Side};

verus! {

/// The cheap policies available to a rollout side.
#[derive(Clone, Copy, PartialEq, Eq, Structural, Debug)]
pub enum EngineKind {
    UniformRandom,
    Greedy,
}

/// A side-to-move selector. Every strategy is pure with respect to the
/// position it is given: it clones before mutating.
pub trait Strategy {
    /// Chooses a legal move for the side to move, or fails exactly when
    /// that side has no legal move.
    fn choose_move(&mut self, pos: &Position) -> (r: Result<u8, ReversiError>)
        requires
            pos.wf(),
        ensures
            match r {
                Ok(m) => pos@.legal(pos@.to_move).contains(m),
                Err(e) => e == ReversiError::NoLegalMove && pos@.legal(pos@.to_move).len() == 0,
            },
    ;
}

/// The stone count the side to move reaches by playing `m`.
pub open spec fn gain(v: PosView, m: u8) -> nat {
    count_cells(next_grid(v.grid, v.to_move, m as int), cell_of(v.to_move))
}

/// The greedy choice is the move at place `t` of the legal set: no legal
/// move gains more, and every earlier one gains strictly less.
pub open spec fn greedy_pick_ok(v: PosView, m: u8, t: int) -> bool {
    let legal = v.legal(v.to_move);
    &&& 0 <= t < legal.len()
    &&& legal[t] == m
    &&& forall|u: int| 0 <= u < legal.len() ==> gain(v, legal[u]) <= gain(v, m)
    &&& forall|u: int| 0 <= u < t ==> gain(v, legal[u]) < gain(v, m)
}

/// `m` is the greedy choice: it stands at some place of the legal set
/// that no legal move beats and every earlier place loses to.
pub open spec fn greedy_choice_ok(v: PosView, m: u8) -> bool {
    exists|t: int| greedy_pick_ok(v, m, t)
}

/// The greedy max-flip choice: the legal move that maximises the stone
/// count of the side to move immediately after the move, ties broken by
/// the legal set's insertion order (first wins).
pub fn choose_greedy(pos: &Position) -> (r: Result<u8, ReversiError>)
    requires
        pos.wf(),
    ensures
        match r {
            Ok(m) => greedy_choice_ok(pos@, m),
            Err(e) => e == ReversiError::NoLegalMove && pos@.legal(pos@.to_move).len() == 0,
        },
{
    let moves = pos.legal_moves_current();
    if moves.len() == 0 {
        return Err(ReversiError::NoLegalMove);
    }
    let mut best_idx: usize = 0;
    let mut best_val: u8 = move_gain(pos, moves[0]);
    let mut k: usize = 1;
    while k < moves.len()
        invariant
            pos.wf(),
            moves@ == pos@.legal(pos@.to_move),
            1 <= k <= moves@.len(),
            best_idx < k,
            best_val == gain(pos@, moves@[best_idx as int]),
            forall|u: int| 0 <= u < k ==> gain(pos@, moves@[u]) <= best_val,
            forall|u: int| 0 <= u < best_idx ==> gain(pos@, moves@[u]) < best_val,
        decreases moves@.len() - k,
    {
        let cand = move_gain(pos, moves[k]);
        if cand > best_val {
            best_idx = k;
            best_val = cand;
        }
        k = k + 1;
    }
    let m = moves[best_idx];
    proof {
        assert(greedy_pick_ok(pos@, m, best_idx as int));
        assert(greedy_choice_ok(pos@, m));
    }
    Ok(m)
}

/// The stone count of the side to move after it plays `m`, measured on a
/// clone of the position.
fn move_gain(pos: &Position, m: u8) -> (r: u8)
    requires
        pos.wf(),
        pos@.legal(pos@.to_move).contains(m),
    ensures
        r == gain(pos@, m),
{
    let side = pos.to_move();
    let mut sim = pos.clone();
    let applied = sim.apply_move(m);
    proof {
        assert(applied is Ok);
    }
    let (b, w) = sim.score();
    match side {
        Side::Black => b,
        Side::White => w,
    }
}

/// A move drawn uniformly at random from the legal set of the side to
/// move, by ordinal of the set's insertion order.
pub fn choose_uniform(pos: &Position, rng: &mut rand::rngs::StdRng) -> (r: Result<
    u8,
    ReversiError,
>)
    requires
        pos.wf(),
    ensures
        match r {
            Ok(m) => pos@.legal(pos@.to_move).contains(m),
            Err(e) => e == ReversiError::NoLegalMove && pos@.legal(pos@.to_move).len() == 0,
        },
{
    let moves = pos.legal_moves_current();
    if moves.len() == 0 {
        return Err(ReversiError::NoLegalMove);
    }
    let idx = rng_below(rng, moves.len());
    Ok(moves[idx])
}

/// The greedy max-flip strategy.
pub struct Greedy;

impl Strategy for Greedy {
    fn choose_move(&mut self, pos: &Position) -> (r: Result<u8, ReversiError>) {
        let r = choose_greedy(pos);
        proof {
            if r is Ok {
                let t = choose|t: int| greedy_pick_ok(pos@, r->Ok_0, t);
                assert(pos@.legal(pos@.to_move)[t] == r->Ok_0);
                assert(pos@.legal(pos@.to_move).contains(r->Ok_0));
            }
        }
        r
    }
}

/// The uniform-random strategy, with its own seedable generator.
pub struct UniformRandom {
    rng: rand::rngs::StdRng,
}

impl UniformRandom {
    /// A uniform-random strategy seeded for reproducibility.
    pub fn new(seed: u64) -> UniformRandom {
        UniformRandom { rng: rng_from_seed(seed) }
    }
}

impl Strategy for UniformRandom {
    fn choose_move(&mut self, pos: &Position) -> (r: Result<u8, ReversiError>) {
        choose_uniform(pos, &mut self.rng)
    }
}

/// Plays one side's rollout ply: the policy of `kind` picks the move.
fn rollout_pick(pos: &Position, kind: EngineKind, rng: &mut rand::rngs::StdRng) -> (r: Result<
    u8,
    ReversiError,
>)
    requires
        pos.wf(),
    ensures
        match r {
            Ok(m) => pos@.legal(pos@.to_move).contains(m),
            Err(e) => e == ReversiError::NoLegalMove && pos@.legal(pos@.to_move).len() == 0,
        },
{
    match kind {
        EngineKind::UniformRandom => choose_uniform(pos, rng),
        EngineKind::Greedy => {
            let r = choose_greedy(pos);
            proof {
                if r is Ok {
                    let t = choose|t: int| greedy_pick_ok(pos@, r->Ok_0, t);
                    assert(pos@.legal(pos@.to_move)[t] == r->Ok_0);
                }
            }
            r
        },
    }
}

/// Plays the position out to a terminal state: while the game is not
/// over, the side to move picks its move by its assigned rollout policy
/// and the move is applied. Terminates because every ply consumes one
/// empty cell.
fn rollout(
    pos: &mut Position,
    black_kind: EngineKind,
    white_kind: EngineKind,
    rng: &mut rand::rngs::StdRng,
) -> (r: GameState)
    requires
        old(pos).wf(),
    ensures
        final(pos).wf(),
        r != GameState::Ongoing,
{
    loop
        invariant
            pos.wf(),
        decreases count_cells(pos@.grid, Cell::Empty),
    {
        let st = pos.terminal_state();
        match st {
            GameState::Ongoing => {},
            _ => {
                return st;
            },
        }
        let kind = match pos.to_move() {
            Side::Black => black_kind,
            Side::White => white_kind,
        };
        match rollout_pick(pos, kind, rng) {
            Ok(m) => {
                proof {
                    crate::board::lemma_apply_move_counts(pos@, m);
                }
                let applied = pos.apply_move(m);
                proof {
                    assert(applied is Ok);
                }
            },
            Err(_) => {
                proof {
                    assert(false);
                }
            },
        }
    }
}

/// First index of the largest tally: no tally is larger, and every
/// earlier tally is strictly smaller. This is the whole decision taken
/// on the rollout outcomes once they are tallied.
pub fn argmax_first(v: &Vec<u64>) -> (r: usize)
    requires
        v@.len() >= 1,
    ensures
        r < v@.len(),
        forall|u: int| 0 <= u < v@.len() ==> v@[u] <= v@[r as int],
        forall|u: int| 0 <= u < r ==> v@[u] < v@[r as int],
{
    let mut best: usize = 0;
    let mut k: usize = 1;
    while k < v.len()
        invariant
            1 <= k <= v@.len(),
            best < k,
            forall|u: int| 0 <= u < k ==> v@[u] <= v@[best as int],
            forall|u: int| 0 <= u < best ==> v@[u] < v@[best as int],
        decreases v@.len() - k,
    {
        if v[k] > v[best] {
            best = k;
        }
        k = k + 1;
    }
    best
}

/// The flat Monte-Carlo move chooser: each legal move is scored by the
/// number of random rollouts it wins for the side to move, visiting
/// every candidate once per sweep, bounded by an iteration cap and a
/// wall-clock budget; the move with the most wins is returned, ties
/// broken by the legal set's insertion order.
pub struct FlatMonteCarlo {
    max_iterations: usize,
    time_budget_ms: u64,
    black_rollout: EngineKind,
    white_rollout: EngineKind,
    rng: rand::rngs::StdRng,
}

impl FlatMonteCarlo {
    /// A flat Monte-Carlo chooser with an outer sweep cap, a wall-clock
    /// budget in milliseconds, one rollout policy per side, and a seed
    /// for reproducibility.
    pub fn new(
        max_iterations: usize,
        time_budget_ms: u64,
        black_rollout: EngineKind,
        white_rollout: EngineKind,
        seed: u64,
    ) -> FlatMonteCarlo {
        FlatMonteCarlo {
            max_iterations,
            time_budget_ms,
            black_rollout,
            white_rollout,
            rng: rng_from_seed(seed),
        }
    }

}

impl Strategy for FlatMonteCarlo {
    /// Scores every legal move of the side to move by rollout wins and
    /// returns the first move with the highest tally, or fails exactly
    /// when there is no legal move.
    fn choose_move(&mut self, pos: &Position) -> (r: Result<u8, ReversiError>) {
        let moves = pos.legal_moves_current();
        if moves.len() == 0 {
            return Err(ReversiError::NoLegalMove);
        }
        let root = pos.to_move();
        let mut tallies: Vec<u64> = Vec::new();
        let mut z: usize = 0;
        while z < moves.len()
            invariant
                tallies@.len() == z,
                z <= moves@.len(),
                forall|u: int| 0 <= u < z ==> tallies@[u] == 0,
            decreases moves@.len() - z,
        {
            tallies.push(0);
            z = z + 1;
        }
        let start = instant_now();
        let budget = duration_from_millis(self.time_budget_ms);
        let max_iterations = self.max_iterations;
        let mut it: usize = 0;
        while it < max_iterations
            invariant
                pos.wf(),
                moves@ == pos@.legal(pos@.to_move),
                moves@.len() >= 1,
                tallies@.len() == moves@.len(),
                it <= max_iterations,
                forall|u: int| 0 <= u < tallies@.len() ==> tallies@[u] <= it,
            ensures
                tallies@.len() == moves@.len(),
            decreases max_iterations - it,
        {
            let elapsed = instant_elapsed(&start);
            if duration_at_least(&elapsed, &budget) {
                break;
            }
            let mut ci: usize = 0;
            while ci < moves.len()
                invariant
                    pos.wf(),
                    moves@ == pos@.legal(pos@.to_move),
                    tallies@.len() == moves@.len(),
                    ci <= moves@.len(),
                    it < max_iterations,
                    forall|u: int| ci <= u < tallies@.len() ==> tallies@[u] <= it,
                    forall|u: int| 0 <= u < ci ==> tallies@[u] <= it + 1,
                decreases moves@.len() - ci,
            {
                let m = moves[ci];
                let mut sim = pos.clone();
                let applied = sim.apply_move(m);
                proof {
                    assert(applied is Ok);
                }
                let outcome = rollout(
                    &mut sim,
                    self.black_rollout,
                    self.white_rollout,
                    &mut self.rng,
                );
                let won = match (outcome, root) {
                    (GameState::BlackWin, Side::Black) => true,
                    (GameState::WhiteWin, Side::White) => true,
                    _ => false,
                };
                if won {
                    let t = tallies[ci];
                    tallies.set(ci, t + 1);
                }
                ci = ci + 1;
            }
            it = it + 1;
        }
        let best = argmax_first(&tallies);
        Ok(moves[best])
    }
}

} // verus!
