//! The Reversi position: occupancy grid, side to move, cached legal-move
//! sets and the perimeter of empty cells adjacent to stones, with move
//! application (placing, multi-direction flipping and cache maintenance).

use vstd::prelude::*;
use crate::geometry::{
    code_of_dir, dir_from_code, dir_of_code, lemma_dir_code_round_trip,
    lemma_perim_code_round_trip, lemma_step_on_board, lemma_step_symmetry, opposite_dir,
    perim_code_of, perim_dir, perim_dir_from_code, step, step_spec, Direction,
};
use crate::rules::{
    captured, captured_count, captured_in_dir, captures_dir, cell_of, count_cells, count_from,
    is_legal, lemma_captured_opp, lemma_flip_accounting, lemma_legal_in_perim, lemma_move_counts,
    lemma_next_grid_occupancy, lemma_run_cells, next_grid, occupied_neighbor, opp, perim_cell,
    run_len, Cell, GameState, ReversiError, Side,
};
use crate::iset::{
    iset_clone, iset_contains, iset_get, iset_insert, iset_len, iset_new, iset_seq,
    iset_shift_remove,
};

verus! {

/// Mathematical view of a position: the grid as a sequence of cells, the
/// side to move, and the three cached sets as sequences in their
/// insertion order.
pub ghost struct PosView {
    pub grid: Seq<Cell>,
    pub to_move: Side,
    pub legal_black: Seq<u8>,
    pub legal_white: Seq<u8>,
    pub perimeter: Seq<u8>,
}

impl PosView {
    /// The cached legal-move sequence of a side.
    pub open spec fn legal(self, s: Side) -> Seq<u8> {
        match s {
            Side::Black => self.legal_black,
            Side::White => self.legal_white,
        }
    }

    /// Well-formedness: 64 cells; the cached sequences are duplicate
    /// free; the perimeter holds exactly the empty cells with an occupied
    /// king-neighbour; each legal set holds exactly the legal moves of
    /// its side.
    pub open spec fn wf(self) -> bool {
        &&& self.grid.len() == 64
        &&& self.perimeter.no_duplicates()
        &&& self.legal_black.no_duplicates()
        &&& self.legal_white.no_duplicates()
        &&& forall|x: u8| self.perimeter.contains(x) <==> perim_cell(self.grid, x as int)
        &&& forall|x: u8|
            self.legal_black.contains(x) <==> is_legal(self.grid, Side::Black, x as int)
        &&& forall|x: u8|
            self.legal_white.contains(x) <==> is_legal(self.grid, Side::White, x as int)
    }
}

/// A Reversi position. Mutated only through `apply_move`; the cached
/// sets are kept exact by every operation.
pub struct Position {
    grid: Vec<Cell>,
    to_move: Side,
    legal_black: indexmap::IndexSet<u8>,
    legal_white: indexmap::IndexSet<u8>,
    perimeter: indexmap::IndexSet<u8>,
}

impl View for Position {
    type V = PosView;

    closed spec fn view(&self) -> PosView {
        PosView {
            grid: self.grid@,
            to_move: self.to_move,
            legal_black: iset_seq(self.legal_black),
            legal_white: iset_seq(self.legal_white),
            perimeter: iset_seq(self.perimeter),
        }
    }
}

/// Length of the run of opponent stones on the ray from `pos` in
/// direction `d`, walking cell by cell until the run ends.
fn walk_run(grid: &Vec<Cell>, s: Side, pos: u8, d: Direction) -> (n: u8)
    requires
        grid@.len() == 64,
        pos < 64,
    ensures
        n == run_len(grid@, s, pos as int, d, 1),
{
    let target = s.opposite().stone();
    let mut k: u8 = 1;
    loop
        invariant
            grid@.len() == 64,
            pos < 64,
            1 <= k <= 8,
            target == cell_of(opp(s)),
            run_len(grid@, s, pos as int, d, 1) == k - 1 + run_len(grid@, s, pos as int, d, k as int),
        decreases 8 - k,
    {
        match step(pos, d, k) {
            Some(j) => {
                proof {
                    lemma_step_on_board(pos as int, d, k as int);
                }
                if grid[j as usize] == target {
                    k = k + 1;
                } else {
                    return k - 1;
                }
            },
            None => {
                return k - 1;
            },
        }
    }
}

/// Whether placing a stone of `s` at `pos` captures along direction `d`.
fn captures_check(grid: &Vec<Cell>, s: Side, pos: u8, d: Direction) -> (b: bool)
    requires
        grid@.len() == 64,
        pos < 64,
    ensures
        b == captures_dir(grid@, s, pos as int, d),
{
    let n = walk_run(grid, s, pos, d);
    if n == 0 {
        return false;
    }
    proof {
        lemma_run_cells(grid@, s, pos as int, d, 1, n as int);
        lemma_step_on_board(pos as int, d, n as int);
    }
    match step(pos, d, n + 1) {
        Some(c) => {
            proof {
                lemma_step_on_board(pos as int, d, n as int + 1);
            }
            grid[c as usize] == s.stone()
        },
        None => false,
    }
}

/// Whether `pos` is a legal move for `s` on this grid.
fn is_legal_check(grid: &Vec<Cell>, s: Side, pos: u8) -> (b: bool)
    requires
        grid@.len() == 64,
    ensures
        b == is_legal(grid@, s, pos as int),
{
    if pos >= 64 {
        return false;
    }
    if grid[pos as usize] != Cell::Empty {
        return false;
    }
    let mut c: u8 = 0;
    while c < 8
        invariant
            grid@.len() == 64,
            pos < 64,
            grid@[pos as int] == Cell::Empty,
            c <= 8,
            forall|cc: int|
                0 <= cc < c ==> !captures_dir(grid@, s, pos as int, dir_of_code(cc)),
        decreases 8 - c,
    {
        let d = dir_from_code(c);
        if captures_check(grid, s, pos, d) {
            return true;
        }
        c = c + 1;
    }
    proof {
        assert forall|d: Direction| !captures_dir(grid@, s, pos as int, d) by {
            lemma_dir_code_round_trip(d);
        }
    }
    false
}

/// Appends to `out` the cells of the captured run along direction `d`
/// for a move of `s` at `pos`, or nothing if that ray does not capture.
fn ray_flips(grid: &Vec<Cell>, s: Side, pos: u8, d: Direction, out: &mut Vec<u8>)
    requires
        grid@.len() == 64,
        pos < 64,
    ensures
        final(out)@.len() >= old(out)@.len(),
        final(out)@.subrange(0, old(out)@.len() as int) == old(out)@,
        forall|m: int|
            old(out)@.len() <= m < final(out)@.len() ==> captured_in_dir(
                grid@,
                s,
                pos as int,
                d,
                final(out)@[m] as int,
            ),
        forall|j: int|
            captured_in_dir(grid@, s, pos as int, d, j) ==> final(out)@.contains(j as u8),
{
    let n = walk_run(grid, s, pos, d);
    if n == 0 {
        proof {
            assert(final(out)@.subrange(0, old(out)@.len() as int) =~= old(out)@);
        }
        return;
    }
    proof {
        lemma_run_cells(grid@, s, pos as int, d, 1, n as int);
        lemma_step_on_board(pos as int, d, n as int);
    }
    let closing = match step(pos, d, n + 1) {
        Some(c) => {
            proof {
                lemma_step_on_board(pos as int, d, n as int + 1);
            }
            grid[c as usize] == s.stone()
        },
        None => false,
    };
    if !closing {
        proof {
            assert(!captures_dir(grid@, s, pos as int, d));
            assert(final(out)@.subrange(0, old(out)@.len() as int) =~= old(out)@);
        }
        return;
    }
    proof {
        assert(captures_dir(grid@, s, pos as int, d));
    }
    let ghost base = out@;
    let mut k: u8 = 1;
    while k <= n
        invariant
            grid@.len() == 64,
            pos < 64,
            1 <= k <= n + 1,
            n == run_len(grid@, s, pos as int, d, 1),
            n <= 7,
            captures_dir(grid@, s, pos as int, d),
            out@.len() == base.len() + (k - 1),
            out@.subrange(0, base.len() as int) == base,
            forall|m: int|
                base.len() <= m < out@.len() ==> step_spec(
                    pos as int,
                    d,
                    m - base.len() + 1,
                ) == Some(out@[m] as int),
        decreases n + 1 - k,
    {
        match step(pos, d, k) {
            Some(j) => {
                proof {
                    lemma_step_on_board(pos as int, d, k as int);
                }
                out.push(j);
                proof {
                    assert(out@.subrange(0, base.len() as int) =~= base);
                }
            },
            None => {
                proof {
                    lemma_run_cells(grid@, s, pos as int, d, 1, k as int);
                    assert(false);
                }
            },
        }
        k = k + 1;
    }
    proof {
        assert(base == old(out)@);
        assert forall|m: int|
            old(out)@.len() <= m < out@.len() implies captured_in_dir(
                grid@,
                s,
                pos as int,
                d,
                out@[m] as int,
            ) by {
            let t = m - base.len() + 1;
            assert(step_spec(pos as int, d, t) == Some(out@[m] as int));
            assert(1 <= t <= run_len(grid@, s, pos as int, d, 1));
        }
        assert forall|j: int|
            captured_in_dir(grid@, s, pos as int, d, j) implies out@.contains(j as u8) by {
            let kk = choose|kk: int|
                1 <= kk <= run_len(grid@, s, pos as int, d, 1) && step_spec(
                    pos as int,
                    d,
                    kk,
                ) == Some(j);
            let idx = base.len() + kk - 1;
            assert(step_spec(pos as int, d, idx - base.len() + 1) == Some(out@[idx] as int));
            lemma_step_on_board(pos as int, d, kk);
            assert(out@[idx] == j as u8);
        }
    }
}

/// All cells flipped by a move of `s` at `pos`, gathered on the
/// unmodified grid by scanning the eight directions in their fixed
/// order.
fn collect_flips(grid: &Vec<Cell>, s: Side, pos: u8) -> (v: Vec<u8>)
    requires
        grid@.len() == 64,
        pos < 64,
    ensures
        forall|m: int| 0 <= m < v@.len() ==> captured(grid@, s, pos as int, v@[m] as int),
        forall|j: int| captured(grid@, s, pos as int, j) ==> v@.contains(j as u8),
{
    let mut v: Vec<u8> = Vec::new();
    let mut c: u8 = 0;
    while c < 8
        invariant
            grid@.len() == 64,
            pos < 64,
            c <= 8,
            forall|m: int| 0 <= m < v@.len() ==> captured(grid@, s, pos as int, v@[m] as int),
            forall|j: int, cc: int|
                (0 <= cc < c && captured_in_dir(grid@, s, pos as int, dir_of_code(cc), j))
                    ==> v@.contains(j as u8),
        decreases 8 - c,
    {
        let d = dir_from_code(c);
        let ghost before = v@;
        ray_flips(grid, s, pos, d, &mut v);
        proof {
            assert forall|m: int|
                0 <= m < v@.len() implies captured(grid@, s, pos as int, v@[m] as int) by {
                if m < before.len() {
                    assert(v@[m] == v@.subrange(0, before.len() as int)[m]);
                    assert(captured(grid@, s, pos as int, before[m] as int));
                } else {
                    assert(captured_in_dir(grid@, s, pos as int, d, v@[m] as int));
                }
            }
            assert forall|j: int, cc: int|
                (0 <= cc < c + 1 && captured_in_dir(
                    grid@,
                    s,
                    pos as int,
                    dir_of_code(cc),
                    j,
                )) implies v@.contains(j as u8) by {
                if cc < c {
                    assert(before.contains(j as u8));
                    let m = choose|m: int| 0 <= m < before.len() && before[m] == j as u8;
                    assert(v@[m] == v@.subrange(0, before.len() as int)[m]);
                    assert(v@[m] == j as u8);
                }
            }
        }
        c = c + 1;
    }
    proof {
        assert forall|j: int| captured(grid@, s, pos as int, j) implies v@.contains(j as u8) by {
            let d = choose|d: Direction| captured_in_dir(grid@, s, pos as int, d, j);
            lemma_dir_code_round_trip(d);
            assert(captured_in_dir(grid@, s, pos as int, dir_of_code(code_of_dir(d)), j));
        }
    }
    v
}

/// Whether `pos` is an empty cell with an occupied king-neighbour.
fn is_perim_check(grid: &Vec<Cell>, pos: u8) -> (b: bool)
    requires
        grid@.len() == 64,
    ensures
        b == perim_cell(grid@, pos as int),
{
    if pos >= 64 {
        return false;
    }
    if grid[pos as usize] != Cell::Empty {
        return false;
    }
    let mut c: u8 = 0;
    while c < 8
        invariant
            grid@.len() == 64,
            pos < 64,
            grid@[pos as int] == Cell::Empty,
            c <= 8,
            forall|cc: int|
                0 <= cc < c ==> !occupied_neighbor(grid@, pos as int, dir_of_code(cc)),
        decreases 8 - c,
    {
        let d = dir_from_code(c);
        match step(pos, d, 1) {
            Some(j) => {
                proof {
                    lemma_step_on_board(pos as int, d, 1);
                }
                if !(grid[j as usize] == Cell::Empty) {
                    proof {
                        assert(occupied_neighbor(grid@, pos as int, d));
                    }
                    return true;
                }
            },
            None => {},
        }
        c = c + 1;
    }
    proof {
        assert forall|d: Direction| !occupied_neighbor(grid@, pos as int, d) by {
            lemma_dir_code_round_trip(d);
        }
    }
    false
}

/// The perimeter after appending the empty king-neighbours of the move
/// cell `i`, scanning the directions from place `m` onward in the fixed
/// perimeter order; a neighbour already present is not appended again.
pub open spec fn add_neighbors(p: Seq<u8>, grid: Seq<Cell>, i: int, m: int) -> Seq<u8>
    decreases 8 - m,
{
    if m < 0 || m >= 8 {
        p
    } else {
        let p1 = match step_spec(i, perim_dir(m), 1) {
            Some(j) => if grid[j] == Cell::Empty && !p.contains(j as u8) {
                p.push(j as u8)
            } else {
                p
            },
            None => p,
        };
        add_neighbors(p1, grid, i, m + 1)
    }
}

/// The neighbour scan at place `m` names cell `x`: one step from `i` in
/// that direction lands on `x`, and `x` is empty.
pub open spec fn neighbor_added(grid: Seq<Cell>, i: int, m: int, x: u8) -> bool {
    &&& step_spec(i, perim_dir(m), 1) == Some(x as int)
    &&& grid[x as int] == Cell::Empty
}

/// What the neighbour scan does to membership and distinctness: it adds
/// exactly the empty king-neighbours of the move cell, each once.
proof fn lemma_add_neighbors_props(p: Seq<u8>, grid: Seq<Cell>, i: int, m: int)
    requires
        0 <= m <= 8,
        0 <= i < 64,
    ensures
        p.no_duplicates() ==> add_neighbors(p, grid, i, m).no_duplicates(),
        forall|x: u8|
            #[trigger] add_neighbors(p, grid, i, m).contains(x) ==> (p.contains(x) || exists|mm: int|
                m <= mm < 8 && neighbor_added(grid, i, mm, x)),
        forall|x: u8| p.contains(x) ==> #[trigger] add_neighbors(p, grid, i, m).contains(x),
        forall|x: u8, mm: int|
            m <= mm < 8 && #[trigger] neighbor_added(grid, i, mm, x) ==> add_neighbors(
                p,
                grid,
                i,
                m,
            ).contains(x),
    decreases 8 - m,
{
    if m < 8 {
        let p1 = match step_spec(i, perim_dir(m), 1) {
            Some(j) => if grid[j] == Cell::Empty && !p.contains(j as u8) {
                p.push(j as u8)
            } else {
                p
            },
            None => p,
        };
        // The one scanned place changes membership by exactly `neighbor_added`.
        assert forall|x: u8| p1.contains(x) <==> (p.contains(x) || neighbor_added(
            grid,
            i,
            m,
            x,
        )) by {
            match step_spec(i, perim_dir(m), 1) {
                Some(j) => {
                    lemma_step_on_board(i, perim_dir(m), 1);
                    if grid[j] == Cell::Empty && !p.contains(j as u8) {
                        if p1.contains(x) {
                            let t = choose|t: int| 0 <= t < p1.len() && p1[t] == x;
                            if t < p.len() {
                                assert(p[t] == x);
                                assert(p.contains(x));
                            } else {
                                assert(p1[t] == j as u8);
                                assert(neighbor_added(grid, i, m, x));
                            }
                        }
                        if p.contains(x) {
                            let t = choose|t: int| 0 <= t < p.len() && p[t] == x;
                            assert(p1[t] == x);
                            assert(p1.contains(x));
                        }
                        if neighbor_added(grid, i, m, x) {
                            assert(x as int == j);
                            assert(p1[p.len() as int] == j as u8);
                            assert(x == j as u8);
                            assert(p1.contains(x));
                        }
                    } else {
                        if neighbor_added(grid, i, m, x) {
                            assert(x as int == j);
                            assert(x == j as u8);
                            assert(p.contains(x));
                        }
                    }
                },
                None => {},
            }
        }
        if p.no_duplicates() {
            assert(p1.no_duplicates()) by {
                match step_spec(i, perim_dir(m), 1) {
                    Some(j) => {
                        if grid[j] == Cell::Empty && !p.contains(j as u8) {
                            assert forall|a: int, b: int|
                                0 <= a < b < p1.len() implies p1[a] != p1[b] by {
                                if b == p.len() {
                                    assert(p1[a] == p[a]);
                                    assert(!p.contains(j as u8));
                                    assert(p[a] != j as u8);
                                }
                            }
                        }
                    },
                    None => {},
                }
            }
        }
        lemma_add_neighbors_props(p1, grid, i, m + 1);
        let q = add_neighbors(p, grid, i, m);
        assert(q == add_neighbors(p1, grid, i, m + 1));
        assert forall|x: u8|
            #[trigger] q.contains(x) implies (p.contains(x) || exists|mm: int|
                m <= mm < 8 && neighbor_added(grid, i, mm, x)) by {
            if !p.contains(x) {
                if p1.contains(x) {
                    assert(neighbor_added(grid, i, m, x));
                    assert(m <= m < 8 && neighbor_added(grid, i, m, x));
                } else {
                    let mm = choose|mm: int|
                        m + 1 <= mm < 8 && neighbor_added(grid, i, mm, x);
                    assert(m <= mm < 8 && neighbor_added(grid, i, mm, x));
                }
            }
        }
        assert forall|x: u8| p.contains(x) implies #[trigger] q.contains(x) by {
            assert(p1.contains(x));
        }
        assert forall|x: u8, mm: int|
            m <= mm < 8 && #[trigger] neighbor_added(grid, i, mm, x) implies q.contains(x) by {
            if mm == m {
                assert(p1.contains(x));
            }
        }
    }
}

/// Removing a value from a duplicate-free sequence removes exactly that
/// value and keeps the sequence duplicate free.
proof fn lemma_remove_value_props(p: Seq<u8>, v: u8)
    requires
        p.no_duplicates(),
    ensures
        p.remove_value(v).no_duplicates(),
        forall|x: u8| p.remove_value(v).contains(x) <==> (p.contains(x) && x != v),
{
    p.index_of_first_ensures(v);
    match p.index_of_first(v) {
        Some(idx) => {
            let q = p.remove(idx);
            p.remove_ensures(idx);
            assert forall|x: u8| q.contains(x) <==> (p.contains(x) && x != v) by {
                if q.contains(x) {
                    let t = choose|t: int| 0 <= t < q.len() && q[t] == x;
                    if t < idx {
                        assert(p[t] == x);
                        assert(p[idx] == v && t != idx);
                    } else {
                        assert(p[t + 1] == x);
                        assert(p[idx] == v && t + 1 != idx);
                    }
                }
                if p.contains(x) && x != v {
                    let t = choose|t: int| 0 <= t < p.len() && p[t] == x;
                    if t < idx {
                        assert(q[t] == x);
                    } else {
                        assert(t != idx);
                        assert(q[t - 1] == x);
                    }
                }
            }
            assert forall|a: int, b: int| 0 <= a < b < q.len() implies q[a] != q[b] by {
                if b < idx {
                    assert(q[a] == p[a] && q[b] == p[b]);
                } else if a < idx {
                    assert(q[a] == p[a] && q[b] == p[b + 1]);
                } else {
                    assert(q[a] == p[a + 1] && q[b] == p[b + 1]);
                }
            }
        },
        None => {},
    }
}

/// Appends to the perimeter set the empty king-neighbours of the move
/// cell `pos`, in the fixed perimeter direction order.
fn add_perim_neighbors(perim: &mut indexmap::IndexSet<u8>, grid: &Vec<Cell>, pos: u8)
    requires
        grid@.len() == 64,
        pos < 64,
    ensures
        iset_seq(*final(perim)) == add_neighbors(iset_seq(*old(perim)), grid@, pos as int, 0),
{
    let mut m: u8 = 0;
    while m < 8
        invariant
            grid@.len() == 64,
            pos < 64,
            m <= 8,
            add_neighbors(iset_seq(*old(perim)), grid@, pos as int, 0) == add_neighbors(
                iset_seq(*perim),
                grid@,
                pos as int,
                m as int,
            ),
        decreases 8 - m,
    {
        let d = perim_dir_from_code(m);
        match step(pos, d, 1) {
            Some(j) => {
                proof {
                    lemma_step_on_board(pos as int, d, 1);
                }
                if grid[j as usize] == Cell::Empty {
                    iset_insert(perim, j);
                }
            },
            None => {},
        }
        m = m + 1;
    }
}

/// The legal moves of `s` found by scanning the perimeter sequence from
/// index `k` onward, in perimeter order.
pub open spec fn legal_filter(p: Seq<u8>, grid: Seq<Cell>, s: Side, k: int) -> Seq<u8>
    decreases p.len() - k,
{
    if k < 0 || k >= p.len() {
        Seq::empty()
    } else {
        (if is_legal(grid, s, p[k] as int) {
            seq![p[k]]
        } else {
            Seq::empty()
        }) + legal_filter(p, grid, s, k + 1)
    }
}

/// Membership in the perimeter scan: a cell is kept exactly when it
/// appears in the rest of the perimeter and is a legal move.
proof fn lemma_legal_filter_membership(p: Seq<u8>, grid: Seq<Cell>, s: Side, k: int)
    requires
        0 <= k,
    ensures
        forall|x: u8|
            legal_filter(p, grid, s, k).contains(x) <==> (exists|t: int|
                k <= t < p.len() && p[t] == x && is_legal(grid, s, x as int)),
    decreases p.len() - k,
{
    if k < p.len() {
        lemma_legal_filter_membership(p, grid, s, k + 1);
        let q = legal_filter(p, grid, s, k);
        let rest = legal_filter(p, grid, s, k + 1);
        assert forall|x: u8|
            q.contains(x) <==> (exists|t: int|
                k <= t < p.len() && p[t] == x && is_legal(grid, s, x as int)) by {
            if q.contains(x) {
                let t = choose|t: int| 0 <= t < q.len() && q[t] == x;
                if is_legal(grid, s, p[k] as int) {
                    if t == 0 {
                        assert(p[k] == x);
                    } else {
                        assert(rest[t - 1] == x);
                        assert(rest.contains(x));
                    }
                } else {
                    assert(rest[t] == x);
                    assert(rest.contains(x));
                }
            }
            if exists|t: int| k <= t < p.len() && p[t] == x && is_legal(grid, s, x as int) {
                let t = choose|t: int|
                    k <= t < p.len() && p[t] == x && is_legal(grid, s, x as int);
                if t == k {
                    assert(q[0] == x);
                } else {
                    assert(rest.contains(x));
                    let u = choose|u: int| 0 <= u < rest.len() && rest[u] == x;
                    if is_legal(grid, s, p[k] as int) {
                        assert(q[u + 1] == x);
                    } else {
                        assert(q[u] == x);
                    }
                }
            }
        }
    }
}

/// The perimeter scan of a duplicate-free perimeter is duplicate free.
proof fn lemma_legal_filter_no_dups(p: Seq<u8>, grid: Seq<Cell>, s: Side, k: int)
    requires
        0 <= k,
        p.no_duplicates(),
    ensures
        legal_filter(p, grid, s, k).no_duplicates(),
    decreases p.len() - k,
{
    if k < p.len() {
        lemma_legal_filter_no_dups(p, grid, s, k + 1);
        lemma_legal_filter_membership(p, grid, s, k + 1);
        let q = legal_filter(p, grid, s, k);
        let rest = legal_filter(p, grid, s, k + 1);
        if is_legal(grid, s, p[k] as int) {
            assert(!rest.contains(p[k]));
            assert forall|a: int, b: int| 0 <= a < b < q.len() implies q[a] != q[b] by {
                if a == 0 {
                    assert(q[b] == rest[b - 1]);
                    assert(rest.contains(rest[b - 1]));
                } else {
                    assert(q[a] == rest[a - 1] && q[b] == rest[b - 1]);
                }
            }
        }
    }
}

/// Recomputes the legal-move set of `s` by scanning the perimeter in its
/// insertion order and testing each cell for a capture.
fn recompute_legal(grid: &Vec<Cell>, perim: &indexmap::IndexSet<u8>, s: Side) -> (r:
    indexmap::IndexSet<u8>)
    requires
        grid@.len() == 64,
        iset_seq(*perim).no_duplicates(),
    ensures
        iset_seq(r) == legal_filter(iset_seq(*perim), grid@, s, 0),
{
    let ghost p = iset_seq(*perim);
    let mut r = iset_new();
    let n = iset_len(perim);
    let mut k: usize = 0;
    proof {
        assert(legal_filter(p, grid@, s, 0) =~= iset_seq(r) + legal_filter(p, grid@, s, 0));
    }
    while k < n
        invariant
            grid@.len() == 64,
            p == iset_seq(*perim),
            p.no_duplicates(),
            n == p.len(),
            k <= n,
            legal_filter(p, grid@, s, 0) == iset_seq(r) + legal_filter(p, grid@, s, k as int),
            forall|x: u8|
                iset_seq(r).contains(x) ==> exists|t: int| 0 <= t < k && p[t] == x,
        decreases n - k,
    {
        let x = iset_get(perim, k);
        let ghost r0 = iset_seq(r);
        let ghost rest = legal_filter(p, grid@, s, k + 1);
        if is_legal_check(grid, s, x) {
            proof {
                if r0.contains(x) {
                    let t = choose|t: int| 0 <= t < k && p[t] == x;
                    assert(p[t] == p[k as int]);
                    assert(false);
                }
            }
            iset_insert(&mut r, x);
            proof {
                assert(iset_seq(r) =~= r0 + seq![x]);
                assert(r0 + (seq![x] + rest) =~= (r0 + seq![x]) + rest);
                assert forall|y: u8| iset_seq(r).contains(y) implies exists|t: int|
                    0 <= t < k + 1 && p[t] == y by {
                    let u = choose|u: int| 0 <= u < iset_seq(r).len() && iset_seq(r)[u] == y;
                    if u < r0.len() {
                        assert(r0[u] == y);
                        assert(r0.contains(y));
                        let t = choose|t: int| 0 <= t < k && p[t] == y;
                        assert(p[t] == y);
                    } else {
                        assert(y == x);
                        assert(p[k as int] == y);
                    }
                }
            }
        } else {
            proof {
                assert(legal_filter(p, grid@, s, k as int) == Seq::<u8>::empty() + rest);
                assert(Seq::<u8>::empty() + rest =~= rest);
            }
        }
        k = k + 1;
    }
    proof {
        assert(legal_filter(p, grid@, s, n as int) =~= Seq::<u8>::empty());
        assert(iset_seq(r) =~= iset_seq(r) + legal_filter(p, grid@, s, n as int));
    }
    r
}

/// How the perimeter evolves over a move: dropping the move cell and
/// appending its empty king-neighbours yields exactly the perimeter of
/// the grid after the move.
proof fn lemma_perimeter_after_move(p0: Seq<u8>, g0: Seq<Cell>, s: Side, pos: int)
    requires
        g0.len() == 64,
        is_legal(g0, s, pos),
        p0.no_duplicates(),
        forall|x: u8| p0.contains(x) <==> perim_cell(g0, x as int),
    ensures
        ({
            let g1 = next_grid(g0, s, pos);
            let p1 = add_neighbors(p0.remove_value(pos as u8), g1, pos, 0);
            &&& p1.no_duplicates()
            &&& forall|x: u8| p1.contains(x) <==> perim_cell(g1, x as int)
        }),
{
    let g1 = next_grid(g0, s, pos);
    let pr = p0.remove_value(pos as u8);
    let p1 = add_neighbors(pr, g1, pos, 0);
    lemma_remove_value_props(p0, pos as u8);
    lemma_add_neighbors_props(pr, g1, pos, 0);
    lemma_next_grid_occupancy(g0, s, pos);
    assert forall|x: u8| p1.contains(x) <==> perim_cell(g1, x as int) by {
        if p1.contains(x) {
            if pr.contains(x) {
                assert(p0.contains(x) && x != pos as u8);
                assert(perim_cell(g0, x as int));
                assert(x as int != pos);
                assert(g1[x as int] == Cell::Empty);
                let d = choose|d: Direction| occupied_neighbor(g0, x as int, d);
                lemma_step_on_board(x as int, d, 1);
                assert(occupied_neighbor(g1, x as int, d));
                assert(perim_cell(g1, x as int));
            } else {
                let mm = choose|mm: int| 0 <= mm < 8 && neighbor_added(g1, pos, mm, x);
                lemma_step_symmetry(pos, perim_dir(mm), x as int);
                assert(g1[pos] != Cell::Empty);
                assert(occupied_neighbor(g1, x as int, opposite_dir(perim_dir(mm))));
                assert(perim_cell(g1, x as int));
            }
        }
        if perim_cell(g1, x as int) {
            assert(g1[x as int] == Cell::Empty);
            assert(g0[x as int] == Cell::Empty && x as int != pos);
            let d = choose|d: Direction| occupied_neighbor(g1, x as int, d);
            let j = step_spec(x as int, d, 1)->0;
            lemma_step_on_board(x as int, d, 1);
            if j == pos {
                lemma_step_symmetry(x as int, d, pos);
                lemma_perim_code_round_trip(opposite_dir(d));
                assert(neighbor_added(g1, pos, perim_code_of(opposite_dir(d)), x));
                assert(p1.contains(x));
            } else {
                assert(g0[j] != Cell::Empty);
                assert(occupied_neighbor(g0, x as int, d));
                assert(perim_cell(g0, x as int));
                assert(p0.contains(x));
                assert(x != pos as u8);
                assert(pr.contains(x));
                assert(p1.contains(x));
            }
        }
    }
}

/// A duplicate-free perimeter that characterises the perimeter cells of
/// a grid yields, through the perimeter scan, exactly the legal moves of
/// a side, each once.
proof fn lemma_legal_sets_wf(p1: Seq<u8>, g1: Seq<Cell>, s: Side)
    requires
        g1.len() == 64,
        p1.no_duplicates(),
        forall|x: u8| p1.contains(x) <==> perim_cell(g1, x as int),
    ensures
        legal_filter(p1, g1, s, 0).no_duplicates(),
        forall|x: u8| legal_filter(p1, g1, s, 0).contains(x) <==> is_legal(g1, s, x as int),
{
    lemma_legal_filter_membership(p1, g1, s, 0);
    lemma_legal_filter_no_dups(p1, g1, s, 0);
    assert forall|x: u8|
        legal_filter(p1, g1, s, 0).contains(x) <==> is_legal(g1, s, x as int) by {
        if is_legal(g1, s, x as int) {
            lemma_legal_in_perim(g1, s, x as int);
            assert(p1.contains(x));
            let t = choose|t: int| 0 <= t < p1.len() && p1[t] == x;
            assert(0 <= t < p1.len() && p1[t] == x && is_legal(g1, s, x as int));
        }
    }
}

/// The view of the position after a legal move at `pos`: the stone is
/// placed and every captured run flipped in one step, the move cell
/// leaves the perimeter and its empty king-neighbours join it in the
/// fixed order, both legal sets are recomputed by scanning the new
/// perimeter in its order, and the turn passes.
pub open spec fn move_view(v: PosView, pos: u8) -> PosView {
    let g1 = next_grid(v.grid, v.to_move, pos as int);
    let p1 = add_neighbors(v.perimeter.remove_value(pos), g1, pos as int, 0);
    PosView {
        grid: g1,
        to_move: opp(v.to_move),
        legal_black: legal_filter(p1, g1, Side::Black, 0),
        legal_white: legal_filter(p1, g1, Side::White, 0),
        perimeter: p1,
    }
}

/// The outcome of a position: the game goes on while both sides have a
/// legal move; once either side has none, the side with more stones has
/// won, and equal counts are a draw.
pub open spec fn terminal_spec(v: PosView) -> GameState {
    if v.legal_black.len() > 0 && v.legal_white.len() > 0 {
        GameState::Ongoing
    } else if count_cells(v.grid, Cell::Black) > count_cells(v.grid, Cell::White) {
        GameState::BlackWin
    } else if count_cells(v.grid, Cell::White) > count_cells(v.grid, Cell::Black) {
        GameState::WhiteWin
    } else {
        GameState::Draw
    }
}

/// The elements of an ordered set, as a vector in insertion order.
fn iset_to_vec(s: &indexmap::IndexSet<u8>) -> (r: Vec<u8>)
    ensures
        r@ == iset_seq(*s),
{
    let n = iset_len(s);
    let mut r: Vec<u8> = Vec::new();
    let mut k: usize = 0;
    while k < n
        invariant
            n == iset_seq(*s).len(),
            k <= n,
            r@.len() == k,
            forall|t: int| 0 <= t < k ==> r@[t] == iset_seq(*s)[t],
        decreases n - k,
    {
        let x = iset_get(s, k);
        r.push(x);
        k = k + 1;
    }
    proof {
        assert(r@ =~= iset_seq(*s));
    }
    r
}

/// The standard starting grid: White on D4 and E5 (27 and 36), Black on
/// E4 and D5 (28 and 35), all other cells empty.
pub open spec fn init_grid() -> Seq<Cell> {
    Seq::new(
        64,
        |j: int|
            if j == 27 || j == 36 {
                Cell::White
            } else if j == 28 || j == 35 {
                Cell::Black
            } else {
                Cell::Empty
            },
    )
}

/// The perimeter cells of a grid, scanned in ascending cell order from
/// index `k` onward.
pub open spec fn perim_scan(grid: Seq<Cell>, k: int) -> Seq<u8>
    decreases 64 - k,
{
    if k < 0 || k >= 64 {
        Seq::empty()
    } else {
        (if perim_cell(grid, k) {
            seq![k as u8]
        } else {
            Seq::empty()
        }) + perim_scan(grid, k + 1)
    }
}

/// The ascending scan lists exactly the perimeter cells, each once.
proof fn lemma_perim_scan_props(grid: Seq<Cell>, k: int)
    requires
        0 <= k,
    ensures
        perim_scan(grid, k).no_duplicates(),
        forall|x: u8|
            #[trigger] perim_scan(grid, k).contains(x) <==> (k <= x < 64 && perim_cell(
                grid,
                x as int,
            )),
    decreases 64 - k,
{
    if k < 64 {
        lemma_perim_scan_props(grid, k + 1);
        let q = perim_scan(grid, k);
        let rest = perim_scan(grid, k + 1);
        assert forall|x: u8| q.contains(x) implies (k <= x < 64 && perim_cell(
            grid,
            x as int,
        )) by {
            let t = choose|t: int| 0 <= t < q.len() && q[t] == x;
            if perim_cell(grid, k) {
                if t == 0 {
                    assert(x == k as u8);
                    assert(x as int == k);
                    assert(perim_cell(grid, x as int));
                } else {
                    assert(rest[t - 1] == x);
                    assert(rest.contains(x));
                    assert(k + 1 <= x < 64 && perim_cell(grid, x as int));
                }
            } else {
                assert(rest[t] == x);
                assert(rest.contains(x));
                assert(k + 1 <= x < 64 && perim_cell(grid, x as int));
            }
        }
        assert forall|x: u8| (k <= x < 64 && perim_cell(grid, x as int)) implies q.contains(
            x,
        ) by {
            if x == k as u8 {
                assert(x as int == k);
                assert(perim_cell(grid, k));
                assert(q[0] == x);
            } else {
                assert(x as int != k);
                assert(rest.contains(x));
                let u = choose|u: int| 0 <= u < rest.len() && rest[u] == x;
                if perim_cell(grid, k) {
                    assert(q[u + 1] == x);
                } else {
                    assert(q[u] == x);
                }
            }
        }
        if perim_cell(grid, k) {
            assert(!rest.contains(k as u8));
            assert forall|a: int, b: int| 0 <= a < b < q.len() implies q[a] != q[b] by {
                if a == 0 {
                    assert(q[b] == rest[b - 1]);
                    assert(rest.contains(rest[b - 1]));
                } else {
                    assert(q[a] == rest[a - 1] && q[b] == rest[b - 1]);
                }
            }
        }
    }
}

impl Position {
    /// Well-formedness of the cached state; established by `new` and
    /// preserved by every mutation.
    pub open spec fn wf(self) -> bool {
        self@.wf()
    }

    /// Builds the standard starting position: the four centre stones,
    /// Black to move, the perimeter filled by an ascending scan of the
    /// board, and both legal sets computed from it. Black's initial
    /// legal moves are D3, C4, F5, E6 in that order.
    pub fn new() -> (r: Position)
        ensures
            r.wf(),
            r@.grid == init_grid(),
            r@.to_move == Side::Black,
            r@.perimeter == perim_scan(init_grid(), 0),
            r@.legal_black == legal_filter(perim_scan(init_grid(), 0), init_grid(), Side::Black, 0),
            r@.legal_white == legal_filter(perim_scan(init_grid(), 0), init_grid(), Side::White, 0),
    {
        let mut grid: Vec<Cell> = Vec::new();
        let mut i: usize = 0;
        while i < 64
            invariant
                grid@.len() == i,
                i <= 64,
                forall|j: int| 0 <= j < i ==> grid@[j] == Cell::Empty,
            decreases 64 - i,
        {
            grid.push(Cell::Empty);
            i = i + 1;
        }
        grid.set(27, Cell::White);
        grid.set(28, Cell::Black);
        grid.set(35, Cell::Black);
        grid.set(36, Cell::White);
        proof {
            assert(grid@ =~= init_grid());
        }
        let mut perimeter = iset_new();
        let mut k: u8 = 0;
        proof {
            assert(perim_scan(init_grid(), 0) =~= iset_seq(perimeter) + perim_scan(
                init_grid(),
                0,
            ));
        }
        while k < 64
            invariant
                grid@ == init_grid(),
                k <= 64,
                perim_scan(init_grid(), 0) == iset_seq(perimeter) + perim_scan(
                    init_grid(),
                    k as int,
                ),
                forall|x: u8| iset_seq(perimeter).contains(x) ==> x < k,
            decreases 64 - k,
        {
            let ghost r0 = iset_seq(perimeter);
            let ghost rest = perim_scan(init_grid(), k as int + 1);
            if is_perim_check(&grid, k) {
                proof {
                    if r0.contains(k) {
                        assert(false);
                    }
                }
                iset_insert(&mut perimeter, k);
                proof {
                    assert(iset_seq(perimeter) =~= r0 + seq![k]);
                    assert(r0 + (seq![k] + rest) =~= (r0 + seq![k]) + rest);
                    assert forall|x: u8| iset_seq(perimeter).contains(x) implies x < k + 1 by {
                        let u = choose|u: int|
                            0 <= u < iset_seq(perimeter).len() && iset_seq(perimeter)[u] == x;
                        if u < r0.len() {
                            assert(r0[u] == x);
                            assert(r0.contains(x));
                        }
                    }
                }
            } else {
                proof {
                    assert(Seq::<u8>::empty() + rest =~= rest);
                }
            }
            k = k + 1;
        }
        proof {
            assert(perim_scan(init_grid(), 64) =~= Seq::<u8>::empty());
            assert(iset_seq(perimeter) =~= iset_seq(perimeter) + perim_scan(init_grid(), 64));
            lemma_perim_scan_props(init_grid(), 0);
        }
        let legal_black = recompute_legal(&grid, &perimeter, Side::Black);
        let legal_white = recompute_legal(&grid, &perimeter, Side::White);
        let r = Position { grid, to_move: Side::Black, legal_black, legal_white, perimeter };
        proof {
            assert forall|x: u8|
                r@.perimeter.contains(x) <==> perim_cell(r@.grid, x as int) by {}
            lemma_legal_sets_wf(r@.perimeter, r@.grid, Side::Black);
            lemma_legal_sets_wf(r@.perimeter, r@.grid, Side::White);
        }
        r
    }

    /// Counts the stones of each colour: (black count, white count).
    pub fn score(&self) -> (r: (u8, u8))
        requires
            self.wf(),
        ensures
            r.0 == count_cells(self@.grid, Cell::Black),
            r.1 == count_cells(self@.grid, Cell::White),
    {
        let mut b: u8 = 0;
        let mut w: u8 = 0;
        let mut i: usize = 0;
        while i < 64
            invariant
                self.wf(),
                i <= 64,
                b <= i,
                w <= i,
                count_cells(self@.grid, Cell::Black) == b + count_from(
                    self@.grid,
                    Cell::Black,
                    i as int,
                ),
                count_cells(self@.grid, Cell::White) == w + count_from(
                    self@.grid,
                    Cell::White,
                    i as int,
                ),
            decreases 64 - i,
        {
            match self.grid[i] {
                Cell::Black => {
                    b = b + 1;
                },
                Cell::White => {
                    w = w + 1;
                },
                Cell::Empty => {},
            }
            i = i + 1;
        }
        (b, w)
    }

    /// The outcome of the position: `Ongoing` while both sides still
    /// have a legal move; otherwise the side with more stones wins, and
    /// equal counts are a draw.
    pub fn terminal_state(&self) -> (r: GameState)
        requires
            self.wf(),
        ensures
            r == terminal_spec(self@),
    {
        let nb = iset_len(&self.legal_black);
        let nw = iset_len(&self.legal_white);
        if nb > 0 && nw > 0 {
            return GameState::Ongoing;
        }
        let (b, w) = self.score();
        if b > w {
            GameState::BlackWin
        } else if w > b {
            GameState::WhiteWin
        } else {
            GameState::Draw
        }
    }

    /// The cached legal moves of a side, in their insertion order.
    pub fn legal_moves(&self, s: Side) -> (r: Vec<u8>)
        ensures
            r@ == self@.legal(s),
    {
        match s {
            Side::Black => iset_to_vec(&self.legal_black),
            Side::White => iset_to_vec(&self.legal_white),
        }
    }

    /// The cached legal moves of the side to move.
    pub fn legal_moves_current(&self) -> (r: Vec<u8>)
        ensures
            r@ == self@.legal(self@.to_move),
    {
        self.legal_moves(self.to_move)
    }

    /// The perimeter cells, in their insertion order.
    pub fn perimeter_cells(&self) -> (r: Vec<u8>)
        ensures
            r@ == self@.perimeter,
    {
        iset_to_vec(&self.perimeter)
    }

    /// The side whose turn it is.
    pub fn to_move(&self) -> (r: Side)
        ensures
            r == self@.to_move,
    {
        self.to_move
    }

    /// Whether it is `s`'s turn.
    pub fn is_to_move(&self, s: Side) -> (r: bool)
        ensures
            r == (self@.to_move == s),
    {
        self.to_move == s
    }

    /// The contents of one cell of the grid.
    pub fn cell_at(&self, pos: u8) -> (r: Cell)
        requires
            self.wf(),
            pos < 64,
        ensures
            r == self@.grid[pos as int],
    {
        self.grid[pos as usize]
    }

    /// Places a stone of the side to move at `pos`, flips all captured
    /// runs, maintains the perimeter and both legal-move caches, and
    /// passes the turn. Fails, leaving the position unchanged, exactly
    /// when `pos` is not a cached legal move of the side to move.
    pub fn apply_move(&mut self, pos: u8) -> (r: Result<(), ReversiError>)
        requires
            old(self).wf(),
        ensures
            final(self).wf(),
            (r is Ok) <==> old(self)@.legal(old(self)@.to_move).contains(pos),
            r is Err ==> r == Err::<(), ReversiError>(ReversiError::IllegalMove) && *final(self)
                == *old(self),
            r is Ok ==> final(self)@ == move_view(old(self)@, pos),
    {
        let side = self.to_move;
        let in_legal = match side {
            Side::Black => iset_contains(&self.legal_black, pos),
            Side::White => iset_contains(&self.legal_white, pos),
        };
        if !in_legal {
            return Err(ReversiError::IllegalMove);
        }
        let ghost g0 = self.grid@;
        proof {
            assert(is_legal(g0, side, pos as int));
        }
        let flips = collect_flips(&self.grid, side, pos);
        let stone = side.stone();
        self.grid.set(pos as usize, stone);
        let mut idx: usize = 0;
        while idx < flips.len()
            invariant
                self.grid@.len() == 64,
                idx <= flips@.len(),
                stone == cell_of(side),
                pos < 64,
                g0.len() == 64,
                self.perimeter == old(self).perimeter,
                self.legal_black == old(self).legal_black,
                self.legal_white == old(self).legal_white,
                self.to_move == old(self).to_move,
                forall|m: int|
                    0 <= m < flips@.len() ==> captured(g0, side, pos as int, flips@[m] as int),
                forall|j: int| captured(g0, side, pos as int, j) ==> flips@.contains(j as u8),
                forall|j: int|
                    0 <= j < 64 ==> self.grid@[j] == (if j == pos as int {
                        stone
                    } else if flips@.take(idx as int).contains(j as u8) {
                        stone
                    } else {
                        g0[j]
                    }),
            decreases flips@.len() - idx,
        {
            let f = flips[idx];
            proof {
                lemma_captured_opp(g0, side, pos as int, f as int);
            }
            self.grid.set(f as usize, stone);
            proof {
                assert(flips@.take(idx as int + 1) =~= flips@.take(idx as int).push(f));
                assert forall|j: int|
                    0 <= j < 64 implies self.grid@[j] == (if j == pos as int {
                        stone
                    } else if flips@.take(idx as int + 1).contains(j as u8) {
                        stone
                    } else {
                        g0[j]
                    }) by {
                    let tk0 = flips@.take(idx as int);
                    let tk1 = flips@.take(idx as int + 1);
                    if j == f as int {
                        assert(tk1[idx as int] == f);
                        assert(tk1.contains(j as u8));
                    } else {
                        if tk1.contains(j as u8) {
                            let t = choose|t: int| 0 <= t < tk1.len() && tk1[t] == j as u8;
                            assert(t < idx as int);
                            assert(tk0[t] == j as u8);
                            assert(tk0.contains(j as u8));
                        }
                        if tk0.contains(j as u8) {
                            let t = choose|t: int| 0 <= t < tk0.len() && tk0[t] == j as u8;
                            assert(tk1[t] == j as u8);
                            assert(tk1.contains(j as u8));
                        }
                    }
                }
            }
            idx = idx + 1;
        }
        proof {
            assert(flips@.take(flips@.len() as int) =~= flips@);
            assert forall|j: int|
                0 <= j < 64 implies self.grid@[j] == next_grid(g0, side, pos as int)[j] by {
                if j != pos as int {
                    if flips@.contains(j as u8) {
                        let m = choose|m: int| 0 <= m < flips@.len() && flips@[m] == j as u8;
                        assert(captured(g0, side, pos as int, flips@[m] as int));
                        assert(captured(g0, side, pos as int, j));
                    } else {
                        if captured(g0, side, pos as int, j) {
                            assert(flips@.contains(j as u8));
                            assert(false);
                        }
                    }
                }
            }
            assert(self.grid@ =~= next_grid(g0, side, pos as int));
        }
        let ghost p0 = iset_seq(self.perimeter);
        iset_shift_remove(&mut self.perimeter, pos);
        proof {
            assert(iset_seq(self.perimeter) == p0.remove_value(pos));
        }
        let ghost pr = iset_seq(self.perimeter);
        add_perim_neighbors(&mut self.perimeter, &self.grid, pos);
        proof {
            assert(p0 == old(self)@.perimeter);
            assert(iset_seq(self.perimeter) == add_neighbors(pr, self.grid@, pos as int, 0));
            lemma_perimeter_after_move(p0, g0, side, pos as int);
            assert(self.grid@ == next_grid(g0, side, pos as int));
            assert(iset_seq(self.perimeter).no_duplicates());
        }
        let lb = recompute_legal(&self.grid, &self.perimeter, Side::Black);
        let lw = recompute_legal(&self.grid, &self.perimeter, Side::White);
        self.legal_black = lb;
        self.legal_white = lw;
        self.to_move = side.opposite();
        proof {
            let g1 = self.grid@;
            let p1 = iset_seq(self.perimeter);
            lemma_legal_sets_wf(p1, g1, Side::Black);
            lemma_legal_sets_wf(p1, g1, Side::White);
            assert(self@ == move_view(old(self)@, pos));
        }
        Ok(())
    }
}

/// Every cached legal move lies on the cached perimeter: a move must
/// flip a stone, so it is empty and adjacent to an opponent stone.
pub proof fn lemma_legal_subset_perimeter(v: PosView, s: Side, x: u8)
    requires
        v.wf(),
        v.legal(s).contains(x),
    ensures
        v.perimeter.contains(x),
{
    lemma_legal_in_perim(v.grid, s, x as int);
}

/// Stone bookkeeping over a move: the mover adds exactly one stone and
/// flipping only recolours, so the total stone count grows by one and
/// the empty-cell count shrinks by one.
pub proof fn lemma_apply_move_counts(v: PosView, pos: u8)
    requires
        v.wf(),
        v.legal(v.to_move).contains(pos),
    ensures
        count_cells(move_view(v, pos).grid, Cell::Black) + count_cells(
            move_view(v, pos).grid,
            Cell::White,
        ) == count_cells(v.grid, Cell::Black) + count_cells(v.grid, Cell::White) + 1,
        count_cells(move_view(v, pos).grid, Cell::Empty) == count_cells(v.grid, Cell::Empty) - 1,
        count_cells(v.grid, Cell::Empty) >= 1,
        count_cells(move_view(v, pos).grid, cell_of(v.to_move)) == count_cells(
            v.grid,
            cell_of(v.to_move),
        ) + 1 + captured_count(v.grid, v.to_move, pos as int, 0),
{
    lemma_move_counts(v.grid, v.to_move, pos as int);
    lemma_flip_accounting(v.grid, v.to_move, pos as int);
}

impl Clone for Position {
    /// A deep, independent copy: the grid and every cached set are
    /// duplicated, and the copy's view equals the original's.
    fn clone(&self) -> (r: Self)
        ensures
            r@ == self@,
    {
        let mut grid: Vec<Cell> = Vec::new();
        let mut i: usize = 0;
        while i < self.grid.len()
            invariant
                i <= self.grid@.len(),
                grid@.len() == i,
                forall|j: int| 0 <= j < i ==> grid@[j] == self.grid@[j],
            decreases self.grid@.len() - i,
        {
            grid.push(self.grid[i]);
            i = i + 1;
        }
        proof {
            assert(grid@ =~= self.grid@);
        }
        Position {
            grid,
            to_move: self.to_move,
            legal_black: iset_clone(&self.legal_black),
            legal_white: iset_clone(&self.legal_white),
            perimeter: iset_clone(&self.perimeter),
        }
    }
}

} // verus!
