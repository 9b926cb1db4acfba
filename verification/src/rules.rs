//! The mathematical statement of the automaton: board states as a flat
//! row-major sequence of booleans, the eight-neighbor count, and the
//! survival/birth rule, together with the laws the engine is held to.

use vstd::prelude::*;

verus! {

/// 1 for a live cell, 0 for a dead one.
pub open spec fn b2i(b: bool) -> int {
    if b {
        1
    } else {
        0
    }
}

/// The state of cell `(i, j)` on a `w`-by-`h` board whose states are stored
/// row-major in `b`; every out-of-range coordinate reads as dead.
pub open spec fn at(b: Seq<bool>, w: int, h: int, i: int, j: int) -> bool {
    0 <= i < h && 0 <= j < w && b[i * w + j]
}

/// The number of live cells among the eight neighbors of `(i, j)`; cells
/// beyond the edge of the board count as dead.
pub open spec fn neighbor_count(b: Seq<bool>, w: int, h: int, i: int, j: int) -> int {
    b2i(at(b, w, h, i - 1, j - 1)) + b2i(at(b, w, h, i - 1, j)) + b2i(at(b, w, h, i - 1, j + 1))
        + b2i(at(b, w, h, i, j - 1)) + b2i(at(b, w, h, i, j + 1)) + b2i(
        at(b, w, h, i + 1, j - 1),
    ) + b2i(at(b, w, h, i + 1, j)) + b2i(at(b, w, h, i + 1, j + 1))
}

/// The standard rule: a live cell survives iff it has two or three live
/// neighbors; a dead cell becomes alive iff it has exactly three.
pub open spec fn next_state(b: Seq<bool>, w: int, h: int, i: int, j: int) -> bool {
    if at(b, w, h, i, j) {
        neighbor_count(b, w, h, i, j) == 2 || neighbor_count(b, w, h, i, j) == 3
    } else {
        neighbor_count(b, w, h, i, j) == 3
    }
}

/// The whole board advanced by one generation.
pub open spec fn next_board(b: Seq<bool>, w: int, h: int) -> Seq<bool> {
    Seq::new(b.len(), |k: int| next_state(b, w, h, k / w, k % w))
}

/// The board advanced by `n` generations.
pub open spec fn advanced_board_times(b: Seq<bool>, w: int, h: int, n: nat) -> Seq<bool>
    decreases n,
{
    if n == 0 {
        b
    } else {
        next_board(advanced_board_times(b, w, h, (n - 1) as nat), w, h)
    }
}

/// The number of live cells among the first `n` states of `b`.
pub open spec fn live_cells(b: Seq<bool>, n: int) -> int
    decreases n,
{
    if n <= 0 {
        0
    } else {
        live_cells(b, n - 1) + b2i(b[n - 1])
    }
}

/// Whether every cell of the board is dead.
pub open spec fn all_dead(b: Seq<bool>) -> bool {
    forall|k: int| 0 <= k < b.len() ==> !b[k]
}

/// A live-cell count over a prefix is at least 0 and at most the prefix
/// length.
pub proof fn lemma_live_cells_bounds(b: Seq<bool>, n: int)
    ensures
        0 <= live_cells(b, n) <= if n <= 0 {
            0
        } else {
            n
        },
    decreases n,
{
    if n > 0 {
        lemma_live_cells_bounds(b, n - 1);
    }
}

/// The row-major index of an in-range coordinate is in range for the flat
/// board.
pub proof fn lemma_row_major_index(w: int, h: int, i: int, j: int)
    by (nonlinear_arith)
    requires
        0 <= i < h,
        0 <= j < w,
    ensures
        0 <= i * w + j < w * h,
{
}

/// A flat index decomposes uniquely into its row and column.
pub proof fn lemma_row_major_div_mod(w: int, i: int, j: int)
    by (nonlinear_arith)
    requires
        0 <= j < w,
        0 <= i,
    ensures
        (i * w + j) / w == i,
        (i * w + j) % w == j,
{
}

/// Conformance to the standard rule: exactly three live neighbors make or
/// keep a cell alive; exactly two keep it as it was; every other count
/// leaves it dead.
pub proof fn lemma_rule_conformance(b: Seq<bool>, w: int, h: int, i: int, j: int)
    ensures
        neighbor_count(b, w, h, i, j) == 3 ==> next_state(b, w, h, i, j),
        neighbor_count(b, w, h, i, j) == 2 ==> next_state(b, w, h, i, j) == at(b, w, h, i, j),
        neighbor_count(b, w, h, i, j) != 2 && neighbor_count(b, w, h, i, j) != 3 ==> !next_state(
            b,
            w,
            h,
            i,
            j,
        ),
{
}

/// Advancing a generation is deterministic: two boards holding the same
/// states advance to the same states.
pub proof fn lemma_next_board_deterministic(a: Seq<bool>, b: Seq<bool>, w: int, h: int)
    requires
        a == b,
    ensures
        next_board(a, w, h) == next_board(b, w, h),
{
}

/// One generation keeps an all-dead board all dead.
pub proof fn lemma_all_dead_step(b: Seq<bool>, w: int, h: int)
    requires
        all_dead(b),
        b.len() == w * h,
        0 <= w,
        0 <= h,
    ensures
        all_dead(next_board(b, w, h)),
        next_board(b, w, h).len() == b.len(),
{
    assert forall|k: int| 0 <= k < b.len() implies !next_board(b, w, h)[k] by {
        let i = k / w;
        let j = k % w;
        assert forall|pi: int, pj: int| !at(b, w, h, pi, pj) by {
            if 0 <= pi < h && 0 <= pj < w {
                lemma_row_major_index(w, h, pi, pj);
            }
        }
        assert(neighbor_count(b, w, h, i, j) == 0);
        assert(!next_state(b, w, h, i, j));
    }
}

/// Still-life stability of the empty board: an all-dead board stays all dead
/// after any number of generations.
pub proof fn lemma_all_dead_stable(b: Seq<bool>, w: int, h: int, n: nat)
    requires
        all_dead(b),
        b.len() == w * h,
        0 <= w,
        0 <= h,
    ensures
        all_dead(advanced_board_times(b, w, h, n)),
        advanced_board_times(b, w, h, n).len() == b.len(),
    decreases n,
{
    if n > 0 {
        lemma_all_dead_stable(b, w, h, (n - 1) as nat);
        lemma_all_dead_step(advanced_board_times(b, w, h, (n - 1) as nat), w, h);
    }
}

} // verus!
