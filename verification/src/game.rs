//! The engine: a bounded board of cells with bounds-safe accessors,
//! generation advance by a single in-place row-major sweep, one-level
//! rewind, and randomization.

use vstd::prelude::*;

use crate::cell::{
    advanced_cell, advanced_once, dead_cell, history_bit, lemma_advanced_once_records,
    lemma_dead_cell_history, rewound_cell, Cell, CellView,
};
use crate::render::{centered_title, dashes, render_chars, row_chars, row_line, rows_prefix};
use crate::rules::{
    at, b2i, lemma_live_cells_bounds, lemma_row_major_div_mod, lemma_row_major_index, live_cells,
    neighbor_count, next_board, next_state,
};
use vstd::string::StringExecFns;

verus! {

/// Relies on `rand::random`: one uniform draw from the thread-local
/// generator. Nothing can be promised of the value drawn, so no clause is
/// stated; callers must hold for every outcome.
#[verifier::external_body]
fn random_bool() -> bool {
    rand::random()
}

/// The engine: a `width` x `height` board of cells, stored row-major.
#[derive(Debug)]
pub struct Game {
    width: u32,
    height: u32,
    board: Vec<Cell>,
}

impl Game {
    /// The number of columns of the board.
    pub closed spec fn spec_width(self) -> int {
        self.width as int
    }

    /// The number of rows of the board.
    pub closed spec fn spec_height(self) -> int {
        self.height as int
    }

    /// The cells of the board, row-major.
    pub closed spec fn cells(self) -> Seq<CellView> {
        self.board@.map_values(|c: Cell| c@)
    }

    /// The live/dead states of the board, row-major.
    pub open spec fn states(self) -> Seq<bool> {
        self.cells().map_values(|v: CellView| v.state)
    }

    /// The number of cells of the board.
    pub open spec fn n_cells(self) -> int {
        self.spec_width() * self.spec_height()
    }

    /// Well-formedness: positive dimensions small enough that coordinates
    /// fit an `i32` and the cell count fits a `u32`, and a board of exactly
    /// `width * height` cells.
    pub open spec fn wf(self) -> bool {
        &&& 1 <= self.spec_width() <= i32::MAX as int
        &&& 1 <= self.spec_height() <= i32::MAX as int
        &&& self.n_cells() <= u32::MAX as int
        &&& self.cells().len() == self.n_cells()
    }

    /// The cell at `(i, j)`, or the shared dead value for any out-of-range
    /// coordinate.
    pub open spec fn cell_at(self, i: int, j: int) -> CellView {
        if 0 <= i < self.spec_height() && 0 <= j < self.spec_width() {
            self.cells()[i * self.spec_width() + j]
        } else {
            dead_cell()
        }
    }

    /// The neighbor count as read mid-sweep: the four neighbors above and to
    /// the left have already been advanced, so their previous state is
    /// recovered from history bit 0; the four below and to the right still
    /// hold their previous state directly.
    pub open spec fn mixed_neighbor_count(self, i: int, j: int) -> int {
        b2i(history_bit(self.cell_at(i - 1, j - 1), 1)) + b2i(
            history_bit(self.cell_at(i - 1, j), 1),
        ) + b2i(history_bit(self.cell_at(i - 1, j + 1), 1)) + b2i(
            history_bit(self.cell_at(i, j - 1), 1),
        ) + b2i(self.cell_at(i, j + 1).state) + b2i(self.cell_at(i + 1, j - 1).state) + b2i(
            self.cell_at(i + 1, j).state,
        ) + b2i(self.cell_at(i + 1, j + 1).state)
    }

    /// Build a board of dead cells, and randomize it when asked to.
    pub fn new(width: u32, height: u32, random: bool) -> (g: Game)
        requires
            1 <= width <= i32::MAX as u32,
            1 <= height <= i32::MAX as u32,
            width as int * height as int <= u32::MAX as int,
        ensures
            g.wf(),
            g.spec_width() == width as int,
            g.spec_height() == height as int,
            !random ==> forall|k: int| 0 <= k < g.n_cells() ==> g.cells()[k] == dead_cell(),
            random ==> forall|k: int|
                0 <= k < g.n_cells() ==> advanced_once(#[trigger] g.cells()[k], dead_cell()),
    {
        let n: usize = (width as usize) * (height as usize);
        let mut board: Vec<Cell> = Vec::new();
        while board.len() < n
            invariant
                n == width as int * height as int,
                board@.len() <= n,
                forall|k: int| 0 <= k < board@.len() ==> board@[k]@ == dead_cell(),
            decreases n - board.len(),
        {
            board.push(Cell::default());
        }
        let mut game = Game { width, height, board };
        if random {
            game.randomize();
        }
        game
    }

    /// Reset every cell to an independent uniform random state, each through
    /// `set_cell`, so that each cell's history bit 0 records the state it
    /// held just before the reset.
    pub fn randomize(&mut self)
        requires
            old(self).wf(),
        ensures
            final(self).wf(),
            final(self).spec_width() == old(self).spec_width(),
            final(self).spec_height() == old(self).spec_height(),
            forall|k: int|
                0 <= k < old(self).n_cells() ==> advanced_once(
                    #[trigger] final(self).cells()[k],
                    old(self).cells()[k],
                ),
            forall|k: int|
                0 <= k < old(self).n_cells() ==> history_bit(#[trigger] final(self).cells()[k], 1)
                    == old(self).cells()[k].state,
    {
        let ghost orig = *self;
        let ghost w: int = orig.spec_width();
        let mut i: u32 = 0;
        while i < self.height
            invariant
                self.wf(),
                orig.wf(),
                w == orig.spec_width(),
                self.spec_width() == w,
                self.spec_height() == orig.spec_height(),
                (i as int) <= orig.spec_height(),
                forall|k: int|
                    0 <= k < i as int * w ==> advanced_once(
                        #[trigger] self.cells()[k],
                        orig.cells()[k],
                    ),
                forall|k: int|
                    i as int * w <= k < orig.n_cells() ==> self.cells()[k] == orig.cells()[k],
            decreases self.height - i,
        {
            let mut j: u32 = 0;
            while j < self.width
                invariant
                    self.wf(),
                    orig.wf(),
                    w == orig.spec_width(),
                    self.spec_width() == w,
                    self.spec_height() == orig.spec_height(),
                    (i as int) < orig.spec_height(),
                    (j as int) <= w,
                    forall|k: int|
                        0 <= k < i as int * w + j as int ==> advanced_once(
                            #[trigger] self.cells()[k],
                            orig.cells()[k],
                        ),
                    forall|k: int|
                        i as int * w + j as int <= k < orig.n_cells() ==> self.cells()[k]
                            == orig.cells()[k],
                decreases self.width - j,
            {
                proof {
                    lemma_row_major_index(w, orig.spec_height(), i as int, j as int);
                }
                let s: bool = random_bool();
                self.set_cell(i as i32, j as i32, s);
                proof {
                    assert(advanced_once(
                        self.cells()[i as int * w + j as int],
                        orig.cells()[i as int * w + j as int],
                    ));
                }
                j += 1;
            }
            proof {
                assert((i as int + 1) * w == i as int * w + w) by (nonlinear_arith);
            }
            i += 1;
        }
        proof {
            assert(self.spec_height() * w == w * self.spec_height()) by (nonlinear_arith);
            assert forall|k: int| 0 <= k < orig.n_cells() implies history_bit(
                #[trigger] self.cells()[k],
                1,
            ) == orig.cells()[k].state by {
                lemma_advanced_once_records(self.cells()[k], orig.cells()[k]);
            }
        }
    }

    /// The cell at `(i, j)`, read-only; any out-of-range coordinate yields a
    /// dead cell with empty history, whatever the board holds.
    pub fn get_cell(&self, i: i32, j: i32) -> (c: Cell)
        requires
            self.wf(),
        ensures
            c@ == self.cell_at(i as int, j as int),
    {
        if i >= self.height as i32 || i < 0 || j < 0 || j >= self.width as i32 {
            return Cell::default();
        }
        proof {
            lemma_row_major_index(self.spec_width(), self.spec_height(), i as int, j as int);
        }
        let idx: usize = (i as usize) * (self.width as usize) + (j as usize);
        self.board[idx]
    }

    /// The eight-neighbor living count for `(i, j)` during an in-progress
    /// sweep: the four already-advanced neighbors (above and to the left)
    /// are read through history bit 0, the four not-yet-advanced ones
    /// directly.
    fn count_living(&self, i: i32, j: i32) -> (n: i32)
        requires
            self.wf(),
            0 <= i < self.spec_height(),
            0 <= j < self.spec_width(),
        ensures
            n == self.mixed_neighbor_count(i as int, j as int),
            0 <= n <= 8,
    {
        let mut living: i32 = 0;

        living += if self.get_cell(i - 1, j - 1).watch_history(1) {
            1
        } else {
            0
        };
        living += if self.get_cell(i - 1, j + 1).watch_history(1) {
            1
        } else {
            0
        };
        living += if self.get_cell(i - 1, j).watch_history(1) {
            1
        } else {
            0
        };
        living += if self.get_cell(i, j - 1).watch_history(1) {
            1
        } else {
            0
        };

        living += if self.get_cell(i, j + 1).get_state() {
            1
        } else {
            0
        };
        living += if self.get_cell(i + 1, j).get_state() {
            1
        } else {
            0
        };
        living += if self.get_cell(i + 1, j - 1).get_state() {
            1
        } else {
            0
        };
        living += if self.get_cell(i + 1, j + 1).get_state() {
            1
        } else {
            0
        };

        living
    }

    /// Advance the whole board one generation in a single in-place row-major
    /// sweep and return the number of cells alive afterwards. Each cell's
    /// history records the state it held before the sweep, which both feeds
    /// the mixed neighbor read for later cells and makes `step_back` a
    /// one-level inverse.
    pub fn next_generation(&mut self) -> (alive: u32)
        requires
            old(self).wf(),
        ensures
            final(self).wf(),
            final(self).spec_width() == old(self).spec_width(),
            final(self).spec_height() == old(self).spec_height(),
            forall|k: int|
                0 <= k < old(self).n_cells() ==> #[trigger] final(self).cells()[k]
                    == advanced_cell(
                    old(self).cells()[k],
                    next_state(
                        old(self).states(),
                        old(self).spec_width(),
                        old(self).spec_height(),
                        k / old(self).spec_width(),
                        k % old(self).spec_width(),
                    ),
                ),
            final(self).states() == next_board(
                old(self).states(),
                old(self).spec_width(),
                old(self).spec_height(),
            ),
            alive as int == live_cells(
                next_board(old(self).states(), old(self).spec_width(), old(self).spec_height()),
                old(self).n_cells(),
            ),
    {
        let ghost orig = *self;
        let ghost w: int = orig.spec_width();
        let ghost h: int = orig.spec_height();
        let ghost nb: Seq<bool> = next_board(orig.states(), w, h);
        let mut alive: u32 = 0;
        let mut i: u32 = 0;
        while i < self.height
            invariant
                self.wf(),
                orig.wf(),
                w == orig.spec_width(),
                h == orig.spec_height(),
                self.spec_width() == w,
                self.spec_height() == h,
                nb == next_board(orig.states(), w, h),
                (i as int) <= h,
                forall|k: int|
                    0 <= k < i as int * w ==> #[trigger] self.cells()[k] == advanced_cell(
                        orig.cells()[k],
                        next_state(orig.states(), w, h, k / w, k % w),
                    ),
                forall|k: int|
                    i as int * w <= k < orig.n_cells() ==> self.cells()[k] == orig.cells()[k],
                alive as int == live_cells(nb, i as int * w),
            decreases self.height - i,
        {
            let mut j: u32 = 0;
            while j < self.width
                invariant
                    self.wf(),
                    orig.wf(),
                    w == orig.spec_width(),
                    h == orig.spec_height(),
                    self.spec_width() == w,
                    self.spec_height() == h,
                    nb == next_board(orig.states(), w, h),
                    (i as int) < h,
                    (j as int) <= w,
                    forall|k: int|
                        0 <= k < i as int * w + j as int ==> #[trigger] self.cells()[k]
                            == advanced_cell(
                            orig.cells()[k],
                            next_state(orig.states(), w, h, k / w, k % w),
                        ),
                    forall|k: int|
                        i as int * w + j as int <= k < orig.n_cells() ==> self.cells()[k]
                            == orig.cells()[k],
                    alive as int == live_cells(nb, i as int * w + j as int),
                decreases self.width - j,
            {
                let ghost bd: int = i as int * w + j as int;
                proof {
                    lemma_row_major_index(w, h, i as int, j as int);
                    assert forall|k: int| 0 <= k < bd implies advanced_once(
                        #[trigger] self.cells()[k],
                        orig.cells()[k],
                    ) by {}
                    lemma_mixed_count_matches(*self, orig, i as int, j as int);
                }
                let n: i32 = self.count_living(i as i32, j as i32);
                let idx: usize = (i as usize) * (self.width as usize) + (j as usize);
                let ghost prev = *self;
                proof {
                    assert(orig.states()[bd] == orig.cells()[bd].state);
                }
                let new_state: bool = if self.board[idx].get_state() {
                    n == 2 || n == 3
                } else {
                    n == 3
                };
                proof {
                    lemma_row_major_div_mod(w, i as int, j as int);
                    assert(nb[bd] == next_state(orig.states(), w, h, i as int, j as int));
                    lemma_live_cells_bounds(nb, bd + 1);
                }
                self.board[idx].change_state(new_state);
                proof {
                    assert(self.cells() =~= prev.cells().update(
                        bd,
                        advanced_cell(prev.cells()[bd], new_state),
                    ));
                }
                if new_state {
                    alive = alive + 1;
                }
                j += 1;
            }
            proof {
                assert((i as int + 1) * w == i as int * w + w) by (nonlinear_arith);
            }
            i += 1;
        }
        proof {
            assert(h * w == w * h) by (nonlinear_arith);
            assert(self.states() =~= nb);
        }
        alive
    }

    /// Rewind every cell one generation (and only one: a second `step_back`
    /// without an intervening advance is a rotate, not a deeper undo).
    pub fn step_back(&mut self)
        requires
            old(self).wf(),
        ensures
            final(self).wf(),
            final(self).spec_width() == old(self).spec_width(),
            final(self).spec_height() == old(self).spec_height(),
            forall|k: int|
                0 <= k < old(self).n_cells() ==> #[trigger] final(self).cells()[k] == rewound_cell(
                    old(self).cells()[k],
                ),
    {
        let ghost orig = *self;
        let n: usize = self.board.len();
        let mut idx: usize = 0;
        while idx < n
            invariant
                self.wf(),
                orig.wf(),
                self.spec_width() == orig.spec_width(),
                self.spec_height() == orig.spec_height(),
                n == orig.n_cells(),
                idx <= n,
                forall|k: int|
                    0 <= k < idx ==> #[trigger] self.cells()[k] == rewound_cell(orig.cells()[k]),
                forall|k: int| idx <= k < n ==> self.cells()[k] == orig.cells()[k],
            decreases n - idx,
        {
            let ghost prev = *self;
            self.board[idx].step_back();
            proof {
                assert(self.cells() =~= prev.cells().update(
                    idx as int,
                    rewound_cell(prev.cells()[idx as int]),
                ));
            }
            idx += 1;
        }
    }

    /// Render the board for a terminal: a box-drawing frame with the title
    /// centered in the top border and two characters per cell (a solid block
    /// for a live cell). Rendering only reads the board.
    pub fn to_string(&self) -> (r: String)
        requires
            self.wf(),
        ensures
            r@ == render_chars(self.states(), self.spec_width(), self.spec_height()),
    {
        let ghost b: Seq<bool> = self.states();
        let ghost w: int = self.spec_width();
        let ghost h: int = self.spec_height();
        let total: u64 = 2 * (self.width as u64) + 2;
        let mut s = String::new();
        s.append("╭");
        proof {
            reveal_strlit("Game of Life");
            assert(s@ =~= "╭"@);
        }
        if total < 12 {
            s.append("Game of Life");
            proof {
                assert(s@ =~= "╭"@ + centered_title(2 * w + 2));
            }
        } else {
            let pad: u64 = total - 12;
            let left: u64 = pad / 2;
            let right: u64 = pad - left;
            proof {
                assert(s@ =~= "╭"@ + dashes(0));
            }
            let mut k: u64 = 0;
            while k < left
                invariant
                    k <= left,
                    s@ == "╭"@ + dashes(k as int),
                decreases left - k,
            {
                s.append("─");
                proof {
                    assert(s@ =~= "╭"@ + dashes(k as int + 1));
                }
                k += 1;
            }
            s.append("Game of Life");
            proof {
                assert(s@ =~= "╭"@ + dashes(left as int) + "Game of Life"@ + dashes(0));
            }
            let mut k2: u64 = 0;
            while k2 < right
                invariant
                    k2 <= right,
                    s@ == "╭"@ + dashes(left as int) + "Game of Life"@ + dashes(k2 as int),
                decreases right - k2,
            {
                s.append("─");
                proof {
                    assert(s@ =~= "╭"@ + dashes(left as int) + "Game of Life"@ + dashes(
                        k2 as int + 1,
                    ));
                }
                k2 += 1;
            }
            proof {
                reveal_strlit("Game of Life");
                assert(centered_title(2 * w + 2) =~= dashes(left as int) + "Game of Life"@
                    + dashes(right as int));
                assert(s@ =~= "╭"@ + centered_title(2 * w + 2));
            }
        }
        s.append("╮\n");
        let ghost top: Seq<char> = "╭"@ + centered_title(2 * w + 2) + "╮\n"@;
        proof {
            assert(s@ =~= top);
            assert(s@ =~= top + rows_prefix(b, w, h, 0));
        }
        let mut i: u32 = 0;
        while i < self.height
            invariant
                self.wf(),
                b == self.states(),
                w == self.spec_width(),
                h == self.spec_height(),
                top == "╭"@ + centered_title(2 * w + 2) + "╮\n"@,
                (i as int) <= h,
                s@ == top + rows_prefix(b, w, h, i as int),
            decreases self.height - i,
        {
            s.append("│ ");
            proof {
                assert(s@ =~= top + rows_prefix(b, w, h, i as int) + "│ "@ + row_chars(
                    b,
                    w,
                    h,
                    i as int,
                    0,
                ));
            }
            let mut j: u32 = 0;
            while j < self.width
                invariant
                    self.wf(),
                    b == self.states(),
                    w == self.spec_width(),
                    h == self.spec_height(),
                    top == "╭"@ + centered_title(2 * w + 2) + "╮\n"@,
                    (i as int) < h,
                    (j as int) <= w,
                    s@ == top + rows_prefix(b, w, h, i as int) + "│ "@ + row_chars(
                        b,
                        w,
                        h,
                        i as int,
                        j as int,
                    ),
                decreases self.width - j,
            {
                proof {
                    lemma_row_major_index(w, h, i as int, j as int);
                }
                if self.get_cell(i as i32, j as i32).get_state() {
                    s.append("██");
                } else {
                    s.append("  ");
                }
                proof {
                    assert(s@ =~= top + rows_prefix(b, w, h, i as int) + "│ "@ + row_chars(
                        b,
                        w,
                        h,
                        i as int,
                        j as int + 1,
                    ));
                }
                j += 1;
            }
            s.append(" │\n");
            proof {
                assert(row_line(b, w, h, i as int) == "│ "@ + row_chars(b, w, h, i as int, w)
                    + " │\n"@);
                assert(s@ =~= top + rows_prefix(b, w, h, i as int + 1));
            }
            i += 1;
        }
        s.append("╰");
        proof {
            assert(s@ =~= top + rows_prefix(b, w, h, h) + "╰"@ + dashes(0));
        }
        let mut k3: u64 = 0;
        while k3 < total
            invariant
                b == self.states(),
                w == self.spec_width(),
                h == self.spec_height(),
                top == "╭"@ + centered_title(2 * w + 2) + "╮\n"@,
                total == 2 * w + 2,
                k3 <= total,
                s@ == top + rows_prefix(b, w, h, h) + "╰"@ + dashes(k3 as int),
            decreases total - k3,
        {
            s.append("─");
            proof {
                assert(s@ =~= top + rows_prefix(b, w, h, h) + "╰"@ + dashes(k3 as int + 1));
            }
            k3 += 1;
        }
        s.append("╯\n");
        proof {
            assert(s@ =~= render_chars(b, w, h));
        }
        s
    }

    /// Bounds-checked write: out of range is a no-op; in range the cell goes
    /// through `change_state`, so its history records the overwritten state.
    pub fn set_cell(&mut self, i: i32, j: i32, new_state: bool)
        requires
            old(self).wf(),
        ensures
            final(self).wf(),
            final(self).spec_width() == old(self).spec_width(),
            final(self).spec_height() == old(self).spec_height(),
            (0 <= i < old(self).spec_height() && 0 <= j < old(self).spec_width())
                ==> final(self).cells() == old(self).cells().update(
                i * old(self).spec_width() + j,
                advanced_cell(old(self).cells()[i * old(self).spec_width() + j], new_state),
            ),
            !(0 <= i < old(self).spec_height() && 0 <= j < old(self).spec_width()) ==> *final(self)
                == *old(self),
    {
        if i < self.height as i32 && i >= 0 && j >= 0 && j < self.width as i32 {
            proof {
                lemma_row_major_index(self.spec_width(), self.spec_height(), i as int, j as int);
            }
            let idx: usize = (i as usize) * (self.width as usize) + (j as usize);
            self.board[idx].change_state(new_state);
            assert(self.cells() =~= old(self).cells().update(
                idx as int,
                advanced_cell(old(self).cells()[idx as int], new_state),
            ));
        }
    }
}

/// Mid-sweep, a neighbor that has already been advanced reports its
/// pre-sweep state through history bit 0 (and an out-of-range neighbor reads
/// dead either way).
proof fn lemma_mixed_term_processed(cur: Game, orig: Game, boundary: int, pi: int, pj: int)
    requires
        cur.wf(),
        orig.wf(),
        cur.spec_width() == orig.spec_width(),
        cur.spec_height() == orig.spec_height(),
        boundary <= orig.n_cells(),
        forall|k: int|
            0 <= k < boundary ==> advanced_once(#[trigger] cur.cells()[k], orig.cells()[k]),
        (0 <= pi < orig.spec_height() && 0 <= pj < orig.spec_width()) ==> pi * orig.spec_width()
            + pj < boundary,
    ensures
        history_bit(cur.cell_at(pi, pj), 1) == at(
            orig.states(),
            orig.spec_width(),
            orig.spec_height(),
            pi,
            pj,
        ),
{
    let w = orig.spec_width();
    let h = orig.spec_height();
    if 0 <= pi < h && 0 <= pj < w {
        lemma_row_major_index(w, h, pi, pj);
        let k = pi * w + pj;
        lemma_advanced_once_records(cur.cells()[k], orig.cells()[k]);
        assert(orig.states()[k] == orig.cells()[k].state);
    } else {
        lemma_dead_cell_history(1);
    }
}

/// Mid-sweep, a neighbor that has not been advanced yet still holds its
/// pre-sweep state directly.
proof fn lemma_mixed_term_unprocessed(cur: Game, orig: Game, boundary: int, pi: int, pj: int)
    requires
        cur.wf(),
        orig.wf(),
        cur.spec_width() == orig.spec_width(),
        cur.spec_height() == orig.spec_height(),
        forall|k: int|
            boundary <= k < orig.n_cells() ==> #[trigger] cur.cells()[k] == orig.cells()[k],
        (0 <= pi < orig.spec_height() && 0 <= pj < orig.spec_width()) ==> boundary <= pi
            * orig.spec_width() + pj,
    ensures
        cur.cell_at(pi, pj).state == at(
            orig.states(),
            orig.spec_width(),
            orig.spec_height(),
            pi,
            pj,
        ),
{
    let w = orig.spec_width();
    let h = orig.spec_height();
    if 0 <= pi < h && 0 <= pj < w {
        lemma_row_major_index(w, h, pi, pj);
        let k = pi * w + pj;
        assert(orig.states()[k] == orig.cells()[k].state);
    }
}

/// Mid-sweep at cell `(i, j)` of the row-major pass — every cell before it
/// advanced exactly once, every cell from it on untouched — the mixed
/// neighbor read reproduces the ordinary neighbor count of the pre-sweep
/// board.
proof fn lemma_mixed_count_matches(cur: Game, orig: Game, i: int, j: int)
    requires
        cur.wf(),
        orig.wf(),
        cur.spec_width() == orig.spec_width(),
        cur.spec_height() == orig.spec_height(),
        0 <= i < orig.spec_height(),
        0 <= j < orig.spec_width(),
        forall|k: int|
            0 <= k < i * orig.spec_width() + j ==> advanced_once(
                #[trigger] cur.cells()[k],
                orig.cells()[k],
            ),
        forall|k: int|
            i * orig.spec_width() + j <= k < orig.n_cells() ==> #[trigger] cur.cells()[k]
                == orig.cells()[k],
    ensures
        cur.mixed_neighbor_count(i, j) == neighbor_count(
            orig.states(),
            orig.spec_width(),
            orig.spec_height(),
            i,
            j,
        ),
{
    let w = orig.spec_width();
    let h = orig.spec_height();
    let bd = i * w + j;
    lemma_row_major_index(w, h, i, j);
    assert((i - 1) * w == i * w - w) by (nonlinear_arith);
    assert((i + 1) * w == i * w + w) by (nonlinear_arith);
    lemma_mixed_term_processed(cur, orig, bd, i - 1, j - 1);
    lemma_mixed_term_processed(cur, orig, bd, i - 1, j);
    lemma_mixed_term_processed(cur, orig, bd, i - 1, j + 1);
    lemma_mixed_term_processed(cur, orig, bd, i, j - 1);
    lemma_mixed_term_unprocessed(cur, orig, bd, i, j + 1);
    lemma_mixed_term_unprocessed(cur, orig, bd, i + 1, j - 1);
    lemma_mixed_term_unprocessed(cur, orig, bd, i + 1, j);
    lemma_mixed_term_unprocessed(cur, orig, bd, i + 1, j + 1);
}

} // verus!

