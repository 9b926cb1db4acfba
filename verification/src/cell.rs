//! A single automaton cell: its current state plus a one-word shift register
//! of prior states, pushed one bit per generation.

use vstd::prelude::*;

verus! {

/// The mathematical content of a [`Cell`]: the live/dead state of the current
/// generation and the shift register of prior states (most recently pushed
/// bit at position 0).
pub struct CellView {
    pub state: bool,
    pub history: u64,
}

/// A cell of the board. `history` records the states the cell held in earlier
/// generations; only bit 0 (the state immediately before the last
/// [`Cell::change_state`]) is ever consumed by the engine.
#[derive(Clone, Copy, Debug)]
pub struct Cell {
    state: bool,
    history: u64,
}

impl View for Cell {
    type V = CellView;

    closed spec fn view(&self) -> CellView {
        CellView { state: self.state, history: self.history }
    }
}

/// The freshly constructed cell: dead, with an empty history.
pub open spec fn dead_cell() -> CellView {
    CellView { state: false, history: 0u64 }
}

/// The cell after `change_state(new_state)`: the old state is pushed into
/// bit 0 of the history (the oldest history bit is discarded) and the state
/// is overwritten.
pub open spec fn advanced_cell(c: CellView, new_state: bool) -> CellView {
    CellView {
        state: new_state,
        history: (c.history << 1u64) | (if c.state { 1u64 } else { 0u64 }),
    }
}

/// The cell after `step_back()`: bit 0 of the history is popped back into the
/// state, and the vacated top bit is refilled with the popped bit (a rotate,
/// not a true stack: rewind depth is exactly one generation).
pub open spec fn rewound_cell(c: CellView) -> CellView {
    CellView {
        state: c.history & 1u64 == 1u64,
        history: (c.history >> 1u64) | ((c.history & 1u64) << 63u64),
    }
}

/// Whether bit `n - 1` of the history is set, i.e. whether the cell was alive
/// `n` pushes ago (only `n == 1` is semantically meaningful to the engine).
pub open spec fn history_bit(c: CellView, n: u32) -> bool {
    c.history & (1u64 << ((n - 1) as u64)) != 0u64
}

impl Cell {
    /// Whether bit `n - 1` of the history register is set. The engine only
    /// ever asks for `n == 1`: "was this cell alive one generation ago?"
    pub fn watch_history(&self, n: u32) -> (r: bool)
        requires
            1 <= n <= 64,
        ensures
            r == history_bit(self@, n),
    {
        self.history & (1u64 << ((n - 1) as u64)) != 0
    }

    /// Push the current state into the history register, then overwrite the
    /// state. The oldest history bit is deliberately discarded.
    pub fn change_state(&mut self, new_state: bool)
        ensures
            final(self)@ == advanced_cell(old(self)@, new_state),
    {
        self.history = (self.history << 1u64) | (if self.state { 1u64 } else { 0u64 });
        self.state = new_state;
    }

    /// Pop the most recent history bit back into the state (a one-level
    /// undo); the popped bit is rotated into the top of the register.
    pub fn step_back(&mut self)
        ensures
            final(self)@ == rewound_cell(old(self)@),
    {
        let past: u64 = self.history & 1;
        self.history = (self.history >> 1u64) | (past << 63u64);
        self.state = past == 1;
    }

    /// The cell's state in the current generation.
    pub fn get_state(&self) -> (r: bool)
        ensures
            r == self@.state,
    {
        self.state
    }
}

impl Default for Cell {
    /// A fresh cell is dead with an empty history.
    fn default() -> (c: Cell)
        ensures
            c@ == dead_cell(),
    {
        Cell { state: false, history: 0 }
    }
}

/// Whether `new` is the result of advancing `prior` by one `change_state`
/// call, with some (unspecified) new state.
pub open spec fn advanced_once(new: CellView, prior: CellView) -> bool {
    exists|s: bool| new == advanced_cell(prior, s)
}

/// A dead cell with empty history was not alive at any recorded generation.
pub proof fn lemma_dead_cell_history(n: u32)
    requires
        1 <= n <= 64,
    ensures
        !history_bit(dead_cell(), n),
{
    let m = (n - 1) as u64;
    assert(0u64 & (1u64 << m) == 0u64) by (bit_vector);
}

/// A cell advanced once records its pre-transition state as history bit 0,
/// whatever state it was advanced to.
pub proof fn lemma_advanced_once_records(new: CellView, prior: CellView)
    requires
        advanced_once(new, prior),
    ensures
        history_bit(new, 1) == prior.state,
{
    let s = choose|s: bool| new == advanced_cell(prior, s);
    lemma_advance_records_state(prior, s);
}

/// Advancing a cell records its pre-transition state as the most recent
/// history bit, which `watch_history(1)` then reports.
pub proof fn lemma_advance_records_state(c: CellView, s: bool)
    ensures
        history_bit(advanced_cell(c, s), 1) == c.state,
{
    let h = c.history;
    let b: u64 = if c.state { 1u64 } else { 0u64 };
    assert(((h << 1u64) | b) & (1u64 << 0u64) == b) by (bit_vector)
        requires
            b == 0u64 || b == 1u64,
    ;
}

/// Rewinding is a one-level inverse of advancing: one `step_back` after one
/// `change_state` restores the state the cell had before the `change_state`,
/// and a freshly constructed dead cell rewinds to dead.
pub proof fn lemma_rewind_inverts_advance(c: CellView, s: bool)
    ensures
        rewound_cell(advanced_cell(c, s)).state == c.state,
        rewound_cell(dead_cell()).state == false,
{
    let h = c.history;
    let b: u64 = if c.state { 1u64 } else { 0u64 };
    assert(((h << 1u64) | b) & 1u64 == b) by (bit_vector)
        requires
            b == 0u64 || b == 1u64,
    ;
    assert(0u64 & 1u64 == 0u64) by (bit_vector);
}

/// The board-level form of the one-level inverse: a row of cells advanced
/// once each (to whatever states) and then rewound once each holds its
/// original states again.
pub proof fn lemma_rewind_restores_board(
    before: Seq<CellView>,
    target: Seq<bool>,
    after: Seq<CellView>,
    restored: Seq<CellView>,
)
    requires
        after.len() == before.len(),
        target.len() == before.len(),
        restored.len() == before.len(),
        forall|k: int|
            0 <= k < before.len() ==> #[trigger] after[k] == advanced_cell(before[k], target[k]),
        forall|k: int| 0 <= k < before.len() ==> #[trigger] restored[k] == rewound_cell(after[k]),
    ensures
        forall|k: int| 0 <= k < before.len() ==> #[trigger] restored[k].state == before[k].state,
{
    assert forall|k: int| 0 <= k < before.len() implies #[trigger] restored[k].state
        == before[k].state by {
        lemma_rewind_inverts_advance(before[k], target[k]);
    }
}

} // verus!
