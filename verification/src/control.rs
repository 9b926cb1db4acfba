//! The decisions of the interactive shell, separated from event polling and
//! drawing: how each input changes the pause/run/draw flags, and which
//! engine operation it asks for. The shell itself only polls events, maps
//! them to [`Input`], performs the returned [`Action`] on the engine, and
//! renders.

use vstd::prelude::*;

verus! {

/// An input event as the shell reports it: a key, a quit request, or a
/// mouse event with window pixel coordinates.
#[derive(Clone, Copy, Debug, PartialEq, Eq, Structural)]
pub enum Input {
    /// The window was asked to close.
    Quit,
    /// `q` or Escape: stop running.
    KeyQuit,
    /// Space: toggle pause.
    KeyPause,
    /// Right arrow: step one generation forward while paused.
    KeyForward,
    /// Left arrow: step one generation backward while paused.
    KeyBack,
    /// `r`: reseed the board.
    KeyReseed,
    /// Mouse button pressed at pixel `(x, y)`.
    MouseDown { x: i32, y: i32 },
    /// Mouse button released.
    MouseUp,
    /// Mouse moved to pixel `(x, y)`.
    MouseMove { x: i32, y: i32 },
    /// Any other event.
    Other,
}

/// What the shell should do to the engine in response to one input.
#[derive(Clone, Copy, Debug, PartialEq, Eq, Structural)]
pub enum Action {
    /// Nothing.
    Idle,
    /// Advance one generation (the returned count is not recorded).
    Step,
    /// Rewind one generation.
    StepBack,
    /// Reseed: randomize, then advance once and record the returned count.
    Reseed,
    /// Draw a live cell at board coordinate `(row, col)`.
    Draw { row: i32, col: i32 },
}

/// The interactive shell's flags, plus the fixed pixel size of a cell used
/// to map mouse coordinates to board coordinates.
pub struct Control {
    pub paused: bool,
    pub running: bool,
    pub draw_mode: bool,
    pub cell_size: u32,
}

/// How one input changes the flags: quitting clears `running`, space
/// toggles `paused`, and the mouse button sets and clears `draw_mode`.
pub open spec fn next_control(c: Control, input: Input) -> Control {
    match input {
        Input::Quit | Input::KeyQuit => Control {
            paused: c.paused,
            running: false,
            draw_mode: c.draw_mode,
            cell_size: c.cell_size,
        },
        Input::KeyPause => Control {
            paused: !c.paused,
            running: c.running,
            draw_mode: c.draw_mode,
            cell_size: c.cell_size,
        },
        Input::MouseDown { .. } => Control {
            paused: c.paused,
            running: c.running,
            draw_mode: true,
            cell_size: c.cell_size,
        },
        Input::MouseUp => Control {
            paused: c.paused,
            running: c.running,
            draw_mode: false,
            cell_size: c.cell_size,
        },
        _ => c,
    }
}

/// The drawing request for a mouse event at pixel `(x, y)`: the enclosing
/// cell, one board row/column per `cell_size` pixels. A coordinate outside
/// the canvas (negative) draws nothing.
pub open spec fn draw_action(c: Control, x: i32, y: i32) -> Action {
    if x >= 0 && y >= 0 {
        Action::Draw {
            row: ((y as int) / (c.cell_size as int)) as i32,
            col: ((x as int) / (c.cell_size as int)) as i32,
        }
    } else {
        Action::Idle
    }
}

/// Which engine operation one input asks for: the arrow keys step only
/// while paused, `r` reseeds, pressing or dragging the mouse draws.
pub open spec fn control_action(c: Control, input: Input) -> Action {
    match input {
        Input::KeyForward => if c.paused {
            Action::Step
        } else {
            Action::Idle
        },
        Input::KeyBack => if c.paused {
            Action::StepBack
        } else {
            Action::Idle
        },
        Input::KeyReseed => Action::Reseed,
        Input::MouseDown { x, y } => draw_action(c, x, y),
        Input::MouseMove { x, y } => if c.draw_mode {
            draw_action(c, x, y)
        } else {
            Action::Idle
        },
        _ => Action::Idle,
    }
}

impl Control {
    /// The shell starts unpaused, running and not drawing.
    pub fn new(cell_size: u32) -> (c: Control)
        requires
            cell_size >= 1,
        ensures
            c == (Control { paused: false, running: true, draw_mode: false, cell_size }),
    {
        Control { paused: false, running: true, draw_mode: false, cell_size }
    }

    /// The cell a pixel falls in, as a drawing request.
    fn draw_at(&self, x: i32, y: i32) -> (a: Action)
        requires
            self.cell_size >= 1,
        ensures
            a == draw_action(*self, x, y),
    {
        if x >= 0 && y >= 0 {
            let row: u32 = (y as u32) / self.cell_size;
            let col: u32 = (x as u32) / self.cell_size;
            proof {
                let yu: u32 = y as u32;
                let xu: u32 = x as u32;
                let cs: u32 = self.cell_size;
                assert(yu / cs <= yu) by (nonlinear_arith)
                    requires
                        cs >= 1,
                ;
                assert(xu / cs <= xu) by (nonlinear_arith)
                    requires
                        cs >= 1,
                ;
            }
            Action::Draw { row: row as i32, col: col as i32 }
        } else {
            Action::Idle
        }
    }

    /// Apply one input: update the flags as `next_control` says and return
    /// the engine operation that `control_action` says.
    pub fn handle(&mut self, input: Input) -> (a: Action)
        requires
            old(self).cell_size >= 1,
        ensures
            *final(self) == next_control(*old(self), input),
            a == control_action(*old(self), input),
    {
        match input {
            Input::Quit | Input::KeyQuit => {
                self.running = false;
                Action::Idle
            },
            Input::KeyPause => {
                self.paused = !self.paused;
                Action::Idle
            },
            Input::KeyForward => {
                if self.paused {
                    Action::Step
                } else {
                    Action::Idle
                }
            },
            Input::KeyBack => {
                if self.paused {
                    Action::StepBack
                } else {
                    Action::Idle
                }
            },
            Input::KeyReseed => Action::Reseed,
            Input::MouseDown { x, y } => {
                let a = self.draw_at(x, y);
                self.draw_mode = true;
                a
            },
            Input::MouseUp => {
                self.draw_mode = false;
                Action::Idle
            },
            Input::MouseMove { x, y } => {
                if self.draw_mode {
                    self.draw_at(x, y)
                } else {
                    Action::Idle
                }
            },
            Input::Other => Action::Idle,
        }
    }

    /// The per-frame decision of the run loop: advance the simulation only
    /// while neither paused nor drawing.
    pub fn should_advance(&self) -> (r: bool)
        ensures
            r == (!self.paused && !self.draw_mode),
    {
        !self.paused && !self.draw_mode
    }
}

} // verus!
