//! The terminal snapshot format: a box-drawing frame, the title centered in
//! the top border, and two characters per cell (a solid block for a live
//! cell, blanks for a dead one).

use vstd::prelude::*;

use crate::rules::at;

verus! {

/// The two characters that render one cell.
pub open spec fn cell_chars(alive: bool) -> Seq<char> {
    if alive {
        "██"@
    } else {
        "  "@
    }
}

/// `n` horizontal border dashes.
pub open spec fn dashes(n: int) -> Seq<char>
    decreases n,
{
    if n <= 0 {
        Seq::empty()
    } else {
        dashes(n - 1) + "─"@
    }
}

/// The title, centered in a field of `total` dashes (any excess dash goes to
/// the right); a field narrower than the title holds the bare title.
pub open spec fn centered_title(total: int) -> Seq<char> {
    let t = "Game of Life"@;
    if t.len() >= total {
        t
    } else {
        let pad = total - t.len();
        dashes(pad / 2) + t + dashes(pad - pad / 2)
    }
}

/// The first `j` cells of row `i`, two characters each.
pub open spec fn row_chars(b: Seq<bool>, w: int, h: int, i: int, j: int) -> Seq<char>
    decreases j,
{
    if j <= 0 {
        Seq::empty()
    } else {
        row_chars(b, w, h, i, j - 1) + cell_chars(at(b, w, h, i, j - 1))
    }
}

/// One full rendered row, with its side borders.
pub open spec fn row_line(b: Seq<bool>, w: int, h: int, i: int) -> Seq<char> {
    "│ "@ + row_chars(b, w, h, i, w) + " │\n"@
}

/// The first `i` rendered rows.
pub open spec fn rows_prefix(b: Seq<bool>, w: int, h: int, i: int) -> Seq<char>
    decreases i,
{
    if i <= 0 {
        Seq::empty()
    } else {
        rows_prefix(b, w, h, i - 1) + row_line(b, w, h, i - 1)
    }
}

/// The whole snapshot: top border with centered title, one line per row,
/// bottom border.
pub open spec fn render_chars(b: Seq<bool>, w: int, h: int) -> Seq<char> {
    "╭"@ + centered_title(2 * w + 2) + "╮\n"@ + rows_prefix(b, w, h, h) + "╰"@ + dashes(2 * w + 2)
        + "╯\n"@
}

} // verus!
