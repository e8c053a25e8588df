//! Requests to change the display mode.

use vstd::prelude::*;

verus! {

/// The mode number of the 256-colour graphics mode.
pub const GRAPHICS_MODE: u8 = 0x13;

/// What a request for a display mode leads to.
#[derive(Clone, Copy, PartialEq, Eq, Structural, Debug)]
pub enum VgaAction {
    /// Switch to graphics mode and draw the test picture.
    DrawMode,
    /// The mode is not known; say so.
    InvalidMode,
}

/// What to do about a request for display mode `num`: mode 0x13 is drawn,
/// every other mode is refused.
pub fn handle_vga_interrupt(num: u8) -> (action: VgaAction)
    ensures
        action == (if num == 0x13 {
            VgaAction::DrawMode
        } else {
            VgaAction::InvalidMode
        }),
{
    match num {
        0x13 => VgaAction::DrawMode,
        _ => VgaAction::InvalidMode,
    }
}

/// A line of the test picture: two end points and a colour number.
#[derive(Clone, Copy, PartialEq, Eq, Structural, Debug)]
pub struct Line {
    pub x0: isize,
    pub y0: isize,
    pub x1: isize,
    pub y1: isize,
    pub color: u8,
}

/// The lines of the test picture that `DrawMode` asks for, drawn on a black
/// screen: a blue one and a red one.
pub fn draw_mode() -> (lines: Vec<Line>)
    ensures
        lines@ == seq![
            Line { x0: 5, y0: 7, x1: 30, y1: 100, color: 1 },
            Line { x0: 50, y0: 7, x1: 30, y1: 200, color: 4 },
        ],
{
    let mut lines: Vec<Line> = Vec::new();
    lines.push(Line { x0: 5, y0: 7, x1: 30, y1: 100, color: 1 });
    lines.push(Line { x0: 50, y0: 7, x1: 30, y1: 200, color: 4 });
    proof {
        assert(lines@ =~= seq![
            Line { x0: 5, y0: 7, x1: 30, y1: 100, color: 1 },
            Line { x0: 50, y0: 7, x1: 30, y1: 200, color: 4 },
        ]);
    }
    lines
}

} // verus!
