//! The devices that the emulated console is given: a screen, a speaker and a
//! controller.

use vstd::prelude::*;
use crate::vga_buffer::Color;

verus! {

/// A pixel to be set on the screen.
#[derive(Clone, Copy, PartialEq, Eq, Structural, Debug)]
pub struct Pixel {
    pub x: usize,
    pub y: usize,
    pub color: Color,
}

/// The colour of the screen for a colour of the console: blue for each.
pub fn color16_from_u8(color: u8) -> (r: Color)
    ensures
        r == Color::Blue,
{
    Color::Blue
}

/// The screen that the console draws on.
pub struct TerminalScreen;

impl TerminalScreen {
    /// The screen; whoever shows it switches the display to its mode.
    pub fn new() -> (screen: TerminalScreen)
        ensures
            screen == TerminalScreen,
    {
        TerminalScreen
    }

    /// The pixel that the console's pixel at `x` and `y` becomes.
    pub fn put(&mut self, x: u8, y: u8, color: u8) -> (pixel: Pixel)
        ensures
            pixel == (Pixel { x: x as usize, y: y as usize, color: Color::Blue }),
    {
        Pixel { x: x as usize, y: y as usize, color: color16_from_u8(color) }
    }

    /// The colour that the screen is cleared to when a frame is done.
    pub fn frame(&mut self) -> (clear_to: Color)
        ensures
            clear_to == Color::Black,
    {
        Color::Black
    }
}

/// A speaker that plays nothing.
pub struct TerminalAudio {}

impl TerminalAudio {
    /// Drops the sample.
    pub fn queue(&mut self, sample: i16) {
    }
}

/// A controller on which no button is ever down.
pub struct TerminalKeyboard {}

impl TerminalKeyboard {
    /// The state of the buttons: none is down.
    pub fn poll(&self) -> (state: u8)
        ensures
            state == 0,
    {
        let state: u8 = 0;
        state
    }
}

} // verus!
