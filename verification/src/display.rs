//! Image display helpers that stay pure: choosing a character per pixel
//! for console output. The actual writing is the caller's job.

use crate::color::Color;
use crate::SCALE;
use vstd::prelude::*;

verus! {

/// A two-character console palette: dark pixels print as `black`, bright
/// ones as `white`.
pub struct Console {
    pub black: char,
    pub white: char,
}

impl Console {
    pub fn new(black: char, white: char) -> (r: Console)
        ensures
            r.black == black,
            r.white == white,
    {
        Console { black, white }
    }

    /// The character for a pixel: `black` below half brightness, `white`
    /// at or above it.
    pub fn char_for(&self, color: &Color) -> (r: char)
        requires
            color.wf(),
        ensures
            r == if crate::math::div_t(color.r + color.g + color.b, 3) < SCALE / 2 {
                self.black
            } else {
                self.white
            },
    {
        if color.grayscale() < SCALE / 2 {
            self.black
        } else {
            self.white
        }
    }
}

} // verus!
