//! The shared pixel canvas: a fixed-size grid of palette colors.

use vstd::prelude::*;
use vstd::pervasive::VecAdditionalExecFns;

use crate::color::Color;
use crate::default_canvas_side;

verus! {

/// The shared drawing surface of a room: `grid` holds the cells row by row,
/// and always has exactly `width * height` entries.
#[derive(Debug)]
pub struct DrawCanvas {
    pub width: usize,
    pub height: usize,
    pub grid: Vec<Color>,
}

/// The mathematical value of a [`DrawCanvas`].
pub struct CanvasV {
    pub width: nat,
    pub height: nat,
    pub grid: Seq<Color>,
}

impl View for DrawCanvas {
    type V = CanvasV;

    open spec fn view(&self) -> CanvasV {
        CanvasV { width: self.width as nat, height: self.height as nat, grid: self.grid@ }
    }
}

impl CanvasV {
    /// The grid holds one cell per coordinate pair.
    pub open spec fn wf(self) -> bool {
        self.grid.len() == self.width * self.height
    }

    /// The blank canvas of the given dimensions.
    pub open spec fn blank(width: nat, height: nat) -> CanvasV {
        CanvasV { width, height, grid: Seq::new(width * height, |i: int| Color::White) }
    }
}

/// A run of `n` cells, all holding the default color.
fn blank_cells(n: usize) -> (g: Vec<Color>)
    ensures
        g@ =~= Seq::new(n as nat, |i: int| Color::White),
{
    let mut g: Vec<Color> = Vec::new();
    let mut k: usize = 0;
    while k < n
        invariant
            k <= n,
            g@ =~= Seq::new(k as nat, |i: int| Color::White),
        decreases n - k,
    {
        g.push(Color::White);
        k = k + 1;
    }
    g
}

impl Clone for DrawCanvas {
    fn clone(&self) -> (r: DrawCanvas)
        ensures
            r@ == self@,
    {
        let r = DrawCanvas { width: self.width, height: self.height, grid: self.grid.clone() };
        proof {
            assert(r.grid@ =~= self.grid@);
        }
        r
    }
}

impl Default for DrawCanvas {
    /// A fresh room's canvas: a blank square grid of the default side length.
    fn default() -> (c: DrawCanvas)
        ensures
            c@ == CanvasV::blank(default_canvas_side(), default_canvas_side()),
            c@.wf(),
    {
        let side: usize = 12;
        let grid = blank_cells(144);
        let c = DrawCanvas { width: side, height: side, grid };
        proof {
            assert(c@.grid =~= CanvasV::blank(12, 12).grid);
        }
        c
    }
}

impl DrawCanvas {
    /// Overwrite one cell. The index must be in range: an out-of-range index
    /// is a caller-side programming error, not a recoverable condition.
    pub fn set_pixel(&mut self, i: usize, color: Color)
        requires
            i < old(self)@.grid.len(),
        ensures
            final(self)@.width == old(self)@.width,
            final(self)@.height == old(self)@.height,
            final(self)@.grid == old(self)@.grid.update(i as int, color),
    {
        self.grid.set(i, color);
    }

    /// Reset every cell to the default color, keeping the dimensions.
    pub fn clear(&mut self)
        requires
            old(self)@.wf(),
        ensures
            final(self)@ == CanvasV::blank(old(self)@.width, old(self)@.height),
            final(self)@.wf(),
    {
        let n = self.grid.len();
        self.grid = blank_cells(n);
        proof {
            assert(self@.grid =~= CanvasV::blank(old(self)@.width, old(self)@.height).grid);
        }
    }
}

} // verus!
