//! Render commands: the primitive drawing operations a frame's deferred
//! layout tree ultimately emits, and the list that collects them.

use vstd::prelude::*;
use crate::space::Region;

verus! {

/// An 8-bit-per-channel color.
#[derive(Copy, Clone, Debug, PartialEq, Eq, Structural)]
pub struct RGBA8 {
    pub r: u8,
    pub g: u8,
    pub b: u8,
    pub a: u8,
}

/// Identifies the input-side handler a hover boundary reports to. The input
/// system resolves the token; the composition engine only carries it.
#[derive(Copy, Clone, Debug, PartialEq, Eq, Structural)]
pub struct HoverState {
    pub token: u64,
}

/// An axis-aligned rectangle in device units.
#[derive(Copy, Clone, Debug, PartialEq, Eq, Structural)]
pub struct Quad {
    pub x: u32,
    pub y: u32,
    pub width: u32,
    pub height: u32,
}

impl Quad {
    pub fn new(x: u32, y: u32, width: u32, height: u32) -> (q: Quad)
        ensures
            q == (Quad { x, y, width, height }),
    {
        Quad { x, y, width, height }
    }

    /// The quad covering a region exactly.
    pub open spec fn of_region_spec(region: Region) -> Quad {
        Quad {
            x: region.pos.x,
            y: region.pos.y,
            width: region.area.width,
            height: region.area.height,
        }
    }
}

impl From<Region> for Quad {
    fn from(v: Region) -> (q: Quad) {
        Quad { x: v.pos.x, y: v.pos.y, width: v.area.width, height: v.area.height }
    }
}

impl vstd::std_specs::convert::FromSpecImpl<Region> for Quad {
    open spec fn obeys_from_spec() -> bool {
        true
    }

    open spec fn from_spec(v: Region) -> Quad {
        Quad::of_region_spec(v)
    }
}

/// A quad filled with one color.
#[derive(Copy, Clone, Debug, PartialEq, Eq, Structural)]
pub struct ColoredQuad {
    pub quad: Quad,
    pub color: RGBA8,
}

impl ColoredQuad {
    pub fn new(quad: Quad, color: RGBA8) -> (c: ColoredQuad)
        ensures
            c == (ColoredQuad { quad, color }),
    {
        ColoredQuad { quad, color }
    }
}

/// A quad that acts as a hover boundary for the input system.
#[derive(Copy, Clone, Debug, PartialEq, Eq, Structural)]
pub struct HoverQuad {
    pub quad: Quad,
    pub state: HoverState,
}

/// The flat list of draw commands produced by rendering one frame.
pub struct CommandList {
    pub colored_quads: Vec<ColoredQuad>,
    pub hover_quads: Vec<HoverQuad>,
}

impl CommandList {
    pub fn new() -> (c: CommandList)
        ensures
            c.colored_quads@ == Seq::<ColoredQuad>::empty(),
            c.hover_quads@ == Seq::<HoverQuad>::empty(),
    {
        CommandList { colored_quads: Vec::new(), hover_quads: Vec::new() }
    }

    pub fn add_colored_quads(&mut self, colored_quads: &[ColoredQuad])
        ensures
            final(self).colored_quads@ == old(self).colored_quads@ + colored_quads@,
            final(self).hover_quads@ == old(self).hover_quads@,
    {
        let mut i: usize = 0;
        while i < colored_quads.len()
            invariant
                i <= colored_quads.len(),
                self.colored_quads@ == old(self).colored_quads@ + colored_quads@.take(i as int),
                self.hover_quads@ == old(self).hover_quads@,
            decreases colored_quads.len() - i,
        {
            self.colored_quads.push(colored_quads[i]);
            i = i + 1;
            proof {
                assert(colored_quads@.take(i as int)
                    == colored_quads@.take(i - 1).push(colored_quads@[i - 1]));
            }
        }
        proof {
            assert(colored_quads@.take(colored_quads@.len() as int) == colored_quads@);
        }
    }

    pub fn add_hover_quads(&mut self, hover_quads: &[HoverQuad])
        ensures
            final(self).hover_quads@ == old(self).hover_quads@ + hover_quads@,
            final(self).colored_quads@ == old(self).colored_quads@,
    {
        let mut i: usize = 0;
        while i < hover_quads.len()
            invariant
                i <= hover_quads.len(),
                self.hover_quads@ == old(self).hover_quads@ + hover_quads@.take(i as int),
                self.colored_quads@ == old(self).colored_quads@,
            decreases hover_quads.len() - i,
        {
            self.hover_quads.push(hover_quads[i]);
            i = i + 1;
            proof {
                assert(hover_quads@.take(i as int)
                    == hover_quads@.take(i - 1).push(hover_quads@[i - 1]));
            }
        }
        proof {
            assert(hover_quads@.take(hover_quads@.len() as int) == hover_quads@);
        }
    }

    pub fn get_colored_quads(&self) -> (r: &Vec<ColoredQuad>)
        ensures
            r@ == self.colored_quads@,
    {
        &self.colored_quads
    }

    pub fn get_hover_quads(&self) -> (r: &Vec<HoverQuad>)
        ensures
            r@ == self.hover_quads@,
    {
        &self.hover_quads
    }
}

} // verus!
