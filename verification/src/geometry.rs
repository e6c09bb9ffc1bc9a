//! Integer geometry, layout direction, density and measurement constraints.

use vstd::prelude::*;

verus! {

/// A size in whole pixels.
#[derive(Clone, Copy, Debug, PartialEq, Eq, Structural)]
pub struct IntSize {
    pub width: usize,
    pub height: usize,
}

impl IntSize {
    pub fn new(width: usize, height: usize) -> (s: IntSize)
        ensures
            s.width == width,
            s.height == height,
    {
        IntSize { width, height }
    }

    pub open spec fn spec_zero() -> IntSize {
        IntSize { width: 0, height: 0 }
    }

    pub fn zero() -> (s: IntSize)
        ensures
            s == IntSize::spec_zero(),
    {
        IntSize { width: 0, height: 0 }
    }

    pub fn width(&self) -> (w: usize)
        ensures
            w == self.width,
    {
        self.width
    }

    pub fn height(&self) -> (h: usize)
        ensures
            h == self.height,
    {
        self.height
    }
}

/// A position in whole pixels.
#[derive(Clone, Copy, Debug, PartialEq, Eq, Structural)]
pub struct IntOffset {
    pub x: i32,
    pub y: i32,
}

impl IntOffset {
    pub fn new(x: i32, y: i32) -> (o: IntOffset)
        ensures
            o.x == x,
            o.y == y,
    {
        IntOffset { x, y }
    }
}

/// The horizontal direction in which content is laid out.
#[derive(Clone, Copy, Debug, PartialEq, Eq, Structural)]
pub enum LayoutDirection {
    Ltr,
    Rtl,
}

impl Default for LayoutDirection {
    fn default() -> (d: LayoutDirection)
        ensures
            d == LayoutDirection::Ltr,
    {
        LayoutDirection::Ltr
    }
}

/// Screen density and font scale, each kept as the bit pattern of an
/// IEEE-754 single; the layout logic only stores and hands them on.
#[derive(Clone, Copy, Debug, PartialEq, Eq, Structural)]
pub struct Density {
    pub density_bits: u32,
    pub font_scale_bits: u32,
}

/// The bit pattern of the single-precision value `1.0`.
pub const ONE_BITS: u32 = 0x3f80_0000u32;

impl Density {
    pub fn from_bits(density_bits: u32, font_scale_bits: u32) -> (d: Density)
        ensures
            d.density_bits == density_bits,
            d.font_scale_bits == font_scale_bits,
    {
        Density { density_bits, font_scale_bits }
    }

    pub open spec fn spec_identity() -> Density {
        Density { density_bits: ONE_BITS, font_scale_bits: ONE_BITS }
    }

    /// Density and font scale both `1.0`.
    pub fn identity() -> (d: Density)
        ensures
            d == Density::spec_identity(),
    {
        Density { density_bits: ONE_BITS, font_scale_bits: ONE_BITS }
    }
}

impl Default for Density {
    fn default() -> (d: Density)
        ensures
            d.density_bits == 0,
            d.font_scale_bits == 0,
    {
        Density { density_bits: 0, font_scale_bits: 0 }
    }
}

/// Bounds on the width and height a measured child may take.
#[derive(Clone, Copy, Debug, PartialEq, Eq, Structural)]
pub struct Constraints {
    pub min_width: usize,
    pub max_width: usize,
    pub min_height: usize,
    pub max_height: usize,
}

impl Constraints {
    pub open spec fn wf(self) -> bool {
        self.min_width <= self.max_width && self.min_height <= self.max_height
    }

    pub fn new(min_width: usize, max_width: usize, min_height: usize, max_height: usize) -> (c: Constraints)
        requires
            min_width <= max_width,
            min_height <= max_height,
        ensures
            c.wf(),
            c.min_width == min_width,
            c.max_width == max_width,
            c.min_height == min_height,
            c.max_height == max_height,
    {
        Constraints { min_width, max_width, min_height, max_height }
    }

    pub open spec fn spec_unbounded() -> Constraints {
        Constraints { min_width: 0, max_width: usize::MAX, min_height: 0, max_height: usize::MAX }
    }

    /// No bound at all: every size from zero to the largest is accepted.
    pub fn unbounded() -> (c: Constraints)
        ensures
            c.wf(),
            c == Constraints::spec_unbounded(),
    {
        Constraints { min_width: 0, max_width: usize::MAX, min_height: 0, max_height: usize::MAX }
    }

    /// Exactly one size is accepted.
    pub fn fixed(width: usize, height: usize) -> (c: Constraints)
        ensures
            c.wf(),
            c.min_width == width,
            c.max_width == width,
            c.min_height == height,
            c.max_height == height,
    {
        Constraints { min_width: width, max_width: width, min_height: height, max_height: height }
    }
}

pub open spec fn spec_coerce_in(value: int, min: int, max: int) -> int {
    if value < min {
        min
    } else if value > max {
        max
    } else {
        value
    }
}

/// Clamps `value` into `[min, max]`.
pub fn coerce_in(value: usize, min: usize, max: usize) -> (r: usize)
    requires
        min <= max,
    ensures
        r == spec_coerce_in(value as int, min as int, max as int),
        min <= r <= max,
{
    if value < min {
        min
    } else if value > max {
        max
    } else {
        value
    }
}

} // verus!
