//! What a measured child reports: its measured and placed size, the
//! constraint it was measured with, its position, and the result of a
//! measure pass with the block that places its children.

use vstd::prelude::*;
use crate::geometry::{coerce_in, spec_coerce_in, Constraints, Density, IntOffset, IntSize, LayoutDirection};

verus! {

/// The measured width and height of a node.
#[derive(Debug, Clone, Copy, PartialEq, Eq, Structural)]
pub struct MeasuredImpl {
    pub measured_width: usize,
    pub measured_height: usize,
}

impl MeasuredImpl {
    pub fn new() -> (m: MeasuredImpl)
        ensures
            m.measured_width == 0,
            m.measured_height == 0,
    {
        MeasuredImpl { measured_width: 0, measured_height: 0 }
    }
}

/// A node that has been measured: its measured width and height.
pub trait Measured {
    spec fn measured_width_spec(&self) -> usize;

    spec fn measured_height_spec(&self) -> usize;

    fn get_measured_width(&self) -> (w: usize)
        ensures
            w == self.measured_width_spec(),
    ;

    fn get_measured_height(&self) -> (h: usize)
        ensures
            h == self.measured_height_spec(),
    ;
}

impl Measured for MeasuredImpl {
    open spec fn measured_width_spec(&self) -> usize {
        self.measured_width
    }

    open spec fn measured_height_spec(&self) -> usize {
        self.measured_height
    }

    fn get_measured_width(&self) -> (w: usize) {
        self.measured_width
    }

    fn get_measured_height(&self) -> (h: usize) {
        self.measured_height
    }
}

/// A placeable: the size it takes, the size it measured, and the
/// constraint it was measured with.
#[derive(Debug, Clone, Copy)]
pub struct PlaceableImpl {
    pub width: usize,
    pub height: usize,
    pub measured: MeasuredImpl,
    pub measured_size: IntSize,
    pub measurement_constraint: Constraints,
}

impl PlaceableImpl {
    pub open spec fn wf(self) -> bool {
        self.measurement_constraint.wf()
    }

    pub open spec fn spec_new() -> PlaceableImpl {
        PlaceableImpl {
            width: 0,
            height: 0,
            measured: MeasuredImpl { measured_width: 0, measured_height: 0 },
            measured_size: IntSize::spec_zero(),
            measurement_constraint: Constraints::spec_unbounded(),
        }
    }

    /// A placeable of size zero, measured with no constraint.
    pub fn new() -> (p: PlaceableImpl)
        ensures
            p == PlaceableImpl::spec_new(),
            p.wf(),
            p.width == 0,
            p.height == 0,
            p.measured == (MeasuredImpl { measured_width: 0, measured_height: 0 }),
            p.measured_size == IntSize::spec_zero(),
            p.measurement_constraint == Constraints::spec_unbounded(),
    {
        PlaceableImpl {
            width: 0,
            height: 0,
            measured: MeasuredImpl::new(),
            measured_size: IntSize::zero(),
            measurement_constraint: Constraints::unbounded(),
        }
    }

    /// Takes the measured size, clamped into the measurement constraint, as
    /// the placed size.
    pub fn recalculate_width_and_height(&mut self)
        requires
            old(self).wf(),
        ensures
            final(self).wf(),
            final(self).width == spec_coerce_in(
                old(self).measured_size.width as int,
                old(self).measurement_constraint.min_width as int,
                old(self).measurement_constraint.max_width as int,
            ),
            final(self).height == spec_coerce_in(
                old(self).measured_size.height as int,
                old(self).measurement_constraint.min_height as int,
                old(self).measurement_constraint.max_height as int,
            ),
            final(self).measured_size == old(self).measured_size,
            final(self).measurement_constraint == old(self).measurement_constraint,
            final(self).measured == old(self).measured,
    {
        self.width = coerce_in(
            self.measured_size.width(),
            self.measurement_constraint.min_width,
            self.measurement_constraint.max_width,
        );
        self.height = coerce_in(
            self.measured_size.height(),
            self.measurement_constraint.min_height,
            self.measurement_constraint.max_height,
        );
    }

    pub fn get_width(&self) -> (w: usize)
        ensures
            w == self.width,
    {
        self.width
    }

    pub fn get_height(&self) -> (h: usize)
        ensures
            h == self.height,
    {
        self.height
    }

    /// The placed size.
    pub fn get_size(&self) -> (s: IntSize)
        ensures
            s.width == self.width,
            s.height == self.height,
    {
        IntSize::new(self.width, self.height)
    }

    pub fn get_measured_size(&self) -> (s: IntSize)
        ensures
            s == self.measured_size,
    {
        self.measured_size
    }

    /// Records the measured size; the placed size is left as it is.
    pub fn set_measured_size(&mut self, size: IntSize)
        ensures
            *final(self) == (PlaceableImpl { measured_size: size, ..*old(self) }),
    {
        self.measured_size = size;
    }

    pub fn set_measurement_constraint(&mut self, constraint: &Constraints)
        ensures
            *final(self) == (PlaceableImpl { measurement_constraint: *constraint, ..*old(self) }),
    {
        self.measurement_constraint = *constraint;
    }

    pub fn get_measurement_constraint(&self) -> (c: Constraints)
        ensures
            c == self.measurement_constraint,
    {
        self.measurement_constraint
    }

    /// Placing a bare placeable records nothing.
    pub fn place_at(&mut self, _position: IntOffset)
        ensures
            *final(self) == *old(self),
    {
    }
}

impl Measured for PlaceableImpl {
    open spec fn measured_width_spec(&self) -> usize {
        self.measured.measured_width
    }

    open spec fn measured_height_spec(&self) -> usize {
        self.measured.measured_height
    }

    fn get_measured_width(&self) -> (w: usize) {
        self.measured.get_measured_width()
    }

    fn get_measured_height(&self) -> (h: usize) {
        self.measured.get_measured_height()
    }
}

/// The density and layout direction a measure runs in.
#[derive(Debug, Clone, Copy, PartialEq, Eq, Structural)]
pub struct MeasureScopeImpl {
    pub density: Density,
    pub layout_direction: LayoutDirection,
}

impl MeasureScopeImpl {
    /// Density one, left to right.
    pub fn new() -> (s: MeasureScopeImpl)
        ensures
            s.density == Density::spec_identity(),
            s.layout_direction == LayoutDirection::Ltr,
    {
        MeasureScopeImpl { density: Density::identity(), layout_direction: LayoutDirection::Ltr }
    }

    pub fn get_density(&self) -> (d: Density)
        ensures
            d == self.density,
    {
        self.density
    }

    pub fn get_layout_direction(&self) -> (d: LayoutDirection)
        ensures
            d == self.layout_direction,
    {
        self.layout_direction
    }
}

impl Default for MeasureScopeImpl {
    fn default() -> (s: MeasureScopeImpl)
        ensures
            s.density == (Density { density_bits: 0, font_scale_bits: 0 }),
            s.layout_direction == LayoutDirection::Ltr,
    {
        MeasureScopeImpl { density: Density::default(), layout_direction: LayoutDirection::default() }
    }
}

/// A placeable that also knows its position and the scope it is measured in.
#[derive(Debug, Clone, Copy)]
pub struct LookaheadCapablePlaceableImpl {
    pub placeable_impl: PlaceableImpl,
    pub measure_scope_impl: MeasureScopeImpl,
    pub position: IntOffset,
    pub size: IntSize,
}

impl Default for LookaheadCapablePlaceableImpl {
    fn default() -> (p: LookaheadCapablePlaceableImpl)
        ensures
            p.wf(),
            p.placeable_impl.width == 0,
            p.placeable_impl.height == 0,
            p.placeable_impl.measured_size == IntSize::spec_zero(),
            p.placeable_impl.measured == (MeasuredImpl { measured_width: 0, measured_height: 0 }),
            p.placeable_impl.measurement_constraint == Constraints::spec_unbounded(),
            p.measure_scope_impl.density == (Density { density_bits: 0, font_scale_bits: 0 }),
            p.measure_scope_impl.layout_direction == LayoutDirection::Ltr,
            p.position == (IntOffset { x: 0, y: 0 }),
            p.size == IntSize::spec_zero(),
    {
        LookaheadCapablePlaceableImpl {
            placeable_impl: PlaceableImpl::new(),
            measure_scope_impl: MeasureScopeImpl::default(),
            position: IntOffset::new(0, 0),
            size: IntSize::zero(),
        }
    }
}

impl LookaheadCapablePlaceableImpl {
    pub open spec fn wf(self) -> bool {
        self.placeable_impl.wf()
    }

    pub fn get_size(&self) -> (s: IntSize)
        ensures
            s.width == self.placeable_impl.width,
            s.height == self.placeable_impl.height,
    {
        self.placeable_impl.get_size()
    }

    pub fn set_measured_size(&mut self, size: IntSize)
        ensures
            final(self).placeable_impl == (PlaceableImpl { measured_size: size, ..old(self).placeable_impl }),
            final(self).measure_scope_impl == old(self).measure_scope_impl,
            final(self).position == old(self).position,
            final(self).size == old(self).size,
    {
        self.placeable_impl.set_measured_size(size)
    }

    pub fn get_measured_size(&self) -> (s: IntSize)
        ensures
            s == self.placeable_impl.measured_size,
    {
        self.placeable_impl.get_measured_size()
    }

    pub fn set_measurement_constraint(&mut self, constraint: &Constraints)
        ensures
            final(self).placeable_impl == (PlaceableImpl { measurement_constraint: *constraint, ..old(self).placeable_impl }),
            final(self).measure_scope_impl == old(self).measure_scope_impl,
            final(self).position == old(self).position,
            final(self).size == old(self).size,
    {
        self.placeable_impl.set_measurement_constraint(constraint)
    }

    pub fn get_measurement_constraint(&self) -> (c: Constraints)
        ensures
            c == self.placeable_impl.measurement_constraint,
    {
        self.placeable_impl.get_measurement_constraint()
    }

    pub fn get_density(&self) -> (d: Density)
        ensures
            d == self.measure_scope_impl.density,
    {
        self.measure_scope_impl.get_density()
    }

    pub fn get_layout_direction(&self) -> (d: LayoutDirection)
        ensures
            d == self.measure_scope_impl.layout_direction,
    {
        self.measure_scope_impl.get_layout_direction()
    }
}

impl Measured for LookaheadCapablePlaceableImpl {
    open spec fn measured_width_spec(&self) -> usize {
        self.placeable_impl.measured.measured_width
    }

    open spec fn measured_height_spec(&self) -> usize {
        self.placeable_impl.measured.measured_height
    }

    fn get_measured_width(&self) -> (w: usize) {
        self.placeable_impl.get_measured_width()
    }

    fn get_measured_height(&self) -> (h: usize) {
        self.placeable_impl.get_measured_height()
    }
}

/// A placeable that knows where it was placed.
pub trait LookaheadCapablePlaceable {
    spec fn position_spec(&self) -> IntOffset;

    fn set_position(&mut self, position: IntOffset)
        ensures
            final(self).position_spec() == position,
    ;

    fn get_position(&self) -> (p: IntOffset)
        ensures
            p == self.position_spec(),
    ;
}

impl LookaheadCapablePlaceable for LookaheadCapablePlaceableImpl {
    open spec fn position_spec(&self) -> IntOffset {
        self.position
    }

    fn set_position(&mut self, position: IntOffset)
        ensures
            *final(self) == (LookaheadCapablePlaceableImpl { position, ..*old(self) }),
    {
        self.position = position;
    }

    fn get_position(&self) -> (p: IntOffset) {
        self.position
    }
}

/// The scope a placement block runs in: the parent's size and direction.
#[derive(Debug, Clone, Copy, PartialEq, Eq, Structural)]
pub struct PlacementScopeImpl {
    pub width: usize,
    pub height: usize,
    pub layout_direction: LayoutDirection,
}

/// Where a child of width `child_width` goes when placed at `(x, y)`
/// relative to the start edge: mirrored for right-to-left parents of
/// non-zero width.
pub open spec fn spec_place_relative(
    parent_width: usize,
    direction: LayoutDirection,
    child_width: usize,
    x: i32,
    y: i32,
) -> IntOffset {
    if direction == LayoutDirection::Ltr || parent_width == 0 {
        IntOffset { x, y }
    } else {
        IntOffset { x: ((parent_width as i32) - (child_width as i32) - x) as i32, y }
    }
}

/// In a right-to-left parent of non-zero width, mirroring a placement
/// twice gives back the start-relative position.
pub proof fn lemma_rtl_mirror_involution(parent_width: usize, child_width: usize, x: i32, y: i32)
    requires
        parent_width != 0,
        i32::MIN <= (parent_width as i32) - (child_width as i32) - x <= i32::MAX,
    ensures
        ({
            let once = spec_place_relative(parent_width, LayoutDirection::Rtl, child_width, x, y);
            spec_place_relative(parent_width, LayoutDirection::Rtl, child_width, once.x, once.y) == IntOffset { x, y }
        }),
{
}

impl PlacementScopeImpl {
    pub fn new(width: usize, height: usize, layout_direction: LayoutDirection) -> (s: PlacementScopeImpl)
        ensures
            s.width == width,
            s.height == height,
            s.layout_direction == layout_direction,
    {
        PlacementScopeImpl { width, height, layout_direction }
    }

    pub fn parent_width(&self) -> (w: usize)
        ensures
            w == self.width,
    {
        self.width
    }

    pub fn parent_height(&self) -> (h: usize)
        ensures
            h == self.height,
    {
        self.height
    }

    pub fn parent_layout_direction(&self) -> (d: LayoutDirection)
        ensures
            d == self.layout_direction,
    {
        self.layout_direction
    }

    /// The position at which a child of width `child_width` is placed for
    /// the start-relative position `(x, y)`.
    pub fn place_relative(&self, child_width: usize, x: i32, y: i32) -> (p: IntOffset)
        requires
            self.layout_direction == LayoutDirection::Rtl && self.width != 0 ==> {
                &&& i32::MIN <= (self.width as i32) - (child_width as i32) <= i32::MAX
                &&& i32::MIN <= (self.width as i32) - (child_width as i32) - x <= i32::MAX
            },
        ensures
            p == spec_place_relative(self.width, self.layout_direction, child_width, x, y),
    {
        self.place_relative_with_z(child_width, x, y)
    }

    /// As `place_relative`; the z index does not change the position.
    pub fn place_relative_with_z(&self, child_width: usize, x: i32, y: i32) -> (p: IntOffset)
        requires
            self.layout_direction == LayoutDirection::Rtl && self.width != 0 ==> {
                &&& i32::MIN <= (self.width as i32) - (child_width as i32) <= i32::MAX
                &&& i32::MIN <= (self.width as i32) - (child_width as i32) - x <= i32::MAX
            },
        ensures
            p == spec_place_relative(self.width, self.layout_direction, child_width, x, y),
    {
        if self.parent_layout_direction() == LayoutDirection::Ltr || self.parent_width() == 0 {
            IntOffset::new(x, y)
        } else {
            let pw = self.parent_width() as i32;
            let cw = child_width as i32;
            IntOffset::new(pw - cw - x, y)
        }
    }
}

/// The size a measure produced and, if it has one, the block (named by
/// key) that places the children.
#[derive(Debug, Clone, Copy)]
pub struct MeasureResult {
    pub width: usize,
    pub height: usize,
    pub placement_block: Option<u64>,
}

impl MeasureResult {
    pub fn new(size: IntSize, placement_block: Option<u64>) -> (r: MeasureResult)
        ensures
            r.width == size.width,
            r.height == size.height,
            r.placement_block == placement_block,
    {
        MeasureResult { width: size.width(), height: size.height(), placement_block }
    }

    pub fn as_int_size(&self) -> (s: IntSize)
        ensures
            s.width == self.width,
            s.height == self.height,
    {
        IntSize::new(self.width, self.height)
    }

    /// Takes the placement block, if any, together with the scope it runs
    /// in: this result's size in the given direction. A second call finds
    /// no block.
    pub fn place_children(&mut self, layout_direction: LayoutDirection) -> (r: Option<(u64, PlacementScopeImpl)>)
        ensures
            final(self).width == old(self).width,
            final(self).height == old(self).height,
            final(self).placement_block is None,
            match old(self).placement_block {
                None => r is None,
                Some(block) => r == Some((block, PlacementScopeImpl { width: old(self).width, height: old(self).height, layout_direction })),
            },
    {
        let place_action = self.placement_block.take();
        match place_action {
            Some(block) => Some((block, PlacementScopeImpl::new(self.width, self.height, layout_direction))),
            None => None,
        }
    }
}

impl Default for MeasureResult {
    fn default() -> (r: MeasureResult)
        ensures
            r.width == 0,
            r.height == 0,
            r.placement_block is None,
    {
        MeasureResult { width: 0, height: 0, placement_block: None }
    }
}

impl From<(usize, usize)> for MeasureResult {
    fn from(value: (usize, usize)) -> (r: MeasureResult) {
        MeasureResult { width: value.0, height: value.1, placement_block: None }
    }
}

impl vstd::std_specs::convert::FromSpecImpl<(usize, usize)> for MeasureResult {
    open spec fn obeys_from_spec() -> bool {
        true
    }

    open spec fn from_spec(v: (usize, usize)) -> MeasureResult {
        MeasureResult { width: v.0, height: v.1, placement_block: None }
    }
}

/// What `==` on two distinct measure results computes: equal widths,
/// different heights, and neither has a placement block (two blocks held
/// by distinct results are distinct objects).
pub open spec fn measure_result_eq(a: MeasureResult, b: MeasureResult) -> bool {
    a.width == b.width && a.height != b.height && a.placement_block is None && b.placement_block is None
}

impl PartialEq for MeasureResult {
    fn eq(&self, other: &Self) -> (r: bool) {
        self.width == other.width && self.height != other.height && match (&self.placement_block, &other.placement_block) {
            (None, None) => true,
            _ => false,
        }
    }
}

impl vstd::std_specs::cmp::PartialEqSpecImpl for MeasureResult {
    open spec fn obeys_eq_spec() -> bool {
        true
    }

    open spec fn eq_spec(&self, other: &Self) -> bool {
        measure_result_eq(*self, *other)
    }
}

} // verus!
