//! Screen geometry of the node editor.
//!
//! Coordinates are integers counted in thousandths of a pixel, so that the
//! offsets of the layout are exact.
use vstd::prelude::*;

verus! {

/// Canvas units per screen pixel.
pub const SUBPIXELS: i64 = 1000;

/// Width of a node's box (100 px).
pub const NODE_WIDTH: i64 = 100_000;

/// Side length of a slot's square (15 px).
pub const SLOT_SIZE: i64 = 15_000;

/// Half a slot (7.5 px).
pub const SLOT_SIZE_HALF: i64 = 7_500;

/// Gap between two neighbouring slots (7.5 px).
pub const SLOT_SPACING: i64 = 7_500;

/// Distance the pointer must travel before a press becomes a drag (5 px).
pub const DRAG_THRESHOLD: i64 = 5_000;

/// Largest magnitude of a stored coordinate; node positions are clamped to it.
pub const COORD_LIMIT: i64 = 1099511627776;

/// A position on the canvas, in thousandths of a pixel.
#[derive(Clone, Copy, PartialEq, Eq, Structural, Debug)]
pub struct Point {
    pub x: i64,
    pub y: i64,
}

/// Which face of a node a slot sits on.
#[derive(Clone, Copy, PartialEq, Eq, Structural, Debug)]
pub enum WidgetSide {
    Input,
    Output,
}

impl WidgetSide {
    pub open spec fn spec_opposite(self) -> WidgetSide {
        match self {
            WidgetSide::Input => WidgetSide::Output,
            WidgetSide::Output => WidgetSide::Input,
        }
    }

    /// The other face.
    pub fn opposite(self) -> (r: WidgetSide)
        ensures
            r == self.spec_opposite(),
    {
        match self {
            WidgetSide::Input => WidgetSide::Output,
            WidgetSide::Output => WidgetSide::Input,
        }
    }
}

/// A coordinate within the stored range.
pub open spec fn valid_coord(v: int) -> bool {
    -COORD_LIMIT <= v <= COORD_LIMIT
}

/// A point within the stored range: node positions, locations, pointer positions.
pub open spec fn valid_point(p: Point) -> bool {
    valid_coord(p.x as int) && valid_coord(p.y as int)
}

/// The drag offset a freshly added node is carried with: the centre of its box.
pub open spec fn spec_drag_offset_default() -> Point {
    Point { x: (NODE_WIDTH / 2) as i64, y: (NODE_WIDTH / 2) as i64 }
}

pub fn drag_offset_default() -> (r: Point)
    ensures
        r == spec_drag_offset_default(),
{
    Point { x: NODE_WIDTH / 2, y: NODE_WIDTH / 2 }
}

/// Horizontal distance from a node's left edge to the slots of `side`.
pub open spec fn side_dx(side: WidgetSide) -> int {
    match side {
        WidgetSide::Input => 0,
        WidgetSide::Output => NODE_WIDTH as int,
    }
}

/// Vertical distance from a node's top edge to the top of slot `slot`.
pub open spec fn slot_dy(slot: u32) -> int {
    (SLOT_SIZE + SLOT_SPACING) * slot
}

/// Where an edge attaches to slot `slot` on `side` of a node at `node`:
/// the left edge for inputs, the right edge for outputs, half a slot below
/// the slot's top.
pub open spec fn slot_anchor(side: WidgetSide, slot: u32, node: Point) -> Point {
    Point {
        x: (node.x + side_dx(side)) as i64,
        y: (node.y + slot_dy(slot) + SLOT_SIZE_HALF) as i64,
    }
}

/// Where the slot's square is placed: half a slot left of the anchor's edge,
/// level with the slot's top.
pub open spec fn slot_margin(side: WidgetSide, slot: u32, node: Point) -> Point {
    Point {
        x: (node.x + side_dx(side) - SLOT_SIZE_HALF) as i64,
        y: (node.y + slot_dy(slot)) as i64,
    }
}

proof fn lemma_slot_dy_bounds(slot: u32)
    ensures
        0 <= slot_dy(slot) <= 22_500 * 0xffff_ffff,
{
    assert(0 <= 22_500 * (slot as int) <= 22_500 * 0xffff_ffff) by (nonlinear_arith)
        requires
            0 <= slot <= 0xffff_ffff,
    ;
}

/// Anchor point of an edge end at a slot (the single source of slot geometry).
pub fn position_edge(side: WidgetSide, slot: u32, node: Point) -> (r: Point)
    requires
        valid_point(node),
    ensures
        r == slot_anchor(side, slot, node),
        r.x == node.x + side_dx(side),
        r.y == node.y + slot_dy(slot) + SLOT_SIZE_HALF,
{
    proof {
        lemma_slot_dy_bounds(slot);
    }
    let dy: i64 = (SLOT_SIZE + SLOT_SPACING) * (slot as i64);
    let y = node.y + dy + SLOT_SIZE_HALF;
    match side {
        WidgetSide::Input => Point { x: node.x, y },
        WidgetSide::Output => Point { x: node.x + NODE_WIDTH, y },
    }
}

/// Placement of a slot's square beside a node.
pub fn position_slot(side: WidgetSide, slot: u32, node: Point) -> (r: Point)
    requires
        valid_point(node),
    ensures
        r == slot_margin(side, slot, node),
{
    proof {
        lemma_slot_dy_bounds(slot);
    }
    let dy: i64 = (SLOT_SIZE + SLOT_SPACING) * (slot as i64);
    let left = node.x - SLOT_SIZE_HALF;
    let top = node.y + dy;
    match side {
        WidgetSide::Input => Point { x: left, y: top },
        WidgetSide::Output => Point { x: left + NODE_WIDTH, y: top },
    }
}

/// `v` brought into the stored range.
pub open spec fn clamp_spec(v: int) -> int {
    if v < -COORD_LIMIT {
        -COORD_LIMIT as int
    } else if v > COORD_LIMIT {
        COORD_LIMIT as int
    } else {
        v
    }
}

/// `a - b`, each coordinate clamped into the stored range.
pub open spec fn spec_clamped_sub(a: Point, b: Point) -> Point {
    Point { x: clamp_spec(a.x - b.x) as i64, y: clamp_spec(a.y - b.y) as i64 }
}

fn clamp_diff(a: i64, b: i64) -> (r: i64)
    requires
        -0x3fff_ffff_ffff_ffff <= a <= 0x3fff_ffff_ffff_ffff,
        -0x3fff_ffff_ffff_ffff <= b <= 0x3fff_ffff_ffff_ffff,
    ensures
        r == clamp_spec(a - b),
{
    let d = a - b;
    if d < -COORD_LIMIT {
        -COORD_LIMIT
    } else if d > COORD_LIMIT {
        COORD_LIMIT
    } else {
        d
    }
}

/// A point whose coordinates can be subtracted from each other without overflow.
pub open spec fn small_point(p: Point) -> bool {
    -0x3fff_ffff_ffff_ffff <= p.x <= 0x3fff_ffff_ffff_ffff && -0x3fff_ffff_ffff_ffff <= p.y
        <= 0x3fff_ffff_ffff_ffff
}

/// `a - b` brought into range: where a dragged entity's corner goes when the
/// pointer is at `a` and the entity was grabbed `b` away from its corner.
pub fn clamped_sub(a: Point, b: Point) -> (r: Point)
    requires
        small_point(a),
        small_point(b),
    ensures
        r == spec_clamped_sub(a, b),
        valid_point(r),
{
    Point { x: clamp_diff(a.x, b.x), y: clamp_diff(a.y, b.y) }
}

/// `p` with each coordinate clamped into the stored range.
pub open spec fn spec_clamp_point(p: Point) -> Point {
    Point { x: clamp_spec(p.x as int) as i64, y: clamp_spec(p.y as int) as i64 }
}

fn clamp_coord(v: i64) -> (r: i64)
    ensures
        r == clamp_spec(v as int),
{
    if v < -COORD_LIMIT {
        -COORD_LIMIT
    } else if v > COORD_LIMIT {
        COORD_LIMIT
    } else {
        v
    }
}

pub fn clamp_point(p: Point) -> (r: Point)
    ensures
        r == spec_clamp_point(p),
        valid_point(r),
        valid_point(p) ==> r == p,
{
    Point { x: clamp_coord(p.x), y: clamp_coord(p.y) }
}

/// Whether the pointer at `p` is farther than the drag threshold from `q`.
pub open spec fn beyond_threshold(p: Point, q: Point) -> bool {
    let dx = p.x - q.x;
    let dy = p.y - q.y;
    dx * dx + dy * dy > DRAG_THRESHOLD * DRAG_THRESHOLD
}

pub fn exceeds_drag_threshold(p: Point, q: Point) -> (r: bool)
    requires
        small_point(p),
        small_point(q),
    ensures
        r == beyond_threshold(p, q),
{
    let dx = p.x - q.x;
    let dy = p.y - q.y;
    if dx > DRAG_THRESHOLD || dx < -DRAG_THRESHOLD || dy > DRAG_THRESHOLD || dy
        < -DRAG_THRESHOLD {
        assert((dx * dx + dy * dy > DRAG_THRESHOLD * DRAG_THRESHOLD)) by (nonlinear_arith)
            requires
                dx > 5000 || dx < -5000 || dy > 5000 || dy < -5000,
        ;
        true
    } else {
        assert(0 <= dx * dx <= 25_000_000 && 0 <= dy * dy <= 25_000_000) by (nonlinear_arith)
            requires
                -5000 <= dx <= 5000,
                -5000 <= dy <= 5000,
        ;
        dx * dx + dy * dy > DRAG_THRESHOLD * DRAG_THRESHOLD
    }
}

} // verus!
