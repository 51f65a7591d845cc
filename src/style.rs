//! Per-node style, layout results and the node tree.
use vstd::prelude::*;
use crate::geometry::{Point3, Size3};

verus! {

/// Number of fixed-point steps in one layout unit.
pub const UNIT: i64 = 1024;

/// Largest magnitude of a length. Fixed sizes and gaps must lie within it; a computed size that
/// would pass it saturates at it.
pub const MAX_LEN: i64 = 0x10_0000_0000;

/// Largest number of children of one node.
pub const MAX_CHILDREN: usize = 0x1_0000;

/// A length along one axis: fixed, or derived from the children.
#[derive(Debug, Copy, Clone, PartialEq, Eq, Structural)]
pub enum Dimension {
    Length(i64),
    Auto,
}

impl Dimension {
    /// A fixed length, in fixed-point steps.
    pub fn length(v: i64) -> (r: Dimension)
        ensures
            r == Dimension::Length(v),
    {
        Dimension::Length(v)
    }

    /// The automatic length.
    pub fn auto() -> (r: Dimension)
        ensures
            r == Dimension::Auto,
    {
        Dimension::Auto
    }

    pub fn is_auto(&self) -> (r: bool)
        ensures
            r == (*self == Dimension::Auto),
    {
        match self {
            Dimension::Auto => true,
            Dimension::Length(_) => false,
        }
    }
}

/// The fixed value of a dimension, if it has one.
pub open spec fn fixed(d: Dimension) -> Option<int> {
    match d {
        Dimension::Length(v) => Some(v as int),
        Dimension::Auto => None,
    }
}

/// The fixed value of a dimension, or `None` when it is automatic.
pub fn resolve(d: Dimension) -> (r: Option<i64>)
    ensures
        r == (match d {
            Dimension::Length(v) => Some(v),
            Dimension::Auto => None::<i64>,
        }),
{
    match d {
        Dimension::Length(v) => Some(v),
        Dimension::Auto => None,
    }
}

/// Distribution of free space along the main axis.
#[derive(Debug, Copy, Clone, PartialEq, Eq, Structural)]
pub enum JustifyContent {
    Start,
    End,
    FlexStart,
    FlexEnd,
    Center,
    Stretch,
    SpaceBetween,
    SpaceEvenly,
    SpaceAround,
}

/// Placement of children along the cross and depth axes.
#[derive(Debug, Copy, Clone, PartialEq, Eq, Structural)]
pub enum AlignItems {
    Start,
    End,
    FlexStart,
    FlexEnd,
    Center,
    Baseline,
    Stretch,
}

/// Which axis children are laid out along.
#[derive(Debug, Copy, Clone, PartialEq, Eq, Structural)]
pub enum FlexDirection3D {
    Row,
    Column,
    Depth,
}

impl Default for FlexDirection3D {
    fn default() -> (r: Self)
        ensures
            r == FlexDirection3D::Row,
    {
        FlexDirection3D::Row
    }
}

/// The style of a layout node.
#[derive(Debug, Clone, Copy)]
pub struct Style3D {
    pub size: Size3<Dimension>,
    pub flex_direction: FlexDirection3D,
    pub gap: i64,
    pub wrap: bool,
    pub justify_content: JustifyContent,
    pub align_items: AlignItems,
}

impl Default for Style3D {
    fn default() -> (r: Self)
        ensures
            r.size == (Size3 { width: Dimension::Auto, height: Dimension::Auto, depth: Dimension::Auto }),
            r.flex_direction == FlexDirection3D::Row,
            r.gap == 0,
            !r.wrap,
            r.justify_content == JustifyContent::FlexStart,
            r.align_items == AlignItems::Stretch,
    {
        Style3D {
            size: Size3 { width: Dimension::Auto, height: Dimension::Auto, depth: Dimension::Auto },
            flex_direction: FlexDirection3D::Row,
            gap: 0,
            wrap: false,
            justify_content: JustifyContent::FlexStart,
            align_items: AlignItems::Stretch,
        }
    }
}

/// The computed position and size of a node.
#[derive(Debug, Clone, Copy, PartialEq, Eq)]
pub struct Layout3D {
    pub location: Point3<i64>,
    pub size: Size3<i64>,
}

impl Default for Layout3D {
    fn default() -> (r: Self)
        ensures
            r.location == (Point3 { x: 0i64, y: 0i64, z: 0i64 }),
            r.size == (Size3 { width: 0i64, height: 0i64, depth: 0i64 }),
    {
        Layout3D { location: Point3 { x: 0, y: 0, z: 0 }, size: Size3 { width: 0, height: 0, depth: 0 } }
    }
}

/// A node of the layout tree; it owns its children.
#[derive(Debug)]
pub struct Node3D {
    pub style: Style3D,
    pub children: Vec<Node3D>,
    pub layout: Layout3D,
}

impl Node3D {
    pub fn new(style: Style3D, children: Vec<Node3D>) -> (r: Node3D)
        ensures
            r.style == style,
            r.children == children,
            r.layout.location == (Point3 { x: 0i64, y: 0i64, z: 0i64 }),
            r.layout.size == (Size3 { width: 0i64, height: 0i64, depth: 0i64 }),
    {
        Node3D {
            style,
            children,
            layout: Layout3D { location: Point3 { x: 0, y: 0, z: 0 }, size: Size3 { width: 0, height: 0, depth: 0 } },
        }
    }
}

/// A length within the supported range.
pub open spec fn len_ok(v: int) -> bool {
    -MAX_LEN <= v <= MAX_LEN
}

/// A dimension whose fixed value, if any, is within the supported range.
pub open spec fn dim_ok(d: Dimension) -> bool {
    match d {
        Dimension::Length(v) => len_ok(v as int),
        Dimension::Auto => true,
    }
}

/// A style whose fixed sizes and gap are within the supported range.
pub open spec fn style_ok(s: Style3D) -> bool {
    &&& dim_ok(s.size.width)
    &&& dim_ok(s.size.height)
    &&& dim_ok(s.size.depth)
    &&& len_ok(s.gap as int)
}

/// A size whose three components are within the supported range.
pub open spec fn size_ok(s: Size3<i64>) -> bool {
    len_ok(s.width as int) && len_ok(s.height as int) && len_ok(s.depth as int)
}

/// Clamps a computed length into the supported range.
pub open spec fn clamp_len(v: int) -> int {
    if v > MAX_LEN {
        MAX_LEN as int
    } else if v < -MAX_LEN {
        -MAX_LEN
    } else {
        v
    }
}

pub fn clamp(v: i64) -> (r: i64)
    ensures
        r == clamp_len(v as int),
{
    if v > MAX_LEN {
        MAX_LEN
    } else if v < -MAX_LEN {
        -MAX_LEN
    } else {
        v
    }
}

/// Floor division by a positive divisor.
pub fn div_floor(a: i64, b: i64) -> (r: i64)
    requires
        b > 0,
    ensures
        r == a as int / b as int,
{
    if a >= 0 {
        a / b
    } else {
        let n: i64 = -(a + 1);
        let q: i64 = n / b;
        assert(q == n as int / b as int);
        assert(-q - 1 == a as int / b as int) by (nonlinear_arith)
            requires
                q == n as int / b as int,
                n == -(a + 1),
                a < 0,
                b > 0,
        {
            let qq = n as int / b as int;
            let rr = n as int % b as int;
            assert(n as int == qq * b + rr && 0 <= rr < b);
            assert(a as int == (-qq - 1) * b + (b - 1 - rr));
        }
        -q - 1
    }
}

} // verus!
