//! Exact 2D geometry over 16.16 fixed-point coordinates. Positions are
//! `i32` fixed-point values (a map unit is `0x10000`); direction vectors
//! are `i64` differences of positions; plane distances are `i128` dot
//! products. Normals are kept unnormalized: scaling a plane's normal and
//! distance together describes the same half-space, and whether a wall is
//! axis-aligned is scale-invariant.

use vstd::prelude::*;

verus! {

/// A position in 16.16 fixed-point map coordinates.
#[derive(Clone, Copy, Debug, PartialEq, Eq, Structural)]
pub struct Vec2 {
    pub x: i32,
    pub y: i32,
}

/// A direction: the difference of two positions.
#[derive(Clone, Copy, Debug, PartialEq, Eq, Structural)]
pub struct Dir2 {
    pub x: i64,
    pub y: i64,
}

/// A directed line: a point on it and its direction.
#[derive(Clone, Copy, Debug, PartialEq, Eq, Structural)]
pub struct Line2 {
    pub point: Vec2,
    pub dir: Dir2,
}

/// The half-space of points `p` with `normal . p <= distance`.
#[derive(Clone, Copy, Debug, PartialEq, Eq, Structural)]
pub struct Plane {
    pub normal: Dir2,
    pub distance: i128,
}

/// An axis-aligned bounding box.
#[derive(Clone, Copy, Debug, PartialEq, Eq, Structural)]
pub struct AABB2 {
    pub min: Vec2,
    pub max: Vec2,
}

/// Which face of a linedef a sidedef or seg lies on.
#[derive(Clone, Copy, Debug, PartialEq, Eq, Structural)]
pub enum Side {
    Right,
    Left,
}

/// The difference `b - a` as a direction.
pub open spec fn spec_dir_between(a: Vec2, b: Vec2) -> Dir2 {
    Dir2 { x: (b.x - a.x) as i64, y: (b.y - a.y) as i64 }
}

/// The outward normal of `dir`: `dir` rotated a quarter turn clockwise.
pub open spec fn spec_normal_of(dir: Dir2) -> Dir2 {
    Dir2 { x: dir.y, y: (-dir.x) as i64 }
}

/// The line through `a` and `b`, directed from `a` to `b`.
pub open spec fn spec_line_between(a: Vec2, b: Vec2) -> Line2 {
    Line2 { point: a, dir: spec_dir_between(a, b) }
}

/// Whether a direction is parallel to neither axis.
pub open spec fn spec_diagonal(dir: Dir2) -> bool {
    dir.x != 0 && dir.y != 0
}

pub fn dir_between(a: Vec2, b: Vec2) -> (r: Dir2)
    ensures
        r == spec_dir_between(a, b),
{
    Dir2 { x: b.x as i64 - a.x as i64, y: b.y as i64 - a.y as i64 }
}

pub fn normal_between(a: Vec2, b: Vec2) -> (r: Dir2)
    ensures
        r == spec_normal_of(spec_dir_between(a, b)),
{
    Dir2 { x: b.y as i64 - a.y as i64, y: a.x as i64 - b.x as i64 }
}

pub fn line_between(a: Vec2, b: Vec2) -> (r: Line2)
    ensures
        r == spec_line_between(a, b),
{
    Line2 { point: a, dir: dir_between(a, b) }
}

/// The dot product of a position and a direction, as exact integers.
pub open spec fn spec_dot(p: Vec2, n: Dir2) -> int {
    p.x * n.x + p.y * n.y
}

pub fn dot(p: Vec2, n: Dir2) -> (r: i128)
    ensures
        r as int == spec_dot(p, n),
        -0x1_0000_0000_0000_0000_0000_0000 <= r as int <= 0x1_0000_0000_0000_0000_0000_0000,
{
    proof {
        assert((p.x as int) * (n.x as int) <= 0x8000_0000 * 0x8000_0000_0000_0000
            && (p.x as int) * (n.x as int) >= -(0x8000_0000 * 0x8000_0000_0000_0000)
            && (p.y as int) * (n.y as int) <= 0x8000_0000 * 0x8000_0000_0000_0000
            && (p.y as int) * (n.y as int) >= -(0x8000_0000 * 0x8000_0000_0000_0000)) by (nonlinear_arith)
            requires
                -0x8000_0000 <= p.x as int <= 0x8000_0000,
                -0x8000_0000 <= p.y as int <= 0x8000_0000,
                -0x8000_0000_0000_0000 <= n.x as int <= 0x8000_0000_0000_0000,
                -0x8000_0000_0000_0000 <= n.y as int <= 0x8000_0000_0000_0000,
        ;
    }
    p.x as i128 * n.x as i128 + p.y as i128 * n.y as i128
}

/// The negation of a direction.
pub open spec fn spec_neg_dir(n: Dir2) -> Dir2 {
    Dir2 { x: (-n.x) as i64, y: (-n.y) as i64 }
}

pub fn neg_dir(n: Dir2) -> (r: Dir2)
    requires
        n.x > i64::MIN,
        n.y > i64::MIN,
    ensures
        r == spec_neg_dir(n),
{
    Dir2 { x: -n.x, y: -n.y }
}

/// The four outward planes of a bounding box, in the order right, left,
/// top, bottom.
pub open spec fn spec_bbox_planes(b: AABB2) -> Seq<Plane> {
    seq![
        Plane { normal: Dir2 { x: 1, y: 0 }, distance: b.max.x as i128 },
        Plane { normal: Dir2 { x: -1i64, y: 0 }, distance: (-(b.min.x as int)) as i128 },
        Plane { normal: Dir2 { x: 0, y: 1 }, distance: b.max.y as i128 },
        Plane { normal: Dir2 { x: 0, y: -1i64 }, distance: (-(b.min.y as int)) as i128 },
    ]
}

pub fn bbox_planes(b: &AABB2) -> (r: Vec<Plane>)
    ensures
        r@ == spec_bbox_planes(*b),
{
    let mut v: Vec<Plane> = Vec::new();
    v.push(Plane { normal: Dir2 { x: 1, y: 0 }, distance: b.max.x as i128 });
    v.push(Plane { normal: Dir2 { x: -1, y: 0 }, distance: -(b.min.x as i128) });
    v.push(Plane { normal: Dir2 { x: 0, y: 1 }, distance: b.max.y as i128 });
    v.push(Plane { normal: Dir2 { x: 0, y: -1 }, distance: -(b.min.y as i128) });
    proof {
        assert(v@ =~= spec_bbox_planes(*b));
    }
    v
}

/// The smallest box holding both points.
pub open spec fn spec_bbox_two(a: Vec2, b: Vec2) -> AABB2 {
    AABB2 {
        min: Vec2 {
            x: if a.x <= b.x {
                a.x
            } else {
                b.x
            },
            y: if a.y <= b.y {
                a.y
            } else {
                b.y
            },
        },
        max: Vec2 {
            x: if a.x <= b.x {
                b.x
            } else {
                a.x
            },
            y: if a.y <= b.y {
                b.y
            } else {
                a.y
            },
        },
    }
}

pub fn bbox_two(a: Vec2, b: Vec2) -> (r: AABB2)
    ensures
        r == spec_bbox_two(a, b),
{
    AABB2 {
        min: Vec2 {
            x: if a.x <= b.x {
                a.x
            } else {
                b.x
            },
            y: if a.y <= b.y {
                a.y
            } else {
                b.y
            },
        },
        max: Vec2 {
            x: if a.x <= b.x {
                b.x
            } else {
                a.x
            },
            y: if a.y <= b.y {
                b.y
            } else {
                a.y
            },
        },
    }
}

/// `b` grown to hold `p` as well.
pub open spec fn spec_bbox_add(b: AABB2, p: Vec2) -> AABB2 {
    AABB2 {
        min: Vec2 {
            x: if p.x <= b.min.x {
                p.x
            } else {
                b.min.x
            },
            y: if p.y <= b.min.y {
                p.y
            } else {
                b.min.y
            },
        },
        max: Vec2 {
            x: if p.x >= b.max.x {
                p.x
            } else {
                b.max.x
            },
            y: if p.y >= b.max.y {
                p.y
            } else {
                b.max.y
            },
        },
    }
}

pub fn bbox_add(b: AABB2, p: Vec2) -> (r: AABB2)
    ensures
        r == spec_bbox_add(b, p),
{
    AABB2 {
        min: Vec2 {
            x: if p.x <= b.min.x {
                p.x
            } else {
                b.min.x
            },
            y: if p.y <= b.min.y {
                p.y
            } else {
                b.min.y
            },
        },
        max: Vec2 {
            x: if p.x >= b.max.x {
                p.x
            } else {
                b.max.x
            },
            y: if p.y >= b.max.y {
                p.y
            } else {
                b.max.y
            },
        },
    }
}

} // verus!
