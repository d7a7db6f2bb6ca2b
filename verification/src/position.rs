//! 2D point values in fixed-point coordinates, with component-wise
//! min/max, translation, and the translate-then-scale transform.

use vstd::prelude::*;
use crate::fixed::{tdiv, SCALE};

verus! {

/// An immutable 2D point. Coordinates are signed fixed-point values in
/// `1/SCALE` units.
#[derive(Clone, Copy, Debug, PartialEq, Eq, Structural)]
pub struct Position {
    pub x: i32,
    pub y: i32,
}

/// A 2D vector in the same fixed-point units, used for the translation and
/// the per-axis scale of a transform.
#[derive(Clone, Copy, Debug, PartialEq, Eq, Structural)]
pub struct Vec2 {
    pub x: i32,
    pub y: i32,
}

/// The component-wise minimum of two positions.
pub open spec fn pos_min(a: Position, b: Position) -> Position {
    Position {
        x: if a.x <= b.x {
            a.x
        } else {
            b.x
        },
        y: if a.y <= b.y {
            a.y
        } else {
            b.y
        },
    }
}

/// The component-wise maximum of two positions.
pub open spec fn pos_max(a: Position, b: Position) -> Position {
    Position {
        x: if a.x >= b.x {
            a.x
        } else {
            b.x
        },
        y: if a.y >= b.y {
            a.y
        } else {
            b.y
        },
    }
}

/// One coordinate of the transform: translate first, then scale, where the
/// scale factor is a fixed-point value (so the product is cut back by
/// `SCALE`, truncating toward zero).
pub open spec fn tcoord(c: int, t: int, s: int) -> int {
    tdiv((c + t) * s, SCALE as int)
}

/// Whether a value fits a fixed-point coordinate.
pub open spec fn fits_coord(v: int) -> bool {
    i32::MIN <= v <= i32::MAX
}

/// Whether transforming `p` by `(t, s)` keeps both coordinates in range.
pub open spec fn can_transform(p: Position, t: Vec2, s: Vec2) -> bool {
    fits_coord(tcoord(p.x as int, t.x as int, s.x as int)) && fits_coord(
        tcoord(p.y as int, t.y as int, s.y as int),
    )
}

/// Whether every position of `ps` stays in range under the transform
/// `(t, s)`.
pub open spec fn all_transformable(ps: Seq<Position>, t: Vec2, s: Vec2) -> bool {
    forall|i: int| 0 <= i < ps.len() ==> can_transform(#[trigger] ps[i], t, s)
}

/// `p` translated by `t` and then scaled component-wise by `s`.
pub open spec fn transform_pos(p: Position, t: Vec2, s: Vec2) -> Position {
    Position {
        x: tcoord(p.x as int, t.x as int, s.x as int) as i32,
        y: tcoord(p.y as int, t.y as int, s.y as int) as i32,
    }
}

/// Every position of `ps` transformed by `(t, s)`, order kept.
pub open spec fn transform_seq(ps: Seq<Position>, t: Vec2, s: Vec2) -> Seq<Position> {
    Seq::new(ps.len(), |i: int| transform_pos(ps[i], t, s))
}

/// Every endpoint of a segment sequence transformed by `(t, s)`, order
/// kept.
pub open spec fn transform_pairs(
    ss: Seq<(Position, Position)>,
    t: Vec2,
    s: Vec2,
) -> Seq<(Position, Position)> {
    Seq::new(ss.len(), |i: int| (transform_pos(ss[i].0, t, s), transform_pos(ss[i].1, t, s)))
}

/// The transform is monotone along each axis in the coordinate: a
/// nonnegative scale keeps the order of coordinates, a negative one
/// reverses it.
pub proof fn lemma_tcoord_mono(a: int, b: int, t: int, s: int)
    requires
        a <= b,
    ensures
        s >= 0 ==> tcoord(a, t, s) <= tcoord(b, t, s),
        s <= 0 ==> tcoord(b, t, s) <= tcoord(a, t, s),
{
    if s >= 0 {
        assert((a + t) * s <= (b + t) * s) by (nonlinear_arith)
            requires
                a <= b,
                s >= 0,
        ;
        crate::fixed::lemma_tdiv_mono((a + t) * s, (b + t) * s, SCALE as int);
    }
    if s <= 0 {
        assert((b + t) * s <= (a + t) * s) by (nonlinear_arith)
            requires
                a <= b,
                s <= 0,
        ;
        crate::fixed::lemma_tdiv_mono((b + t) * s, (a + t) * s, SCALE as int);
    }
}

impl Position {
    pub fn new(x: i32, y: i32) -> (p: Position)
        ensures
            p == (Position { x, y }),
    {
        Position { x, y }
    }

    pub fn origin() -> (p: Position)
        ensures
            p == (Position { x: 0, y: 0 }),
    {
        Position { x: 0, y: 0 }
    }

    /// The component-wise minimum of `self` and `other`.
    pub fn min(&self, other: &Position) -> (r: Position)
        ensures
            r == pos_min(*self, *other),
    {
        Position {
            x: if self.x <= other.x {
                self.x
            } else {
                other.x
            },
            y: if self.y <= other.y {
                self.y
            } else {
                other.y
            },
        }
    }

    /// The component-wise maximum of `self` and `other`.
    pub fn max(&self, other: &Position) -> (r: Position)
        ensures
            r == pos_max(*self, *other),
    {
        Position {
            x: if self.x >= other.x {
                self.x
            } else {
                other.x
            },
            y: if self.y >= other.y {
                self.y
            } else {
                other.y
            },
        }
    }

    /// Folds `self` into a `(min, max)` corner pair.
    pub fn min_max(&self, min_max: &(Position, Position)) -> (r: (Position, Position))
        ensures
            r.0 == pos_min(*self, min_max.0),
            r.1 == pos_max(*self, min_max.1),
    {
        (self.min(&min_max.0), self.max(&min_max.1))
    }

    /// Vector translation, yielding a new position.
    pub fn add(&self, other: &Position) -> (r: Position)
        requires
            fits_coord(self.x + other.x),
            fits_coord(self.y + other.y),
        ensures
            r.x == self.x + other.x,
            r.y == self.y + other.y,
    {
        Position { x: self.x + other.x, y: self.y + other.y }
    }
}

impl Vec2 {
    pub fn new(x: i32, y: i32) -> (v: Vec2)
        ensures
            v == (Vec2 { x, y }),
    {
        Vec2 { x, y }
    }
}

/// One coordinate of the transform in executable form: `(c + t) * s`,
/// computed exactly in `i64`, then cut back by `SCALE` truncating toward
/// zero.
fn scale_coord(c: i32, t: i32, s: i32) -> (r: i32)
    requires
        fits_coord(tcoord(c as int, t as int, s as int)),
    ensures
        r as int == tcoord(c as int, t as int, s as int),
{
    let a: i64 = (c as i64) + (t as i64);
    proof {
        assert((-(0x1_0000_0000i64) < a < 0x1_0000_0000i64 && -(0x8000_0000i64) <= (s as i64)
            < 0x8000_0000i64) ==> i64::MIN < a * (s as i64) < i64::MAX) by (nonlinear_arith);
    }
    let prod: i64 = a * (s as i64);
    let q: i64 = crate::fixed::whole_units(prod);
    q as i32
}

/// `p` translated by `t`, then scaled component-wise by `s`. Translation
/// happens first; the two orders are not interchangeable.
pub fn ptransform(p: Position, t: Vec2, s: Vec2) -> (r: Position)
    requires
        can_transform(p, t, s),
    ensures
        r == transform_pos(p, t, s),
{
    Position { x: scale_coord(p.x, t.x, s.x), y: scale_coord(p.y, t.y, s.y) }
}

}
