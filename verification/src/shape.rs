//! The shape primitives: a color directive and five geometric variants.
//!
//! Every variant exposes its coordinates through one position-visitation
//! spec, `positions_spec`; bounding boxes and the whole-shape transform are
//! specified generically over that sequence, so the geometry logic is
//! written once for all variants.

use vstd::prelude::*;
use crate::bounds::{bb_max, bb_min, bb_of, lemma_bb_of_transform, Bounds};
use crate::fixed::{append_fp2, append_fp4, fp2_chars, fp4_chars, lemma_fp4_form};
use crate::position::{
    all_transformable,
    can_transform,
    pos_max,
    pos_min,
    ptransform,
    transform_pairs,
    transform_pos,
    transform_seq,
    Position,
    Vec2,
};

verus! {

/// One drawable primitive.
///
/// `SetRGB` carries no geometry: it emits a PostScript color-state change
/// that affects every shape emitted after it, so document order is
/// semantically significant. Color components are in hundredths (`100` is
/// full intensity); coordinates and radii are fixed-point values in
/// `1/SCALE` units.
pub enum Shape {
    /// Color directive `(r, g, b)`, each component in hundredths.
    SetRGB(i32, i32, i32),
    /// A filled circle at a position with a radius.
    Point(Position, i32),
    /// A cluster of filled circles sharing one radius.
    Points(Vec<Position>, i32),
    /// A stroked segment between two positions.
    Line(Position, Position),
    /// A batch of stroked segments.
    Lines(Vec<(Position, Position)>),
    /// A stroked open path through its positions, in order.
    PolyLine(Vec<Position>),
}

/// The positions of a segment sequence, flattened in order: each pair
/// contributes its first and then its second endpoint.
pub open spec fn pairs_positions(ss: Seq<(Position, Position)>) -> Seq<Position>
    decreases ss.len(),
{
    if ss.len() == 0 {
        Seq::empty()
    } else {
        pairs_positions(ss.drop_last()) + seq![ss.last().0, ss.last().1]
    }
}

/// Flattening a segment sequence doubles its length and keeps order:
/// pair `i` lands at positions `2i` and `2i + 1`.
pub proof fn lemma_pairs_positions_index(ss: Seq<(Position, Position)>)
    ensures
        pairs_positions(ss).len() == 2 * ss.len(),
        forall|i: int|
            0 <= i < ss.len() ==> pairs_positions(ss)[2 * i] == (#[trigger] ss[i]).0
                && pairs_positions(ss)[2 * i + 1] == ss[i].1,
    decreases ss.len(),
{
    if ss.len() > 0 {
        lemma_pairs_positions_index(ss.drop_last());
        assert forall|i: int|
            0 <= i < ss.len() implies pairs_positions(ss)[2 * i] == (#[trigger] ss[i]).0
            && pairs_positions(ss)[2 * i + 1] == ss[i].1 by {
            if i < ss.len() - 1 {
                assert(ss.drop_last()[i] == ss[i]);
                assert(pairs_positions(ss)[2 * i] == pairs_positions(ss.drop_last())[2 * i]);
                assert(pairs_positions(ss)[2 * i + 1] == pairs_positions(ss.drop_last())[2 * i
                    + 1]);
            }
        }
    }
}

impl Shape {
    /// The position-visitation order of the shape: every coordinate pair it
    /// owns, in emission order. `SetRGB` owns none.
    pub open spec fn positions_spec(self) -> Seq<Position> {
        match self {
            Shape::SetRGB(_, _, _) => Seq::empty(),
            Shape::Point(p, _) => seq![p],
            Shape::Points(ps, _) => ps@,
            Shape::Line(a, b) => seq![a, b],
            Shape::Lines(ss) => pairs_positions(ss@),
            Shape::PolyLine(ps) => ps@,
        }
    }

    /// Read-only position visitation: the shape's positions as a vector, in
    /// visitation order.
    pub fn positions(&self) -> (v: Vec<Position>)
        ensures
            v@ == self.positions_spec(),
    {
        match self {
            Shape::SetRGB(_, _, _) => Vec::new(),
            Shape::Point(p, _) => {
                let mut v = Vec::new();
                v.push(*p);
                proof {
                    assert(v@ =~= self.positions_spec());
                }
                v
            },
            Shape::Line(a, b) => {
                let mut v = Vec::new();
                v.push(*a);
                v.push(*b);
                proof {
                    assert(v@ =~= self.positions_spec());
                }
                v
            },
            Shape::Points(ps, _) => copy_positions(ps),
            Shape::PolyLine(ps) => copy_positions(ps),
            Shape::Lines(ss) => {
                let mut v: Vec<Position> = Vec::new();
                let n = ss.len();
                for i in 0..n
                    invariant
                        n == ss@.len(),
                        v@ == pairs_positions(ss@.subrange(0, i as int)),
                {
                    v.push(ss[i].0);
                    v.push(ss[i].1);
                    proof {
                        let pre = ss@.subrange(0, i as int);
                        let cur = ss@.subrange(0, i + 1);
                        assert(cur.drop_last() =~= pre);
                        assert(cur.last() == ss@[i as int]);
                        assert(v@ =~= pairs_positions(cur));
                    }
                }
                proof {
                    assert(ss@.subrange(0, n as int) =~= ss@);
                }
                v
            },
        }
    }

    /// Derived generically from position visitation: the bounding box of
    /// every visited position, folded into a fresh accumulator. `SetRGB`
    /// yields an unbounded one.
    pub fn bounds(&self) -> (b: Bounds)
        ensures
            b.corners() == bb_of(self.positions_spec()),
    {
        let ps = self.positions();
        let mut b = Bounds::new();
        let n = ps.len();
        for i in 0..n
            invariant
                n == ps@.len(),
                ps@ == self.positions_spec(),
                b.corners() == bb_of(ps@.subrange(0, i as int)),
        {
            b.add_position(ps[i]);
            proof {
                let cur = ps@.subrange(0, i + 1);
                assert(cur.drop_last() =~= ps@.subrange(0, i as int));
                assert(cur.last() == ps@[i as int]);
            }
        }
        proof {
            assert(ps@.subrange(0, n as int) =~= ps@);
        }
        b
    }

    /// Derived generically from position visitation: replaces every owned
    /// position `p` with `scale ⊙ (p + translation)` — translate first,
    /// then scale; the two orders are not interchangeable. Color and
    /// radius data are kept.
    pub fn transform(&mut self, translation: Vec2, scale: Vec2)
        requires
            all_transformable(old(self).positions_spec(), translation, scale),
        ensures
            shape_transformed(*old(self), *final(self), translation, scale),
            final(self).positions_spec() == transform_seq(
                old(self).positions_spec(),
                translation,
                scale,
            ),
    {
        match self {
            Shape::SetRGB(_, _, _) => {},
            Shape::Point(p, _) => {
                proof {
                    assert(old(self).positions_spec()[0] == *p);
                }
                *p = ptransform(*p, translation, scale);
            },
            Shape::Line(a, b) => {
                proof {
                    assert(old(self).positions_spec()[0] == *a);
                    assert(old(self).positions_spec()[1] == *b);
                }
                let a2 = ptransform(*a, translation, scale);
                let b2 = ptransform(*b, translation, scale);
                *a = a2;
                *b = b2;
            },
            Shape::Points(ps, _) => {
                proof {
                    assert(ps@ == old(self).positions_spec());
                }
                transform_vec(ps, translation, scale);
            },
            Shape::PolyLine(ps) => {
                proof {
                    assert(ps@ == old(self).positions_spec());
                }
                transform_vec(ps, translation, scale);
            },
            Shape::Lines(ss) => {
                proof {
                    lemma_pairs_positions_index(ss@);
                    assert forall|i: int|
                        0 <= i < ss@.len() implies can_transform(
                        (#[trigger] ss@[i]).0,
                        translation,
                        scale,
                    ) && can_transform(ss@[i].1, translation, scale) by {
                        assert(old(self).positions_spec()[2 * i] == ss@[i].0);
                        assert(old(self).positions_spec()[2 * i + 1] == ss@[i].1);
                    }
                }
                transform_pairs_vec(ss, translation, scale);
            },
        }
        proof {
            lemma_shape_transformed_positions(*old(self), *self, translation, scale);
        }
    }
}

/// A coordinate pair `x y`, both rendered to four decimal places.
pub open spec fn coord_pair_chars(p: Position) -> Seq<char> {
    fp4_chars(p.x as int) + " "@ + fp4_chars(p.y as int)
}

/// The color directive body: `r g b setrgbcolor`, two decimal places each.
pub open spec fn setrgb_chars(r: i32, g: i32, b: i32) -> Seq<char> {
    fp2_chars(r as int) + " "@ + fp2_chars(g as int) + " "@ + fp2_chars(b as int)
        + " setrgbcolor\n"@
}

/// A single filled circle drawn immediately.
pub open spec fn point_chars(p: Position, radius: i32) -> Seq<char> {
    "newpath "@ + coord_pair_chars(p) + " "@ + fp4_chars(radius as int) + " 0 360 arc fill\n"@
}

/// The reusable circle procedure of a `Points` cluster, closing over the
/// cluster's radius.
pub open spec fn points_def_chars(radius: i32) -> Seq<char> {
    "/p {\n2 dict begin\n/y exch def\n/x exch def\ngsave\nnewpath x y "@ + fp4_chars(
        radius as int,
    ) + " 0 360 arc fill\ngrestore\nend\n} def\n"@
}

/// One procedure invocation per cluster position, in order.
pub open spec fn points_calls_chars(ps: Seq<Position>) -> Seq<char>
    decreases ps.len(),
{
    if ps.len() == 0 {
        Seq::empty()
    } else {
        points_calls_chars(ps.drop_last()) + coord_pair_chars(ps.last()) + " p\n"@
    }
}

/// An immediately stroked segment.
pub open spec fn line_chars(a: Position, b: Position) -> Seq<char> {
    "newpath "@ + coord_pair_chars(a) + " moveto "@ + coord_pair_chars(b) + " lineto stroke\n"@
}

/// The reusable segment-stroking procedure of a `Lines` batch.
pub open spec fn lines_def_chars() -> Seq<char> {
    "/l {\n2 dict begin\n/y2 exch def\n/x2 exch def\n/y1 exch def\n/x1 exch def\ngsave\nnewpath x1 y1 moveto x2 y2 lineto stroke\ngrestore\nend\n} def\n"@
}

/// One procedure invocation per segment, in order.
pub open spec fn lines_calls_chars(ss: Seq<(Position, Position)>) -> Seq<char>
    decreases ss.len(),
{
    if ss.len() == 0 {
        Seq::empty()
    } else {
        lines_calls_chars(ss.drop_last()) + coord_pair_chars(ss.last().0) + " "@
            + coord_pair_chars(ss.last().1) + " l\n"@
    }
}

/// One `lineto` per position, in order.
pub open spec fn polyline_linetos_chars(ps: Seq<Position>) -> Seq<char>
    decreases ps.len(),
{
    if ps.len() == 0 {
        Seq::empty()
    } else {
        polyline_linetos_chars(ps.drop_last()) + coord_pair_chars(ps.last()) + " lineto "@
    }
}

/// The body of a polyline: empty for fewer than two positions, otherwise
/// one `moveto`, a `lineto` per remaining position, and one `stroke`.
pub open spec fn polyline_chars(ps: Seq<Position>) -> Seq<char> {
    if ps.len() < 2 {
        Seq::empty()
    } else {
        "newpath "@ + coord_pair_chars(ps[0]) + " moveto "@ + polyline_linetos_chars(ps.skip(1))
            + "stroke\n"@
    }
}

impl Shape {
    /// The EPS body text the shape emits.
    pub open spec fn body_chars(self) -> Seq<char> {
        match self {
            Shape::SetRGB(r, g, b) => setrgb_chars(r, g, b),
            Shape::Point(p, radius) => point_chars(p, radius),
            Shape::Points(ps, radius) => points_def_chars(radius) + points_calls_chars(ps@),
            Shape::Line(a, b) => line_chars(a, b),
            Shape::Lines(ss) => lines_def_chars() + lines_calls_chars(ss@),
            Shape::PolyLine(ps) => polyline_chars(ps@),
        }
    }

    /// Appends the shape's EPS body to `out`.
    pub fn write_eps(&self, out: &mut String)
        ensures
            final(out)@ == old(out)@ + self.body_chars(),
    {
        match self {
            Shape::SetRGB(r, g, b) => {
                append_fp2(out, *r as i64);
                out.append(" ");
                append_fp2(out, *g as i64);
                out.append(" ");
                append_fp2(out, *b as i64);
                out.append(" setrgbcolor\n");
                proof {
                    assert(out@ =~= old(out)@ + self.body_chars());
                }
            },
            Shape::Point(p, radius) => {
                out.append("newpath ");
                append_coord_pair(out, *p);
                out.append(" ");
                append_fp4(out, *radius as i64);
                out.append(" 0 360 arc fill\n");
                proof {
                    assert(out@ =~= old(out)@ + self.body_chars());
                }
            },
            Shape::Points(ps, radius) => {
                write_points_body(ps, *radius, out);
            },
            Shape::Line(a, b) => {
                out.append("newpath ");
                append_coord_pair(out, *a);
                out.append(" moveto ");
                append_coord_pair(out, *b);
                out.append(" lineto stroke\n");
                proof {
                    assert(out@ =~= old(out)@ + self.body_chars());
                }
            },
            Shape::Lines(ss) => {
                write_lines_body(ss, out);
            },
            Shape::PolyLine(ps) => {
                write_polyline_body(ps, out);
            },
        }
    }
}

/// Appends a `Points` cluster body: the circle procedure, then one
/// invocation per position.
fn write_points_body(ps: &Vec<Position>, radius: i32, out: &mut String)
    ensures
        final(out)@ == old(out)@ + points_def_chars(radius) + points_calls_chars(ps@),
{
    out.append("/p {\n2 dict begin\n/y exch def\n/x exch def\ngsave\nnewpath x y ");
    append_fp4(out, radius as i64);
    out.append(" 0 360 arc fill\ngrestore\nend\n} def\n");
    proof {
        assert(out@ =~= old(out)@ + points_def_chars(radius));
    }
    let n = ps.len();
    for i in 0..n
        invariant
            n == ps@.len(),
            out@ == old(out)@ + points_def_chars(radius) + points_calls_chars(
                ps@.subrange(0, i as int),
            ),
    {
        append_coord_pair(out, ps[i]);
        out.append(" p\n");
        proof {
            let cur = ps@.subrange(0, i + 1);
            assert(cur.drop_last() =~= ps@.subrange(0, i as int));
            assert(cur.last() == ps@[i as int]);
            assert(out@ =~= old(out)@ + points_def_chars(radius) + points_calls_chars(cur));
        }
    }
    proof {
        assert(ps@.subrange(0, n as int) =~= ps@);
    }
}

/// Appends a `Lines` batch body: the stroke procedure, then one invocation
/// per segment.
fn write_lines_body(ss: &Vec<(Position, Position)>, out: &mut String)
    ensures
        final(out)@ == old(out)@ + lines_def_chars() + lines_calls_chars(ss@),
{
    out.append(
        "/l {\n2 dict begin\n/y2 exch def\n/x2 exch def\n/y1 exch def\n/x1 exch def\ngsave\nnewpath x1 y1 moveto x2 y2 lineto stroke\ngrestore\nend\n} def\n",
    );
    proof {
        assert(out@ =~= old(out)@ + lines_def_chars());
    }
    let n = ss.len();
    for i in 0..n
        invariant
            n == ss@.len(),
            out@ == old(out)@ + lines_def_chars() + lines_calls_chars(ss@.subrange(0, i as int)),
    {
        append_coord_pair(out, ss[i].0);
        out.append(" ");
        append_coord_pair(out, ss[i].1);
        out.append(" l\n");
        proof {
            let cur = ss@.subrange(0, i + 1);
            assert(cur.drop_last() =~= ss@.subrange(0, i as int));
            assert(cur.last() == ss@[i as int]);
            assert(out@ =~= old(out)@ + lines_def_chars() + lines_calls_chars(cur));
        }
    }
    proof {
        assert(ss@.subrange(0, n as int) =~= ss@);
    }
}

/// Appends a polyline body: nothing for fewer than two positions,
/// otherwise `moveto`, the `lineto` chain, and `stroke`.
fn write_polyline_body(ps: &Vec<Position>, out: &mut String)
    ensures
        final(out)@ == old(out)@ + polyline_chars(ps@),
{
    let n = ps.len();
    if n >= 2 {
        out.append("newpath ");
        append_coord_pair(out, ps[0]);
        out.append(" moveto ");
        proof {
            assert(out@ =~= old(out)@ + "newpath "@ + coord_pair_chars(ps@[0]) + " moveto "@);
        }
        for i in 1..n
            invariant
                n == ps@.len(),
                n >= 2,
                out@ == old(out)@ + "newpath "@ + coord_pair_chars(ps@[0]) + " moveto "@
                    + polyline_linetos_chars(ps@.subrange(1, i as int)),
        {
            append_coord_pair(out, ps[i]);
            out.append(" lineto ");
            proof {
                let cur = ps@.subrange(1, i + 1);
                assert(cur.drop_last() =~= ps@.subrange(1, i as int));
                assert(cur.last() == ps@[i as int]);
                assert(out@ =~= old(out)@ + "newpath "@ + coord_pair_chars(ps@[0]) + " moveto "@
                    + polyline_linetos_chars(cur));
            }
        }
        out.append("stroke\n");
        proof {
            assert(ps@.subrange(1, n as int) =~= ps@.skip(1));
            assert(out@ =~= old(out)@ + polyline_chars(ps@));
        }
    }
}

/// Appends `x y`, both to four decimal places.
fn append_coord_pair(out: &mut String, p: Position)
    ensures
        final(out)@ == old(out)@ + coord_pair_chars(p),
{
    append_fp4(out, p.x as i64);
    out.append(" ");
    append_fp4(out, p.y as i64);
    proof {
        assert(out@ =~= old(out)@ + coord_pair_chars(p));
    }
}

/// Whether both endpoints of every segment stay in range under the
/// transform `(t, s)`.
pub open spec fn all_pairs_transformable(ss: Seq<(Position, Position)>, t: Vec2, s: Vec2) -> bool {
    forall|i: int|
        0 <= i < ss.len() ==> can_transform((#[trigger] ss[i]).0, t, s) && can_transform(
            ss[i].1,
            t,
            s,
        )
}

/// How a transformed shape relates to the shape it came from: the same
/// variant with the same non-geometric data (color, radius), and every
/// owned position replaced by its translate-then-scale image.
pub open spec fn shape_transformed(pre: Shape, post: Shape, t: Vec2, s: Vec2) -> bool {
    match (pre, post) {
        (Shape::SetRGB(r1, g1, b1), Shape::SetRGB(r2, g2, b2)) => r2 == r1 && g2 == g1 && b2
            == b1,
        (Shape::Point(p, r), Shape::Point(q, r2)) => q == transform_pos(p, t, s) && r2 == r,
        (Shape::Points(ps, r), Shape::Points(qs, r2)) => qs@ == transform_seq(ps@, t, s) && r2
            == r,
        (Shape::Line(a, b), Shape::Line(a2, b2)) => a2 == transform_pos(a, t, s) && b2
            == transform_pos(b, t, s),
        (Shape::Lines(ss), Shape::Lines(ss2)) => ss2@ == transform_pairs(ss@, t, s),
        (Shape::PolyLine(ps), Shape::PolyLine(qs)) => qs@ == transform_seq(ps@, t, s),
        _ => false,
    }
}

/// Flattening commutes with transforming: the flattened positions of the
/// transformed segments are the transformed flattened positions.
pub proof fn lemma_pairs_positions_transform(ss: Seq<(Position, Position)>, t: Vec2, s: Vec2)
    ensures
        pairs_positions(transform_pairs(ss, t, s)) == transform_seq(pairs_positions(ss), t, s),
{
    lemma_pairs_positions_index(ss);
    lemma_pairs_positions_index(transform_pairs(ss, t, s));
    let lhs = pairs_positions(transform_pairs(ss, t, s));
    let rhs = transform_seq(pairs_positions(ss), t, s);
    assert forall|j: int| 0 <= j < lhs.len() implies lhs[j] == rhs[j] by {
        let i = j / 2;
        assert(j == 2 * i || j == 2 * i + 1);
        assert(transform_pairs(ss, t, s)[i] == (
            transform_pos(ss[i].0, t, s),
            transform_pos(ss[i].1, t, s),
        ));
    }
    assert(lhs =~= rhs);
}

/// A transformed shape visits exactly the transformed positions of the
/// original, in the same order.
pub proof fn lemma_shape_transformed_positions(pre: Shape, post: Shape, t: Vec2, s: Vec2)
    requires
        shape_transformed(pre, post, t, s),
    ensures
        post.positions_spec() == transform_seq(pre.positions_spec(), t, s),
{
    match (pre, post) {
        (Shape::SetRGB(_, _, _), Shape::SetRGB(_, _, _)) => {
            assert(post.positions_spec() =~= transform_seq(pre.positions_spec(), t, s));
        },
        (Shape::Point(p, _), Shape::Point(q, _)) => {
            assert(post.positions_spec() =~= transform_seq(pre.positions_spec(), t, s));
        },
        (Shape::Line(a, b), Shape::Line(a2, b2)) => {
            assert(post.positions_spec() =~= transform_seq(pre.positions_spec(), t, s));
        },
        (Shape::Points(ps, _), Shape::Points(qs, _)) => {
            assert(post.positions_spec() =~= transform_seq(pre.positions_spec(), t, s));
        },
        (Shape::PolyLine(ps), Shape::PolyLine(qs)) => {
            assert(post.positions_spec() =~= transform_seq(pre.positions_spec(), t, s));
        },
        (Shape::Lines(ss), Shape::Lines(ss2)) => {
            lemma_pairs_positions_transform(ss@, t, s);
        },
        _ => {},
    }
}

/// Transforms every position of a vector in place.
fn transform_vec(ps: &mut Vec<Position>, t: Vec2, s: Vec2)
    requires
        all_transformable(old(ps)@, t, s),
    ensures
        final(ps)@ == transform_seq(old(ps)@, t, s),
{
    let ghost ops = ps@;
    let n = ps.len();
    for i in 0..n
        invariant
            n == ps@.len(),
            ps@.len() == ops.len(),
            all_transformable(ops, t, s),
            forall|j: int| 0 <= j < i ==> ps@[j] == transform_pos(ops[j], t, s),
            forall|j: int| i <= j < n ==> ps@[j] == ops[j],
    {
        proof {
            assert(ps@[i as int] == ops[i as int]);
            assert(can_transform(ops[i as int], t, s));
        }
        let q = ptransform(ps[i], t, s);
        ps[i] = q;
    }
    proof {
        assert(ps@ =~= transform_seq(ops, t, s));
    }
}

/// Transforms both endpoints of every segment of a vector in place.
fn transform_pairs_vec(ss: &mut Vec<(Position, Position)>, t: Vec2, s: Vec2)
    requires
        all_pairs_transformable(old(ss)@, t, s),
    ensures
        final(ss)@ == transform_pairs(old(ss)@, t, s),
{
    let ghost oss = ss@;
    let n = ss.len();
    for i in 0..n
        invariant
            n == ss@.len(),
            ss@.len() == oss.len(),
            all_pairs_transformable(oss, t, s),
            forall|j: int|
                0 <= j < i ==> #[trigger] ss@[j] == (
                    transform_pos(oss[j].0, t, s),
                    transform_pos(oss[j].1, t, s),
                ),
            forall|j: int| i <= j < n ==> ss@[j] == oss[j],
    {
        proof {
            assert(ss@[i as int] == oss[i as int]);
            assert(can_transform(oss[i as int].0, t, s) && can_transform(oss[i as int].1, t, s));
        }
        let a = ptransform(ss[i].0, t, s);
        let b = ptransform(ss[i].1, t, s);
        ss[i] = (a, b);
    }
    proof {
        assert(ss@ =~= transform_pairs(oss, t, s));
    }
}

/// Copies a position vector (the read visitation of the list-backed
/// variants).
fn copy_positions(ps: &Vec<Position>) -> (v: Vec<Position>)
    ensures
        v@ == ps@,
{
    let mut v: Vec<Position> = Vec::new();
    let n = ps.len();
    for i in 0..n
        invariant
            n == ps@.len(),
            v@ == ps@.subrange(0, i as int),
    {
        v.push(ps[i]);
        proof {
            assert(v@ =~= ps@.subrange(0, i + 1));
        }
    }
    proof {
        assert(ps@.subrange(0, n as int) =~= ps@);
    }
    v
}

/// Law: transforming a shape and then taking its bounds equals taking the
/// bounds first and mapping the two corners through the transform,
/// re-reduced to min and max. A shape without geometry stays unbounded.
pub proof fn lemma_shape_transform_bounds(pre: Shape, post: Shape, t: Vec2, s: Vec2)
    requires
        shape_transformed(pre, post, t, s),
        all_transformable(pre.positions_spec(), t, s),
    ensures
        pre.positions_spec().len() == 0 ==> bb_of(post.positions_spec()) is None,
        pre.positions_spec().len() > 0 ==> bb_of(post.positions_spec()) == Some(
            (
                pos_min(
                    transform_pos(bb_min(bb_of(pre.positions_spec())), t, s),
                    transform_pos(bb_max(bb_of(pre.positions_spec())), t, s),
                ),
                pos_max(
                    transform_pos(bb_min(bb_of(pre.positions_spec())), t, s),
                    transform_pos(bb_max(bb_of(pre.positions_spec())), t, s),
                ),
            ),
        ),
{
    lemma_shape_transformed_positions(pre, post, t, s);
    if pre.positions_spec().len() > 0 {
        lemma_bb_of_transform(pre.positions_spec(), t, s);
    }
}

/// The number of tokens of `ts` equal to the word `w`.
pub open spec fn count_token(ts: Seq<Seq<char>>, w: Seq<char>) -> int
    decreases ts.len(),
{
    if ts.len() == 0 {
        0
    } else {
        count_token(ts.drop_last(), w) + if ts.last() == w {
            1int
        } else {
            0int
        }
    }
}

/// The tokens of `ts` joined, each followed by one space.
pub open spec fn join_sp(ts: Seq<Seq<char>>) -> Seq<char>
    decreases ts.len(),
{
    if ts.len() == 0 {
        Seq::empty()
    } else {
        join_sp(ts.drop_last()) + ts.last() + " "@
    }
}

/// The `x y lineto` token groups of a polyline tail.
pub open spec fn polyline_tail_tokens(qs: Seq<Position>) -> Seq<Seq<char>>
    decreases qs.len(),
{
    if qs.len() == 0 {
        Seq::empty()
    } else {
        polyline_tail_tokens(qs.drop_last()) + seq![
            fp4_chars(qs.last().x as int),
            fp4_chars(qs.last().y as int),
            "lineto"@,
        ]
    }
}

/// The tokens of a polyline body before the trailing `stroke`: one
/// `moveto` group, then one `lineto` group per remaining position.
pub open spec fn polyline_tokens(ps: Seq<Position>) -> Seq<Seq<char>> {
    seq!["newpath"@, fp4_chars(ps[0].x as int), fp4_chars(ps[0].y as int), "moveto"@]
        + polyline_tail_tokens(ps.skip(1))
}

/// The four PostScript operator words of a polyline body are pairwise
/// distinct.
proof fn lemma_words_distinct()
    ensures
        "newpath"@ != "moveto"@,
        "newpath"@ != "lineto"@,
        "newpath"@ != "stroke"@,
        "moveto"@ != "lineto"@,
        "moveto"@ != "stroke"@,
        "lineto"@ != "stroke"@,
{
    reveal_strlit("newpath");
    reveal_strlit("moveto");
    reveal_strlit("lineto");
    reveal_strlit("stroke");
    assert("newpath"@[0] == 'n' && "moveto"@[0] == 'm' && "lineto"@[0] == 'l' && "stroke"@[0]
        == 's');
}

/// A fixed-point rendering is no PostScript word: it starts with a minus
/// sign or a digit.
proof fn lemma_fp4_ne_words(v: int)
    ensures
        fp4_chars(v) != "newpath"@,
        fp4_chars(v) != "moveto"@,
        fp4_chars(v) != "lineto"@,
        fp4_chars(v) != "stroke"@,
{
    reveal_strlit("newpath");
    reveal_strlit("moveto");
    reveal_strlit("lineto");
    reveal_strlit("stroke");
    lemma_fp4_form(v);
    assert(fp4_chars(v)[0] != 'n' && fp4_chars(v)[0] != 'm' && fp4_chars(v)[0] != 'l'
        && fp4_chars(v)[0] != 's');
}

/// Counting distributes over token concatenation.
proof fn lemma_count_token_concat(a: Seq<Seq<char>>, b: Seq<Seq<char>>, w: Seq<char>)
    ensures
        count_token(a + b, w) == count_token(a, w) + count_token(b, w),
    decreases b.len(),
{
    if b.len() == 0 {
        assert(a + b =~= a);
    } else {
        assert((a + b).drop_last() =~= a + b.drop_last());
        assert((a + b).last() == b.last());
        lemma_count_token_concat(a, b.drop_last(), w);
    }
}

/// Joining distributes over token concatenation.
proof fn lemma_join_sp_concat(a: Seq<Seq<char>>, b: Seq<Seq<char>>)
    ensures
        join_sp(a + b) == join_sp(a) + join_sp(b),
    decreases b.len(),
{
    if b.len() == 0 {
        assert(a + b =~= a);
        assert(join_sp(a) + join_sp(b) =~= join_sp(a));
    } else {
        assert((a + b).drop_last() =~= a + b.drop_last());
        assert((a + b).last() == b.last());
        lemma_join_sp_concat(a, b.drop_last());
        assert(join_sp(a + b) =~= join_sp(a) + join_sp(b));
    }
}

/// A polyline tail holds one `lineto` per position and no other operator,
/// and joins to the body's `lineto` chain.
proof fn lemma_polyline_tail_tokens(qs: Seq<Position>)
    ensures
        count_token(polyline_tail_tokens(qs), "moveto"@) == 0,
        count_token(polyline_tail_tokens(qs), "lineto"@) == qs.len(),
        count_token(polyline_tail_tokens(qs), "stroke"@) == 0,
        join_sp(polyline_tail_tokens(qs)) == polyline_linetos_chars(qs),
    decreases qs.len(),
{
    reveal_strlit("moveto");
    reveal_strlit("lineto");
    reveal_strlit("stroke");
    reveal_strlit(" lineto ");
    reveal_strlit(" ");
    lemma_words_distinct();
    reveal_with_fuel(count_token, 5);
    reveal_with_fuel(join_sp, 5);
    if qs.len() == 0 {
        assert(join_sp(polyline_tail_tokens(qs)) =~= polyline_linetos_chars(qs));
    } else {
        lemma_polyline_tail_tokens(qs.drop_last());
        let last = qs.last();
        let group = seq![fp4_chars(last.x as int), fp4_chars(last.y as int), "lineto"@];
        lemma_count_token_concat(polyline_tail_tokens(qs.drop_last()), group, "moveto"@);
        lemma_count_token_concat(polyline_tail_tokens(qs.drop_last()), group, "lineto"@);
        lemma_count_token_concat(polyline_tail_tokens(qs.drop_last()), group, "stroke"@);
        lemma_fp4_ne_words(last.x as int);
        lemma_fp4_ne_words(last.y as int);
        assert(group.drop_last() =~= seq![fp4_chars(last.x as int), fp4_chars(last.y as int)]);
        assert(group.drop_last().drop_last() =~= seq![fp4_chars(last.x as int)]);
        assert(group.drop_last().drop_last().drop_last() =~= Seq::<Seq<char>>::empty());
        assert(count_token(group, "moveto"@) == 0);
        assert(count_token(group, "lineto"@) == 1);
        assert(count_token(group, "stroke"@) == 0);
        lemma_join_sp_concat(polyline_tail_tokens(qs.drop_last()), group);
        assert(join_sp(group) =~= fp4_chars(last.x as int) + " "@ + fp4_chars(last.y as int)
            + " "@ + "lineto"@ + " "@);
        assert(" "@ + "lineto"@ + " "@ =~= " lineto "@);
        assert(join_sp(group) =~= coord_pair_chars(last) + " lineto "@);
        assert(join_sp(polyline_tail_tokens(qs)) =~= polyline_linetos_chars(qs));
    }
}

/// Law: a polyline with fewer than two positions emits nothing; with `n`
/// positions (`n >= 2`) its body is the space-joined token stream of
/// exactly one `moveto` group and `n - 1` `lineto` groups, closed by one
/// trailing `stroke`, and no other operator among the tokens.
pub proof fn lemma_polyline_operators(ps: Seq<Position>)
    ensures
        ps.len() < 2 ==> polyline_chars(ps) == Seq::<char>::empty(),
        ps.len() >= 2 ==> polyline_chars(ps) == join_sp(polyline_tokens(ps)) + "stroke\n"@,
        ps.len() >= 2 ==> count_token(polyline_tokens(ps), "moveto"@) == 1,
        ps.len() >= 2 ==> count_token(polyline_tokens(ps), "lineto"@) == ps.len() - 1,
        ps.len() >= 2 ==> count_token(polyline_tokens(ps), "stroke"@) == 0,
        ps.len() >= 2 ==> count_token(polyline_tokens(ps), "newpath"@) == 1,
{
    if ps.len() >= 2 {
        reveal_strlit("newpath");
        reveal_strlit("moveto");
        reveal_strlit("lineto");
        reveal_strlit("stroke");
        reveal_strlit(" ");
        reveal_strlit("newpath ");
        reveal_strlit(" moveto ");
        reveal_with_fuel(count_token, 6);
        reveal_with_fuel(join_sp, 6);
        let front = seq![
            "newpath"@,
            fp4_chars(ps[0].x as int),
            fp4_chars(ps[0].y as int),
            "moveto"@,
        ];
        let tail = polyline_tail_tokens(ps.skip(1));
        lemma_polyline_tail_tokens(ps.skip(1));
        lemma_fp4_ne_words(ps[0].x as int);
        lemma_fp4_ne_words(ps[0].y as int);
        assert(front.drop_last() =~= seq![
            "newpath"@,
            fp4_chars(ps[0].x as int),
            fp4_chars(ps[0].y as int),
        ]);
        assert(front.drop_last().drop_last() =~= seq![
            "newpath"@,
            fp4_chars(ps[0].x as int),
        ]);
        assert(front.drop_last().drop_last().drop_last() =~= seq!["newpath"@]);
        assert(seq!["newpath"@].drop_last() =~= Seq::<Seq<char>>::empty());
        lemma_words_distinct();
        lemma_count_token_concat(front, tail, "moveto"@);
        lemma_count_token_concat(front, tail, "lineto"@);
        lemma_count_token_concat(front, tail, "stroke"@);
        lemma_count_token_concat(front, tail, "newpath"@);
        assert(count_token(front, "moveto"@) == 1);
        assert(count_token(front, "lineto"@) == 0);
        assert(count_token(front, "stroke"@) == 0);
        assert(count_token(front, "newpath"@) == 1);
        assert(count_token(tail, "newpath"@) == 0) by {
            lemma_tail_tokens_no_newpath(ps.skip(1));
        }
        lemma_join_sp_concat(front, tail);
        assert(join_sp(front) =~= "newpath"@ + " "@ + fp4_chars(ps[0].x as int) + " "@
            + fp4_chars(ps[0].y as int) + " "@ + "moveto"@ + " "@);
        assert("newpath"@ + " "@ =~= "newpath "@);
        assert(" "@ + "moveto"@ + " "@ =~= " moveto "@);
        assert(join_sp(front) =~= "newpath "@ + coord_pair_chars(ps[0]) + " moveto "@);
        assert(ps.skip(1).len() == ps.len() - 1);
        assert(polyline_chars(ps) =~= join_sp(polyline_tokens(ps)) + "stroke\n"@);
    }
}

/// A polyline tail never emits `newpath`.
proof fn lemma_tail_tokens_no_newpath(qs: Seq<Position>)
    ensures
        count_token(polyline_tail_tokens(qs), "newpath"@) == 0,
    decreases qs.len(),
{
    reveal_strlit("newpath");
    reveal_strlit("lineto");
    lemma_words_distinct();
    reveal_with_fuel(count_token, 5);
    reveal_with_fuel(join_sp, 5);
    if qs.len() > 0 {
        lemma_tail_tokens_no_newpath(qs.drop_last());
        let last = qs.last();
        let group = seq![fp4_chars(last.x as int), fp4_chars(last.y as int), "lineto"@];
        lemma_count_token_concat(polyline_tail_tokens(qs.drop_last()), group, "newpath"@);
        lemma_fp4_ne_words(last.x as int);
        lemma_fp4_ne_words(last.y as int);
        assert(group.drop_last() =~= seq![fp4_chars(last.x as int), fp4_chars(last.y as int)]);
        assert(group.drop_last().drop_last() =~= seq![fp4_chars(last.x as int)]);
        assert(group.drop_last().drop_last().drop_last() =~= Seq::<Seq<char>>::empty());
        assert(count_token(group, "newpath"@) == 0);
    }
}

}
