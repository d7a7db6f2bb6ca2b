//! Incremental axis-aligned bounding-box accumulation.
//!
//! A `Bounds` starts unbounded and grows as positions are folded in. The
//! spec-level model is `bb_of`, the fold of `bb_add` over a position
//! sequence; the lemmas at the end establish that accumulation does not
//! depend on the order of the positions, that the corners really bound and
//! are attained by the accumulated positions, and that merging two
//! accumulators equals accumulating the concatenation.

use vstd::prelude::*;
use crate::position::{
    all_transformable,
    can_transform,
    lemma_tcoord_mono,
    pos_max,
    pos_min,
    tcoord,
    transform_pos,
    transform_seq,
    Position,
    Vec2,
};

verus! {

/// The corner pair after folding one more position into an accumulator
/// state: the first position makes a degenerate box, later ones widen the
/// corners component-wise.
pub open spec fn bb_add(mm: Option<(Position, Position)>, p: Position) -> Option<
    (Position, Position),
> {
    match mm {
        None => Some((p, p)),
        Some(c) => Some((pos_min(p, c.0), pos_max(p, c.1))),
    }
}

/// The corner pair reached by folding every position of `ps`, in order,
/// into an initially unbounded accumulator.
pub open spec fn bb_of(ps: Seq<Position>) -> Option<(Position, Position)>
    decreases ps.len(),
{
    if ps.len() == 0 {
        None
    } else {
        bb_add(bb_of(ps.drop_last()), ps.last())
    }
}

/// The corner pair after merging a second accumulator state into a first:
/// the second's two corners are folded in; an unbounded second state is a
/// no-op.
pub open spec fn bb_ext(
    a: Option<(Position, Position)>,
    b: Option<(Position, Position)>,
) -> Option<(Position, Position)> {
    match b {
        None => a,
        Some(c) => bb_add(bb_add(a, c.0), c.1),
    }
}

/// The min corner of a bounded state (arbitrary for an unbounded one).
pub open spec fn bb_min(mm: Option<(Position, Position)>) -> Position {
    match mm {
        Some(c) => c.0,
        None => Position { x: 0, y: 0 },
    }
}

/// The max corner of a bounded state (arbitrary for an unbounded one).
pub open spec fn bb_max(mm: Option<(Position, Position)>) -> Position {
    match mm {
        Some(c) => c.1,
        None => Position { x: 0, y: 0 },
    }
}

/// Mutable accumulator of the smallest axis-aligned box containing every
/// position ever added; starts unbounded.
pub struct Bounds {
    min_max: Option<(Position, Position)>,
}

impl Bounds {
    /// The accumulator state: `None` while unbounded, otherwise the
    /// `(min, max)` corner pair.
    pub closed spec fn corners(&self) -> Option<(Position, Position)> {
        self.min_max
    }

    /// A fresh, unbounded accumulator.
    pub fn new() -> (b: Bounds)
        ensures
            b.corners() is None,
    {
        Bounds { min_max: None }
    }

    /// Whether any position has been accumulated.
    pub fn is_bounded(&self) -> (r: bool)
        ensures
            r == (self.corners() is Some),
    {
        self.min_max.is_some()
    }

    /// Folds one position in: the first makes the degenerate box
    /// `{pos, pos}`, later ones update the corners component-wise.
    pub fn add_position(&mut self, pos: Position)
        ensures
            final(self).corners() == bb_add(old(self).corners(), pos),
    {
        let mm = match self.min_max {
            None => (pos, pos),
            Some((min, max)) => (pos.min(&min), pos.max(&max)),
        };
        self.min_max = Some(mm);
    }

    /// Merges another accumulator in by folding its corners; an unbounded
    /// `bounds` is a no-op.
    pub fn extend(&mut self, bounds: Bounds)
        ensures
            final(self).corners() == bb_ext(old(self).corners(), bounds.corners()),
    {
        if let Some((a, b)) = bounds.min_max {
            self.add_position(a);
            self.add_position(b);
        }
    }

    /// The min corner, or `None` while unbounded.
    pub fn min(&self) -> (r: Option<Position>)
        ensures
            r == (match self.corners() {
                Some(c) => Some(c.0),
                None => None::<Position>,
            }),
    {
        match self.min_max {
            Some((mn, _)) => Some(mn),
            None => None,
        }
    }

    /// The max corner, or `None` while unbounded.
    pub fn max(&self) -> (r: Option<Position>)
        ensures
            r == (match self.corners() {
                Some(c) => Some(c.1),
                None => None::<Position>,
            }),
    {
        match self.min_max {
            Some((_, mx)) => Some(mx),
            None => None,
        }
    }

    /// The horizontal extent `|max.x - min.x|`. Callers must check
    /// `is_bounded` first.
    pub fn width(&self) -> (r: i64)
        requires
            self.corners() is Some,
        ensures
            r == if bb_max(self.corners()).x >= bb_min(self.corners()).x {
                bb_max(self.corners()).x - bb_min(self.corners()).x
            } else {
                bb_min(self.corners()).x - bb_max(self.corners()).x
            },
    {
        let (mn, mx) = self.min_max.unwrap();
        let d: i64 = (mx.x as i64) - (mn.x as i64);
        if d >= 0 {
            d
        } else {
            -d
        }
    }

    /// The vertical extent `|max.y - min.y|`. Callers must check
    /// `is_bounded` first.
    pub fn height(&self) -> (r: i64)
        requires
            self.corners() is Some,
        ensures
            r == if bb_max(self.corners()).y >= bb_min(self.corners()).y {
                bb_max(self.corners()).y - bb_min(self.corners()).y
            } else {
                bb_min(self.corners()).y - bb_max(self.corners()).y
            },
    {
        let (mn, mx) = self.min_max.unwrap();
        let d: i64 = (mx.y as i64) - (mn.y as i64);
        if d >= 0 {
            d
        } else {
            -d
        }
    }

    /// The min corner's x. Callers must check `is_bounded` first.
    pub fn min_x(&self) -> (r: i32)
        requires
            self.corners() is Some,
        ensures
            r == bb_min(self.corners()).x,
    {
        self.min_max.unwrap().0.x
    }

    /// The min corner's y. Callers must check `is_bounded` first.
    pub fn min_y(&self) -> (r: i32)
        requires
            self.corners() is Some,
        ensures
            r == bb_min(self.corners()).y,
    {
        self.min_max.unwrap().0.y
    }

    /// The max corner's x. Callers must check `is_bounded` first.
    pub fn max_x(&self) -> (r: i32)
        requires
            self.corners() is Some,
        ensures
            r == bb_max(self.corners()).x,
    {
        self.min_max.unwrap().1.x
    }

    /// The max corner's y. Callers must check `is_bounded` first.
    pub fn max_y(&self) -> (r: i32)
        requires
            self.corners() is Some,
        ensures
            r == bb_max(self.corners()).y,
    {
        self.min_max.unwrap().1.y
    }
}

/// Whether the corners of an accumulator state are ordered: `min <= max`
/// component-wise once bounded.
pub open spec fn bb_wf(mm: Option<(Position, Position)>) -> bool {
    match mm {
        None => true,
        Some(c) => c.0.x <= c.1.x && c.0.y <= c.1.y,
    }
}

/// Whether `p` lies inside the box with corners `mn`, `mx`.
pub open spec fn in_box(p: Position, mn: Position, mx: Position) -> bool {
    mn.x <= p.x <= mx.x && mn.y <= p.y <= mx.y
}

/// Whether `(mn, mx)` is the bounding box of the positions of `ps`: every
/// position lies inside it, and each of its four coordinates is attained.
pub open spec fn is_bbox(ps: Seq<Position>, mn: Position, mx: Position) -> bool {
    &&& forall|i: int| 0 <= i < ps.len() ==> in_box(#[trigger] ps[i], mn, mx)
    &&& exists|i: int| 0 <= i < ps.len() && (#[trigger] ps[i]).x == mn.x
    &&& exists|i: int| 0 <= i < ps.len() && (#[trigger] ps[i]).y == mn.y
    &&& exists|i: int| 0 <= i < ps.len() && (#[trigger] ps[i]).x == mx.x
    &&& exists|i: int| 0 <= i < ps.len() && (#[trigger] ps[i]).y == mx.y
}

/// Accumulating a non-empty position sequence yields a bounded state whose
/// corners bound every accumulated position and whose four coordinates are
/// each attained by some accumulated position.
pub proof fn lemma_bb_of_bbox(ps: Seq<Position>)
    requires
        ps.len() > 0,
    ensures
        bb_of(ps) is Some,
        is_bbox(ps, bb_min(bb_of(ps)), bb_max(bb_of(ps))),
    decreases ps.len(),
{
    let mn = bb_min(bb_of(ps));
    let mx = bb_max(bb_of(ps));
    if ps.len() == 1 {
        assert(ps.drop_last().len() == 0);
        assert(ps[0] == ps.last());
        assert(mn == ps[0] && mx == ps[0]);
        assert(ps[0].x == mn.x && ps[0].y == mn.y && ps[0].x == mx.x && ps[0].y == mx.y);
    } else {
        let init = ps.drop_last();
        let last = ps.last();
        lemma_bb_of_bbox(init);
        let mn0 = bb_min(bb_of(init));
        let mx0 = bb_max(bb_of(init));
        assert(mn == pos_min(last, mn0) && mx == pos_max(last, mx0));
        assert forall|i: int| 0 <= i < ps.len() implies in_box(#[trigger] ps[i], mn, mx) by {
            if i < ps.len() - 1 {
                assert(ps[i] == init[i]);
                assert(in_box(init[i], mn0, mx0));
            } else {
                assert(ps[i] == last);
            }
        }
        let last_idx = ps.len() - 1;
        if mn.x == last.x {
            assert(ps[last_idx].x == mn.x);
        } else {
            let j = choose|j: int| 0 <= j < init.len() && (#[trigger] init[j]).x == mn0.x;
            assert(ps[j].x == mn.x);
        }
        if mn.y == last.y {
            assert(ps[last_idx].y == mn.y);
        } else {
            let j = choose|j: int| 0 <= j < init.len() && (#[trigger] init[j]).y == mn0.y;
            assert(ps[j].y == mn.y);
        }
        if mx.x == last.x {
            assert(ps[last_idx].x == mx.x);
        } else {
            let j = choose|j: int| 0 <= j < init.len() && (#[trigger] init[j]).x == mx0.x;
            assert(ps[j].x == mx.x);
        }
        if mx.y == last.y {
            assert(ps[last_idx].y == mx.y);
        } else {
            let j = choose|j: int| 0 <= j < init.len() && (#[trigger] init[j]).y == mx0.y;
            assert(ps[j].y == mx.y);
        }
    }
}

/// A position sequence has at most one bounding box.
pub proof fn lemma_bbox_unique(
    ps: Seq<Position>,
    mn1: Position,
    mx1: Position,
    mn2: Position,
    mx2: Position,
)
    requires
        is_bbox(ps, mn1, mx1),
        is_bbox(ps, mn2, mx2),
    ensures
        mn1 == mn2,
        mx1 == mx2,
{
    let i1 = choose|i: int| 0 <= i < ps.len() && (#[trigger] ps[i]).x == mn1.x;
    let i2 = choose|i: int| 0 <= i < ps.len() && (#[trigger] ps[i]).x == mn2.x;
    assert(in_box(ps[i1], mn2, mx2) && in_box(ps[i2], mn1, mx1));
    let j1 = choose|i: int| 0 <= i < ps.len() && (#[trigger] ps[i]).y == mn1.y;
    let j2 = choose|i: int| 0 <= i < ps.len() && (#[trigger] ps[i]).y == mn2.y;
    assert(in_box(ps[j1], mn2, mx2) && in_box(ps[j2], mn1, mx1));
    let k1 = choose|i: int| 0 <= i < ps.len() && (#[trigger] ps[i]).x == mx1.x;
    let k2 = choose|i: int| 0 <= i < ps.len() && (#[trigger] ps[i]).x == mx2.x;
    assert(in_box(ps[k1], mn2, mx2) && in_box(ps[k2], mn1, mx1));
    let l1 = choose|i: int| 0 <= i < ps.len() && (#[trigger] ps[i]).y == mx1.y;
    let l2 = choose|i: int| 0 <= i < ps.len() && (#[trigger] ps[i]).y == mx2.y;
    assert(in_box(ps[l1], mn2, mx2) && in_box(ps[l2], mn1, mx1));
}

/// A position held by one of two multiset-equal sequences is held by the
/// other as well.
proof fn lemma_contains_transfer(ps1: Seq<Position>, ps2: Seq<Position>, p: Position)
    requires
        ps1.to_multiset() == ps2.to_multiset(),
        ps1.contains(p),
    ensures
        ps2.contains(p),
{
    broadcast use vstd::seq_lib::group_to_multiset_ensures;

    assert(ps1.to_multiset().count(p) > 0);
    assert(ps2.to_multiset().count(p) > 0);
}

/// Accumulation is order-independent: two position sequences that hold the
/// same positions (as a multiset) accumulate to the same corner pair.
pub proof fn lemma_bb_of_order_independent(ps1: Seq<Position>, ps2: Seq<Position>)
    requires
        ps1.to_multiset() == ps2.to_multiset(),
    ensures
        bb_of(ps1) == bb_of(ps2),
{
    broadcast use vstd::seq_lib::group_to_multiset_ensures;

    assert(ps1.len() == ps1.to_multiset().len());
    assert(ps2.len() == ps2.to_multiset().len());
    if ps1.len() == 0 {
        assert(ps2.len() == 0);
    } else {
        assert(ps2.len() == ps1.len());
        lemma_bb_of_bbox(ps1);
        lemma_bb_of_bbox(ps2);
        let mn1 = bb_min(bb_of(ps1));
        let mx1 = bb_max(bb_of(ps1));
        assert(is_bbox(ps2, mn1, mx1)) by {
            assert forall|i: int| 0 <= i < ps2.len() implies in_box(#[trigger] ps2[i], mn1, mx1) by {
                assert(ps2.contains(ps2[i]));
                lemma_contains_transfer(ps2, ps1, ps2[i]);
                let j = choose|j: int| 0 <= j < ps1.len() && ps1[j] == ps2[i];
                assert(in_box(ps1[j], mn1, mx1));
            }
            let a = choose|i: int| 0 <= i < ps1.len() && (#[trigger] ps1[i]).x == mn1.x;
            assert(ps1.contains(ps1[a]));
            lemma_contains_transfer(ps1, ps2, ps1[a]);
            let a2 = choose|j: int| 0 <= j < ps2.len() && ps2[j] == ps1[a];
            assert(0 <= a2 < ps2.len() && ps2[a2].x == mn1.x);
            let b = choose|i: int| 0 <= i < ps1.len() && (#[trigger] ps1[i]).y == mn1.y;
            assert(ps1.contains(ps1[b]));
            lemma_contains_transfer(ps1, ps2, ps1[b]);
            let b2 = choose|j: int| 0 <= j < ps2.len() && ps2[j] == ps1[b];
            assert(0 <= b2 < ps2.len() && ps2[b2].y == mn1.y);
            let c = choose|i: int| 0 <= i < ps1.len() && (#[trigger] ps1[i]).x == mx1.x;
            assert(ps1.contains(ps1[c]));
            lemma_contains_transfer(ps1, ps2, ps1[c]);
            let c2 = choose|j: int| 0 <= j < ps2.len() && ps2[j] == ps1[c];
            assert(0 <= c2 < ps2.len() && ps2[c2].x == mx1.x);
            let d = choose|i: int| 0 <= i < ps1.len() && (#[trigger] ps1[i]).y == mx1.y;
            assert(ps1.contains(ps1[d]));
            lemma_contains_transfer(ps1, ps2, ps1[d]);
            let d2 = choose|j: int| 0 <= j < ps2.len() && ps2[j] == ps1[d];
            assert(0 <= d2 < ps2.len() && ps2[d2].y == mx1.y);
        }
        lemma_bbox_unique(ps2, mn1, mx1, bb_min(bb_of(ps2)), bb_max(bb_of(ps2)));
        assert(bb_of(ps1) == Some((mn1, mx1)));
        assert(bb_of(ps2) == Some((mn1, mx1)));
    }
}

/// Folding a position in never shrinks the box: the min corner can only
/// move down, the max corner only up, and the new position lies inside.
pub proof fn lemma_bb_add_grows(mm: Option<(Position, Position)>, p: Position)
    ensures
        bb_add(mm, p) is Some,
        in_box(p, bb_min(bb_add(mm, p)), bb_max(bb_add(mm, p))),
        mm is Some ==> bb_min(bb_add(mm, p)).x <= bb_min(mm).x && bb_min(bb_add(mm, p)).y
            <= bb_min(mm).y && bb_max(bb_add(mm, p)).x >= bb_max(mm).x && bb_max(bb_add(mm, p)).y
            >= bb_max(mm).y,
{
}

/// Accumulation keeps the corners ordered: `min <= max` component-wise.
pub proof fn lemma_bb_of_wf(ps: Seq<Position>)
    ensures
        bb_wf(bb_of(ps)),
    decreases ps.len(),
{
    if ps.len() > 0 {
        lemma_bb_of_wf(ps.drop_last());
    }
}

/// Folding one more position commutes with a merge: merging `bb_add(b, p)`
/// into `a` equals merging `b` into `a` and then folding `p` in.
pub proof fn lemma_bb_ext_add(
    a: Option<(Position, Position)>,
    b: Option<(Position, Position)>,
    p: Position,
)
    requires
        bb_wf(b),
    ensures
        bb_add(bb_ext(a, b), p) == bb_ext(a, bb_add(b, p)),
{
}

/// Transforming every position and then accumulating equals accumulating
/// first and mapping the two corners through the transform, re-reduced to
/// min and max (a negative scale component swaps that axis's corners).
pub proof fn lemma_bb_of_transform(ps: Seq<Position>, t: Vec2, s: Vec2)
    requires
        ps.len() > 0,
        all_transformable(ps, t, s),
    ensures
        bb_of(transform_seq(ps, t, s)) == Some(
            (
                pos_min(
                    transform_pos(bb_min(bb_of(ps)), t, s),
                    transform_pos(bb_max(bb_of(ps)), t, s),
                ),
                pos_max(
                    transform_pos(bb_min(bb_of(ps)), t, s),
                    transform_pos(bb_max(bb_of(ps)), t, s),
                ),
            ),
        ),
{
    lemma_bb_of_bbox(ps);
    let mn = bb_min(bb_of(ps));
    let mx = bb_max(bb_of(ps));
    let q = transform_seq(ps, t, s);
    let wx1 = choose|i: int| 0 <= i < ps.len() && (#[trigger] ps[i]).x == mn.x;
    let wy1 = choose|i: int| 0 <= i < ps.len() && (#[trigger] ps[i]).y == mn.y;
    let wx2 = choose|i: int| 0 <= i < ps.len() && (#[trigger] ps[i]).x == mx.x;
    let wy2 = choose|i: int| 0 <= i < ps.len() && (#[trigger] ps[i]).y == mx.y;
    assert(can_transform(ps[wx1], t, s) && can_transform(ps[wy1], t, s) && can_transform(
        ps[wx2],
        t,
        s,
    ) && can_transform(ps[wy2], t, s));
    assert(transform_pos(mn, t, s).x as int == tcoord(mn.x as int, t.x as int, s.x as int));
    assert(transform_pos(mn, t, s).y as int == tcoord(mn.y as int, t.y as int, s.y as int));
    assert(transform_pos(mx, t, s).x as int == tcoord(mx.x as int, t.x as int, s.x as int));
    assert(transform_pos(mx, t, s).y as int == tcoord(mx.y as int, t.y as int, s.y as int));
    let tmn = pos_min(transform_pos(mn, t, s), transform_pos(mx, t, s));
    let tmx = pos_max(transform_pos(mn, t, s), transform_pos(mx, t, s));

    assert forall|i: int| 0 <= i < q.len() implies in_box(#[trigger] q[i], tmn, tmx) by {
        assert(in_box(ps[i], mn, mx));
        assert(can_transform(ps[i], t, s));
        lemma_tcoord_mono(mn.x as int, ps[i].x as int, t.x as int, s.x as int);
        lemma_tcoord_mono(ps[i].x as int, mx.x as int, t.x as int, s.x as int);
        lemma_tcoord_mono(mn.y as int, ps[i].y as int, t.y as int, s.y as int);
        lemma_tcoord_mono(ps[i].y as int, mx.y as int, t.y as int, s.y as int);
    }
    lemma_tcoord_mono(mn.x as int, mx.x as int, t.x as int, s.x as int);
    lemma_tcoord_mono(mn.y as int, mx.y as int, t.y as int, s.y as int);
    if s.x >= 0 {
        assert(q[wx1].x == tmn.x && q[wx2].x == tmx.x);
    } else {
        assert(q[wx2].x == tmn.x && q[wx1].x == tmx.x);
    }
    if s.y >= 0 {
        assert(q[wy1].y == tmn.y && q[wy2].y == tmx.y);
    } else {
        assert(q[wy2].y == tmn.y && q[wy1].y == tmx.y);
    }
    assert(is_bbox(q, tmn, tmx));
    lemma_bb_of_bbox(q);
    lemma_bbox_unique(q, tmn, tmx, bb_min(bb_of(q)), bb_max(bb_of(q)));
    assert(bb_of(q) == Some((tmn, tmx)));
}

/// Merging the accumulator of `pb` into the accumulator of `pa` yields the
/// accumulator of `pa` followed by `pb`.
pub proof fn lemma_bb_of_concat(pa: Seq<Position>, pb: Seq<Position>)
    ensures
        bb_of(pa + pb) == bb_ext(bb_of(pa), bb_of(pb)),
    decreases pb.len(),
{
    if pb.len() == 0 {
        assert(pa + pb =~= pa);
    } else {
        lemma_bb_of_concat(pa, pb.drop_last());
        lemma_bb_of_wf(pb.drop_last());
        assert((pa + pb).drop_last() =~= pa + pb.drop_last());
        assert((pa + pb).last() == pb.last());
        lemma_bb_ext_add(bb_of(pa), bb_of(pb.drop_last()), pb.last());
    }
}

}
