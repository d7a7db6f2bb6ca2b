//! The document assembler: an ordered shape sequence, its aggregate
//! bounding box, a whole-document transform, and serialization into one
//! EPS text stream.

use vstd::prelude::*;
use crate::bounds::{bb_of, lemma_bb_of_concat, lemma_bb_of_wf, Bounds};
use crate::fixed::{
    append_fp4,
    append_i64,
    div_nonneg,
    fp4_chars,
    int_chars,
    tdiv,
    whole_units,
    SCALE,
};
use crate::position::{all_transformable, transform_seq, Position, Vec2};
use crate::shape::{shape_transformed, Shape};

verus! {

/// The positions of every shape of `shapes`, flattened in document order.
pub open spec fn all_positions(shapes: Seq<Shape>) -> Seq<Position>
    decreases shapes.len(),
{
    if shapes.len() == 0 {
        Seq::empty()
    } else {
        all_positions(shapes.drop_last()) + shapes.last().positions_spec()
    }
}

/// The EPS bodies of every shape of `shapes`, concatenated in document
/// order.
pub open spec fn bodies_chars(shapes: Seq<Shape>) -> Seq<char>
    decreases shapes.len(),
{
    if shapes.len() == 0 {
        Seq::empty()
    } else {
        bodies_chars(shapes.drop_last()) + shapes.last().body_chars()
    }
}

/// `m` clamped to zero from below (a negative minimum canvas size asks for
/// nothing).
pub open spec fn clamp_nonneg(m: int) -> int {
    if m >= 0 {
        m
    } else {
        0
    }
}

/// The left edge of the unpadded canvas: the aggregate min corner, or the
/// left edge of a `min_w`-wide box centered at the origin when no shape
/// contributed a position.
pub open spec fn base_lo_x(bb: Option<(Position, Position)>, min_w: int) -> int {
    match bb {
        Some(c) => c.0.x as int,
        None => -tdiv(clamp_nonneg(min_w), 2),
    }
}

/// The right edge of the unpadded canvas (see `base_lo_x`); the fallback
/// box has width exactly `clamp_nonneg(min_w)`.
pub open spec fn base_hi_x(bb: Option<(Position, Position)>, min_w: int) -> int {
    match bb {
        Some(c) => c.1.x as int,
        None => clamp_nonneg(min_w) - tdiv(clamp_nonneg(min_w), 2),
    }
}

/// The bottom edge of the unpadded canvas (see `base_lo_x`).
pub open spec fn base_lo_y(bb: Option<(Position, Position)>, min_h: int) -> int {
    match bb {
        Some(c) => c.0.y as int,
        None => -tdiv(clamp_nonneg(min_h), 2),
    }
}

/// The top edge of the unpadded canvas (see `base_lo_x`).
pub open spec fn base_hi_y(bb: Option<(Position, Position)>, min_h: int) -> int {
    match bb {
        Some(c) => c.1.y as int,
        None => clamp_nonneg(min_h) - tdiv(clamp_nonneg(min_h), 2),
    }
}

/// The canvas width: the geometry's horizontal span, raised to `min_w`.
pub open spec fn canvas_w(bb: Option<(Position, Position)>, min_w: int) -> int {
    let raw = base_hi_x(bb, min_w) - base_lo_x(bb, min_w);
    if raw >= min_w {
        raw
    } else {
        min_w
    }
}

/// The canvas height: the geometry's vertical span, raised to `min_h`.
pub open spec fn canvas_h(bb: Option<(Position, Position)>, min_h: int) -> int {
    let raw = base_hi_y(bb, min_h) - base_lo_y(bb, min_h);
    if raw >= min_h {
        raw
    } else {
        min_h
    }
}

/// The uniform stroke width: `1.2 × max(width, height) / 1000`, in
/// fixed-point units (the padded canvas spans `1 + 2 × 10%` of the larger
/// dimension, and strokes are a thousandth of that).
pub open spec fn stroke_width_of(w: int, h: int) -> int {
    let dim = if w >= h {
        w
    } else {
        h
    };
    tdiv(12 * dim, SCALE as int)
}

/// The EPS preamble: magic, comments, the integer-truncated
/// `%%BoundingBox`, the fixed-point `%%HiResBoundingBox`, and page setup.
/// The corner arguments are fixed-point values in `1/SCALE` units.
pub open spec fn header_chars(llx: int, lly: int, urx: int, ury: int) -> Seq<char> {
    "%%!PS-Adobe-3.0 EPSF-3.0\n%%Creator: eps_writer\n%%DocumentData: Clean7Bit\n%%Origin: 0 0\n%%BoundingBox: "@
        + int_chars(tdiv(llx, SCALE as int)) + " "@ + int_chars(tdiv(lly, SCALE as int)) + " "@
        + int_chars(tdiv(urx, SCALE as int)) + " "@ + int_chars(tdiv(ury, SCALE as int))
        + "\n%%HiResBoundingBox: "@ + fp4_chars(llx) + " "@ + fp4_chars(lly) + " "@ + fp4_chars(
        urx,
    ) + " "@ + fp4_chars(ury) + "\n%%LanguageLevel: 2\n%%Pages: 1\n%%Page: 1 1\n\n"@
}

/// The complete EPS stream of a document: header over the padded box (the
/// canvas padded by 10% of the canvas width on the left and right and 10%
/// of the canvas height above and below), one `setlinewidth` line, every
/// shape body in document order, and the trailer.
pub open spec fn eps_chars(shapes: Seq<Shape>, min_w: int, min_h: int) -> Seq<char> {
    let bb = bb_of(all_positions(shapes));
    let w = canvas_w(bb, min_w);
    let h = canvas_h(bb, min_h);
    let pad_x = tdiv(w, 10);
    let pad_y = tdiv(h, 10);
    header_chars(
        base_lo_x(bb, min_w) - pad_x,
        base_lo_y(bb, min_h) - pad_y,
        base_hi_x(bb, min_w) + pad_x,
        base_hi_y(bb, min_h) + pad_y,
    ) + fp4_chars(stroke_width_of(w, h)) + " setlinewidth\n"@ + bodies_chars(shapes) + "%%EOF\n"@
}

/// An ordered collection of shapes, consumed by EPS serialization.
/// Insertion order is emission order, and — because of `SetRGB` — also
/// color-state order, so it is semantically significant.
pub struct EpsDocument {
    shapes: Vec<Shape>,
}

impl View for EpsDocument {
    type V = Seq<Shape>;

    closed spec fn view(&self) -> Seq<Shape> {
        self.shapes@
    }
}

impl EpsDocument {
    /// An empty document.
    pub fn new() -> (d: EpsDocument)
        ensures
            d@ == Seq::<Shape>::empty(),
    {
        EpsDocument { shapes: Vec::new() }
    }

    /// Appends a shape; the document takes ownership and keeps insertion
    /// order.
    pub fn add_shape(&mut self, shape: Shape)
        ensures
            final(self)@ == old(self)@.push(shape),
    {
        self.shapes.push(shape);
    }

    /// The aggregate bounding box: every shape's bounds merged into a
    /// fresh accumulator, equal to accumulating every position of the
    /// document.
    pub fn get_bounds(&self) -> (b: Bounds)
        ensures
            b.corners() == bb_of(all_positions(self@)),
    {
        let mut bounds = Bounds::new();
        let n = self.shapes.len();
        for i in 0..n
            invariant
                n == self.shapes@.len(),
                bounds.corners() == bb_of(all_positions(self.shapes@.subrange(0, i as int))),
        {
            let sb = self.shapes[i].bounds();
            bounds.extend(sb);
            proof {
                let pre = self.shapes@.subrange(0, i as int);
                let cur = self.shapes@.subrange(0, i + 1);
                assert(cur.drop_last() =~= pre);
                assert(cur.last() == self.shapes@[i as int]);
                lemma_bb_of_concat(all_positions(pre), self.shapes@[i as int].positions_spec());
            }
        }
        proof {
            assert(self.shapes@.subrange(0, n as int) =~= self.shapes@);
        }
        bounds
    }

    /// Applies the same translate-then-scale transform to every shape in
    /// place.
    pub fn transform(&mut self, translate: Vec2, scale: Vec2)
        requires
            forall|i: int|
                0 <= i < old(self)@.len() ==> all_transformable(
                    (#[trigger] old(self)@[i]).positions_spec(),
                    translate,
                    scale,
                ),
        ensures
            final(self)@.len() == old(self)@.len(),
            forall|i: int|
                0 <= i < old(self)@.len() ==> shape_transformed(
                    old(self)@[i],
                    #[trigger] final(self)@[i],
                    translate,
                    scale,
                ),
            all_positions(final(self)@) == transform_seq(
                all_positions(old(self)@),
                translate,
                scale,
            ),
    {
        let n = self.shapes.len();
        for i in 0..n
            invariant
                n == self.shapes@.len(),
                self.shapes@.len() == old(self)@.len(),
                forall|j: int|
                    0 <= j < old(self)@.len() ==> all_transformable(
                        (#[trigger] old(self)@[j]).positions_spec(),
                        translate,
                        scale,
                    ),
                forall|j: int|
                    0 <= j < i ==> shape_transformed(
                        old(self)@[j],
                        #[trigger] self.shapes@[j],
                        translate,
                        scale,
                    ),
                forall|j: int| i <= j < n ==> self.shapes@[j] == old(self)@[j],
        {
            proof {
                assert(self.shapes@[i as int] == old(self)@[i as int]);
            }
            let sh = &mut self.shapes[i];
            sh.transform(translate, scale);
        }
        proof {
            lemma_all_positions_transformed(old(self)@, self.shapes@, translate, scale);
        }
    }
}

impl EpsDocument {
    /// Serializes the document as one EPS text stream.
    ///
    /// The canvas is the aggregate bounding box, its width and height
    /// raised to `min_width` and `min_height`; if no shape contributed a
    /// position the canvas falls back to a `min_width × min_height` box
    /// centered at the origin instead of failing. The emitted box is
    /// padded by 10% of the canvas width and height on every side, and a
    /// single `setlinewidth` line fixes the uniform stroke width before
    /// the shape bodies, which follow in insertion order.
    #[verifier::rlimit(60)]
    pub fn write_eps(&self, min_width: i32, min_height: i32) -> (out: String)
        ensures
            out@ == eps_chars(self@, min_width as int, min_height as int),
    {
        let bounds = self.get_bounds();
        proof {
            lemma_bb_of_wf(all_positions(self@));
        }
        let ghost bb = bounds.corners();

        let blx: i64;
        let bhx: i64;
        let bly: i64;
        let bhy: i64;
        if bounds.is_bounded() {
            blx = bounds.min_x() as i64;
            bhx = bounds.max_x() as i64;
            bly = bounds.min_y() as i64;
            bhy = bounds.max_y() as i64;
        } else {
            let w: i64 = if min_width >= 0 {
                min_width as i64
            } else {
                0
            };
            let h: i64 = if min_height >= 0 {
                min_height as i64
            } else {
                0
            };
            let half_w = div_nonneg(w, 2);
            let half_h = div_nonneg(h, 2);
            blx = -half_w;
            bhx = w - half_w;
            bly = -half_h;
            bhy = h - half_h;
        }
        proof {
            assert(blx as int == base_lo_x(bb, min_width as int));
            assert(bhx as int == base_hi_x(bb, min_width as int));
            assert(bly as int == base_lo_y(bb, min_height as int));
            assert(bhy as int == base_hi_y(bb, min_height as int));
        }

        let raw_w: i64 = bhx - blx;
        let raw_h: i64 = bhy - bly;
        let w64: i64 = if raw_w >= min_width as i64 {
            raw_w
        } else {
            min_width as i64
        };
        let h64: i64 = if raw_h >= min_height as i64 {
            raw_h
        } else {
            min_height as i64
        };
        proof {
            assert(w64 as int == canvas_w(bb, min_width as int));
            assert(h64 as int == canvas_h(bb, min_height as int));
        }
        let pad_x = div_nonneg(w64, 10);
        let pad_y = div_nonneg(h64, 10);
        let llx = blx - pad_x;
        let lly = bly - pad_y;
        let urx = bhx + pad_x;
        let ury = bhy + pad_y;

        let dim: i64 = if w64 >= h64 {
            w64
        } else {
            h64
        };
        let stroke = whole_units(12 * dim);
        proof {
            assert(stroke as int == stroke_width_of(
                canvas_w(bb, min_width as int),
                canvas_h(bb, min_height as int),
            ));
        }

        let mut out = String::new();
        out.append(
            "%%!PS-Adobe-3.0 EPSF-3.0\n%%Creator: eps_writer\n%%DocumentData: Clean7Bit\n%%Origin: 0 0\n%%BoundingBox: ",
        );
        append_i64(&mut out, whole_units(llx));
        out.append(" ");
        append_i64(&mut out, whole_units(lly));
        out.append(" ");
        append_i64(&mut out, whole_units(urx));
        out.append(" ");
        append_i64(&mut out, whole_units(ury));
        out.append("\n%%HiResBoundingBox: ");
        append_fp4(&mut out, llx);
        out.append(" ");
        append_fp4(&mut out, lly);
        out.append(" ");
        append_fp4(&mut out, urx);
        out.append(" ");
        append_fp4(&mut out, ury);
        out.append("\n%%LanguageLevel: 2\n%%Pages: 1\n%%Page: 1 1\n\n");
        proof {
            assert(out@ =~= header_chars(llx as int, lly as int, urx as int, ury as int));
        }
        append_fp4(&mut out, stroke);
        out.append(" setlinewidth\n");
        let ghost preamble = out@;

        let n = self.shapes.len();
        for i in 0..n
            invariant
                n == self.shapes@.len(),
                out@ == preamble + bodies_chars(self.shapes@.subrange(0, i as int)),
        {
            self.shapes[i].write_eps(&mut out);
            proof {
                let pre = self.shapes@.subrange(0, i as int);
                let cur = self.shapes@.subrange(0, i + 1);
                assert(cur.drop_last() =~= pre);
                assert(cur.last() == self.shapes@[i as int]);
                assert(out@ =~= preamble + bodies_chars(cur));
            }
        }
        out.append("%%EOF\n");
        proof {
            assert(self.shapes@.subrange(0, n as int) =~= self.shapes@);
            assert(out@ =~= eps_chars(self@, min_width as int, min_height as int));
        }
        out
    }
}

/// Transforming every shape of a sequence transforms its flattened
/// positions, order kept.
pub proof fn lemma_all_positions_transformed(pre: Seq<Shape>, post: Seq<Shape>, t: Vec2, s: Vec2)
    requires
        pre.len() == post.len(),
        forall|i: int|
            0 <= i < pre.len() ==> shape_transformed(pre[i], #[trigger] post[i], t, s),
    ensures
        all_positions(post) == transform_seq(all_positions(pre), t, s),
    decreases pre.len(),
{
    if pre.len() == 0 {
        assert(all_positions(post) =~= transform_seq(all_positions(pre), t, s));
    } else {
        assert(forall|i: int|
            0 <= i < pre.drop_last().len() ==> shape_transformed(
                pre.drop_last()[i],
                #[trigger] post.drop_last()[i],
                t,
                s,
            ));
        lemma_all_positions_transformed(pre.drop_last(), post.drop_last(), t, s);
        crate::shape::lemma_shape_transformed_positions(pre.last(), post.last(), t, s);
        assert(all_positions(post) =~= transform_seq(all_positions(pre), t, s));
    }
}

}
