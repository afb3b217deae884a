//! The motion and wrap engine.
//!
//! Once per simulation tick the engine advances a block's point buffer by
//! `velocity * dt` and then resolves board-boundary wrap-around.  Anchor
//! shapes wrap each coordinate independently; a line segment is instead
//! re-anchored at the opposite edge with its span preserved, so that it
//! reappears continuous rather than stretched across the board.  A polygon
//! applies the segment rule to each consecutive edge of its buffer,
//! retaining the trailing point of each processed pair.

use vstd::prelude::*;

use crate::fx::{fx_mul, fx_mul_spec, fx_seq_view, Fx, FX_LIMIT};
use crate::shapes::ShapeKind;

verus! {

/// Raw magnitude bound under which every wrap computation of this module
/// stays clear of `i64` overflow.
pub const SEG_BOUND: i64 = 0x4_0000_0000_0000;

/// Canonical toroidal wrap of a single coordinate: one correction by
/// `size` in either direction.
pub open spec fn wrap_coord_spec(v: int, size: int) -> int {
    if v < 0 {
        v + size
    } else if v >= size {
        v - size
    } else {
        v
    }
}

/// Wrap of one axis of a two-point segment.  A segment whose first
/// endpoint has crossed past `size` is re-anchored at `0` with its span
/// preserved; one whose second endpoint has crossed back past `0` is
/// re-anchored against the far edge.
pub open spec fn wrap_pair_spec(p1: int, p2: int, size: int) -> (int, int) {
    let d = vstd::math::abs(p2 - p1) as int;
    if p1 >= size {
        (0, d)
    } else if p2 < 0 {
        (size - d, size)
    } else {
        (p1, p2)
    }
}

/// Segment wrap applied to both axes of a `[x1, y1, x2, y2]` buffer.
pub open spec fn wrap_line_spec(s: Seq<int>, bw: int, bh: int) -> Seq<int>
    recommends
        s.len() >= 4,
{
    let x = wrap_pair_spec(s[0], s[2], bw);
    let y = wrap_pair_spec(s[1], s[3], bh);
    s.update(0, x.0).update(2, x.1).update(1, y.0).update(3, y.1)
}

/// One step of polygon wrapping: the segment rule applied to the edge
/// between vertex `i` and vertex `i + 1` of the flattened buffer.
pub open spec fn wrap_poly_step(s: Seq<int>, i: int, bw: int, bh: int) -> Seq<int> {
    let x = wrap_pair_spec(s[2 * i], s[2 * i + 2], bw);
    let y = wrap_pair_spec(s[2 * i + 1], s[2 * i + 3], bh);
    s.update(2 * i, x.0).update(2 * i + 2, x.1).update(2 * i + 1, y.0).update(2 * i + 3, y.1)
}

/// Polygon wrapping after the first `n` edges have been processed, in
/// buffer order.
pub open spec fn wrap_poly_upto(s: Seq<int>, n: int, bw: int, bh: int) -> Seq<int>
    decreases n,
{
    if n <= 0 {
        s
    } else {
        wrap_poly_step(wrap_poly_upto(s, n - 1, bw, bh), n - 1, bw, bh)
    }
}

/// Canonical toroidal wrap of a point, one correction per axis.
pub fn wrap_points(ix: Fx, iy: Fx, map_size: Fx) -> (r: (Fx, Fx))
    requires
        -SEG_BOUND <= ix.0 <= SEG_BOUND,
        -SEG_BOUND <= iy.0 <= SEG_BOUND,
        -SEG_BOUND <= map_size.0 <= SEG_BOUND,
    ensures
        r.0@ == wrap_coord_spec(ix@, map_size@),
        r.1@ == wrap_coord_spec(iy@, map_size@),
{
    let ox = wrap_coord(ix, map_size);
    let oy = wrap_coord(iy, map_size);
    (ox, oy)
}

/// Wraps one coordinate against one board size.
pub fn wrap_coord(v: Fx, size: Fx) -> (r: Fx)
    requires
        -SEG_BOUND <= v.0 <= SEG_BOUND,
        -SEG_BOUND <= size.0 <= SEG_BOUND,
    ensures
        r@ == wrap_coord_spec(v@, size@),
{
    if v.0 < 0 {
        Fx(v.0 + size.0)
    } else if v.0 >= size.0 {
        Fx(v.0 - size.0)
    } else {
        v
    }
}

/// Wraps one axis of a segment, per `wrap_pair_spec`.
fn wrap_segment_axis(p1: Fx, p2: Fx, size: Fx) -> (r: (Fx, Fx))
    requires
        -0x2000_0000_0000_0000 <= p1.0 <= 0x2000_0000_0000_0000,
        -0x2000_0000_0000_0000 <= p2.0 <= 0x2000_0000_0000_0000,
        -0x2000_0000_0000_0000 <= size.0 <= 0x2000_0000_0000_0000,
    ensures
        (r.0@, r.1@) == wrap_pair_spec(p1@, p2@, size@),
{
    let d = if p2.0 >= p1.0 {
        p2.0 - p1.0
    } else {
        p1.0 - p2.0
    };
    if p1.0 >= size.0 {
        (Fx(0), Fx(d))
    } else if p2.0 < 0 {
        (Fx(size.0 - d), Fx(size.0))
    } else {
        (p1, p2)
    }
}

/// Wraps a two-point segment buffer `[x1, y1, x2, y2]` against the board.
pub fn wrap_line(points: &mut Vec<Fx>, bw: Fx, bh: Fx)
    requires
        old(points)@.len() >= 4,
        forall|j: int|
            0 <= j < old(points)@.len() ==> -SEG_BOUND <= #[trigger] old(points)@[j].0
                <= SEG_BOUND,
        -SEG_BOUND <= bw.0 <= SEG_BOUND,
        -SEG_BOUND <= bh.0 <= SEG_BOUND,
    ensures
        final(points)@.len() == old(points)@.len(),
        fx_seq_view(final(points)@) == wrap_line_spec(fx_seq_view(old(points)@), bw@, bh@),
{
    let x = wrap_segment_axis(points[0], points[2], bw);
    let y = wrap_segment_axis(points[1], points[3], bh);
    points.set(0, x.0);
    points.set(2, x.1);
    points.set(1, y.0);
    points.set(3, y.1);
    proof {
        assert(fx_seq_view(final(points)@) =~= wrap_line_spec(
            fx_seq_view(old(points)@),
            bw@,
            bh@,
        ));
    }
}

/// Wraps a flattened polygon buffer edge by edge, in order, the segment
/// rule applied to each consecutive pair of vertices.
pub fn wrap_polygon(points: &mut Vec<Fx>, bw: Fx, bh: Fx)
    requires
        old(points)@.len() <= 2048,
        forall|j: int|
            0 <= j < old(points)@.len() ==> -SEG_BOUND <= #[trigger] old(points)@[j].0
                <= SEG_BOUND,
        -SEG_BOUND <= bw.0 <= SEG_BOUND,
        -SEG_BOUND <= bh.0 <= SEG_BOUND,
    ensures
        final(points)@.len() == old(points)@.len(),
        fx_seq_view(final(points)@) == wrap_poly_upto(
            fx_seq_view(old(points)@),
            old(points)@.len() as int / 2 - 1,
            bw@,
            bh@,
        ),
{
    let npairs = points.len() / 2;
    if npairs == 0 {
        return ;
    }
    let ghost orig = fx_seq_view(points@);
    let mut i: usize = 0;
    while i < npairs - 1
        invariant
            npairs >= 1,
            npairs == old(points)@.len() / 2,
            i <= npairs - 1,
            points@.len() == old(points)@.len(),
            old(points)@.len() <= 2048,
            orig == fx_seq_view(old(points)@),
            forall|j: int|
                0 <= j < old(points)@.len() ==> -SEG_BOUND <= #[trigger] old(points)@[j].0
                    <= SEG_BOUND,
            -SEG_BOUND <= bw.0 <= SEG_BOUND,
            -SEG_BOUND <= bh.0 <= SEG_BOUND,
            fx_seq_view(points@) == wrap_poly_upto(orig, i as int, bw@, bh@),
            forall|j: int|
                0 <= j < points@.len() ==> -(SEG_BOUND * (2 + 2 * i)) <= #[trigger] points@[j].0
                    <= SEG_BOUND * (2 + 2 * i),
            forall|j: int|
                2 * i + 2 <= j < points@.len() ==> #[trigger] points@[j] == old(points)@[j],
        decreases npairs - 1 - i,
    {
        let x = wrap_segment_axis(points[2 * i], points[2 * i + 2], bw);
        let y = wrap_segment_axis(points[2 * i + 1], points[2 * i + 3], bh);
        points.set(2 * i, x.0);
        points.set(2 * i + 2, x.1);
        points.set(2 * i + 1, y.0);
        points.set(2 * i + 3, y.1);
        proof {
            assert(fx_seq_view(points@) =~= wrap_poly_step(
                wrap_poly_upto(orig, i as int, bw@, bh@),
                i as int,
                bw@,
                bh@,
            ));
        }
        i = i + 1;
    }
}

/// Advances every coordinate of a flattened buffer by the per-axis step.
pub open spec fn advance_all_spec(s: Seq<int>, sx: int, sy: int) -> Seq<int> {
    Seq::new(
        s.len(),
        |j: int|
            if j % 2 == 0 {
                s[j] + sx
            } else {
                s[j] + sy
            },
    )
}

/// What one motion tick does to a point buffer: advance by
/// `velocity * dt`, then resolve board wrap for the shape's kind.
pub open spec fn update_position_spec(
    shape: ShapeKind,
    dt: int,
    s: Seq<int>,
    dx: int,
    dy: int,
    bw: int,
    bh: int,
) -> Seq<int> {
    let sx = fx_mul_spec(dx, dt);
    let sy = fx_mul_spec(dy, dt);
    match shape {
        ShapeKind::Line => wrap_line_spec(advance_all_spec(s, sx, sy), bw, bh),
        ShapeKind::Polygon => wrap_poly_upto(
            advance_all_spec(s, sx, sy),
            s.len() as int / 2 - 1,
            bw,
            bh,
        ),
        ShapeKind::Unset => s,
        _ => {
            let a = s.update(0, s[0] + sx).update(1, s[1] + sy);
            a.update(0, wrap_coord_spec(a[0], bw)).update(1, wrap_coord_spec(a[1], bh))
        },
    }
}

/// Advances a block's point buffer by `velocity * dt` for its shape kind
/// and resolves board-boundary wrap-around.
pub fn update_position(
    shape: ShapeKind,
    dt: Fx,
    points: &mut Vec<Fx>,
    dx: Fx,
    dy: Fx,
    bw: Fx,
    bh: Fx,
)
    requires
        shape != ShapeKind::Unset,
        0 <= dt@,
        dt.in_range(),
        dx.in_range(),
        dy.in_range(),
        bw.in_range(),
        bh.in_range(),
        forall|j: int| 0 <= j < old(points)@.len() ==> (#[trigger] old(points)@[j]).in_range(),
        matches!(shape, ShapeKind::Line) ==> old(points)@.len() >= 4,
        matches!(shape, ShapeKind::Polygon) ==> old(points)@.len() % 2 == 0 && old(points)@.len()
            <= 2048,
        matches!(shape, ShapeKind::Rect | ShapeKind::Ellipse | ShapeKind::Circle) ==> old(
            points,
        )@.len() >= 2,
    ensures
        final(points)@.len() == old(points)@.len(),
        fx_seq_view(final(points)@) == update_position_spec(
            shape,
            dt@,
            fx_seq_view(old(points)@),
            dx@,
            dy@,
            bw@,
            bh@,
        ),
{
    let sx = fx_mul(dx, dt);
    let sy = fx_mul(dy, dt);
    proof {
        assert(-0x3_8D7E_A4C6_8000 <= sx.0 <= 0x3_8D7E_A4C6_8000) by (nonlinear_arith)
            requires
                sx.0 == (dx.0 * dt.0) as int / 1000,
                -FX_LIMIT <= dx.0 <= FX_LIMIT,
                -FX_LIMIT <= dt.0 <= FX_LIMIT,
        ;
        assert(-0x3_8D7E_A4C6_8000 <= sy.0 <= 0x3_8D7E_A4C6_8000) by (nonlinear_arith)
            requires
                sy.0 == (dy.0 * dt.0) as int / 1000,
                -FX_LIMIT <= dy.0 <= FX_LIMIT,
                -FX_LIMIT <= dt.0 <= FX_LIMIT,
        ;
    }
    match shape {
        ShapeKind::Line => {
            advance_all(points, sx, sy);
            wrap_line(points, bw, bh);
        },
        ShapeKind::Polygon => {
            advance_all(points, sx, sy);
            wrap_polygon(points, bw, bh);
        },
        ShapeKind::Unset => {
            proof {
                assert(false);
            }
        },
        _ => {
            let nx = Fx(points[0].0 + sx.0);
            let ny = Fx(points[1].0 + sy.0);
            points.set(0, wrap_coord(nx, bw));
            points.set(1, wrap_coord(ny, bh));
            proof {
                let s = fx_seq_view(old(points)@);
                let sxv = fx_mul_spec(dx@, dt@);
                let syv = fx_mul_spec(dy@, dt@);
                let a = s.update(0, s[0] + sxv).update(1, s[1] + syv);
                assert(fx_seq_view(final(points)@) =~= a.update(
                    0,
                    wrap_coord_spec(a[0], bw@),
                ).update(1, wrap_coord_spec(a[1], bh@)));
            }
        },
    }
}

/// Adds the per-axis step to every coordinate of the buffer.
fn advance_all(points: &mut Vec<Fx>, sx: Fx, sy: Fx)
    requires
        forall|j: int| 0 <= j < old(points)@.len() ==> (#[trigger] old(points)@[j]).in_range(),
        -0x3_9000_0000_0000 <= sx.0 <= 0x3_9000_0000_0000,
        -0x3_9000_0000_0000 <= sy.0 <= 0x3_9000_0000_0000,
    ensures
        final(points)@.len() == old(points)@.len(),
        fx_seq_view(final(points)@) == advance_all_spec(fx_seq_view(old(points)@), sx@, sy@),
        forall|j: int|
            0 <= j < final(points)@.len() ==> -SEG_BOUND <= (#[trigger] final(points)@[j]).0
                <= SEG_BOUND,
{
    let n = points.len();
    let mut j: usize = 0;
    while j < n
        invariant
            n == points@.len(),
            n == old(points)@.len(),
            j <= n,
            forall|k: int| j <= k < n ==> points@[k] == old(points)@[k],
            forall|k: int| 0 <= k < n ==> (#[trigger] old(points)@[k]).in_range(),
            -0x3_9000_0000_0000 <= sx.0 <= 0x3_9000_0000_0000,
            -0x3_9000_0000_0000 <= sy.0 <= 0x3_9000_0000_0000,
            forall|k: int|
                0 <= k < j ==> #[trigger] points@[k].0 == if k % 2 == 0 {
                    old(points)@[k].0 + sx.0
                } else {
                    old(points)@[k].0 + sy.0
                },
        decreases n - j,
    {
        let v = points[j];
        if j % 2 == 0 {
            points.set(j, Fx(v.0 + sx.0));
        } else {
            points.set(j, Fx(v.0 + sy.0));
        }
        j = j + 1;
    }
    proof {
        assert(fx_seq_view(final(points)@) =~= advance_all_spec(
            fx_seq_view(old(points)@),
            sx@,
            sy@,
        ));
    }
}

/// Wrap leaves an already in-range coordinate unchanged.
pub proof fn lemma_wrap_idempotent(x: int, y: int, size: int)
    requires
        0 <= x < size,
        0 <= y < size,
    ensures
        wrap_coord_spec(x, size) == x,
        wrap_coord_spec(y, size) == y,
{
}

/// One wrap correction lands any coordinate within one board length of
/// the board back inside `[0, size)`.
pub proof fn lemma_wrap_total(v: int, size: int)
    requires
        size > 0,
        -size <= v < 2 * size,
    ensures
        0 <= wrap_coord_spec(v, size) < size,
{
}

/// A segment whose first endpoint crossed the far edge is re-anchored at
/// `0` with the magnitude of its span preserved.
pub proof fn lemma_line_wrap_continuity(p1: int, p2: int, size: int)
    requires
        p1 >= size,
    ensures
        wrap_pair_spec(p1, p2, size).0 == 0,
        vstd::math::abs(wrap_pair_spec(p1, p2, size).1 - wrap_pair_spec(p1, p2, size).0)
            == vstd::math::abs(p2 - p1),
{
}

/// An anchor coordinate that starts on the board and moves by at most one
/// board length per tick is back on the board after the wrap.
pub proof fn lemma_anchor_stays_on_board(v: int, step: int, size: int)
    requires
        size > 0,
        0 <= v < size,
        -size <= step <= size,
    ensures
        0 <= wrap_coord_spec(v + step, size) < size,
{
    lemma_wrap_total(v + step, size);
}

} // verus!
