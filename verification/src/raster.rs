//! The software rasterizer.
//!
//! Each primitive plots a shape into the sparse [`PixelMap`] through a
//! single [`set_pixel`] discipline: later writes at the same coordinate
//! silently overwrite earlier ones.  Every drawing contract is phrased with
//! [`paint`]: the map after a primitive equals the map before it with the
//! primitive's pixel set overwritten by the primitive's colour.

use vstd::prelude::*;

use crate::board::{set_pixel, PixelMap};
use crate::fx::{fx_floor, fx_seq_view, lemma_floor_bounds, Fx};
use crate::shapes::{Block, Color, ShapeKind};

verus! {

/// Largest pixel-coordinate magnitude a primitive accepts.  It keeps every
/// plotted pixel inside the canonical key range even after the bounded
/// drift of the stepping algorithms.
pub const PIX_LIMIT: i64 = 0x100_0000;

/// Whether `v` is an acceptable input coordinate for a drawing primitive.
pub open spec fn pix(v: int) -> bool {
    -PIX_LIMIT <= v <= PIX_LIMIT
}

/// The map `m` with every pixel of `pts` overwritten by `c`.
pub open spec fn paint(
    m: Map<(int, int), Color>,
    pts: Set<(int, int)>,
    c: Color,
) -> Map<(int, int), Color> {
    Map::new(
        |q: (int, int)| m.contains_key(q) || pts.contains(q),
        |q: (int, int)|
            if pts.contains(q) {
                c
            } else {
                m[q]
            },
    )
}

/// Painting nothing changes nothing.
pub proof fn lemma_paint_empty(m: Map<(int, int), Color>, c: Color)
    ensures
        paint(m, Set::empty(), c) == m,
{
    assert(paint(m, Set::empty(), c) =~= m);
}

/// Painting a union is painting the parts in sequence.
pub proof fn lemma_paint_union(
    m: Map<(int, int), Color>,
    s1: Set<(int, int)>,
    s2: Set<(int, int)>,
    c: Color,
)
    ensures
        paint(m, s1.union(s2), c) == paint(paint(m, s1, c), s2, c),
{
    assert(paint(m, s1.union(s2), c) =~= paint(paint(m, s1, c), s2, c));
}

/// Painting one pixel is inserting it.
pub proof fn lemma_paint_single(m: Map<(int, int), Color>, p: (int, int), c: Color)
    ensures
        paint(m, Set::empty().insert(p), c) == m.insert(p, c),
{
    assert(paint(m, Set::empty().insert(p), c) =~= m.insert(p, c));
}

/// The axis-aligned filled rectangle `[x, x + w) x [y, y + h)`.
pub open spec fn rect_points(x: int, y: int, w: int, h: int) -> Set<(int, int)> {
    Set::new(|p: (int, int)| x <= p.0 < x + w && y <= p.1 < y + h)
}

/// Fills every pixel of `[x, x + w) x [y, y + h)` with `color`.
pub fn draw_rectangle(x: i64, y: i64, w: i64, h: i64, pixels: &mut PixelMap, color: Color)
    requires
        old(pixels).wf(),
        pix(x as int),
        pix(y as int),
        pix(w as int),
        pix(h as int),
    ensures
        final(pixels).wf(),
        final(pixels)@ == paint(old(pixels)@, rect_points(x as int, y as int, w as int, h as int), color),
{
    let ghost m0 = old(pixels)@;
    let mut i = x;
    proof {
        assert(pixels@ =~= paint(m0, Set::new(|p: (int, int)| x <= p.0 < i && y <= p.1 < y + h), color));
    }
    while i < x + w
        invariant
            pixels.wf(),
            x <= i,
            i <= x + w || i == x,
            pix(x as int) && pix(y as int) && pix(w as int) && pix(h as int),
            pixels@ == paint(m0, Set::new(|p: (int, int)| x <= p.0 < i && y <= p.1 < y + h), color),
        decreases x + w - i,
    {
        let mut j = y;
        while j < y + h
            invariant
                pixels.wf(),
                y <= j,
                j <= y + h || j == y,
                x <= i < x + w,
                pix(x as int) && pix(y as int) && pix(w as int) && pix(h as int),
                pixels@ == paint(
                    m0,
                    Set::new(
                        |p: (int, int)|
                            (x <= p.0 < i && y <= p.1 < y + h) || (p.0 == i && y <= p.1 < j),
                    ),
                    color,
                ),
            decreases y + h - j,
        {
            let ghost sprev = Set::new(
                |p: (int, int)| (x <= p.0 < i && y <= p.1 < y + h) || (p.0 == i && y <= p.1 < j),
            );
            set_pixel(pixels, i, j, color);
            proof {
                lemma_paint_insert(m0, sprev, (i as int, j as int), color);
                assert(sprev.insert((i as int, j as int)) =~= Set::new(
                    |p: (int, int)|
                        (x <= p.0 < i && y <= p.1 < y + h) || (p.0 == i && y <= p.1 < j + 1),
                ));
            }
            j = j + 1;
        }
        proof {
            assert(Set::new(
                |p: (int, int)|
                    (x <= p.0 < i && y <= p.1 < y + h) || (p.0 == i && y <= p.1 < y + h),
            ) =~= Set::new(|p: (int, int)| x <= p.0 < i + 1 && y <= p.1 < y + h));
        }
        i = i + 1;
    }
    proof {
        assert(Set::new(|p: (int, int)| x <= p.0 < i && y <= p.1 < y + h) =~= rect_points(
            x as int,
            y as int,
            w as int,
            h as int,
        ));
    }
}

/// Painting after inserting the same colour folds into one paint.
pub proof fn lemma_paint_insert(
    m: Map<(int, int), Color>,
    s: Set<(int, int)>,
    p: (int, int),
    c: Color,
)
    ensures
        paint(m, s, c).insert(p, c) == paint(m, s.insert(p), c),
{
    assert(paint(m, s, c).insert(p, c) =~= paint(m, s.insert(p), c));
}

/// The inclusive axis-aligned run between `a` and `b` at `fixed` on the
/// other axis; vertical runs fix x, horizontal runs fix y.
pub open spec fn straight_points(fixed: int, a: int, b: int, vertical: bool) -> Set<(int, int)> {
    let lo = if a <= b {
        a
    } else {
        b
    };
    let hi = if a <= b {
        b
    } else {
        a
    };
    Set::new(
        |p: (int, int)|
            if vertical {
                p.0 == fixed && lo <= p.1 <= hi
            } else {
                p.1 == fixed && lo <= p.0 <= hi
            },
    )
}

/// Direct fill of a degenerate horizontal or vertical segment, both
/// endpoints included.
pub fn draw_straight_line(
    fixed_axis: i64,
    p1: i64,
    p2: i64,
    points: &mut PixelMap,
    color: Color,
    if_vertical: bool,
)
    requires
        old(points).wf(),
        pix(fixed_axis as int),
        pix(p1 as int),
        pix(p2 as int),
    ensures
        final(points).wf(),
        final(points)@ == paint(
            old(points)@,
            straight_points(fixed_axis as int, p1 as int, p2 as int, if_vertical),
            color,
        ),
{
    let ghost m0 = old(points)@;
    let lo = if p2 < p1 {
        p2
    } else {
        p1
    };
    let hi = if p2 < p1 {
        p1
    } else {
        p2
    };
    let mut t = lo;
    proof {
        assert(points@ =~= paint(
            m0,
            Set::new(
                |p: (int, int)|
                    if if_vertical {
                        p.0 == fixed_axis && lo <= p.1 < t
                    } else {
                        p.1 == fixed_axis && lo <= p.0 < t
                    },
            ),
            color,
        ));
    }
    while t <= hi
        invariant
            points.wf(),
            lo <= t <= hi + 1,
            lo <= hi,
            pix(fixed_axis as int) && pix(lo as int) && pix(hi as int),
            points@ == paint(
                m0,
                Set::new(
                    |p: (int, int)|
                        if if_vertical {
                            p.0 == fixed_axis && lo <= p.1 < t
                        } else {
                            p.1 == fixed_axis && lo <= p.0 < t
                        },
                ),
                color,
            ),
        decreases hi + 1 - t,
    {
        let ghost sprev = Set::new(
            |p: (int, int)|
                if if_vertical {
                    p.0 == fixed_axis && lo <= p.1 < t
                } else {
                    p.1 == fixed_axis && lo <= p.0 < t
                },
        );
        if if_vertical {
            set_pixel(points, fixed_axis, t, color);
            proof {
                lemma_paint_insert(m0, sprev, (fixed_axis as int, t as int), color);
            }
        } else {
            set_pixel(points, t, fixed_axis, color);
            proof {
                lemma_paint_insert(m0, sprev, (t as int, fixed_axis as int), color);
            }
        }
        proof {
            assert(sprev.insert(
                if if_vertical {
                    (fixed_axis as int, t as int)
                } else {
                    (t as int, fixed_axis as int)
                },
            ) =~= Set::new(
                |p: (int, int)|
                    if if_vertical {
                        p.0 == fixed_axis && lo <= p.1 < t + 1
                    } else {
                        p.1 == fixed_axis && lo <= p.0 < t + 1
                    },
            ));
        }
        t = t + 1;
    }
    proof {
        assert(Set::new(
            |p: (int, int)|
                if if_vertical {
                    p.0 == fixed_axis && lo <= p.1 < t
                } else {
                    p.1 == fixed_axis && lo <= p.0 < t
                },
        ) =~= straight_points(fixed_axis as int, p1 as int, p2 as int, if_vertical));
    }
}

/// One step of the signed-error Bresenham walk: the doubled error decides
/// which of the two axes advances (possibly both).
pub open spec fn bres_next(
    x: int,
    y: int,
    err: int,
    sx: int,
    sy: int,
    dx: int,
    dy: int,
) -> (int, int, int) {
    let e2 = 2 * err;
    if e2 >= dy && e2 <= dx {
        (x + sx, y + sy, err + dy + dx)
    } else if e2 >= dy {
        (x + sx, y, err + dy)
    } else if e2 <= dx {
        (x, y + sy, err + dx)
    } else {
        (x, y, err)
    }
}

/// The pixels of the signed-error Bresenham walk from `(x, y)` toward
/// `(x2, y2)`, stopping at the target or when the step budget runs out.
pub open spec fn bres_points(
    x: int,
    y: int,
    x2: int,
    y2: int,
    err: int,
    sx: int,
    sy: int,
    dx: int,
    dy: int,
    fuel: nat,
) -> Set<(int, int)>
    decreases fuel, 1int,
{
    bres_tail(x, y, x2, y2, err, sx, sy, dx, dy, fuel).insert((x, y))
}

/// The pixels the walk still owes after plotting `(x, y)`.
pub open spec fn bres_tail(
    x: int,
    y: int,
    x2: int,
    y2: int,
    err: int,
    sx: int,
    sy: int,
    dx: int,
    dy: int,
    fuel: nat,
) -> Set<(int, int)>
    decreases fuel, 0int,
{
    if (x == x2 && y == y2) || fuel == 0 {
        Set::empty()
    } else {
        let n = bres_next(x, y, err, sx, sy, dx, dy);
        bres_points(n.0, n.1, x2, y2, n.2, sx, sy, dx, dy, (fuel - 1) as nat)
    }
}

/// The pixel set of the segment from `(x1, y1)` to `(x2, y2)`: a direct
/// fill for degenerate segments, the signed-error Bresenham walk
/// otherwise.
pub open spec fn line_points(x1: int, y1: int, x2: int, y2: int) -> Set<(int, int)> {
    if x1 == x2 {
        straight_points(x1, y1, y2, true)
    } else if y1 == y2 {
        straight_points(y1, x1, x2, false)
    } else {
        let dx = vstd::math::abs(x2 - x1) as int;
        let dy = -(vstd::math::abs(y2 - y1) as int);
        let sx: int = if x1 < x2 {
            1
        } else {
            -1
        };
        let sy: int = if y1 < y2 {
            1
        } else {
            -1
        };
        bres_points(x1, y1, x2, y2, dx + dy, sx, sy, dx, dy, (dx - dy) as nat)
    }
}

/// Draws the segment from `(x1, y1)` to `(x2, y2)`.
///
/// Degenerate horizontal or vertical segments take the direct-fill
/// shortcut; every other octant runs the signed-error Bresenham walk,
/// whose step budget of `|x2 - x1| + |y2 - y1|` covers the whole segment.
pub fn draw_line(x1: i64, y1: i64, x2: i64, y2: i64, points: &mut PixelMap, color: Color)
    requires
        old(points).wf(),
        pix(x1 as int),
        pix(y1 as int),
        pix(x2 as int),
        pix(y2 as int),
    ensures
        final(points).wf(),
        final(points)@ == paint(
            old(points)@,
            line_points(x1 as int, y1 as int, x2 as int, y2 as int),
            color,
        ),
{
    let ghost m0 = old(points)@;
    if x2 - x1 == 0 {
        draw_straight_line(x1, y1, y2, points, color, true);
        return ;
    }
    if y2 - y1 == 0 {
        draw_straight_line(y1, x1, x2, points, color, false);
        return ;
    }
    let dx = if x2 >= x1 {
        x2 - x1
    } else {
        x1 - x2
    };
    let dy = if y2 >= y1 {
        -(y2 - y1)
    } else {
        -(y1 - y2)
    };
    let sx: i64 = if x1 < x2 {
        1
    } else {
        -1
    };
    let sy: i64 = if y1 < y2 {
        1
    } else {
        -1
    };
    let mut x = x1;
    let mut y = y1;
    let mut err = dx + dy;
    let fuel0 = dx - dy;
    let mut fuel = fuel0;
    let ghost full = bres_points(
        x1 as int,
        y1 as int,
        x2 as int,
        y2 as int,
        (dx + dy) as int,
        sx as int,
        sy as int,
        dx as int,
        dy as int,
        fuel0 as nat,
    );
    set_pixel(points, x, y, color);
    proof {
        let head = (x1 as int, y1 as int);
        let tail0 = bres_tail(
            x as int,
            y as int,
            x2 as int,
            y2 as int,
            err as int,
            sx as int,
            sy as int,
            dx as int,
            dy as int,
            fuel as nat,
        );
        assert(full == tail0.insert(head));
        assert(Set::empty().insert(head).union(tail0) =~= tail0.insert(head));
        lemma_paint_union(m0, Set::empty().insert(head), tail0, color);
        lemma_paint_single(m0, head, color);
    }
    while !(x == x2 && y == y2) && fuel > 0
        invariant
            points.wf(),
            1 <= dx <= 2 * PIX_LIMIT,
            -2 * PIX_LIMIT <= dy <= -1,
            sx == 1 || sx == -1,
            sy == 1 || sy == -1,
            fuel0 == dx - dy,
            0 <= fuel <= fuel0,
            -2 * (dx - dy) <= err <= 2 * (dx - dy),
            -PIX_LIMIT - (fuel0 - fuel) <= x <= PIX_LIMIT + (fuel0 - fuel),
            -PIX_LIMIT - (fuel0 - fuel) <= y <= PIX_LIMIT + (fuel0 - fuel),
            pix(x2 as int) && pix(y2 as int),
            paint(
                points@,
                bres_tail(
                    x as int,
                    y as int,
                    x2 as int,
                    y2 as int,
                    err as int,
                    sx as int,
                    sy as int,
                    dx as int,
                    dy as int,
                    fuel as nat,
                ),
                color,
            ) == paint(m0, full, color),
        decreases fuel,
    {
        let ghost tail_before = bres_tail(
            x as int,
            y as int,
            x2 as int,
            y2 as int,
            err as int,
            sx as int,
            sy as int,
            dx as int,
            dy as int,
            fuel as nat,
        );
        let e2 = 2 * err;
        if e2 >= dy {
            err = err + dy;
            x = x + sx;
        }
        if e2 <= dx {
            err = err + dx;
            y = y + sy;
        }
        fuel = fuel - 1;
        let ghost tail_after = bres_tail(
            x as int,
            y as int,
            x2 as int,
            y2 as int,
            err as int,
            sx as int,
            sy as int,
            dx as int,
            dy as int,
            fuel as nat,
        );
        let ghost mb = points@;
        set_pixel(points, x, y, color);
        proof {
            let head = (x as int, y as int);
            assert(tail_before == tail_after.insert(head));
            assert(Set::empty().insert(head).union(tail_after) =~= tail_after.insert(head));
            lemma_paint_union(mb, Set::empty().insert(head), tail_after, color);
            lemma_paint_single(mb, head, color);
        }
    }
    proof {
        assert(bres_tail(
            x as int,
            y as int,
            x2 as int,
            y2 as int,
            err as int,
            sx as int,
            sy as int,
            dx as int,
            dy as int,
            fuel as nat,
        ) =~= Set::<(int, int)>::empty());
        lemma_paint_empty(points@, color);
        assert(full == line_points(x1 as int, y1 as int, x2 as int, y2 as int));
    }
}

/// The eight octant-mirrored pixels plotted for one circle step.
pub open spec fn oct_points(cx: int, cy: int, x0: int, y0: int) -> Set<(int, int)> {
    Set::empty().insert((cx + x0, cy - y0)).insert((cx + y0, cy - x0)).insert(
        (cx + y0, cy + x0),
    ).insert((cx + x0, cy + y0)).insert((cx - x0, cy + y0)).insert((cx - y0, cy + x0)).insert(
        (cx - y0, cy - x0),
    ).insert((cx - x0, cy - y0))
}

/// The pixels the midpoint circle walk still plots from state
/// `(x0, y0, d)`: eight mirrored points per step, the radius axis
/// advancing every step and the other axis retreating when the decision
/// variable is non-negative.
pub open spec fn circle_walk(cx: int, cy: int, x0: int, y0: int, d: int) -> Set<(int, int)>
    decreases y0 - x0 + 2,
{
    if y0 < x0 {
        Set::empty()
    } else {
        let x1 = x0 + 1;
        if d < 0 {
            circle_walk(cx, cy, x1, y0, d + 4 * x1 + 6).union(oct_points(cx, cy, x0, y0))
        } else {
            circle_walk(cx, cy, x1, y0 - 1, d + 4 * (x1 - (y0 - 1)) + 10).union(
                oct_points(cx, cy, x0, y0),
            )
        }
    }
}

/// The pixel set of the midpoint circle of radius `r` centred at
/// `(cx, cy)`; empty when `r` is negative.
pub open spec fn circle_points(cx: int, cy: int, r: int) -> Set<(int, int)> {
    circle_walk(cx, cy, 0, r, 3 - 2 * r)
}

/// Plots the midpoint circle of radius `r` centred at `(x, y)`.
pub fn draw_circle(x: i64, y: i64, r: i64, points: &mut PixelMap, color: Color)
    requires
        old(points).wf(),
        pix(x as int),
        pix(y as int),
        pix(r as int),
    ensures
        final(points).wf(),
        final(points)@ == paint(old(points)@, circle_points(x as int, y as int, r as int), color),
{
    let ghost m0 = old(points)@;
    let mut x0: i64 = 0;
    let mut y0: i64 = r;
    let mut d: i64 = 3 - 2 * r;
    while y0 >= x0
        invariant
            points.wf(),
            pix(x as int) && pix(y as int) && pix(r as int),
            0 <= x0,
            x0 <= r + 1 || x0 == 0,
            y0 <= r,
            x0 - 2 <= y0 || x0 == 0,
            -((x0 + 1) * 0x800_0000) <= d <= (x0 + 1) * 0x800_0000,
            paint(points@, circle_walk(x as int, y as int, x0 as int, y0 as int, d as int), color)
                == paint(m0, circle_points(x as int, y as int, r as int), color),
        decreases y0 - x0 + 2,
    {
        let ghost walk_before = circle_walk(x as int, y as int, x0 as int, y0 as int, d as int);
        let ghost oct = oct_points(x as int, y as int, x0 as int, y0 as int);
        let ghost mb = points@;
        set_pixel(points, x + x0, y - y0, color);
        set_pixel(points, x + y0, y - x0, color);
        set_pixel(points, x + y0, y + x0, color);
        set_pixel(points, x + x0, y + y0, color);
        set_pixel(points, x - x0, y + y0, color);
        set_pixel(points, x - y0, y + x0, color);
        set_pixel(points, x - y0, y - x0, color);
        set_pixel(points, x - x0, y - y0, color);
        proof {
            assert(points@ =~= paint(mb, oct, color));
        }
        x0 = x0 + 1;
        if d < 0 {
            d = d + 4 * x0 + 6;
        } else {
            y0 = y0 - 1;
            d = d + 4 * (x0 - y0) + 10;
        }
        proof {
            let walk_after = circle_walk(x as int, y as int, x0 as int, y0 as int, d as int);
            assert(walk_before == walk_after.union(oct));
            assert(oct.union(walk_after) =~= walk_after.union(oct));
            lemma_paint_union(mb, oct, walk_after, color);
        }
    }
    proof {
        assert(circle_walk(x as int, y as int, x0 as int, y0 as int, d as int)
            =~= Set::<(int, int)>::empty());
        lemma_paint_empty(points@, color);
    }
}

/// The four axis-mirrored pixels plotted for one ellipse step.
pub open spec fn quad_points(cx: int, cy: int, x: int, y: int) -> Set<(int, int)> {
    Set::empty().insert((cx + x, cy + y)).insert((cx + x, cy - y)).insert(
        (cx - x, cy + y),
    ).insert((cx - x, cy - y))
}

/// Whether the first midpoint-ellipse region is finished: its decision
/// increment has reached the slope threshold.
pub open spec fn ellipse_r1_done(a2: int, b2: int, d_pse: int) -> bool {
    !(d_pse < 8 * a2 + 12 * b2)
}

/// One step of the first ellipse region, on state
/// `(x, y, p, d_pe, d_pse)`; the recurrences carry the quarter-unit
/// decision parameter scaled by four, so every quantity is an integer.
pub open spec fn ellipse_r1_next(
    a2: int,
    b2: int,
    x: int,
    y: int,
    p: int,
    d_pe: int,
    d_pse: int,
) -> (int, int, int, int, int) {
    if p < 0 {
        (x + 1, y, p + d_pe, d_pe + 8 * b2, d_pse + 8 * b2)
    } else {
        (x + 1, y - 1, p + d_pse, d_pe + 8 * b2, d_pse + (8 * b2 + 8 * a2))
    }
}

/// The pixels the first ellipse region still plots from the given state.
pub open spec fn ellipse_r1_walk(
    cx: int,
    cy: int,
    a2: int,
    b2: int,
    x: int,
    y: int,
    p: int,
    d_pe: int,
    d_pse: int,
    fuel: nat,
) -> Set<(int, int)>
    decreases fuel,
{
    if ellipse_r1_done(a2, b2, d_pse) || fuel == 0 {
        Set::empty()
    } else {
        let n = ellipse_r1_next(a2, b2, x, y, p, d_pe, d_pse);
        ellipse_r1_walk(cx, cy, a2, b2, n.0, n.1, n.2, n.3, n.4, (fuel - 1) as nat).union(
            quad_points(cx, cy, n.0, n.1),
        )
    }
}

/// The state in which the first ellipse region ends.
pub open spec fn ellipse_r1_final(
    a2: int,
    b2: int,
    x: int,
    y: int,
    p: int,
    d_pe: int,
    d_pse: int,
    fuel: nat,
) -> (int, int, int, int, int)
    decreases fuel,
{
    if ellipse_r1_done(a2, b2, d_pse) || fuel == 0 {
        (x, y, p, d_pe, d_pse)
    } else {
        let n = ellipse_r1_next(a2, b2, x, y, p, d_pe, d_pse);
        ellipse_r1_final(a2, b2, n.0, n.1, n.2, n.3, n.4, (fuel - 1) as nat)
    }
}

/// One step of the second ellipse region, on state
/// `(x, y, p, d_pe, d_pse)`.
pub open spec fn ellipse_r2_next(
    a2: int,
    b2: int,
    x: int,
    y: int,
    p: int,
    d_pe: int,
    d_pse: int,
) -> (int, int, int, int, int) {
    if p > 0 {
        (x, y - 1, p + d_pe, d_pe + 8 * a2, d_pse + 8 * a2)
    } else {
        (x + 1, y - 1, p + d_pse, d_pe + 8 * a2, d_pse + (8 * a2 + 8 * b2))
    }
}

/// The pixels the second ellipse region still plots from the given state;
/// it runs the minor axis down to zero.
pub open spec fn ellipse_r2_walk(
    cx: int,
    cy: int,
    a2: int,
    b2: int,
    x: int,
    y: int,
    p: int,
    d_pe: int,
    d_pse: int,
) -> Set<(int, int)>
    decreases y,
{
    if y <= 0 {
        Set::empty()
    } else {
        let n = ellipse_r2_next(a2, b2, x, y, p, d_pe, d_pse);
        ellipse_r2_walk(cx, cy, a2, b2, n.0, n.1, n.2, n.3, n.4).union(
            quad_points(cx, cy, n.0, n.1),
        )
    }
}

/// The step budget of the first ellipse region.  A well-formed traversal
/// needs at most `a + b + 2` steps; the budget caps the recurrence on
/// degenerate semi-axes, where it would otherwise scan far past the
/// ellipse's extent.
pub open spec fn ellipse_fuel(a: int, b: int) -> nat {
    (4 * (vstd::math::abs(a) + vstd::math::abs(b)) + 8) as nat
}

/// The pixels the second region still owes given where the first ended.
pub open spec fn ellipse_r2_rest(
    cx: int,
    cy: int,
    a2: int,
    b2: int,
    f: (int, int, int, int, int),
) -> Set<(int, int)> {
    ellipse_r2_walk(
        cx,
        cy,
        a2,
        b2,
        f.0,
        f.1,
        f.2 - (a2 * (4 * f.1 - 3) + b2 * (4 * f.0 + 3) + 2),
        f.3,
        8 * b2 + 12 * a2,
    )
}

/// The pixel set of the midpoint ellipse with semi-axes `a` and `b`
/// centred at `(cx, cy)`.
pub open spec fn ellipse_points(cx: int, cy: int, a: int, b: int) -> Set<(int, int)> {
    let a2 = a * a;
    let b2 = b * b;
    let p0 = 4 * b2 + a2 * (1 - 4 * b) - 2;
    let dpe0 = 12 * b2;
    let dpse0 = 12 * b2 - 8 * (a2 * (b - 1));
    let fuel = ellipse_fuel(a, b);
    quad_points(cx, cy, 0, b).union(
        ellipse_r1_walk(cx, cy, a2, b2, 0, b, p0, dpe0, dpse0, fuel),
    ).union(ellipse_r2_rest(cx, cy, a2, b2, ellipse_r1_final(a2, b2, 0, b, p0, dpe0, dpse0, fuel)))
}

/// Plots the four mirrored pixels of one ellipse step.
fn plot_quad(cx: i64, cy: i64, x: i64, y: i64, points: &mut PixelMap, color: Color)
    requires
        old(points).wf(),
        -0x4000_0000 <= cx + x <= 0x4000_0000,
        -0x4000_0000 <= cx - x <= 0x4000_0000,
        -0x4000_0000 <= cy + y <= 0x4000_0000,
        -0x4000_0000 <= cy - y <= 0x4000_0000,
    ensures
        final(points).wf(),
        final(points)@ == paint(
            old(points)@,
            quad_points(cx as int, cy as int, x as int, y as int),
            color,
        ),
{
    set_pixel(points, cx + x, cy + y, color);
    set_pixel(points, cx + x, cy - y, color);
    set_pixel(points, cx - x, cy + y, color);
    set_pixel(points, cx - x, cy - y, color);
    proof {
        assert(final(points)@ =~= paint(
            old(points)@,
            quad_points(cx as int, cy as int, x as int, y as int),
            color,
        ));
    }
}

/// Plots the midpoint ellipse with semi-axes `a` (horizontal) and `b`
/// (vertical) centred at `(cx, cy)`, four-way symmetric, two decision
/// regions.
pub fn draw_ellipse(cx: i64, cy: i64, a: i64, b: i64, points: &mut PixelMap, color: Color)
    requires
        old(points).wf(),
        pix(cx as int),
        pix(cy as int),
        pix(a as int),
        pix(b as int),
    ensures
        final(points).wf(),
        final(points)@ == paint(
            old(points)@,
            ellipse_points(cx as int, cy as int, a as int, b as int),
            color,
        ),
{
    let ghost m0 = old(points)@;
    let ghost full = ellipse_points(cx as int, cy as int, a as int, b as int);
    proof {
        assert(0 <= (a as int) * (a as int) <= 0x1_0000_0000_0000) by (nonlinear_arith)
            requires
                -0x100_0000 <= a as int <= 0x100_0000,
        ;
        assert(0 <= (b as int) * (b as int) <= 0x1_0000_0000_0000) by (nonlinear_arith)
            requires
                -0x100_0000 <= b as int <= 0x100_0000,
        ;
    }
    let a2: i128 = (a as i128) * (a as i128);
    let b2: i128 = (b as i128) * (b as i128);
    let t1: i128 = 1 - 4 * (b as i128);
    let t2: i128 = (b as i128) - 1;
    proof {
        assert(-0x800_0000_0000_0000_0000 <= (a2 as int) * (t1 as int)
            <= 0x800_0000_0000_0000_0000) by (nonlinear_arith)
            requires
                0 <= a2 as int <= 0x1_0000_0000_0000,
                -0x500_0000 <= t1 as int <= 0x500_0000,
        ;
        assert(-0x800_0000_0000_0000_0000 <= (a2 as int) * (t2 as int)
            <= 0x800_0000_0000_0000_0000) by (nonlinear_arith)
            requires
                0 <= a2 as int <= 0x1_0000_0000_0000,
                -0x500_0000 <= t2 as int <= 0x500_0000,
        ;
    }
    let mut x: i64 = 0;
    let mut y: i64 = b;
    let mut p: i128 = 4 * b2 + a2 * t1 - 2;
    let mut d_pe: i128 = 12 * b2;
    let mut d_pse: i128 = 12 * b2 - 8 * (a2 * t2);
    let aa = if a >= 0 {
        a
    } else {
        -a
    };
    let bb = if b >= 0 {
        b
    } else {
        -b
    };
    let fuel0: i64 = 4 * (aa + bb) + 8;
    let mut fuel: i64 = fuel0;
    let threshold: i128 = 8 * a2 + 12 * b2;
    plot_quad(cx, cy, x, y, points, color);
    proof {
        let r1 = ellipse_r1_walk(
            cx as int,
            cy as int,
            a2 as int,
            b2 as int,
            x as int,
            y as int,
            p as int,
            d_pe as int,
            d_pse as int,
            fuel as nat,
        );
        let r2 = ellipse_r2_rest(
            cx as int,
            cy as int,
            a2 as int,
            b2 as int,
            ellipse_r1_final(
                a2 as int,
                b2 as int,
                x as int,
                y as int,
                p as int,
                d_pe as int,
                d_pse as int,
                fuel as nat,
            ),
        );
        let q0 = quad_points(cx as int, cy as int, 0, b as int);
        assert(full == q0.union(r1).union(r2));
        assert(q0.union(r1).union(r2) =~= q0.union(r1.union(r2)));
        lemma_paint_union(m0, q0, r1.union(r2), color);
    }
    while d_pse < threshold && fuel > 0
        invariant
            points.wf(),
            pix(cx as int) && pix(cy as int) && pix(a as int) && pix(b as int),
            a2 == (a as int) * (a as int),
            b2 == (b as int) * (b as int),
            0 <= a2 <= 0x1_0000_0000_0000,
            0 <= b2 <= 0x1_0000_0000_0000,
            threshold == 8 * a2 + 12 * b2,
            0 <= fuel <= fuel0,
            fuel0 <= 0x900_0008,
            x == fuel0 - fuel,
            b - (fuel0 - fuel) <= y <= b,
            -(0x10_0000_0000_0000 + (fuel0 - fuel) * 0x8_0000_0000_0000) <= d_pe <= 0x10_0000_0000_0000
                + (fuel0 - fuel) * 0x8_0000_0000_0000,
            -(0x1_0000_0000_0000_0000_0000 + (fuel0 - fuel) * 0x10_0000_0000_0000) <= d_pse
                <= 0x1_0000_0000_0000_0000_0000 + (fuel0 - fuel) * 0x10_0000_0000_0000,
            -(0x1_0000_0000_0000_0000_0000_0000 + (fuel0 - fuel) * 0x4_0000_0000_0000_0000_0000)
                <= p <= 0x1_0000_0000_0000_0000_0000_0000 + (fuel0 - fuel)
                * 0x4_0000_0000_0000_0000_0000,
            paint(
                points@,
                ellipse_r1_walk(
                    cx as int,
                    cy as int,
                    a2 as int,
                    b2 as int,
                    x as int,
                    y as int,
                    p as int,
                    d_pe as int,
                    d_pse as int,
                    fuel as nat,
                ).union(
                    ellipse_r2_rest(
                        cx as int,
                        cy as int,
                        a2 as int,
                        b2 as int,
                        ellipse_r1_final(
                            a2 as int,
                            b2 as int,
                            x as int,
                            y as int,
                            p as int,
                            d_pe as int,
                            d_pse as int,
                            fuel as nat,
                        ),
                    ),
                ),
                color,
            ) == paint(m0, full, color),
        decreases fuel,
    {
        let ghost walk_b = ellipse_r1_walk(
            cx as int,
            cy as int,
            a2 as int,
            b2 as int,
            x as int,
            y as int,
            p as int,
            d_pe as int,
            d_pse as int,
            fuel as nat,
        );
        let ghost fin_b = ellipse_r1_final(
            a2 as int,
            b2 as int,
            x as int,
            y as int,
            p as int,
            d_pe as int,
            d_pse as int,
            fuel as nat,
        );
        if p < 0 {
            p = p + d_pe;
            d_pe = d_pe + 2 * b2 * 4;
            d_pse = d_pse + 2 * b2 * 4;
        } else {
            p = p + d_pse;
            d_pe = d_pe + 2 * b2 * 4;
            d_pse = d_pse + (2 * b2 * 4 + 2 * a2 * 4);
            y = y - 1;
        }
        x = x + 1;
        fuel = fuel - 1;
        let ghost mb = points@;
        plot_quad(cx, cy, x, y, points, color);
        proof {
            let walk_a = ellipse_r1_walk(
                cx as int,
                cy as int,
                a2 as int,
                b2 as int,
                x as int,
                y as int,
                p as int,
                d_pe as int,
                d_pse as int,
                fuel as nat,
            );
            let fin_a = ellipse_r1_final(
                a2 as int,
                b2 as int,
                x as int,
                y as int,
                p as int,
                d_pe as int,
                d_pse as int,
                fuel as nat,
            );
            let q = quad_points(cx as int, cy as int, x as int, y as int);
            let r2b = ellipse_r2_rest(cx as int, cy as int, a2 as int, b2 as int, fin_b);
            assert(fin_b == fin_a);
            assert(walk_b == walk_a.union(q));
            assert(walk_b.union(r2b) =~= q.union(walk_a.union(r2b)));
            lemma_paint_union(mb, q, walk_a.union(r2b), color);
        }
    }
    let ghost fin = ellipse_r1_final(
        a2 as int,
        b2 as int,
        x as int,
        y as int,
        p as int,
        d_pe as int,
        d_pse as int,
        fuel as nat,
    );
    proof {
        assert(ellipse_r1_walk(
            cx as int,
            cy as int,
            a2 as int,
            b2 as int,
            x as int,
            y as int,
            p as int,
            d_pe as int,
            d_pse as int,
            fuel as nat,
        ) =~= Set::<(int, int)>::empty());
        assert(fin == (x as int, y as int, p as int, d_pe as int, d_pse as int));
        assert(Set::empty().union(
            ellipse_r2_rest(cx as int, cy as int, a2 as int, b2 as int, fin),
        ) =~= ellipse_r2_rest(cx as int, cy as int, a2 as int, b2 as int, fin));
    }
    let u1: i128 = 4 * (y as i128) - 3;
    let u2: i128 = 4 * (x as i128) + 3;
    proof {
        assert(-0x4_0000_0000_0000_0000_0000 <= (a2 as int) * (u1 as int)
            <= 0x4_0000_0000_0000_0000_0000) by (nonlinear_arith)
            requires
                0 <= a2 as int <= 0x1_0000_0000_0000,
                -0x8000_0000 <= u1 as int <= 0x8000_0000,
        ;
        assert(-0x4_0000_0000_0000_0000_0000 <= (b2 as int) * (u2 as int)
            <= 0x4_0000_0000_0000_0000_0000) by (nonlinear_arith)
            requires
                0 <= b2 as int <= 0x1_0000_0000_0000,
                -0x8000_0000 <= u2 as int <= 0x8000_0000,
        ;
    }
    p = p - (a2 * u1 + b2 * u2 + 2);
    d_pse = 2 * b2 * 4 + 3 * a2 * 4;
    let ghost ystart = y as int;
    let ghost xstart = x as int;
    let ghost pe_start_bound: int = (0x10_0000_0000_0000 + 0x900_0008 * 0x8_0000_0000_0000) as int;
    while y > 0
        invariant
            points.wf(),
            pix(cx as int) && pix(cy as int),
            a2 == (a as int) * (a as int),
            b2 == (b as int) * (b as int),
            0 <= a2 <= 0x1_0000_0000_0000,
            0 <= b2 <= 0x1_0000_0000_0000,
            pe_start_bound == 0x10_0000_0000_0000 + 0x900_0008 * 0x8_0000_0000_0000,
            ystart <= 0x100_0000,
            0 <= xstart <= 0x900_0008,
            y <= ystart,
            y >= 0 || y == ystart,
            xstart <= x <= xstart + (ystart - y),
            -(pe_start_bound + (ystart - y) * 0x8_0000_0000_0000) <= d_pe <= pe_start_bound + (
            ystart - y) * 0x8_0000_0000_0000,
            -(0x20_0000_0000_0000 + (ystart - y) * 0x10_0000_0000_0000) <= d_pse
                <= 0x20_0000_0000_0000 + (ystart - y) * 0x10_0000_0000_0000,
            -(0x4_0000_0000_0000_0000_0000_0000_0000 + (ystart - y)
                * 0x4_0000_0000_0000_0000_0000) <= p
                <= 0x4_0000_0000_0000_0000_0000_0000_0000 + (ystart - y)
                * 0x4_0000_0000_0000_0000_0000,
            paint(
                points@,
                ellipse_r2_walk(
                    cx as int,
                    cy as int,
                    a2 as int,
                    b2 as int,
                    x as int,
                    y as int,
                    p as int,
                    d_pe as int,
                    d_pse as int,
                ),
                color,
            ) == paint(m0, full, color),
        decreases y,
    {
        let ghost walk_b = ellipse_r2_walk(
            cx as int,
            cy as int,
            a2 as int,
            b2 as int,
            x as int,
            y as int,
            p as int,
            d_pe as int,
            d_pse as int,
        );
        if p > 0 {
            p = p + d_pe;
            d_pe = d_pe + 2 * a2 * 4;
            d_pse = d_pse + 2 * a2 * 4;
        } else {
            p = p + d_pse;
            d_pe = d_pe + 2 * a2 * 4;
            d_pse = d_pse + (2 * b2 * 4 + 2 * a2 * 4);
            x = x + 1;
        }
        y = y - 1;
        let ghost mb = points@;
        plot_quad(cx, cy, x, y, points, color);
        proof {
            let walk_a = ellipse_r2_walk(
                cx as int,
                cy as int,
                a2 as int,
                b2 as int,
                x as int,
                y as int,
                p as int,
                d_pe as int,
                d_pse as int,
            );
            let q = quad_points(cx as int, cy as int, x as int, y as int);
            assert(walk_b == walk_a.union(q));
            assert(walk_b =~= q.union(walk_a));
            lemma_paint_union(mb, q, walk_a, color);
        }
    }
    proof {
        assert(ellipse_r2_walk(
            cx as int,
            cy as int,
            a2 as int,
            b2 as int,
            x as int,
            y as int,
            p as int,
            d_pe as int,
            d_pse as int,
        ) =~= Set::<(int, int)>::empty());
        lemma_paint_empty(points@, color);
    }
}

/// The vertex list a flattened fixed-point buffer denotes: consecutive
/// pairs, each floored to the pixel grid; a trailing odd value is ignored.
pub open spec fn poly_verts(s: Seq<int>) -> Seq<(int, int)> {
    Seq::new((s.len() / 2) as nat, |i: int| (fx_floor(s[2 * i]), fx_floor(s[2 * i + 1])))
}

/// The pixels of the first `k` edges of the closed polygon over `verts`:
/// edge `k - 1` joins vertex `k - 1` to its successor, the last vertex
/// closing back to the first.
pub open spec fn polygon_edges(verts: Seq<(int, int)>, k: int) -> Set<(int, int)>
    decreases k,
{
    if k <= 0 {
        Set::empty()
    } else {
        let j: int = if k == verts.len() {
            0
        } else {
            k
        };
        polygon_edges(verts, k - 1).union(
            line_points(verts[k - 1].0, verts[k - 1].1, verts[j].0, verts[j].1),
        )
    }
}

/// The pixel set of the closed polygon over `verts`: every consecutive
/// edge, the closing edge included.
pub open spec fn polygon_points(verts: Seq<(int, int)>) -> Set<(int, int)> {
    polygon_edges(verts, verts.len() as int)
}

/// Rasterizes a block's polygon buffer as a closed line loop: each
/// consecutive pair of vertices is joined by a line, and the last vertex
/// is joined back to the first.
pub fn draw_polygon(point_list: &Vec<Vec<Fx>>, block: &Block, pixels: &mut PixelMap)
    requires
        old(pixels).wf(),
        block.index < point_list@.len(),
        forall|j: int|
            0 <= j < point_list@[block.index as int]@.len() ==> (#[trigger] point_list@[block.index as int]@[j]).in_range(),
    ensures
        final(pixels).wf(),
        final(pixels)@ == paint(
            old(pixels)@,
            polygon_points(poly_verts(fx_seq_view(point_list@[block.index as int]@))),
            block.color,
        ),
{
    let ghost m0 = old(pixels)@;
    let buf = &point_list[block.index];
    let ghost raw = fx_seq_view(buf@);
    let ghost vs = poly_verts(raw);
    let n = buf.len() / 2;
    let mut verts: Vec<(i64, i64)> = Vec::new();
    let mut i: usize = 0;
    while i < n
        invariant
            n == buf@.len() / 2,
            2 * (n as int) <= buf@.len(),
            buf@.len() <= usize::MAX,
            i <= n,
            raw == fx_seq_view(buf@),
            vs == poly_verts(raw),
            forall|j: int| 0 <= j < buf@.len() ==> (#[trigger] buf@[j]).in_range(),
            verts@.len() == i,
            forall|k: int|
                0 <= k < i ==> ((#[trigger] verts@[k]).0 as int, verts@[k].1 as int) == vs[k],
            forall|k: int|
                0 <= k < i ==> pix((#[trigger] verts@[k]).0 as int) && pix(verts@[k].1 as int),
        decreases n - i,
    {
        let vx = buf[2 * i].floor_units();
        let vy = buf[2 * i + 1].floor_units();
        proof {
            lemma_floor_bounds(buf@[2 * i as int]@);
            lemma_floor_bounds(buf@[2 * i as int + 1]@);
        }
        verts.push((vx, vy));
        i = i + 1;
    }
    proof {
        assert(pixels@ =~= paint(m0, polygon_edges(vs, 0), block.color)) by {
            assert(polygon_edges(vs, 0) =~= Set::<(int, int)>::empty());
        }
    }
    let mut e: usize = 0;
    while e < n
        invariant
            pixels.wf(),
            n == verts@.len(),
            vs.len() == n,
            e <= n,
            forall|k: int|
                0 <= k < n ==> ((#[trigger] verts@[k]).0 as int, verts@[k].1 as int) == vs[k],
            forall|k: int|
                0 <= k < n ==> pix((#[trigger] verts@[k]).0 as int) && pix(verts@[k].1 as int),
            pixels@ == paint(m0, polygon_edges(vs, e as int), block.color),
        decreases n - e,
    {
        let from = verts[e];
        let to = if e + 1 == n {
            verts[0]
        } else {
            verts[e + 1]
        };
        let ghost before = polygon_edges(vs, e as int);
        let ghost mb = pixels@;
        draw_line(from.0, from.1, to.0, to.1, pixels, block.color);
        proof {
            let seg = line_points(from.0 as int, from.1 as int, to.0 as int, to.1 as int);
            lemma_paint_union(m0, before, seg, block.color);
            assert(polygon_edges(vs, e as int + 1) == before.union(seg));
        }
        e = e + 1;
    }
    proof {
        assert(polygon_edges(vs, n as int) == polygon_points(vs));
    }
}

/// Whether a block may be handed to the rasterizer together with the
/// given point-buffer collection: its index is live, its kind is set, its
/// buffer is long enough for its kind, and every quantity is in range.
pub open spec fn block_wf(b: Block, point_list: Seq<Vec<Fx>>) -> bool {
    &&& b.index < point_list.len()
    &&& b.shape != ShapeKind::Unset
    &&& b.x.in_range() && b.y.in_range()
    &&& forall|j: int|
        0 <= j < point_list[b.index as int]@.len() ==> (#[trigger] point_list[b.index as int]@[j]).in_range()
    &&& match b.shape {
        ShapeKind::Rect | ShapeKind::Ellipse | ShapeKind::Line => point_list[b.index as int]@.len()
            >= 4,
        ShapeKind::Circle => point_list[b.index as int]@.len() >= 3,
        _ => true,
    }
}

/// The pixel set a single block contributes, its anchor offsets applied
/// to its buffer's leading coordinates and everything floored to the
/// pixel grid.
pub open spec fn shape_points(b: Block, buf: Seq<int>) -> Set<(int, int)> {
    match b.shape {
        ShapeKind::Rect => rect_points(
            fx_floor(b.x@ + buf[0]),
            fx_floor(b.y@ + buf[1]),
            fx_floor(buf[2]),
            fx_floor(buf[3]),
        ),
        ShapeKind::Circle => circle_points(
            fx_floor(b.x@ + buf[0]),
            fx_floor(b.y@ + buf[1]),
            fx_floor(buf[2]),
        ),
        ShapeKind::Ellipse => ellipse_points(
            fx_floor(b.x@ + buf[0]),
            fx_floor(b.y@ + buf[1]),
            fx_floor(buf[2]),
            fx_floor(buf[3]),
        ),
        ShapeKind::Line => line_points(
            fx_floor(b.x@ + buf[0]),
            fx_floor(b.y@ + buf[1]),
            fx_floor(b.x@ + buf[2]),
            fx_floor(b.y@ + buf[3]),
        ),
        ShapeKind::Polygon => polygon_points(poly_verts(buf)),
        ShapeKind::Unset => Set::empty(),
    }
}

/// The pixel map a whole scene rasterizes to: each block painted in
/// order, later blocks overwriting earlier ones where they collide.
pub open spec fn draw_shapes_spec(
    blocks: Seq<Block>,
    point_list: Seq<Vec<Fx>>,
) -> Map<(int, int), Color>
    decreases blocks.len(),
{
    if blocks.len() == 0 {
        Map::empty()
    } else {
        let b = blocks.last();
        paint(
            draw_shapes_spec(blocks.drop_last(), point_list),
            shape_points(b, fx_seq_view(point_list[b.index as int]@)),
            b.color,
        )
    }
}

/// Rasterizes every block of the scene into a fresh pixel map, in block
/// order, each shape plotted by its kind's primitive.
pub fn draw_shapes(shapes: &Vec<Block>, point_list: &Vec<Vec<Fx>>) -> (r: PixelMap)
    requires
        forall|i: int| 0 <= i < shapes@.len() ==> block_wf(#[trigger] shapes@[i], point_list@),
    ensures
        r.wf(),
        r@ == draw_shapes_spec(shapes@, point_list@),
{
    let mut pixels = PixelMap::new();
    let mut idx: usize = 0;
    proof {
        assert(shapes@.take(0) =~= Seq::<Block>::empty());
    }
    while idx < shapes.len()
        invariant
            pixels.wf(),
            idx <= shapes@.len(),
            forall|i: int| 0 <= i < shapes@.len() ==> block_wf(#[trigger] shapes@[i], point_list@),
            pixels@ == draw_shapes_spec(shapes@.take(idx as int), point_list@),
        decreases shapes@.len() - idx,
    {
        let block = &shapes[idx];
        let buf = &point_list[block.index];
        let ghost raw = fx_seq_view(buf@);
        match block.shape {
            ShapeKind::Rect => {
                let ax = Fx(block.x.0 + buf[0].0);
                let ay = Fx(block.y.0 + buf[1].0);
                proof {
                    lemma_floor_bounds(ax@);
                    lemma_floor_bounds(ay@);
                    lemma_floor_bounds(buf@[2]@);
                    lemma_floor_bounds(buf@[3]@);
                }
                draw_rectangle(
                    ax.floor_units(),
                    ay.floor_units(),
                    buf[2].floor_units(),
                    buf[3].floor_units(),
                    &mut pixels,
                    block.color,
                );
            },
            ShapeKind::Circle => {
                let ax = Fx(block.x.0 + buf[0].0);
                let ay = Fx(block.y.0 + buf[1].0);
                proof {
                    lemma_floor_bounds(ax@);
                    lemma_floor_bounds(ay@);
                    lemma_floor_bounds(buf@[2]@);
                }
                draw_circle(
                    ax.floor_units(),
                    ay.floor_units(),
                    buf[2].floor_units(),
                    &mut pixels,
                    block.color,
                );
            },
            ShapeKind::Ellipse => {
                let ax = Fx(block.x.0 + buf[0].0);
                let ay = Fx(block.y.0 + buf[1].0);
                proof {
                    lemma_floor_bounds(ax@);
                    lemma_floor_bounds(ay@);
                    lemma_floor_bounds(buf@[2]@);
                    lemma_floor_bounds(buf@[3]@);
                }
                draw_ellipse(
                    ax.floor_units(),
                    ay.floor_units(),
                    buf[2].floor_units(),
                    buf[3].floor_units(),
                    &mut pixels,
                    block.color,
                );
            },
            ShapeKind::Line => {
                let x1 = Fx(block.x.0 + buf[0].0);
                let y1 = Fx(block.y.0 + buf[1].0);
                let x2 = Fx(block.x.0 + buf[2].0);
                let y2 = Fx(block.y.0 + buf[3].0);
                proof {
                    lemma_floor_bounds(x1@);
                    lemma_floor_bounds(y1@);
                    lemma_floor_bounds(x2@);
                    lemma_floor_bounds(y2@);
                }
                draw_line(
                    x1.floor_units(),
                    y1.floor_units(),
                    x2.floor_units(),
                    y2.floor_units(),
                    &mut pixels,
                    block.color,
                );
            },
            ShapeKind::Polygon => {
                draw_polygon(point_list, block, &mut pixels);
            },
            ShapeKind::Unset => {
                proof {
                    assert(false);
                }
            },
        }
        proof {
            assert(shapes@.take(idx as int + 1).drop_last() =~= shapes@.take(idx as int));
            assert(shapes@.take(idx as int + 1).last() == shapes@[idx as int]);
        }
        idx = idx + 1;
    }
    proof {
        assert(shapes@.take(shapes@.len() as int) =~= shapes@);
    }
    pixels
}

/// Rasterizing a triangle as a polygon plots exactly the three segments
/// of its closed loop.
pub proof fn lemma_polygon_closure(v0: (int, int), v1: (int, int), v2: (int, int))
    ensures
        polygon_points(seq![v0, v1, v2]) == line_points(v0.0, v0.1, v1.0, v1.1).union(
            line_points(v1.0, v1.1, v2.0, v2.1),
        ).union(line_points(v2.0, v2.1, v0.0, v0.1)),
{
    let vs = seq![v0, v1, v2];
    let s01 = line_points(v0.0, v0.1, v1.0, v1.1);
    let s12 = line_points(v1.0, v1.1, v2.0, v2.1);
    let s20 = line_points(v2.0, v2.1, v0.0, v0.1);
    assert(polygon_edges(vs, 0) =~= Set::<(int, int)>::empty());
    assert(polygon_edges(vs, 1) == polygon_edges(vs, 0).union(s01));
    assert(polygon_edges(vs, 2) == polygon_edges(vs, 1).union(s12));
    assert(polygon_edges(vs, 3) == polygon_edges(vs, 2).union(s20));
    assert(polygon_edges(vs, 3) =~= s01.union(s12).union(s20));
}

/// Later shapes win: when two blocks are rasterized in order and the
/// second one covers a pixel, that pixel carries the second block's
/// colour in the final map.
pub proof fn lemma_overwrite_on_collision(
    a: Block,
    b: Block,
    point_list: Seq<Vec<Fx>>,
    q: (int, int),
)
    requires
        b.index < point_list.len(),
        shape_points(b, fx_seq_view(point_list[b.index as int]@)).contains(q),
    ensures
        draw_shapes_spec(seq![a, b], point_list).contains_key(q),
        draw_shapes_spec(seq![a, b], point_list)[q] == b.color,
{
    let two = seq![a, b];
    assert(two.last() == b);
    assert(two.drop_last() =~= seq![a]);
}

} // verus!
