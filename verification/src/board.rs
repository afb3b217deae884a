//! The game board's sparse pixel store.
//!
//! A rasterization pass produces a [`PixelMap`]: a mapping from an integer
//! pixel coordinate to the colour last drawn there.  Coordinates are
//! canonicalized into a single `u64` hash key; the abstract view of the map
//! is a `Map<(int, int), Color>` keyed by the coordinates themselves, so
//! every drawing contract can speak of pixel positions directly.

use std::collections::HashMap;
use vstd::prelude::*;

use crate::shapes::Color;

verus! {

broadcast use vstd::std_specs::hash::group_hash_axioms;

/// Offset that shifts a signed pixel coordinate into an unsigned half-word.
pub const KEY_OFFSET: i64 = 0x8000_0000;

/// Whether `(x, y)` can be canonicalized into a `u64` key.
pub open spec fn in_key_range(x: int, y: int) -> bool {
    &&& -0x8000_0000 <= x < 0x8000_0000
    &&& -0x8000_0000 <= y < 0x8000_0000
}

/// The canonical key of the pixel coordinate `(x, y)`.
pub open spec fn key_of(x: int, y: int) -> int {
    (x + 0x8000_0000) * 0x1_0000_0000 + (y + 0x8000_0000)
}

/// Distinct in-range coordinates canonicalize to distinct keys.
pub proof fn lemma_key_injective(x1: int, y1: int, x2: int, y2: int)
    requires
        in_key_range(x1, y1),
        in_key_range(x2, y2),
        key_of(x1, y1) == key_of(x2, y2),
    ensures
        x1 == x2 && y1 == y2,
{
    let a1 = x1 + 0x8000_0000;
    let b1 = y1 + 0x8000_0000;
    let a2 = x2 + 0x8000_0000;
    let b2 = y2 + 0x8000_0000;
    assert((a1 - a2) * 0x1_0000_0000 == b2 - b1) by (nonlinear_arith)
        requires
            a1 * 0x1_0000_0000 + b1 == a2 * 0x1_0000_0000 + b2,
    ;
    assert(a1 == a2) by (nonlinear_arith)
        requires
            (a1 - a2) * 0x1_0000_0000 == b2 - b1,
            -0x1_0000_0000 < b2 - b1 < 0x1_0000_0000,
    ;
}

/// Canonicalizes a pixel coordinate into its `u64` map key.
pub fn make_key(x: i64, y: i64) -> (r: u64)
    requires
        in_key_range(x as int, y as int),
    ensures
        r as int == key_of(x as int, y as int),
{
    ((x + KEY_OFFSET) as u64) * 0x1_0000_0000u64 + ((y + KEY_OFFSET) as u64)
}

/// One drawn pixel: its grid coordinate and its colour.
#[derive(Clone, Copy, Debug)]
pub struct Pixel {
    pub x: i64,
    pub y: i64,
    pub color: Color,
}

/// A sparse pixel store keyed by canonicalized coordinates.  Later writes to
/// the same coordinate overwrite earlier ones; there is no blending.
pub struct PixelMap {
    m: HashMap<u64, Pixel>,
}

impl View for PixelMap {
    type V = Map<(int, int), Color>;

    closed spec fn view(&self) -> Map<(int, int), Color> {
        Map::new(
            |q: (int, int)|
                in_key_range(q.0, q.1) && self.m@.contains_key(key_of(q.0, q.1) as u64),
            |q: (int, int)| self.m@[key_of(q.0, q.1) as u64].color,
        )
    }
}

impl PixelMap {
    /// Every stored record sits under the key canonicalizing its own
    /// coordinate.
    pub closed spec fn wf(self) -> bool {
        forall|k: u64| #[trigger]
            self.m@.contains_key(k) ==> {
                &&& in_key_range(self.m@[k].x as int, self.m@[k].y as int)
                &&& k as int == key_of(self.m@[k].x as int, self.m@[k].y as int)
            }
    }

    /// An empty pixel store.
    pub fn new() -> (r: PixelMap)
        ensures
            r.wf(),
            r@ == Map::<(int, int), Color>::empty(),
    {
        let r = PixelMap { m: HashMap::new() };
        proof {
            assert(r@ =~= Map::<(int, int), Color>::empty());
        }
        r
    }

    /// The number of distinct pixels drawn so far.
    pub fn len(&self) -> (r: usize)
        requires
            self.wf(),
        ensures
            r == self@.dom().len(),
    {
        proof {
            self.lemma_len();
        }
        self.m.len()
    }

    /// The stored map and its coordinate view have the same cardinality.
    proof fn lemma_len(self)
        requires
            self.wf(),
        ensures
            self@.dom().len() == self.m@.dom().len(),
    {
        lemma_coords_dom_len(self.m@);
        assert(self@.dom() =~= coords_dom(self.m@));
    }
}

/// The coordinate-level domain carried by a raw keyed store.
spec fn coords_dom(m: Map<u64, Pixel>) -> Set<(int, int)> {
    Set::new(|q: (int, int)| in_key_range(q.0, q.1) && m.contains_key(key_of(q.0, q.1) as u64))
}

/// A raw keyed store whose records sit under their own canonical keys.
spec fn raw_wf(m: Map<u64, Pixel>) -> bool {
    forall|k: u64| #[trigger]
        m.contains_key(k) ==> {
            &&& in_key_range(m[k].x as int, m[k].y as int)
            &&& k as int == key_of(m[k].x as int, m[k].y as int)
        }
}

/// Under `raw_wf`, coordinates and keys are in bijection, so the two
/// domains have the same size.
proof fn lemma_coords_dom_len(m: Map<u64, Pixel>)
    requires
        raw_wf(m),
        m.dom().finite(),
    ensures
        coords_dom(m).len() == m.dom().len(),
        coords_dom(m).finite(),
    decreases m.dom().len(),
{
    if m.dom().len() == 0 {
        assert(m.dom() =~= Set::empty());
        assert(coords_dom(m) =~= Set::<(int, int)>::empty());
    } else {
        let k = m.dom().choose();
        assert(m.dom().contains(k));
        let p = m[k];
        let q = (p.x as int, p.y as int);
        let rest = m.remove(k);
        assert(raw_wf(rest));
        lemma_coords_dom_len(rest);
        assert(coords_dom(m) =~= coords_dom(rest).insert(q)) by {
            assert forall|qq: (int, int)| coords_dom(m).contains(qq) implies coords_dom(
                rest,
            ).contains(qq) || qq == q by {
                if qq != q {
                    let kk = key_of(qq.0, qq.1) as u64;
                    assert(m.contains_key(kk));
                    if kk == k {
                        lemma_key_injective(qq.0, qq.1, q.0, q.1);
                    }
                }
            }
            assert(coords_dom(m).contains(q));
        }
        assert(!coords_dom(rest).contains(q)) by {
            if coords_dom(rest).contains(q) {
                let kk = key_of(q.0, q.1) as u64;
                assert(rest.contains_key(kk));
                assert(kk as int == key_of(rest[kk].x as int, rest[kk].y as int));
                lemma_key_injective(q.0, q.1, rest[kk].x as int, rest[kk].y as int);
                assert(kk == k);
            }
        }
    }
}

/// Inserts or overwrites the pixel at `(x, y)`.
pub fn set_pixel(pixels: &mut PixelMap, x: i64, y: i64, color: Color)
    requires
        old(pixels).wf(),
        in_key_range(x as int, y as int),
    ensures
        final(pixels).wf(),
        final(pixels)@ == old(pixels)@.insert((x as int, y as int), color),
{
    let k = make_key(x, y);
    pixels.m.insert(k, Pixel { x, y, color });
    proof {
        assert(final(pixels)@ =~= old(pixels)@.insert((x as int, y as int), color)) by {
            assert forall|q: (int, int)|
                q != (x as int, y as int) && in_key_range(q.0, q.1) implies (key_of(q.0, q.1)
                != key_of(x as int, y as int)) by {
                if key_of(q.0, q.1) == key_of(x as int, y as int) {
                    lemma_key_injective(q.0, q.1, x as int, y as int);
                }
            }
        }
    }
}

/// The pixel drawn at `(x, y)`, if any.
pub fn get_pixel<'a>(pixels: &'a PixelMap, x: i64, y: i64) -> (r: Option<&'a Pixel>)
    requires
        pixels.wf(),
        in_key_range(x as int, y as int),
    ensures
        match r {
            Some(p) => {
                &&& pixels@.contains_key((x as int, y as int))
                &&& p.x == x && p.y == y
                &&& p.color == pixels@[(x as int, y as int)]
            },
            None => !pixels@.contains_key((x as int, y as int)),
        },
{
    let k = make_key(x, y);
    let r = pixels.m.get(&k);
    proof {
        match r {
            Some(p) => {
                assert(pixels.m@.contains_key(k));
                lemma_key_injective(
                    pixels.m@[k].x as int,
                    pixels.m@[k].y as int,
                    x as int,
                    y as int,
                );
            },
            None => {},
        }
    }
    r
}

/// A game board owning the pixels drawn for the current frame.
pub struct GameBoard {
    pub pixels: PixelMap,
}

impl GameBoard {
    pub fn new() -> (r: GameBoard)
        ensures
            r.pixels.wf(),
            r.pixels@ == Map::<(int, int), Color>::empty(),
    {
        GameBoard { pixels: PixelMap::new() }
    }
}

} // verus!
