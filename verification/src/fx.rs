//! Fixed-point board coordinates.
//!
//! Every geometric quantity on the board (a position, a size, a velocity,
//! a colour channel, an elapsed-time scalar) is a [`Fx`]: a signed count of
//! thousandths of a board unit.  The rasterizer floors these to the integer
//! pixel grid; the motion engine adds scaled velocity steps to them.

use vstd::prelude::*;

verus! {

/// Fixed-point subdivisions per board unit.
pub const FX_SCALE: i64 = 1000;

/// Largest raw magnitude of an in-range quantity: one million board units.
/// Keeping coordinates, sizes and velocities inside this band makes every
/// product taken in the crate fit comfortably in an `i64`.
pub const FX_LIMIT: i64 = 1_000_000_000;

/// A signed quantity in thousandths of a board unit.
#[derive(Clone, Copy, Debug, PartialEq, Eq, Structural, Hash)]
pub struct Fx(pub i64);

impl View for Fx {
    type V = int;

    open spec fn view(&self) -> int {
        self.0 as int
    }
}

/// The floor of `v` thousandths, in whole board units.
pub open spec fn fx_floor(v: int) -> int {
    v / (FX_SCALE as int)
}

/// The fixed-point product of `a` and `b` thousandths, rounded toward
/// negative infinity.
pub open spec fn fx_mul_spec(a: int, b: int) -> int {
    (a * b) / (FX_SCALE as int)
}

impl Fx {
    /// The quantity stays inside the band that the contracts of this crate
    /// rely on.
    pub open spec fn in_range(self) -> bool {
        -FX_LIMIT <= self.0 && self.0 <= FX_LIMIT
    }

    /// A whole number of board units.
    pub fn of_units(u: i64) -> (r: Fx)
        requires
            -1_000_000 <= u <= 1_000_000,
        ensures
            r@ == u * (FX_SCALE as int),
            r.in_range(),
    {
        Fx(u * FX_SCALE)
    }

    /// A raw count of thousandths of a board unit.
    pub fn of_thousandths(raw: i64) -> (r: Fx)
        requires
            -FX_LIMIT <= raw <= FX_LIMIT,
        ensures
            r@ == raw,
            r.in_range(),
    {
        Fx(raw)
    }

    /// The whole-unit floor of the quantity, as used to place it on the
    /// pixel grid.
    pub fn floor_units(self) -> (r: i64)
        requires
            -0x4000_0000_0000_0000 < self.0 < 0x4000_0000_0000_0000,
        ensures
            r == fx_floor(self@),
    {
        div_floor_1000(self.0)
    }
}

/// `p / 1000` rounded toward negative infinity.
pub(crate) fn div_floor_1000(p: i64) -> (r: i64)
    requires
        -0x4000_0000_0000_0000 < p < 0x4000_0000_0000_0000,
    ensures
        r == p as int / 1000,
{
    if p >= 0 {
        let q = ((p as u64) / 1000) as i64;
        proof {
            lemma_nonneg_div_floor(p as int);
        }
        q
    } else {
        let neg = -p;
        let q = -((((neg as u64) + 999) / 1000) as i64);
        proof {
            lemma_neg_div_floor(p as int);
        }
        q
    }
}

/// For a nonnegative dividend, unsigned division already rounds down.
proof fn lemma_nonneg_div_floor(p: int)
    requires
        0 <= p,
    ensures
        p / 1000 >= 0,
        p / 1000 <= p,
{
    vstd::arithmetic::div_mod::lemma_div_is_ordered(0, p, 1000);
    vstd::arithmetic::div_mod::lemma_div_nonincreasing(p, 1000);
}

/// For a negative dividend `p`, the floor of `p / 1000` is
/// `-((-p + 999) / 1000)`.
proof fn lemma_neg_div_floor(p: int)
    requires
        p < 0,
    ensures
        p / 1000 == -((-p + 999) / 1000),
{
    let a = -p;
    let k = a / 1000;
    let s = a % 1000;
    vstd::arithmetic::div_mod::lemma_fundamental_div_mod(a, 1000);
    if s == 0 {
        vstd::arithmetic::div_mod::lemma_fundamental_div_mod_converse(p, 1000, -k, 0);
        vstd::arithmetic::div_mod::lemma_fundamental_div_mod_converse(a + 999, 1000, k, 999);
    } else {
        vstd::arithmetic::div_mod::lemma_fundamental_div_mod_converse(p, 1000, -(k + 1), 1000 - s);
        vstd::arithmetic::div_mod::lemma_fundamental_div_mod_converse(a + 999, 1000, k + 1, s - 1);
    }
}

/// The whole-unit floor of a bounded quantity is bounded by the
/// corresponding number of board units.
pub proof fn lemma_floor_bounds(v: int)
    requires
        -4_000_000_000 <= v <= 4_000_000_000,
    ensures
        -4_000_000 <= fx_floor(v) <= 4_000_000,
{
    if v >= 0 {
        vstd::arithmetic::div_mod::lemma_div_is_ordered(0, v, 1000);
        vstd::arithmetic::div_mod::lemma_div_is_ordered(v, 4_000_000_000, 1000);
        vstd::arithmetic::div_mod::lemma_fundamental_div_mod_converse(
            4_000_000_000,
            1000,
            4_000_000,
            0,
        );
    } else {
        vstd::arithmetic::div_mod::lemma_div_is_ordered(v, 0, 1000);
        vstd::arithmetic::div_mod::lemma_div_is_ordered(-4_000_000_000, v, 1000);
        vstd::arithmetic::div_mod::lemma_fundamental_div_mod_converse(
            -4_000_000_000,
            1000,
            -4_000_000,
            0,
        );
    }
}

/// The raw integer contents of a fixed-point sequence.
pub open spec fn fx_seq_view(s: Seq<Fx>) -> Seq<int> {
    Seq::new(s.len(), |i: int| s[i]@)
}

/// The fixed-point product of two in-range quantities.
pub fn fx_mul(a: Fx, b: Fx) -> (r: Fx)
    requires
        a.in_range(),
        b.in_range(),
    ensures
        r@ == fx_mul_spec(a@, b@),
{
    proof {
        assert(-0x4000_0000_0000_0000 < a.0 * b.0 < 0x4000_0000_0000_0000) by (nonlinear_arith)
            requires
                -FX_LIMIT <= a.0 <= FX_LIMIT,
                -FX_LIMIT <= b.0 <= FX_LIMIT,
        ;
    }
    let p = a.0 * b.0;
    Fx(div_floor_1000(p))
}

} // verus!
