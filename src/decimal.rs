use vstd::arithmetic::div_mod::{
    lemma_div_is_ordered, lemma_fundamental_div_mod, lemma_fundamental_div_mod_converse,
    lemma_mod_bound,
};
use vstd::prelude::*;

verus! {

/// Number of fractional units ("attos") in one unit of a currency.
pub const SCALE: i128 = 1_000_000_000_000_000_000;

/// A fixed-point decimal with eighteen fractional digits, held as a count of attos.
#[derive(Clone, Copy, Debug, PartialEq, Eq, Structural)]
pub struct Decimal {
    pub attos: i128,
}

impl View for Decimal {
    type V = int;

    open spec fn view(&self) -> int {
        self.attos as int
    }
}

/// `x / d` rounded to the nearest integer, ties going to the even neighbour
/// (for `x >= 0` and `d > 0`).
pub open spec fn round_half_even(x: int, d: int) -> int {
    let q = x / d;
    let r = x % d;
    if 2 * r > d || (2 * r == d && q % 2 == 1) {
        q + 1
    } else {
        q
    }
}

/// Rounding a quotient that is at most `m` gives at most `m`.
pub proof fn lemma_round_half_even_le(x: int, d: int, m: int)
    requires
        0 <= x,
        0 < d,
        x <= m * d,
    ensures
        0 <= round_half_even(x, d) <= m,
{
    lemma_fundamental_div_mod(x, d);
    lemma_mod_bound(x, d);
    lemma_div_is_ordered(0, x, d);
    let q = x / d;
    let r = x % d;
    assert(q <= m) by (nonlinear_arith)
        requires x == d * q + r, 0 <= r, x <= m * d, d > 0;
    if q == m {
        assert(d * q == m * d) by (nonlinear_arith)
            requires q == m;
        assert(r == 0);
    }
}

impl Decimal {
    pub fn zero() -> (r: Decimal)
        ensures
            r@ == 0,
    {
        Decimal { attos: 0 }
    }

    /// The decimal holding `units` whole units.
    pub fn from_units(units: i64) -> (r: Decimal)
        ensures
            r@ == units * SCALE,
    {
        assert(units * SCALE <= i64::MAX * SCALE) by (nonlinear_arith)
            requires units <= i64::MAX;
        assert(units * SCALE >= i64::MIN * SCALE) by (nonlinear_arith)
            requires units >= i64::MIN;
        Decimal { attos: units as i128 * SCALE }
    }

    /// The decimal holding `attos` fractional units.
    pub fn from_attos(attos: i128) -> (r: Decimal)
        ensures
            r@ == attos,
    {
        Decimal { attos }
    }

    /// Exact sum; `None` when it does not fit.
    pub fn checked_add(self, other: Decimal) -> (r: Option<Decimal>)
        ensures
            r matches Some(d) <==> i128::MIN <= self@ + other@ <= i128::MAX,
            r matches Some(d) ==> d@ == self@ + other@,
    {
        match self.attos.checked_add(other.attos) {
            Some(a) => Some(Decimal { attos: a }),
            None => None,
        }
    }

    /// Exact difference; `None` when it does not fit.
    pub fn checked_sub(self, other: Decimal) -> (r: Option<Decimal>)
        ensures
            r matches Some(d) <==> i128::MIN <= self@ - other@ <= i128::MAX,
            r matches Some(d) ==> d@ == self@ - other@,
    {
        match self.attos.checked_sub(other.attos) {
            Some(a) => Some(Decimal { attos: a }),
            None => None,
        }
    }

    pub fn is_positive(self) -> (r: bool)
        ensures
            r == (self@ > 0),
    {
        self.attos > 0
    }

    pub fn is_negative(self) -> (r: bool)
        ensures
            r == (self@ < 0),
    {
        self.attos < 0
    }

    pub fn le(self, other: Decimal) -> (r: bool)
        ensures
            r == (self@ <= other@),
    {
        self.attos <= other.attos
    }
}

/// `x / d` rounded half to even.
pub fn div_round_half_even(x: u128, d: u128) -> (r: u128)
    requires
        d > 0,
    ensures
        r == round_half_even(x as int, d as int),
{
    let q = x / d;
    let rem = x % d;
    proof {
        lemma_fundamental_div_mod(x as int, d as int);
        lemma_mod_bound(x as int, d as int);
    }
    let half_up = rem > d - rem || (rem == d - rem && q % 2 == 1);
    if half_up {
        assert(q + 1 <= u128::MAX) by {
            assert(d * q <= x) by (nonlinear_arith)
                requires d * q + rem == x, rem >= 0;
            assert(q <= d * q) by (nonlinear_arith)
                requires d >= 1, q >= 0;
        };
        q + 1
    } else {
        q
    }
}

/// The share of `amount` that a dispute returns to the customer: the mean of
/// the votes (percentages) over `voters`, as a fraction rounded half to even
/// to eighteen digits, applied to `amount` and again rounded half to even.
pub open spec fn refund_share(amount: int, votes_sum: int, voters: int) -> int {
    round_half_even(amount * round_half_even(votes_sum, voters * 100), SCALE as int)
}

/// Computes `refund_share` exactly; the result lies between zero and `amount`.
pub fn quorum_refund(amount: Decimal, votes_sum: Decimal, voters: u64) -> (r: Decimal)
    requires
        amount@ >= 0,
        voters > 0,
        0 <= votes_sum@ <= voters * 100 * SCALE,
    ensures
        r@ == refund_share(amount@, votes_sum@, voters as int),
        0 <= r@ <= amount@,
{
    let a = amount.attos as u128;
    let s = votes_sum.attos as u128;
    let per = voters as u128 * 100;
    let frac = div_round_half_even(s, per);
    let scale = SCALE as u128;
    proof {
        assert(s <= SCALE * per) by (nonlinear_arith)
            requires s <= voters * 100 * SCALE, per == voters * 100;
        lemma_round_half_even_le(s as int, per as int, SCALE as int);
    }
    let qa = a / scale;
    let ra = a % scale;
    proof {
        lemma_fundamental_div_mod(a as int, scale as int);
        lemma_mod_bound(a as int, scale as int);
        assert(qa * frac <= qa * scale) by (nonlinear_arith)
            requires frac <= scale, qa >= 0;
        assert(ra * frac <= ra * scale) by (nonlinear_arith)
            requires frac <= scale, ra >= 0;
        assert(ra * scale < scale * scale) by (nonlinear_arith)
            requires ra < scale, scale > 0;
    }
    let low = ra * frac;
    let q = qa * frac + low / scale;
    let rem = low % scale;
    proof {
        lemma_fundamental_div_mod(low as int, scale as int);
        lemma_mod_bound(low as int, scale as int);
        assert(a * frac == q * scale + rem) by (nonlinear_arith)
            requires
                a == scale * qa + ra,
                low == ra * frac,
                low == scale * (low / scale) + rem,
                q == qa * frac + low / scale;
        lemma_fundamental_div_mod_converse((a * frac) as int, scale as int, q as int, rem as int);
        assert(a * frac <= a * scale) by (nonlinear_arith)
            requires frac <= scale, a >= 0;
        lemma_round_half_even_le((a * frac) as int, scale as int, a as int);
    }
    let half_up = rem > scale - rem || (rem == scale - rem && q % 2 == 1);
    let r = if half_up {
        q + 1
    } else {
        q
    };
    Decimal { attos: r as i128 }
}

} // verus!
