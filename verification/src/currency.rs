//! The bot's currency, YP, held as an integer number of thousandths.

use vstd::prelude::*;
use vstd::arithmetic::div_mod::{lemma_fundamental_div_mod, lemma_fundamental_div_mod_converse};
use crate::text::{lemma_repeat_len, lemma_decimal_len, pow10, decimal, zero_pad, u64_to_decimal, push_char, append_str, unsigned_abs, i64_zero_padded};

verus! {

/// Thousandths of a YP per YP.
pub const BIPS_PER_YP: i64 = 1000;

/// An amount of YP, stored as integer thousandths ("bips"): a value of 1000 is 1.000 YP.
#[derive(Debug, Clone, Copy, PartialEq, Eq, PartialOrd, Ord, Hash, Structural)]
pub struct Currency(pub i64);

/// `p / d` rounded to the nearest integer, ties to the even neighbour; `d` is positive.
pub open spec fn round_half_even(p: int, d: int) -> int {
    let q = p / d;
    let r = p % d;
    if 2 * r < d {
        q
    } else if 2 * r > d {
        q + 1
    } else if q % 2 == 0 {
        q
    } else {
        q + 1
    }
}

/// The absolute value of an integer.
pub open spec fn abs(v: int) -> int {
    if v < 0 {
        -v
    } else {
        v
    }
}

/// How an amount is written: sign, whole YP, a dot, three digits of thousandths, and `yp`.
pub open spec fn currency_text(v: int) -> Seq<char> {
    let a = abs(v);
    let sign = if v < 0 {
        seq!['-']
    } else {
        Seq::<char>::empty()
    };
    sign + decimal((a / 1000) as nat) + seq!['.'] + zero_pad(decimal((a % 1000) as nat), 3) + seq![
        'y',
        'p',
    ]
}

/// Whether an integer fits in an `i64`.
pub open spec fn fits_i64(v: int) -> bool {
    i64::MIN <= v <= i64::MAX
}


/// An amount is written with at most twenty-seven characters.
pub proof fn lemma_currency_text_len(v: i64)
    ensures
        currency_text(v as int).len() <= 27,
{
    let a = abs(v as int);
    assert(pow10(20) == 100000000000000000000nat) by {
        reveal_with_fuel(pow10, 21);
    }
    assert(pow10(3) == 1000nat) by {
        reveal_with_fuel(pow10, 4);
    }
    lemma_decimal_len((a / 1000) as nat, 20);
    lemma_decimal_len((a % 1000) as nat, 3);
    let f = decimal((a % 1000) as nat);
    if f.len() < 3 {
        lemma_repeat_len('0', (3 - f.len()) as nat);
    }
    assert(zero_pad(f, 3).len() == 3);
    assert(decimal((a / 1000) as nat).len() <= 20);
}

proof fn lemma_round_half_even_neg(a: int, d: int)
    requires
        a >= 0,
        d > 0,
    ensures
        round_half_even(-a, d) == -round_half_even(a, d),
{
    lemma_fundamental_div_mod(a, d);
    lemma_fundamental_div_mod(-a, d);
    let q = a / d;
    let r = a % d;
    if r == 0 {
        assert(-a == (-q) * d) by (nonlinear_arith)
            requires a == d * q + r, r == 0;
        lemma_fundamental_div_mod_converse(-a, d, -q, 0);
    } else {
        assert(-a == (-q - 1) * d + (d - r)) by (nonlinear_arith)
            requires a == d * q + r;
        lemma_fundamental_div_mod_converse(-a, d, -q - 1, d - r);
    }
}

proof fn lemma_round_half_even_bounds(a: int, d: int)
    requires
        a >= 0,
        d > 0,
    ensures
        0 <= round_half_even(a, d) <= a / d + 1,
        round_half_even(a, d) <= a,
{
    lemma_fundamental_div_mod(a, d);
    let q = a / d;
    let r = a % d;
    assert(0 <= q) by (nonlinear_arith)
        requires a >= 0, d > 0, q == a / d;
    if d == 1 {
        assert(r == 0);
        assert(q == a);
    } else {
        if q + 1 > a {
            // Then q == a and d > 1 forces a == 0.
            assert(q * d <= a) by (nonlinear_arith)
                requires a == d * q + r, r >= 0, d > 0;
            assert(q * d >= q * 2) by (nonlinear_arith)
                requires q >= 0, d >= 2;
            assert(q == 0);
            assert(a == r);
            assert(2 * r < d || r == 0);
        }
    }
}

/// Rounding a quotient never leaves it more than one away from the truncated quotient, and
/// never makes it larger in magnitude than the dividend.
pub proof fn lemma_round_half_even_magnitude(p: int, d: int)
    requires
        d > 0,
    ensures
        abs(round_half_even(p, d)) <= abs(p) / d + 1,
        abs(round_half_even(p, d)) <= abs(p),
{
    if p >= 0 {
        lemma_round_half_even_bounds(p, d);
    } else {
        lemma_round_half_even_bounds(-p, d);
        lemma_round_half_even_neg(-p, d);
    }
}

/// `x * num / den` rounded to the nearest integer, ties to even, worked out in 128 bits.
fn rounded_product(x: i64, num: i64, den: i64) -> (r: i128)
    requires
        den > 0,
    ensures
        r == round_half_even(x * num, den as int),
{
    proof {
        let xi = x as int;
        let y = num as int;
        assert(-0x4000_0000_0000_0000_0000_0000_0000_0000 <= xi * y
            <= 0x4000_0000_0000_0000_0000_0000_0000_0000) by (nonlinear_arith)
            requires
                -0x8000_0000_0000_0000 <= xi <= 0x8000_0000_0000_0000,
                -0x8000_0000_0000_0000 <= y <= 0x8000_0000_0000_0000,
        ;
    }
    let p: i128 = (x as i128) * (num as i128);
    let neg = p < 0;
    let a: u128 = if neg {
        (-p) as u128
    } else {
        p as u128
    };
    let d: u128 = den as u128;
    let q: u128 = a / d;
    let rem: u128 = a % d;
    proof {
        lemma_fundamental_div_mod(a as int, d as int);
    }
    let rounded: u128 = if 2 * rem < d {
        q
    } else if 2 * rem > d {
        q + 1
    } else if q % 2 == 0 {
        q
    } else {
        q + 1
    };
    proof {
        assert(rounded == round_half_even(a as int, d as int));
        lemma_round_half_even_bounds(a as int, d as int);
        if neg {
            lemma_round_half_even_neg(a as int, d as int);
            assert(p == -(a as int));
        } else {
            assert(p == a as int);
        }
    }
    if neg {
        -(rounded as i128)
    } else {
        rounded as i128
    }
}

impl Currency {
    /// `yp` whole YP.
    pub fn new_yp(yp: i64) -> (r: Currency)
        requires
            fits_i64(yp * 1000),
        ensures
            r.0 == yp * 1000,
    {
        Currency(yp * BIPS_PER_YP)
    }

    /// The sum of two amounts.
    pub fn add(self, rhs: Currency) -> (r: Currency)
        requires
            fits_i64(self.0 + rhs.0),
        ensures
            r.0 == self.0 + rhs.0,
    {
        Currency(self.0 + rhs.0)
    }

    /// The difference of two amounts.
    pub fn sub(self, rhs: Currency) -> (r: Currency)
        requires
            fits_i64(self.0 - rhs.0),
        ensures
            r.0 == self.0 - rhs.0,
    {
        Currency(self.0 - rhs.0)
    }

    /// The negated amount.
    pub fn neg(self) -> (r: Currency)
        requires
            self.0 != i64::MIN,
        ensures
            r.0 == -self.0,
    {
        Currency(-self.0)
    }

    /// The amount multiplied by an integer.
    pub fn mul_int(self, rhs: i64) -> (r: Currency)
        requires
            fits_i64(self.0 * rhs),
        ensures
            r.0 == self.0 * rhs,
    {
        Currency(self.0 * rhs)
    }

    /// The amount multiplied by `num / den` and rounded to the nearest thousandth, ties to
    /// even.
    pub fn mul_fraction(self, num: i64, den: i64) -> (r: Currency)
        requires
            den > 0,
            fits_i64(round_half_even(self.0 * num, den as int)),
        ensures
            r.0 == round_half_even(self.0 * num, den as int),
    {
        Currency(rounded_product(self.0, num, den) as i64)
    }

    /// The amount multiplied by `num / den` and rounded as `mul_fraction` does, or `None` when
    /// the result does not fit in 64 bits.
    pub fn checked_mul_fraction(self, num: i64, den: i64) -> (r: Option<Currency>)
        requires
            den > 0,
        ensures
            match r {
                Some(c) => c.0 == round_half_even(self.0 * num, den as int),
                None => !fits_i64(round_half_even(self.0 * num, den as int)),
            },
    {
        let v = rounded_product(self.0, num, den);
        if v < i64::MIN as i128 || v > i64::MAX as i128 {
            None
        } else {
            Some(Currency(v as i64))
        }
    }

    /// The amount as text, such as `-1.200yp`.
    pub fn to_string(&self) -> (r: String)
        requires
            self.0 != i64::MIN,
        ensures
            r@ == currency_text(self.0 as int),
    {
        let positive: u64 = unsigned_abs(self.0);
        let fractional: u64 = positive % 1000;
        let yp: u64 = (positive - fractional) / 1000;
        proof {
            lemma_fundamental_div_mod(positive as int, 1000);
            assert(yp == positive / 1000);
        }
        let mut r = String::new();
        if self.0 < 0 {
            push_char(&mut r, '-');
        }
        let whole = u64_to_decimal(yp);
        append_str(&mut r, whole.as_str());
        push_char(&mut r, '.');
        let frac = i64_zero_padded(fractional as i64, 3);
        append_str(&mut r, frac.as_str());
        push_char(&mut r, 'y');
        push_char(&mut r, 'p');
        assert(r@ =~= currency_text(self.0 as int));
        r
    }
}

impl From<i64> for Currency {
    fn from(value: i64) -> (r: Currency) {
        Currency(value)
    }
}

impl vstd::std_specs::convert::FromSpecImpl<i64> for Currency {
    open spec fn obeys_from_spec() -> bool {
        true
    }

    open spec fn from_spec(v: i64) -> Currency {
        Currency(v)
    }
}

impl From<Currency> for i64 {
    fn from(value: Currency) -> (r: i64) {
        value.0
    }
}

impl vstd::std_specs::convert::FromSpecImpl<Currency> for i64 {
    open spec fn obeys_from_spec() -> bool {
        true
    }

    open spec fn from_spec(v: Currency) -> i64 {
        v.0
    }
}

} // verus!
