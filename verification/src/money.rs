//! Exact decimal amounts of money, carried as a mantissa and a power-of-ten scale.
//!
//! The arithmetic itself is performed by `rust_decimal`; this module states what the
//! payroll and reward logic relies on about it.
use rust_decimal::Decimal;
use vstd::prelude::*;

use crate::text::{concat, decimal_digits, lemma_zeros_len, u128_text, zero_pad, zero_padded, zeros};

verus! {

/// The largest magnitude a decimal mantissa can hold: 2^96 - 1.
pub const MAX_MANTISSA: i128 = 79_228_162_514_264_337_593_543_950_335;

/// The largest number of fractional digits of a decimal amount.
pub const MAX_SCALE: u32 = 28;

/// 10 to the power `n`.
pub open spec fn pow10(n: nat) -> int
    decreases n,
{
    if n == 0 {
        1
    } else {
        10 * pow10((n - 1) as nat)
    }
}

/// A mantissa/scale pair that a decimal can hold.
pub open spec fn money_wf(a: (int, nat)) -> bool {
    &&& -MAX_MANTISSA <= a.0 <= MAX_MANTISSA
    &&& a.1 <= MAX_SCALE
}

/// `a` and `b` denote the same number (`a.0 / 10^a.1 == b.0 / 10^b.1`).
pub open spec fn money_value_eq(a: (int, nat), b: (int, nat)) -> bool {
    a.0 * pow10(b.1) == b.0 * pow10(a.1)
}

pub open spec fn abs(x: int) -> int {
    if x < 0 {
        -x
    } else {
        x
    }
}

/// The magnitude of the number denoted by `a` is at most that of `b`.
pub open spec fn money_abs_le(a: (int, nat), b: (int, nat)) -> bool {
    abs(a.0) * pow10(b.1) <= abs(b.0) * pow10(a.1)
}

/// The exact sum of `a` and `b` has a magnitude below the decimal range by at least one.
pub open spec fn sum_within_range(a: (int, nat), b: (int, nat)) -> bool {
    abs(a.0 * pow10(b.1) + b.0 * pow10(a.1)) <= (MAX_MANTISSA - 1) * pow10(a.1 + b.1)
}

/// The exact product of `a` and `b` has a magnitude below the decimal range by at least one.
pub open spec fn product_within_range(a: (int, nat), b: (int, nat)) -> bool {
    abs(a.0 * b.0) <= (MAX_MANTISSA - 1) * pow10(a.1 + b.1)
}

/// `q` is within one of `a / n` in magnitude: `|q| <= |a| / n + 1`.
pub open spec fn quotient_close(q: (int, nat), a: (int, nat), n: int) -> bool {
    abs(q.0) * n * pow10(a.1) <= (abs(a.0) + n * pow10(a.1)) * pow10(q.1)
}

/// The mantissa/scale pair that an exactly representable product has.
pub open spec fn exact_product(a: (int, nat), b: (int, nat)) -> (int, nat) {
    if a.0 * b.0 == 0 {
        (0, 0)
    } else {
        (a.0 * b.0, a.1 + b.1)
    }
}

/// The mantissa/scale pair of `Decimal + Decimal`: exact for non-negative amounts of one
/// scale whose sum fits the mantissa, otherwise the named result.
pub open spec fn decimal_sum(a: (int, nat), b: (int, nat)) -> (int, nat) {
    if a.1 == b.1 && a.0 >= 0 && b.0 >= 0 && a.0 + b.0 <= MAX_MANTISSA {
        (a.0 + b.0, a.1)
    } else {
        spec_decimal_sum(a, b)
    }
}

/// The mantissa/scale pair of `Decimal * Decimal`: exact when the product fits the
/// mantissa and the scale, otherwise the named result.
pub open spec fn decimal_product(a: (int, nat), b: (int, nat)) -> (int, nat) {
    if a.1 + b.1 <= MAX_SCALE && abs(a.0 * b.0) <= MAX_MANTISSA {
        exact_product(a, b)
    } else {
        spec_decimal_product(a, b)
    }
}

/// The mantissa/scale pair of `Decimal / Decimal`: zero at scale zero for a zero dividend
/// (and a non-zero divisor), the dividend itself for a divisor of one, otherwise the named
/// result.
pub open spec fn decimal_quotient(a: (int, nat), b: (int, nat)) -> (int, nat) {
    if a.0 == 0 && b.0 != 0 {
        (0int, 0nat)
    } else if b == (1int, 0nat) {
        a
    } else {
        spec_decimal_quotient(a, b)
    }
}

/// The result of `Decimal + Decimal` (rounded to the decimal range), by mantissa and scale.
pub uninterp spec fn spec_decimal_sum(a: (int, nat), b: (int, nat)) -> (int, nat);

/// The result of `Decimal * Decimal` (rounded to the decimal range), by mantissa and scale.
pub uninterp spec fn spec_decimal_product(a: (int, nat), b: (int, nat)) -> (int, nat);

/// The result of `Decimal / Decimal` (rounded to the decimal range), by mantissa and scale.
pub uninterp spec fn spec_decimal_quotient(a: (int, nat), b: (int, nat)) -> (int, nat);

/// The text that `Decimal`'s `Display` writes for a mantissa and scale: a minus sign for
/// a negative amount, the digits of the magnitude zero-padded to more than `scale` digits,
/// and a decimal point before the last `scale` of them (none for scale zero).
pub open spec fn spec_decimal_text(a: (int, nat)) -> Seq<char> {
    let digits = if a.0 == 0 {
        Seq::<char>::empty()
    } else {
        decimal_digits(abs(a.0) as nat)
    };
    let padded = zero_padded(digits, a.1 as int);
    let cut = padded.len() - a.1;
    let whole = if cut == 0 {
        seq!['0']
    } else {
        padded.take(cut)
    };
    let body = if a.1 == 0 {
        whole
    } else {
        whole + seq!['.'] + padded.skip(cut)
    };
    if a.0 < 0 {
        seq!['-'] + body
    } else {
        body
    }
}

/// What `Decimal::from_str` parses from a text, by mantissa and scale.
pub uninterp spec fn spec_decimal_parse(s: Seq<char>) -> Option<(int, nat)>;

#[verifier::external_type_specification]
#[verifier::external_body]
pub struct ExDecimal(rust_decimal::Decimal);

/// An exact decimal amount, `mantissa / 10^scale`, as `rust_decimal::Decimal` holds it.
#[derive(Clone, Copy, Debug)]
pub struct Money {
    mantissa: i128,
    scale: u32,
}

impl Money {
    pub closed spec fn parts(self) -> (int, nat) {
        (self.mantissa as int, self.scale as nat)
    }

    #[verifier::type_invariant]
    pub open spec fn inv(self) -> bool {
        money_wf(self.parts())
    }
}

impl View for Money {
    type V = (int, nat);

    open spec fn view(&self) -> (int, nat) {
        self.parts()
    }
}

impl Money {
    /// Zero, with no fractional digits.
    pub fn zero() -> (res: Money)
        ensures
            res@ == (0int, 0nat),
    {
        Money { mantissa: 0, scale: 0 }
    }

    /// The amount `num / 10^scale` (as `Decimal::new` makes it).
    pub fn new(num: i64, scale: u32) -> (res: Money)
        requires
            scale <= MAX_SCALE,
        ensures
            res@ == (num as int, scale as nat),
    {
        Money { mantissa: num as i128, scale }
    }

    /// The amount `mantissa / 10^scale`, when a decimal can hold it
    /// (`Decimal::try_from_i128_with_scale`).
    pub fn from_parts(mantissa: i128, scale: u32) -> (res: Option<Money>)
        ensures
            res is Some <==> money_wf((mantissa as int, scale as nat)),
            res matches Some(m) ==> m@ == (mantissa as int, scale as nat),
    {
        if -MAX_MANTISSA <= mantissa && mantissa <= MAX_MANTISSA && scale <= MAX_SCALE {
            Some(Money { mantissa, scale })
        } else {
            None
        }
    }

    /// The whole number `n` (as `Decimal::from(u64)` makes it).
    pub fn from_u64(n: u64) -> (res: Money)
        ensures
            res@ == (n as int, 0nat),
    {
        Money { mantissa: n as i128, scale: 0 }
    }

    /// The whole number `n` (as `Decimal::from(u32)` makes it).
    pub fn from_u32(n: u32) -> (res: Money)
        ensures
            res@ == (n as int, 0nat),
    {
        Money { mantissa: n as i128, scale: 0 }
    }

    pub fn mantissa(&self) -> (res: i128)
        ensures
            res == self@.0,
    {
        self.mantissa
    }

    pub fn scale(&self) -> (res: u32)
        ensures
            res == self@.1,
    {
        self.scale
    }

    pub fn is_zero(&self) -> (res: bool)
        ensures
            res == (self@.0 == 0),
    {
        self.mantissa == 0
    }

    pub fn is_sign_negative(&self) -> (res: bool)
        ensures
            res == (self@.0 < 0),
    {
        self.mantissa < 0
    }

    /// `Decimal::checked_add`. Its result is named; it is claimed to succeed when the exact
    /// sum lies inside the decimal range with a margin of one, and to be exact when both
    /// amounts are non-negative, have the same scale and the sum fits the mantissa.
    #[verifier::external_body]
    pub(crate) fn checked_add(self, other: Money) -> (res: Option<Money>)
        ensures
            res matches Some(r) ==> r@ == decimal_sum(self@, other@),
            res matches Some(r) ==> decimal_sum(self@, other@) == (self@.0 + other@.0, self@.1)
                || r@ == spec_decimal_sum(self@, other@),
            sum_within_range(self@, other@) ==> res is Some,
            (self@.1 == other@.1 && self@.0 >= 0 && other@.0 >= 0 && self@.0 + other@.0
                <= MAX_MANTISSA) ==> res is Some,
    {
        let a = Decimal::from_i128_with_scale(self.mantissa, self.scale);
        let b = Decimal::from_i128_with_scale(other.mantissa, other.scale);
        match a.checked_add(b) {
            Some(d) => Some(Money { mantissa: d.mantissa(), scale: d.scale() }),
            None => None,
        }
    }

    /// `Decimal::checked_mul`. Its result is named; it is claimed to succeed when the exact
    /// product lies inside the decimal range with a margin of one, and to be the exact
    /// product when that fits the mantissa and the scale.
    #[verifier::external_body]
    pub(crate) fn checked_mul(self, other: Money) -> (res: Option<Money>)
        ensures
            res matches Some(r) ==> r@ == decimal_product(self@, other@),
            res matches Some(r) ==> r@ == exact_product(self@, other@) || r@ == spec_decimal_product(
                self@,
                other@,
            ),
            product_within_range(self@, other@) ==> res is Some,
            (self@.1 + other@.1 <= MAX_SCALE && abs(self@.0 * other@.0) <= MAX_MANTISSA) ==> res
                is Some,
    {
        let a = Decimal::from_i128_with_scale(self.mantissa, self.scale);
        let b = Decimal::from_i128_with_scale(other.mantissa, other.scale);
        match a.checked_mul(b) {
            Some(d) => Some(Money { mantissa: d.mantissa(), scale: d.scale() }),
            None => None,
        }
    }

    /// `Decimal::checked_div`. Its result is named; it is claimed to fail on a zero divisor;
    /// for a non-zero whole divisor, to succeed with a magnitude no larger than the dividend's
    /// and within one of the exact quotient (the quotient is rounded at a non-negative scale);
    /// to return `Decimal::ZERO` (zero at scale zero) for a zero dividend; and to return a
    /// non-zero dividend unchanged when dividing by one.
    #[verifier::external_body]
    pub(crate) fn checked_div(self, other: Money) -> (res: Option<Money>)
        ensures
            res matches Some(r) ==> r@ == decimal_quotient(self@, other@),
            res matches Some(r) ==> r@ == (0int, 0nat) || r@ == self@ || r@
                == spec_decimal_quotient(self@, other@),
            other@.0 == 0 ==> res is None,
            (other@.1 == 0 && other@.0 != 0) ==> res is Some && money_abs_le(res.unwrap()@, self@),
            (other@.1 == 0 && other@.0 >= 1) ==> res is Some && quotient_close(
                res.unwrap()@,
                self@,
                other@.0,
            ),
            other@ == (1int, 0nat) ==> res is Some,
    {
        let a = Decimal::from_i128_with_scale(self.mantissa, self.scale);
        let b = Decimal::from_i128_with_scale(other.mantissa, other.scale);
        match a.checked_div(b) {
            Some(d) => Some(Money { mantissa: d.mantissa(), scale: d.scale() }),
            None => None,
        }
    }

    /// `Decimal == Decimal`, which compares the numbers denoted.
    #[verifier::external_body]
    pub(crate) fn num_eq(&self, other: &Money) -> (res: bool)
        ensures
            res == money_value_eq(self@, other@),
    {
        Decimal::from_i128_with_scale(self.mantissa, self.scale) == Decimal::from_i128_with_scale(
            other.mantissa,
            other.scale,
        )
    }

    /// The text `Decimal`'s `Display` writes.
    pub fn to_text(&self) -> (res: String)
        ensures
            res@ == spec_decimal_text(self@),
    {
        proof {
            use_type_invariant(self);
            reveal_strlit("0");
            reveal_strlit(".");
            reveal_strlit("-");
        }
        let negative = self.mantissa < 0;
        let magnitude: u128 = if negative {
            (-self.mantissa) as u128
        } else {
            self.mantissa as u128
        };
        let digits = if magnitude == 0 {
            String::new()
        } else {
            u128_text(magnitude)
        };
        let ghost digits_view = digits@;
        let padded = zero_pad(digits, self.scale as usize);
        let len = padded.as_str().unicode_len();
        proof {
            assert(zeros(self.scale as int - digits_view.len()).len() == if self.scale as int
                > digits_view.len() {
                self.scale as int - digits_view.len()
            } else {
                0
            }) by {
                lemma_zeros_len(self.scale as int - digits_view.len());
            }
        }
        let cut = len - self.scale as usize;
        let whole = if cut == 0 {
            "0".to_string()
        } else {
            padded.as_str().substring_char(0, cut).to_string()
        };
        let body = if self.scale == 0 {
            whole
        } else {
            concat(concat(whole.as_str(), ".").as_str(), padded.as_str().substring_char(cut, len))
        };
        if negative {
            concat("-", body.as_str())
        } else {
            body
        }
    }

    /// `Decimal::from_str` (named).
    #[verifier::external_body]
    pub(crate) fn parse(s: &str) -> (res: Option<Money>)
        ensures
            res matches Some(r) ==> Some(r@) == spec_decimal_parse(s@),
            res is None ==> spec_decimal_parse(s@) is None,
    {
        match s.parse::<Decimal>() {
            Ok(d) => Some(Money { mantissa: d.mantissa(), scale: d.scale() }),
            Err(_) => None,
        }
    }
}

/// `10^a <= 10^b` when `a <= b`.
pub proof fn lemma_pow10_monotonic(a: nat, b: nat)
    requires
        a <= b,
    ensures
        1 <= pow10(a) <= pow10(b),
    decreases b,
{
    if b > a {
        lemma_pow10_monotonic(a, (b - 1) as nat);
    } else if a > 0 {
        lemma_pow10_monotonic((a - 1) as nat, (a - 1) as nat);
    }
}

/// Splitting `a * t <= r * p` at the quotient and remainder of `a` by `p`.
proof fn lemma_split_product(a: int, t: int, p: int, q: int, rm: int, r: int)
    by (nonlinear_arith)
    requires
        p > 0,
        t >= 0,
        q >= 0,
        0 <= rm < p,
        a == p * q + rm,
    ensures
        (a * t <= r * p) <==> (rm * t <= (r - q * t) * p),
{
}

impl Money {
    /// Whether the exact product of this amount and a whole number of up to
    /// `u32::MAX * 25200` stays inside the decimal range by a margin of one.
    pub fn product_within_range_of(&self, t: u64) -> (res: bool)
        requires
            t <= 4_294_967_295u64 * 25_200,
        ensures
            res == product_within_range(self@, (t as int, 0nat)),
    {
        proof {
            use_type_invariant(self);
        }
        let bound: u128 = (MAX_MANTISSA - 1) as u128;
        let a: u128 = if self.mantissa < 0 { (-self.mantissa) as u128 } else { self.mantissa as u128 };
        assert(a as int == abs(self@.0));
        if self.scale >= 15 {
            proof {
                lemma_pow10_monotonic(15, self@.1);
                assert(pow10(15) == 1_000_000_000_000_000) by {
                    reveal_with_fuel(pow10, 16);
                }
                assert(abs(self@.0 * t) == a * t) by (nonlinear_arith)
                    requires a as int == abs(self@.0), t >= 0;
                assert(a * t <= (MAX_MANTISSA as int) * (4_294_967_295int * 25_200)) by (nonlinear_arith)
                    requires a <= MAX_MANTISSA, t <= 4_294_967_295int * 25_200, a >= 0, t >= 0;
                assert((MAX_MANTISSA - 1) * 1_000_000_000_000_000int <= (MAX_MANTISSA - 1) * pow10(self@.1))
                    by (nonlinear_arith)
                    requires 1_000_000_000_000_000int <= pow10(self@.1);
            }
            return true;
        }
        let mut p: u128 = 1;
        let mut k: u32 = 0;
        while k < self.scale
            invariant
                k <= self.scale,
                self.scale < 15,
                p as int == pow10(k as nat),
                p >= 1,
                p <= 100_000_000_000_000,
            decreases self.scale - k,
        {
            proof {
                lemma_pow10_monotonic((k + 1) as nat, 14);
                assert(pow10(14) == 100_000_000_000_000) by {
                    reveal_with_fuel(pow10, 15);
                }
            }
            p = p * 10;
            k = k + 1;
        }
        let t128 = t as u128;
        let q = a / p;
        let rm = a % p;
        proof {
            vstd::arithmetic::div_mod::lemma_fundamental_div_mod(a as int, p as int);
            lemma_split_product(a as int, t as int, p as int, q as int, rm as int, bound as int);
            assert(abs(self@.0 * t) == a * t) by (nonlinear_arith)
                requires a as int == abs(self@.0), t >= 0;
            assert(self@.1 + 0nat == self@.1);
        }
        let qt = match q.checked_mul(t128) {
            Some(v) => v,
            None => {
                proof {
                    assert((bound - q * t) * p < 0) by (nonlinear_arith)
                        requires q * t > bound, p >= 1;
                    assert(rm * t >= 0) by (nonlinear_arith)
                        requires rm >= 0, t >= 0;
                }
                return false;
            },
        };
        if qt > bound {
            proof {
                assert((bound - q * t) * p < 0) by (nonlinear_arith)
                    requires q * t > bound, p >= 1;
                assert(rm * t >= 0) by (nonlinear_arith)
                    requires rm >= 0, t >= 0;
            }
            return false;
        }
        let diff = bound - qt;
        assert(rm * t < 100_000_000_000_000 * (4_294_967_295int * 25_200 + 1)) by (nonlinear_arith)
            requires rm < p, p <= 100_000_000_000_000, t <= 4_294_967_295int * 25_200, rm >= 0, t >= 0;
        let rt = rm * t128;
        match diff.checked_mul(p) {
            Some(v) => rt <= v,
            None => {
                proof {
                    assert(rm * t < diff * p);
                }
                true
            },
        }
    }
}

} // verus!
