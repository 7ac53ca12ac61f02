use vstd::prelude::*;
use vstd::math::abs;

verus! {

/// Ten to the power `n`.
pub open spec fn pow10(n: nat) -> nat
    decreases n,
{
    if n == 0 {
        1
    } else {
        10 * pow10((n - 1) as nat)
    }
}

/// `a / b` rounded to the nearest integer, halves rounded up (away from zero,
/// as `a` is never negative).
pub open spec fn round_div(a: nat, b: nat) -> nat
    recommends
        b > 0,
{
    if 2 * (a % b) >= b {
        a / b + 1
    } else {
        a / b
    }
}

/// The number of native units, at `decimals` places, of the non-negative
/// decimal `m / 10^s`, rounded half away from zero.
pub open spec fn native_of(m: nat, s: nat, decimals: nat) -> nat {
    if decimals >= s {
        m * pow10((decimals - s) as nat)
    } else {
        round_div(m, pow10((s - decimals) as nat))
    }
}

/// The largest exponent whose power of ten fits in a `u128` (and an `i128`).
pub const MAX_DECIMALS: u32 = 38;

/// A decimal display value: `mantissa / 10^scale`.
#[derive(Clone, Copy, Debug, PartialEq, Eq, Structural)]
pub struct Decimal {
    pub mantissa: i128,
    pub scale: u32,
}

impl Decimal {
    /// A scale whose power of ten fits in the mantissa's type.
    pub open spec fn wf(self) -> bool {
        self.scale <= MAX_DECIMALS
    }
}

/// `a` and `b` stand for the same rational number.
pub open spec fn same_value(a: Decimal, b: Decimal) -> bool {
    a.mantissa * pow10(b.scale as nat) == b.mantissa * pow10(a.scale as nat)
}

/// `a` is at most `b`, as rational numbers.
pub open spec fn value_le(a: Decimal, b: Decimal) -> bool {
    a.mantissa * pow10(b.scale as nat) <= b.mantissa * pow10(a.scale as nat)
}

/// Why a conversion between display and native units failed.
#[derive(Clone, Copy, Debug, PartialEq, Eq, Structural)]
pub enum UnitError {
    /// A negative amount, or one whose native form does not fit.
    InvalidAmount,
}

/// Powers of ten are positive.
pub proof fn lemma_pow10_pos(n: nat)
    ensures
        pow10(n) >= 1,
    decreases n,
{
    if n > 0 {
        lemma_pow10_pos((n - 1) as nat);
    }
}

/// `10^38` fits in an `i128` and `10^39` does not fit in a `u128`.
pub proof fn lemma_pow10_bounds()
    ensures
        pow10(38) == 100000000000000000000000000000000000000,
        pow10(39) == 1000000000000000000000000000000000000000,
{
    reveal_with_fuel(pow10, 40);
}

/// Powers of ten are positive and grow with the exponent.
pub proof fn lemma_pow10_monotone(a: nat, b: nat)
    requires
        a <= b,
    ensures
        1 <= pow10(a) <= pow10(b),
    decreases b,
{
    lemma_pow10_pos(a);
    if a < b {
        lemma_pow10_monotone(a, (b - 1) as nat);
        lemma_pow10_pos((b - 1) as nat);
        assert(pow10(b) == 10 * pow10((b - 1) as nat));
    }
}

/// `10^(a + b) == 10^a * 10^b`.
pub proof fn lemma_pow10_add(a: nat, b: nat)
    ensures
        pow10(a + b) == pow10(a) * pow10(b),
    decreases b,
{
    if b == 0 {
        assert(pow10(0) == 1);
        assert(a + b == a);
    } else {
        let b1 = (b - 1) as nat;
        lemma_pow10_add(a, b1);
        assert(a + b1 + 1 == a + b);
        assert(pow10(a + b) == 10 * pow10(a + b1));
        assert(pow10(b) == 10 * pow10(b1));
        let x = pow10(a);
        let y = pow10(b1);
        assert(x * (10 * y) == 10 * (x * y)) by (nonlinear_arith);
    }
}

/// Computes `10^n` for `n <= 38`.
pub fn pow10_u128(n: u32) -> (r: u128)
    requires
        n <= MAX_DECIMALS,
    ensures
        r as nat == pow10(n as nat),
        r <= i128::MAX,
{
    let mut r: u128 = 1;
    let mut i: u32 = 0;
    while i < n
        invariant
            i <= n,
            n <= MAX_DECIMALS,
            r as nat == pow10(i as nat),
        decreases n - i,
    {
        proof {
            lemma_pow10_bounds();
            lemma_pow10_monotone(i as nat + 1, 38);
        }
        r = r * 10;
        i = i + 1;
    }
    proof {
        lemma_pow10_bounds();
        lemma_pow10_monotone(n as nat, 38);
    }
    r
}

/// Converts a decimal display amount to native units at `decimals` places,
/// rounding half away from zero.
///
/// Fails with `InvalidAmount` exactly when the amount is negative or its
/// native form does not fit in a `u128`.
pub fn to_units(amount: Decimal, decimals: u32) -> (r: Result<u128, UnitError>)
    requires
        amount.wf(),
    ensures
        r is Ok <==> (amount.mantissa >= 0 && native_of(
            amount.mantissa as nat,
            amount.scale as nat,
            decimals as nat,
        ) <= u128::MAX),
        r matches Ok(n) ==> n == native_of(
            amount.mantissa as nat,
            amount.scale as nat,
            decimals as nat,
        ),
        r matches Err(e) ==> e == UnitError::InvalidAmount,
{
    if amount.mantissa < 0 {
        return Err(UnitError::InvalidAmount);
    }
    let m: u128 = amount.mantissa as u128;
    if decimals >= amount.scale {
        let k: u32 = decimals - amount.scale;
        if m == 0 {
            return Ok(0);
        }
        if k > MAX_DECIMALS {
            proof {
                lemma_pow10_bounds();
                lemma_pow10_monotone(39, k as nat);
                assert(m * pow10(k as nat) >= pow10(k as nat)) by (nonlinear_arith)
                    requires
                        m >= 1,
                ;
            }
            return Err(UnitError::InvalidAmount);
        }
        let p = pow10_u128(k);
        match m.checked_mul(p) {
            Some(n) => Ok(n),
            None => Err(UnitError::InvalidAmount),
        }
    } else {
        let k: u32 = amount.scale - decimals;
        let p = pow10_u128(k);
        proof {
            lemma_pow10_monotone(0, k as nat);
        }
        let q = m / p;
        let rem = m % p;
        if rem >= p - rem {
            proof {
                assert(q <= m) by (nonlinear_arith)
                    requires
                        q == m / p,
                        p >= 1,
                ;
            }
            Ok(q + 1)
        } else {
            Ok(q)
        }
    }
}

/// Converts `x` native units at `decimals` places to its exact decimal value.
///
/// Fails with `InvalidAmount` exactly when `x` does not fit an `i128`
/// mantissa or `decimals` exceeds `MAX_DECIMALS`.
pub fn from_units(x: u128, decimals: u32) -> (r: Result<Decimal, UnitError>)
    ensures
        r is Ok <==> (x <= i128::MAX && decimals <= MAX_DECIMALS),
        r matches Ok(d) ==> d.mantissa == x && d.scale == decimals && d.wf(),
        r matches Err(e) ==> e == UnitError::InvalidAmount,
{
    if x > i128::MAX as u128 || decimals > MAX_DECIMALS {
        Err(UnitError::InvalidAmount)
    } else {
        Ok(Decimal { mantissa: x as i128, scale: decimals })
    }
}

/// Whether `a >= b` as rational numbers.
pub fn decimal_ge(a: Decimal, b: Decimal) -> (r: bool)
    requires
        a.wf(),
        b.wf(),
    ensures
        r == value_le(b, a),
{
    proof {
        lemma_pow10_pos(a.scale as nat);
        lemma_pow10_pos(b.scale as nat);
    }
    if a.scale >= b.scale {
        let k: u32 = a.scale - b.scale;
        let p = pow10_u128(k) as i128;
        proof {
            lemma_pow10_add(b.scale as nat, k as nat);
            assert(b.mantissa * pow10(a.scale as nat) == (b.mantissa * p) * pow10(b.scale as nat))
                by (nonlinear_arith)
                requires
                    pow10(a.scale as nat) == pow10(b.scale as nat) * p,
            ;
            lemma_scaled_compare(a.mantissa as int, b.mantissa * p, pow10(b.scale as nat) as int);
        }
        assert(pow10(a.scale as nat) == pow10(b.scale as nat) * p);
        assert(value_le(b, a) == (b.mantissa * p <= a.mantissa));
        match b.mantissa.checked_mul(p) {
            Some(bp) => a.mantissa >= bp,
            None => {
                proof {
                    lemma_pow10_pos(k as nat);
                    lemma_mul_sign(b.mantissa as int, p as int);
                    assert(b.mantissa * p > i128::MAX || b.mantissa * p < i128::MIN);
                    assert(b.mantissa >= 0 ==> b.mantissa * p > a.mantissa);
                    assert(b.mantissa < 0 ==> b.mantissa * p < a.mantissa);
                }
                b.mantissa < 0
            },
        }
    } else {
        let k: u32 = b.scale - a.scale;
        let p = pow10_u128(k) as i128;
        proof {
            lemma_pow10_add(a.scale as nat, k as nat);
            assert(a.mantissa * pow10(b.scale as nat) == (a.mantissa * p) * pow10(a.scale as nat))
                by (nonlinear_arith)
                requires
                    pow10(b.scale as nat) == pow10(a.scale as nat) * p,
            ;
            lemma_scaled_compare(a.mantissa * p, b.mantissa as int, pow10(a.scale as nat) as int);
        }
        assert(pow10(b.scale as nat) == pow10(a.scale as nat) * p);
        assert(value_le(b, a) == (b.mantissa <= a.mantissa * p));
        match a.mantissa.checked_mul(p) {
            Some(ap) => ap >= b.mantissa,
            None => {
                proof {
                    lemma_pow10_pos(k as nat);
                    lemma_mul_sign(a.mantissa as int, p as int);
                    assert(a.mantissa * p > i128::MAX || a.mantissa * p < i128::MIN);
                    assert(a.mantissa > 0 ==> a.mantissa * p > b.mantissa);
                    assert(a.mantissa <= 0 ==> a.mantissa * p < b.mantissa);
                }
                a.mantissa > 0
            },
        }
    }
}

/// Multiplying both sides by the same positive number keeps their order.
proof fn lemma_scaled_compare(x: int, y: int, c: int)
    requires
        c > 0,
    ensures
        (y * c <= x * c) == (y <= x),
{
    if y <= x {
        assert(y * c <= x * c) by (nonlinear_arith)
            requires
                y <= x,
                c > 0,
        ;
    } else {
        assert(y * c > x * c) by (nonlinear_arith)
            requires
                y > x,
                c > 0,
        ;
    }
}

/// A product with a positive factor has the other factor's sign.
proof fn lemma_mul_sign(x: int, p: int)
    requires
        p >= 1,
    ensures
        x >= 0 ==> x * p >= x,
        x < 0 ==> x * p <= x,
        x == 0 ==> x * p == 0,
{
    if x >= 0 {
        assert(x * p >= x) by (nonlinear_arith)
            requires
                x >= 0,
                p >= 1,
        ;
    } else {
        assert(x * p <= x) by (nonlinear_arith)
            requires
                x < 0,
                p >= 1,
        ;
    }
}

/// Converting a non-negative decimal that carries no more places than
/// `decimals` to native units and back gives the same value.
pub proof fn lemma_round_trip(amount: Decimal, decimals: u32)
    requires
        amount.wf(),
        amount.mantissa >= 0,
        amount.scale <= decimals <= MAX_DECIMALS,
        native_of(amount.mantissa as nat, amount.scale as nat, decimals as nat) <= i128::MAX,
    ensures
        same_value(
            Decimal {
                mantissa: native_of(
                    amount.mantissa as nat,
                    amount.scale as nat,
                    decimals as nat,
                ) as i128,
                scale: decimals,
            },
            amount,
        ),
{
    let k = (decimals - amount.scale) as nat;
    let m = amount.mantissa as int;
    lemma_pow10_add(k, amount.scale as nat);
    assert(m * pow10(k) * pow10(amount.scale as nat) == m * (pow10(k) * pow10(amount.scale as nat)))
        by (nonlinear_arith);
}

/// Native units converted to their decimal value and back are unchanged.
pub proof fn lemma_native_round_trip(x: u128, decimals: u32)
    ensures
        native_of(x as nat, decimals as nat, decimals as nat) == x,
{
    assert((decimals - decimals) as nat == 0);
    assert(pow10(0) == 1);
    assert(x * pow10(0) == x);
}

/// The scale of an exact difference: the larger of the two scales.
pub open spec fn diff_scale(a: Decimal, b: Decimal) -> u32 {
    if a.scale >= b.scale {
        a.scale
    } else {
        b.scale
    }
}

/// `a` written at the larger scale `s`.
pub open spec fn mantissa_at(a: Decimal, s: u32) -> int {
    a.mantissa * pow10((s - a.scale) as nat)
}

/// The mantissa of `a - b` at `diff_scale(a, b)`.
pub open spec fn diff_mantissa(a: Decimal, b: Decimal) -> int {
    mantissa_at(a, diff_scale(a, b)) - mantissa_at(b, diff_scale(a, b))
}

/// Both operands and their difference fit an `i128` at the common scale.
pub open spec fn diff_fits(a: Decimal, b: Decimal) -> bool {
    &&& i128::MIN <= mantissa_at(a, diff_scale(a, b)) <= i128::MAX
    &&& i128::MIN <= mantissa_at(b, diff_scale(a, b)) <= i128::MAX
    &&& i128::MIN <= diff_mantissa(a, b) <= i128::MAX
}

/// Writes `a` at the scale `s`, at least its own, if it fits.
fn rescale(a: Decimal, s: u32) -> (r: Option<i128>)
    requires
        a.wf(),
        a.scale <= s <= MAX_DECIMALS,
    ensures
        r is Some <==> i128::MIN <= mantissa_at(a, s) <= i128::MAX,
        r matches Some(m) ==> m == mantissa_at(a, s),
{
    let p = pow10_u128(s - a.scale) as i128;
    a.mantissa.checked_mul(p)
}

/// The exact difference `a - b`, at the larger of the two scales.
///
/// Fails with `InvalidAmount` exactly when an operand or the difference
/// does not fit an `i128` at that scale.
pub fn decimal_sub(a: Decimal, b: Decimal) -> (r: Result<Decimal, UnitError>)
    requires
        a.wf(),
        b.wf(),
    ensures
        r is Ok <==> diff_fits(a, b),
        r matches Ok(d) ==> d.scale == diff_scale(a, b) && d.mantissa == diff_mantissa(a, b)
            && d.wf(),
        r matches Err(e) ==> e == UnitError::InvalidAmount,
{
    let s: u32 = if a.scale >= b.scale {
        a.scale
    } else {
        b.scale
    };
    match (rescale(a, s), rescale(b, s)) {
        (Some(x), Some(y)) => match x.checked_sub(y) {
            Some(m) => Ok(Decimal { mantissa: m, scale: s }),
            None => Err(UnitError::InvalidAmount),
        },
        _ => Err(UnitError::InvalidAmount),
    }
}

/// The difference has the value of `a - b`: scaled to a common
/// denominator, its numerator is `a`'s less `b`'s.
pub proof fn lemma_sub_value(a: Decimal, b: Decimal, d: Decimal)
    requires
        d.scale == diff_scale(a, b),
        d.mantissa == diff_mantissa(a, b),
    ensures
        d.mantissa * pow10(a.scale as nat) * pow10(b.scale as nat) == a.mantissa * pow10(
            b.scale as nat,
        ) * pow10(d.scale as nat) - b.mantissa * pow10(a.scale as nat) * pow10(d.scale as nat),
{
    let s = d.scale as nat;
    let pa = pow10(a.scale as nat);
    let pb = pow10(b.scale as nat);
    let ka = pow10((s - a.scale) as nat);
    let kb = pow10((s - b.scale) as nat);
    lemma_pow10_add((s - a.scale) as nat, a.scale as nat);
    lemma_pow10_add((s - b.scale) as nat, b.scale as nat);
    assert(((s - a.scale) as nat) + a.scale as nat == s);
    assert(((s - b.scale) as nat) + b.scale as nat == s);
    let am = a.mantissa as int;
    let bm = b.mantissa as int;
    let x = am * ka;
    let y = bm * kb;
    assert((x - y) * pa * pb == x * pa * pb - y * pa * pb) by (nonlinear_arith);
    assert(x * pa * pb == am * pb * (ka * pa)) by (nonlinear_arith)
        requires
            x == am * ka,
    ;
    assert(y * pa * pb == bm * pa * (kb * pb)) by (nonlinear_arith)
        requires
            y == bm * kb,
    ;
}

} // verus!
