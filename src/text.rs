use vstd::prelude::*;
use crate::units::{lemma_pow10_bounds, lemma_pow10_monotone, pow10, pow10_u128, Decimal, MAX_DECIMALS};
use vstd::arithmetic::div_mod::{lemma_small_mod, lemma_basic_div, lemma_div_denominator, lemma_fundamental_div_mod};
use vstd::string::StrSliceExecFns;
use vstd::math::abs;

verus! {

/// `c` is an ASCII decimal digit.
pub open spec fn is_digit(c: char) -> bool {
    '0' <= c && c <= '9'
}

/// The number that a run of decimal digits writes.
pub open spec fn digits_value(s: Seq<char>) -> nat
    decreases s.len(),
{
    if s.len() == 0 {
        0
    } else {
        digits_value(s.drop_last()) * 10 + (s.last() as nat - '0' as nat) as nat
    }
}

/// `s` is a run of decimal digits, possibly empty.
pub open spec fn all_digits(s: Seq<char>) -> bool {
    forall|i: int| 0 <= i < s.len() ==> is_digit(#[trigger] s[i])
}

/// The text without its leading sign (`-` or `+`), if any.
pub open spec fn unsigned_part(s: Seq<char>) -> Seq<char> {
    if s.len() > 0 && (s[0] == '-' || s[0] == '+') {
        s.skip(1)
    } else {
        s
    }
}

/// The text is an optional sign, digits, and optionally `.` and more
/// digits, with at least one digit in all; `int_len` digits stand before the
/// point (the whole unsigned part when there is no point).
pub open spec fn decimal_shape(s: Seq<char>, int_len: int) -> bool {
    let u = unsigned_part(s);
    &&& 0 <= int_len <= u.len()
    &&& all_digits(u.take(int_len))
    &&& (int_len == u.len() || (u[int_len] == '.' && all_digits(u.skip(int_len + 1))))
    &&& digits_of(s, int_len).len() > 0
}

/// The digits of the text, without sign or point.
pub open spec fn digits_of(s: Seq<char>, int_len: int) -> Seq<char> {
    let u = unsigned_part(s);
    if int_len == u.len() {
        u
    } else {
        u.take(int_len) + u.skip(int_len + 1)
    }
}

/// The number of digits after the point.
pub open spec fn places_of(s: Seq<char>, int_len: int) -> int {
    let u = unsigned_part(s);
    if int_len == u.len() {
        0
    } else {
        u.len() - int_len - 1
    }
}

/// The text is a decimal number that a `Decimal` can hold.
pub open spec fn is_decimal_text(s: Seq<char>) -> bool {
    exists|k: int|
        decimal_shape(s, k) && places_of(s, k) <= MAX_DECIMALS && digits_value(digits_of(s, k))
            <= i128::MAX
}

/// A run of digits with one more digit appended.
proof fn lemma_digits_push(s: Seq<char>, c: char)
    ensures
        digits_value(s.push(c)) == digits_value(s) * 10 + (c as nat - '0' as nat) as nat,
{
    assert(s.push(c).drop_last() =~= s);
}

/// The value of digits never falls as digits are appended.
proof fn lemma_digits_prefix(s: Seq<char>, i: int)
    requires
        0 <= i <= s.len(),
        forall|j: int| 0 <= j < s.len() ==> is_digit(#[trigger] s[j]),
    ensures
        digits_value(s.take(i)) <= digits_value(s),
    decreases s.len() - i,
{
    if i < s.len() {
        lemma_digits_prefix(s, i + 1);
        assert(s.take(i + 1).drop_last() =~= s.take(i));
    } else {
        assert(s.take(i) =~= s);
    }
}

/// The first point of the unsigned part (or its end, when it has none) is
/// the only place where a well-formed text can split into whole and
/// fractional digits; there the digits all are digits.
proof fn lemma_shape_unique(s: Seq<char>, k: int)
    requires
        0 <= k <= unsigned_part(s).len(),
        forall|j: int| 0 <= j < k ==> unsigned_part(s)[j] != '.',
        k == unsigned_part(s).len() || unsigned_part(s)[k] == '.',
    ensures
        forall|k2: int| #[trigger] decimal_shape(s, k2) ==> k2 == k,
        is_decimal_text(s) <==> (decimal_shape(s, k) && places_of(s, k) <= MAX_DECIMALS
            && digits_value(digits_of(s, k)) <= i128::MAX),
        decimal_shape(s, k) ==> forall|q: int|
            0 <= q < digits_of(s, k).len() ==> is_digit(#[trigger] digits_of(s, k)[q]),
{
    let u = unsigned_part(s);
    assert forall|k2: int| #[trigger] decimal_shape(s, k2) implies k2 == k by {
        if k2 < k {
            assert(u[k2] == '.');
        } else if k2 > k {
            assert(u.take(k2)[k] == u[k]);
            assert(is_digit(u.take(k2)[k]));
        }
    }
    if decimal_shape(s, k) {
        let d = digits_of(s, k);
        assert forall|q: int| 0 <= q < d.len() implies is_digit(#[trigger] d[q]) by {
            if k == u.len() {
                assert(u.take(k) =~= u);
                assert(u.take(k)[q] == d[q]);
            } else if q < k {
                assert(u.take(k)[q] == d[q]);
            } else {
                assert(u.skip(k + 1)[q - k] == d[q]);
            }
        }
    }
}

/// A text whose digits (without sign and point) are all digits, and at
/// least one, is well formed.
proof fn lemma_shape_from_digits(s: Seq<char>, k: int)
    requires
        0 <= k <= unsigned_part(s).len(),
        k == unsigned_part(s).len() || unsigned_part(s)[k] == '.',
        digits_of(s, k).len() > 0,
        forall|q: int|
            0 <= q < digits_of(s, k).len() ==> is_digit(#[trigger] digits_of(s, k)[q]),
    ensures
        decimal_shape(s, k),
{
    let u = unsigned_part(s);
    let d = digits_of(s, k);
    assert forall|q: int| 0 <= q < k implies is_digit(#[trigger] u.take(k)[q]) by {
        if k == u.len() {
            assert(u[q] == d[q]);
        } else {
            assert(u.take(k)[q] == d[q]);
        }
    }
    if k < u.len() {
        let f = u.skip(k + 1);
        assert forall|q: int| 0 <= q < f.len() implies is_digit(#[trigger] f[q]) by {
            assert(f[q] == d[q + k]);
        }
    }
}

/// Digits whose prefix is worth more than `i128::MAX` do not make a
/// decimal text.
proof fn lemma_prefix_bound(s: Seq<char>, k: int, j: int)
    requires
        0 <= k <= unsigned_part(s).len(),
        forall|q: int| 0 <= q < k ==> unsigned_part(s)[q] != '.',
        k == unsigned_part(s).len() || unsigned_part(s)[k] == '.',
        0 <= j <= digits_of(s, k).len(),
        digits_value(digits_of(s, k).take(j)) > i128::MAX,
    ensures
        !is_decimal_text(s),
{
    lemma_shape_unique(s, k);
    if decimal_shape(s, k) {
        lemma_digits_prefix(digits_of(s, k), j);
    }
}

/// Reads a decimal number such as `1000`, `-1.5`, `+.5`, `5.` or
/// `0.000001`: an optional sign, digits, and optionally a point followed by
/// more digits, with at least one digit in all. The scale is the number of
/// digits after the point.
///
/// `None` exactly when the text has another shape, more than `MAX_DECIMALS`
/// digits after the point, or digits worth more than `i128::MAX`.
pub fn parse_decimal(s: &str) -> (r: Option<Decimal>)
    ensures
        r is Some <==> is_decimal_text(s@),
        r matches Some(d) ==> d.wf() && exists|k: int|
            decimal_shape(s@, k) && d.scale == places_of(s@, k) && d.mantissa == (if s@.len() > 0
                && s@[0] == '-' {
                -digits_value(digits_of(s@, k))
            } else {
                digits_value(digits_of(s@, k)) as int
            }),
{
    let n = s.unicode_len();
    let negative = n > 0 && s.get_char(0) == '-';
    let signed = negative || (n > 0 && s.get_char(0) == '+');
    let start: usize = if signed {
        1
    } else {
        0
    };
    let ghost u = unsigned_part(s@);
    assert(u =~= s@.skip(start as int));
    let len: usize = n - start;
    if len == 0 {
        return None;
    }
    // The position of the first point in the unsigned part, or its length.
    let mut point: usize = len;
    let mut i: usize = 0;
    while i < len
        invariant
            n == s@.len(),
            start <= n,
            len == n - start,
            u =~= s@.skip(start as int),
            i <= len,
            point <= len,
            point == len ==> forall|j: int| 0 <= j < i ==> u[j] != '.',
            point < len ==> u[point as int] == '.' && forall|j: int| 0 <= j < point ==> u[j] != '.',
        decreases len - i,
    {
        if point == len && s.get_char(start + i) == '.' {
            point = i;
        }
        i = i + 1;
    }
    let ghost k = point as int;
    assert(forall|j: int| 0 <= j < k ==> u[j] != '.');
    assert(k == u.len() || u[k] == '.');
    if point == 0 && len == 1 {
        proof {
            lemma_shape_unique(s@, k);
            assert(digits_of(s@, k).len() == 0);
        }
        return None;
    }
    if point < len && len - point - 1 > MAX_DECIMALS as usize {
        proof {
            lemma_shape_unique(s@, k);
        }
        return None;
    }
    let ghost digits = digits_of(s@, k);
    let total: usize = if point == len {
        len
    } else {
        len - 1
    };
    assert(digits.len() == total);
    let mut m: u128 = 0;
    let mut j: usize = 0;
    while j < total
        invariant
            n == s@.len(),
            start <= n,
            u =~= s@.skip(start as int),
            u == unsigned_part(s@),
            0 <= k <= u.len(),
            k == point,
            k == u.len() || u[k] == '.',
            forall|q: int| 0 <= q < k ==> u[q] != '.',
            digits == digits_of(s@, k),
            digits.len() == total,
            len == n - start,
            u.len() == len,
            total == (if point == len {
                len
            } else {
                (len - 1) as usize
            }),
            j <= total,
            forall|q: int| 0 <= q < j ==> is_digit(#[trigger] digits[q]),
            m == digits_value(digits.take(j as int)),
            m <= i128::MAX,
        decreases total - j,
    {
        let pos: usize = if j < point {
            start + j
        } else {
            start + j + 1
        };
        proof {
            if point == len {
                assert(digits[j as int] == u[j as int]);
            } else if j < point {
                assert(digits[j as int] == u.take(k)[j as int]);
            } else {
                assert(digits[j as int] == u.skip(k + 1)[j - k]);
            }
        }
        assert(digits[j as int] == s@[pos as int]);
        let c = s.get_char(pos);
        if !('0' <= c && c <= '9') {
            proof {
                lemma_shape_unique(s@, k);
                assert(!all_digits(u.take(k)) || !all_digits(u.skip(k + 1))) by {
                    if j < point {
                        assert(u.take(k)[j as int] == c);
                    } else {
                        assert(u.skip(k + 1)[j - k] == c);
                    }
                }
            }
            return None;
        }
        let d: u128 = (c as u32 - '0' as u32) as u128;
        proof {
            assert(digits.take(j + 1) =~= digits.take(j as int).push(c));
            lemma_digits_push(digits.take(j as int), c);
        }
        if m > (i128::MAX as u128 - d) / 10 {
            proof {
                lemma_shape_unique(s@, k);
                assert(forall|q: int| 0 <= q < j + 1 ==> is_digit(#[trigger] digits.take(j + 1)[q]));
                lemma_prefix_bound(s@, k, j as int + 1);
            }
            return None;
        }
        m = m * 10 + d;
        j = j + 1;
    }
    proof {
        assert(digits.take(total as int) =~= digits);
        lemma_shape_from_digits(s@, k);
        lemma_shape_unique(s@, k);
    }
    let places: u32 = if point == len {
        0
    } else {
        (len - point - 1) as u32
    };
    let mantissa: i128 = if negative {
        -(m as i128)
    } else {
        m as i128
    };
    Some(Decimal { mantissa, scale: places })
}

/// The character of a decimal digit.
fn digit_char(d: u128) -> (c: char)
    requires
        d < 10,
    ensures
        is_digit(c),
        c as nat - '0' as nat == d,
{
    ((d as u8) + 48u8) as char
}

/// Writes a decimal as text: a minus sign when it is negative, the whole
/// digits (at least one), and when the scale is above zero a point and
/// exactly `scale` digits. Reading the text back gives the same decimal.
pub fn decimal_text(d: Decimal) -> (r: Vec<char>)
    requires
        d.wf(),
        d.mantissa > i128::MIN,
    ensures
        (r@.len() > 0 && r@[0] == '-') == (d.mantissa < 0),
        exists|k: int|
            decimal_shape(r@, k) && places_of(r@, k) == d.scale && digits_value(digits_of(r@, k))
                == abs(d.mantissa as int) && (k == 1 || unsigned_part(r@)[0] != '0'),
{
    let m: u128 = if d.mantissa < 0 {
        (-d.mantissa) as u128
    } else {
        d.mantissa as u128
    };
    proof {
        lemma_pow10_bounds();
        lemma_pow10_monotone(0, 38);
    }
    // The number of digits to write: enough for `m`, and one more than the scale.
    let mut t: u32 = d.scale + 1;
    while t < 39 && pow10_u128(t) <= m
        invariant
            d.scale + 1 <= t <= 39,
            m <= i128::MAX,
            t > d.scale + 1 ==> pow10((t - 1) as nat) <= m,
        decreases 39 - t,
    {
        t = t + 1;
    }
    proof {
        lemma_pow10_bounds();
        lemma_pow10_monotone(38, 39);
        lemma_pow10_monotone(t as nat, 39);
    }
    assert(m < pow10(t as nat));
    let mut out: Vec<char> = Vec::new();
    if d.mantissa < 0 {
        out.push('-');
    }
    let ghost pre = out@;
    let ghost mut ds: Seq<char> = Seq::empty();
    proof {
        assert(digits_value(ds) == 0);
        lemma_basic_div(m as int, pow10(t as nat) as int);
    }
    let whole: u32 = t - d.scale;
    let mut i: u32 = 0;
    while i < t
        invariant
            d.scale + 1 <= t <= 39,
            whole == t - d.scale,
            i <= t,
            m < pow10(t as nat),
            ds.len() == i,
            forall|q: int| 0 <= q < i ==> is_digit(#[trigger] ds[q]),
            digits_value(ds) == m as nat / pow10((t - i) as nat),
            pre == (if d.mantissa < 0 {
                seq!['-']
            } else {
                Seq::<char>::empty()
            }),
            i <= whole ==> out@ == pre + ds,
            i > whole ==> out@ == pre + ds.take(whole as int) + seq!['.'] + ds.skip(
                whole as int,
            ),
            i > 0 ==> ds[0] as nat - '0' as nat == (m as nat / pow10((t - 1) as nat)) % 10,
        decreases t - i,
    {
        if i == whole {
            out.push('.');
            proof {
                assert(ds.take(whole as int) =~= ds);
                assert(ds.skip(whole as int) =~= Seq::<char>::empty());
                assert(out@ =~= pre + ds.take(whole as int) + seq!['.'] + ds.skip(whole as int));
            }
        }
        let p = pow10_u128(t - 1 - i);
        proof {
            lemma_pow10_monotone(0, (t - 1 - i) as nat);
        }
        let y = m / p;
        let digit = y % 10;
        let c = digit_char(digit);
        out.push(c);
        proof {
            let e = (t - 1 - i) as nat;
            assert(pow10((t - i) as nat) == pow10(e) * 10);
            lemma_div_denominator(m as int, pow10(e) as int, 10);
            lemma_fundamental_div_mod(y as int, 10);
            lemma_digits_push(ds, c);
            let old_ds = ds;
            ds = ds.push(c);
            assert(ds.drop_last() =~= old_ds);
            if i < whole {
                assert(out@ =~= pre + ds);
            } else {
                assert(ds.take(whole as int) =~= old_ds.take(whole as int));
                assert(ds.skip(whole as int) =~= old_ds.skip(whole as int).push(c));
                assert(out@ =~= pre + ds.take(whole as int) + seq!['.'] + ds.skip(whole as int));
            }
        }
        i = i + 1;
    }
    proof {
        assert(i == t);
        assert((t - i) as nat == 0);
        assert(pow10(0) == 1);
        assert(pow10((t - i) as nat) == 1);
        assert(m as nat / 1 == m);
        assert(digits_value(ds) == m);
        assert(t > d.scale + 1 ==> ds[0] != '0') by {
            if t > d.scale + 1 {
                let p = pow10((t - 1) as nat);
                assert(pow10(t as nat) == 10 * p);
                lemma_fundamental_div_mod(m as int, p as int);
                let y = m as int / p as int;
                let z = m as int % p as int;
                assert(1 <= y < 10) by (nonlinear_arith)
                    requires
                        m == p * y + z,
                        0 <= z,
                        z < p,
                        p <= m,
                        m < 10 * p,
                ;
                lemma_small_mod(y as nat, 10);
            }
        }
        let k = whole as int;
        let u = unsigned_part(out@);
        if d.mantissa < 0 {
            assert(out@[0] == '-');
            if d.scale > 0 {
                assert(u =~= ds.take(k) + seq!['.'] + ds.skip(k));
            } else {
                assert(u =~= ds);
            }
        } else {
            assert(ds[0] != '-' && ds[0] != '+');
            if d.scale > 0 {
                assert(out@[0] == ds.take(k)[0]);
                assert(u =~= ds.take(k) + seq!['.'] + ds.skip(k));
            } else {
                assert(u =~= ds);
            }
        }
        if d.scale > 0 {
            assert(u.take(k) =~= ds.take(k));
            assert(u.skip(k + 1) =~= ds.skip(k));
            assert(u[k] == '.');
            assert(digits_of(out@, k) =~= ds);
        } else {
            assert(u.take(k) =~= ds);
            assert(digits_of(out@, k) =~= ds);
        }
        assert(decimal_shape(out@, k));
        assert(u[0] == ds[0]);
        assert(k == 1 || unsigned_part(out@)[0] != '0');
    }
    out
}

/// A well-formed text splits into whole and fractional digits in one place
/// only.
proof fn lemma_shape_split_unique(s: Seq<char>, k1: int, k2: int)
    requires
        decimal_shape(s, k1),
        decimal_shape(s, k2),
    ensures
        k1 == k2,
{
    let u = unsigned_part(s);
    assert forall|j: int| 0 <= j < k1 implies u[j] != '.' by {
        assert(u.take(k1)[j] == u[j]);
    }
    lemma_shape_unique(s, k1);
}

/// Text written for a decimal reads back as that decimal: it is a decimal
/// text, and wherever it splits into whole and fractional digits it gives
/// the decimal's scale and mantissa.
pub proof fn lemma_text_round_trip(d: Decimal, text: Seq<char>)
    requires
        d.wf(),
        d.mantissa > i128::MIN,
        (text.len() > 0 && text[0] == '-') == (d.mantissa < 0),
        exists|k: int|
            decimal_shape(text, k) && places_of(text, k) == d.scale && digits_value(
                digits_of(text, k),
            ) == abs(d.mantissa as int),
    ensures
        is_decimal_text(text),
        forall|k: int|
            #[trigger] decimal_shape(text, k) ==> places_of(text, k) == d.scale && d.mantissa == (
            if text.len() > 0 && text[0] == '-' {
                -digits_value(digits_of(text, k))
            } else {
                digits_value(digits_of(text, k)) as int
            }),
{
    let k0 = choose|k: int|
        decimal_shape(text, k) && places_of(text, k) == d.scale && digits_value(
            digits_of(text, k),
        ) == abs(d.mantissa as int);
    assert forall|k: int| #[trigger] decimal_shape(text, k) implies places_of(text, k) == d.scale
        && d.mantissa == (if text.len() > 0 && text[0] == '-' {
        -digits_value(digits_of(text, k))
    } else {
        digits_value(digits_of(text, k)) as int
    }) by {
        lemma_shape_split_unique(text, k, k0);
    }
}

} // verus!
