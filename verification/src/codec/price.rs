//! What a price in text comes to.
//!
//! A whole number is taken as it is. Any other number is rounded to the nearest
//! double-precision number, ties to even, and then cut to a whole number.

use vstd::arithmetic::div_mod::{lemma_fundamental_div_mod, lemma_fundamental_div_mod_converse};
use vstd::arithmetic::power2::{lemma_pow2_adds, lemma_pow2_pos, lemma_pow2_unfold, pow2};
use vstd::prelude::*;
use vstd::slice::slice_subrange;

use crate::bytes::{
    all_digits, decimal, digits_value, lemma_decimal_digits, lemma_decimal_round_trip, parse_u64,
    push_all, to_vec, unsigned, unsigned_digits,
};

verus! {

/// `10` to the power `n`.
pub open spec fn pow10(n: nat) -> nat
    decreases n,
{
    if n == 0 {
        1
    } else {
        10 * pow10((n - 1) as nat)
    }
}

/// How many binary digits a number has.
pub open spec fn bit_length(w: nat) -> nat
    decreases w,
{
    if w == 0 {
        0
    } else {
        1 + bit_length(w / 2)
    }
}

/// `a / b`, rounded to the nearest whole number, ties to even.
pub open spec fn round_half_even(a: nat, b: nat) -> nat {
    let q = a / b;
    let r = a % b;
    if 2 * r > b || (2 * r == b && q % 2 == 1) {
        q + 1
    } else {
        q
    }
}

/// What `num / den` comes to when it is rounded to the significant digits of a double,
/// cut to a whole number, and kept in 64 bits. Below one half the digits lie further
/// behind the point, but what is cut off is all there is.
pub open spec fn whole_of_double(num: nat, den: nat) -> u64 {
    let bits = bit_length(num / den);
    let r = if bits <= 53 {
        let unit = pow2((53 - bits) as nat);
        round_half_even(num * unit, den) / unit
    } else {
        let unit = pow2((bits - 53) as nat);
        round_half_even(num, den * unit) * unit
    };
    if r > u64::MAX {
        u64::MAX
    } else {
        r as u64
    }
}

/// A byte in lower case.
pub open spec fn lower(b: u8) -> u8 {
    if 65 <= b <= 90 {
        (b + 32) as u8
    } else {
        b
    }
}

/// Whether `s` is `word`, whatever its case.
pub open spec fn is_word(s: Seq<u8>, word: Seq<u8>) -> bool {
    s.len() == word.len() && forall|i: int| 0 <= i < s.len() ==> lower(#[trigger] s[i]) == word[i]
}

/// How many digits `s` starts with.
pub open spec fn digit_run(s: Seq<u8>) -> nat
    decreases s.len(),
{
    if s.len() > 0 && 48 <= s[0] <= 57 {
        1 + digit_run(s.skip(1))
    } else {
        0
    }
}

/// `s` without the sign it may start with.
pub open spec fn without_sign(s: Seq<u8>) -> Seq<u8> {
    if s.len() > 0 && (s[0] == 43 || s[0] == 45) {
        s.skip(1)
    } else {
        s
    }
}

/// Whether `s` starts with a minus sign.
pub open spec fn is_negative(s: Seq<u8>) -> bool {
    s.len() > 0 && s[0] == 45
}

/// A number in decimal notation: digits, times ten to a power.
pub struct Scientific {
    pub digits: Seq<u8>,
    pub exp: int,
}

/// The power that stands behind the digits of a number: none, or an `e`, an optional
/// sign, and digits.
pub open spec fn exponent_of(s: Seq<u8>) -> Option<int> {
    if s.len() == 0 {
        Some(0)
    } else if lower(s[0]) != 101 {
        None
    } else {
        let t = s.skip(1);
        let d = without_sign(t);
        if d.len() == 0 || !all_digits(d) {
            None
        } else if is_negative(t) {
            Some(-(digits_value(d) as int))
        } else {
            Some(digits_value(d) as int)
        }
    }
}

/// Where the digits before the point end.
pub open spec fn whole_len(s: Seq<u8>) -> nat {
    digit_run(s)
}

/// The digits behind the point, if there is one.
pub open spec fn fraction_of(s: Seq<u8>) -> Seq<u8> {
    let a = whole_len(s);
    if a < s.len() && s[a as int] == 46 {
        s.skip(a as int + 1).take(digit_run(s.skip(a as int + 1)) as int)
    } else {
        Seq::empty()
    }
}

/// Where the digits end, point included.
pub open spec fn mantissa_len(s: Seq<u8>) -> nat {
    let a = whole_len(s);
    if a < s.len() && s[a as int] == 46 {
        a + 1 + fraction_of(s).len()
    } else {
        a
    }
}

/// A number without a sign: digits, with a point among, before or behind them, and a
/// power of ten.
pub open spec fn scientific_of(s: Seq<u8>) -> Option<Scientific> {
    let digits = s.take(whole_len(s) as int) + fraction_of(s);
    match exponent_of(s.skip(mantissa_len(s) as int)) {
        Some(exp) => if digits.len() == 0 {
            None
        } else {
            Some(Scientific { digits, exp: exp - fraction_of(s).len() })
        },
        None => None,
    }
}

/// What `n` times ten to the power `exp` comes to.
pub open spec fn whole_times(n: nat, exp: int) -> u64 {
    if exp >= 0 {
        whole_of_double(n * pow10(exp as nat), 1)
    } else {
        whole_of_double(n, pow10((-exp) as nat))
    }
}

/// What a number comes to.
pub open spec fn whole_of(x: Scientific) -> u64 {
    whole_times(digits_value(x.digits), x.exp)
}

pub open spec fn word_inf() -> Seq<u8> {
    seq![105u8, 110u8, 102u8]
}

pub open spec fn word_infinity() -> Seq<u8> {
    seq![105u8, 110u8, 102u8, 105u8, 110u8, 105u8, 116u8, 121u8]
}

pub open spec fn word_nan() -> Seq<u8> {
    seq![110u8, 97u8, 110u8]
}

/// What a number that may have a sign, a point and a power of ten comes to. Below zero
/// there is no price, so it comes to zero, as does what is no number; what is beyond all
/// bounds comes to the largest price there is.
#[verifier::opaque]
pub open spec fn real_value(s: Seq<u8>) -> Option<u64> {
    let t = without_sign(s);
    if is_word(t, word_nan()) {
        Some(0)
    } else if is_word(t, word_inf()) || is_word(t, word_infinity()) {
        Some(
            if is_negative(s) {
                0
            } else {
                u64::MAX
            },
        )
    } else {
        match scientific_of(t) {
            Some(x) => Some(
                if is_negative(s) {
                    0
                } else {
                    whole_of(x)
                },
            ),
            None => None,
        }
    }
}

/// The price that a text comes to.
pub open spec fn price_value(text: Seq<u8>) -> Option<u64> {
    match unsigned(text) {
        Some(v) => Some(v),
        None => real_value(text),
    }
}

proof fn lemma_pow10_pos(n: nat)
    ensures
        pow10(n) > 0,
    decreases n,
{
    if n > 0 {
        lemma_pow10_pos((n - 1) as nat);
    }
}

proof fn lemma_pow10_adds(a: nat, b: nat)
    ensures
        pow10(a + b) == pow10(a) * pow10(b),
    decreases a,
{
    if a > 0 {
        lemma_pow10_adds((a - 1) as nat, b);
        let p = pow10((a - 1) as nat);
        let q = pow10(b);
        assert(pow10(a + b) == 10 * pow10((a - 1 + b) as nat));
        assert(10 * (p * q) == (10 * p) * q) by (nonlinear_arith);
    } else {
        assert(pow10(a + b) == 1 * pow10(b));
    }
}

proof fn lemma_digits_bound(s: Seq<u8>)
    requires
        all_digits(s),
    ensures
        digits_value(s) < pow10(s.len()),
    decreases s.len(),
{
    if s.len() > 0 {
        let t = s.drop_last();
        assert forall|i: int| 0 <= i < t.len() implies 48 <= #[trigger] t[i] <= 57 by {
            assert(t[i] == s[i]);
        }
        lemma_digits_bound(t);
        assert(48 <= s[s.len() - 1] <= 57);
    }
}

/// Digits in two parts: the first part counts as many tens as the second has digits.
proof fn lemma_digits_split(s: Seq<u8>, k: int)
    requires
        0 <= k <= s.len(),
        all_digits(s),
    ensures
        all_digits(s.take(k)),
        all_digits(s.skip(k)),
        digits_value(s) == digits_value(s.take(k)) * pow10((s.len() - k) as nat) + digits_value(
            s.skip(k),
        ),
    decreases s.len() - k,
{
    assert forall|i: int| 0 <= i < s.take(k).len() implies 48 <= #[trigger] s.take(k)[i]
        <= 57 by {
        assert(s.take(k)[i] == s[i]);
    }
    assert forall|i: int| 0 <= i < s.skip(k).len() implies 48 <= #[trigger] s.skip(k)[i]
        <= 57 by {
        assert(s.skip(k)[i] == s[i + k]);
    }
    if k == s.len() {
        assert(s.take(k) =~= s);
        assert(s.skip(k) =~= Seq::<u8>::empty());
        assert(pow10(0) == 1);
        assert(digits_value(s) * 1 == digits_value(s));
    } else {
        let t = s.drop_last();
        assert forall|i: int| 0 <= i < t.len() implies 48 <= #[trigger] t[i] <= 57 by {
            assert(t[i] == s[i]);
        }
        lemma_digits_split(t, k);
        assert(t.take(k) =~= s.take(k));
        assert(s.skip(k).drop_last() =~= t.skip(k));
        assert(s.skip(k).last() == s.last());
        let head = digits_value(s.take(k));
        let p = pow10((t.len() - k) as nat);
        let p10 = pow10((s.len() - k) as nat);
        assert(p10 == 10 * p);
        assert(head * p10 == 10 * (head * p)) by (nonlinear_arith)
            requires
                p10 == 10 * p,
        ;
    }
}

/// A leading zero counts for nothing.
proof fn lemma_leading_zero(s: Seq<u8>)
    requires
        s.len() > 0,
        s[0] == 48,
        all_digits(s),
    ensures
        digits_value(s.skip(1)) == digits_value(s),
        all_digits(s.skip(1)),
{
    lemma_digits_split(s, 1);
    reveal_with_fuel(digits_value, 2);
    assert(s.take(1).drop_last() =~= Seq::<u8>::empty());
    assert(s.take(1).last() == 48);
    assert(digits_value(s.take(1)) == 0);
    assert(0 * pow10((s.len() - 1) as nat) == 0);
}

/// Digits that start with none but a zero are worth at least their first place.
proof fn lemma_leading_digit(s: Seq<u8>)
    requires
        s.len() > 0,
        s[0] != 48,
        all_digits(s),
    ensures
        digits_value(s) >= pow10((s.len() - 1) as nat),
{
    lemma_digits_split(s, 1);
    reveal_with_fuel(digits_value, 2);
    assert(48 <= s[0] <= 57);
    assert(s.take(1).drop_last() =~= Seq::<u8>::empty());
    assert(s.take(1).last() == s[0]);
    let d = digits_value(s.take(1));
    let p = pow10((s.len() - 1) as nat);
    assert(d >= 1);
    assert(d * p >= p) by (nonlinear_arith)
        requires
            d >= 1,
    ;
}

/// `w` and a fraction `v / d` behind it, as one number.
spec fn joined(w: nat, v: nat, d: nat) -> nat {
    w * d + v
}

proof fn lemma_joined(w: nat, v: nat, d: nat)
    requires
        v < d,
    ensures
        joined(w, v, d) / d == w,
        joined(w, v, d) % d == v,
{
    lemma_fundamental_div_mod_converse(joined(w, v, d) as int, d as int, w as int, v as int);
}

/// What a number below `2^52` comes to: it is cut, unless the fraction is so close to one
/// that rounding takes it there.
proof fn lemma_whole_small(w: nat, v: nat, d: nat)
    requires
        v < d,
        bit_length(w) <= 52,
    ensures
        ({
            let m = pow2((54 - bit_length(w)) as nat);
            let near = (v * m) / d == m - 1;
            let r = if near {
                w + 1
            } else {
                w
            };
            whole_of_double(joined(w, v, d), d) == (if r > u64::MAX {
                u64::MAX
            } else {
                r as u64
            })
        }),
{
    let k = (53 - bit_length(w)) as nat;
    let p = pow2(k);
    let m = pow2(k + 1);
    lemma_pow2_pos(k);
    lemma_pow2_unfold(k + 1);
    lemma_pow2_unfold(k);
    let half = pow2((k - 1) as nat);
    assert(m == 2 * p && p == 2 * half);
    lemma_joined(w, v, d);
    let num = joined(w, v, d);
    let g = (v * p) / d;
    let r = (v * p) % d;
    lemma_fundamental_div_mod((v * p) as int, d as int);
    assert(v * p < d * p) by (nonlinear_arith)
        requires
            v < d,
            p > 0,
    ;
    assert(g < p) by (nonlinear_arith)
        requires
            v * p < d * p,
            v * p == d * g + r,
            r >= 0,
            d > 0,
    ;
    let q0 = w * p + g;
    assert(num * p == q0 * d + r) by (nonlinear_arith)
        requires
            num == w * d + v,
            v * p == d * g + r,
            q0 == w * p + g,
    ;
    lemma_fundamental_div_mod_converse((num * p) as int, d as int, q0 as int, r as int);
    // The quotient of the doubled fraction.
    let g2 = (v * m) / d;
    let up: nat = if 2 * r >= d {
        1
    } else {
        0
    };
    let r2 = 2 * r - up * d;
    assert(v * m == (2 * g + up) * d + r2) by (nonlinear_arith)
        requires
            m == 2 * p,
            v * p == d * g + r,
            r2 == 2 * r - up * d,
    ;
    lemma_fundamental_div_mod_converse((v * m) as int, d as int, (2 * g + up) as int, r2 as int);
    assert(g2 == 2 * g + up);
    // The lowest digit of the quotient.
    if g == p - 1 {
        let h = w * half + half - 1;
        assert(q0 == 2 * h + 1) by (nonlinear_arith)
            requires
                q0 == w * p + g,
                g == p - 1,
                p == 2 * half,
                h == w * half + half - 1,
        ;
        assert(q0 % 2 == 1);
    }
    let q = round_half_even(num * p, d);
    let x = if g2 == m - 1 {
        w + 1
    } else {
        w
    };
    let rest: int = q - x * p;
    assert(0 <= rest < p) by (nonlinear_arith)
        requires
            rest == q - x * p,
            q0 == w * p + g,
            g < p,
            p >= 1,
            x == w && q == q0 || x == w && q == q0 + 1 && g < p - 1 || x == w + 1 && q == q0 + 1
                && g == p - 1,
    ;
    lemma_fundamental_div_mod_converse(q as int, p as int, x as int, rest);
}

/// What a number from `2^52` to `2^53` comes to.
proof fn lemma_whole_middle(w: nat, v: nat, d: nat)
    requires
        v < d,
        bit_length(w) == 53,
    ensures
        ({
            let r = if 2 * v > d || (2 * v == d && w % 2 == 1) {
                w + 1
            } else {
                w
            };
            whole_of_double(joined(w, v, d), d) == (if r > u64::MAX {
                u64::MAX
            } else {
                r as u64
            })
        }),
{
    vstd::arithmetic::power2::lemma2_to64();
    lemma_joined(w, v, d);
    let num = joined(w, v, d);
    let unit = pow2(0);
    assert(unit == 1);
    assert(num * unit == num) by (nonlinear_arith)
        requires
            unit == 1,
    ;
    let r = round_half_even(num * unit, d);
    assert(r / unit == r) by (nonlinear_arith)
        requires
            unit == 1,
    ;
}

/// What a number from `2^53` on comes to.
proof fn lemma_whole_large(w: nat, v: nat, d: nat)
    requires
        v < d,
        bit_length(w) > 53,
    ensures
        ({
            let u = pow2((bit_length(w) - 53) as nat);
            let q = w / u;
            let h = w % u;
            let r = if 2 * h > u || (2 * h == u && (v > 0 || q % 2 == 1)) {
                (q + 1) * u
            } else {
                q * u
            };
            whole_of_double(joined(w, v, d), d) == (if r > u64::MAX {
                u64::MAX
            } else {
                r as u64
            })
        }),
{
    let k = (bit_length(w) - 53) as nat;
    let u = pow2(k);
    lemma_pow2_pos(k);
    lemma_pow2_unfold(k);
    let half = pow2((k - 1) as nat);
    assert(u == 2 * half);
    lemma_joined(w, v, d);
    let num = joined(w, v, d);
    let q = w / u;
    let h = w % u;
    lemma_fundamental_div_mod(w as int, u as int);
    let r = h * d + v;
    let b = d * u;
    assert(num == q * b + r) by (nonlinear_arith)
        requires
            num == w * d + v,
            w == u * q + h,
            b == d * u,
            r == h * d + v,
    ;
    assert(0 <= r < b) by (nonlinear_arith)
        requires
            h < u,
            v < d,
            b == d * u,
            r == h * d + v,
            h >= 0,
            d > 0,
    ;
    assert(b > 0);
    lemma_fundamental_div_mod_converse(num as int, b as int, q as int, r as int);
    assert(2 * h > u ==> 2 * r > b) by (nonlinear_arith)
        requires
            b == d * u,
            r == h * d + v,
            d > 0,
            v >= 0,
    ;
    assert(2 * h == u ==> 2 * r == b + 2 * v) by (nonlinear_arith)
        requires
            b == d * u,
            r == h * d + v,
    ;
    assert(2 * h < u ==> 2 * r < b) by (nonlinear_arith)
        requires
            b == d * u,
            r == h * d + v,
            v < d,
            u == 2 * half,
            d > 0,
    ;
}

/// A number that is out of range comes to the largest there is.
proof fn lemma_whole_huge(num: nat, den: nat)
    requires
        den > 0,
        num / den >= 0x4_0000_0000_0000_0000,
    ensures
        whole_of_double(num, den) == u64::MAX,
{
    let w = num / den;
    let v = num % den;
    lemma_fundamental_div_mod(num as int, den as int);
    assert(w * den == den * w) by (nonlinear_arith);
    assert(joined(w, v, den) == num);
    lemma_bit_length(w);
    let k = bit_length(w);
    vstd::arithmetic::power2::lemma2_to64();
    vstd::arithmetic::power2::lemma2_to64_rest();
    if k <= 66 {
        if k < 66 {
            vstd::arithmetic::power2::lemma_pow2_strictly_increases(k, 66);
        }
        lemma_pow2_unfold(66);
        lemma_pow2_unfold(65);
        assert(false);
    }
    lemma_whole_large(w, v, den);
    let u = pow2((k - 53) as nat);
    lemma_pow2_pos((k - 53) as nat);
    let q = w / u;
    lemma_fundamental_div_mod(w as int, u as int);
    let top = pow2((k - 1) as nat);
    lemma_pow2_unfold(k);
    vstd::arithmetic::power2::lemma_pow2_adds(52, (k - 53) as nat);
    assert(top == pow2(52) * u);
    assert(q >= pow2(52)) by (nonlinear_arith)
        requires
            w == u * q + w % u,
            w % u < u,
            w >= pow2(52) * u,
            u > 0,
    ;
    assert(q * u >= top) by (nonlinear_arith)
        requires
            q >= pow2(52),
            top == pow2(52) * u,
            u > 0,
    ;
    assert((q + 1) * u >= q * u) by (nonlinear_arith)
        requires
            u > 0,
    ;
    if k > 67 {
        vstd::arithmetic::power2::lemma_pow2_strictly_increases(66, (k - 1) as nat);
    }
    lemma_pow2_unfold(66);
    lemma_pow2_unfold(65);
}

proof fn lemma_bit_length(w: nat)
    ensures
        w < pow2(bit_length(w)),
        w > 0 ==> bit_length(w) > 0 && w >= pow2((bit_length(w) - 1) as nat),
    decreases w,
{
    vstd::arithmetic::power2::lemma2_to64();
    if w > 0 {
        lemma_bit_length(w / 2);
        lemma_pow2_unfold(bit_length(w));
        if w / 2 > 0 {
            lemma_pow2_unfold((bit_length(w) - 1) as nat);
        }
    }
}

/// Doubles a fraction given by its digits. Returns what comes out in front of the point.
fn double(digits: &mut Vec<u8>) -> (carry: bool)
    requires
        all_digits(old(digits)@),
    ensures
        all_digits(final(digits)@),
        final(digits)@.len() == old(digits)@.len(),
        2 * digits_value(old(digits)@) == (if carry {
            pow10(old(digits)@.len())
        } else {
            0
        }) + digits_value(final(digits)@),
{
    let n: usize = digits.len();
    let mut i: usize = n;
    let mut carry: u8 = 0;
    let ghost before = digits@;
    assert(before.skip(n as int) =~= Seq::<u8>::empty());
    while i > 0
        invariant
            i <= n,
            n == before.len(),
            before == old(digits)@,
            digits@.len() == n,
            all_digits(before),
            all_digits(digits@),
            carry <= 1,
            digits@.take(i as int) == before.take(i as int),
            2 * digits_value(before.skip(i as int)) == carry * pow10((n - i) as nat)
                + digits_value(digits@.skip(i as int)),
        decreases i,
    {
        let ghost mid = digits@;
        let ghost c0 = carry;
        i = i - 1;
        assert(digits@.take(i + 1)[i as int] == before.take(i + 1)[i as int]);
        assert(48 <= digits@[i as int] <= 57);
        let d: u8 = 2 * (digits[i] - 48) + carry;
        let low: u8 = if d >= 10 {
            d - 10
        } else {
            d
        };
        carry = if d >= 10 {
            1
        } else {
            0
        };
        digits.set(i, 48 + low);
        proof {
            let a = before.skip(i as int);
            let b = digits@.skip(i as int);
            assert forall|j: int| 0 <= j < digits@.len() implies 48 <= #[trigger] digits@[j]
                <= 57 by {
                if j != i {
                    assert(digits@[j] == mid[j]);
                }
            }
            assert(digits@.take(i as int) =~= before.take(i as int)) by {
                assert forall|j: int| 0 <= j < i implies digits@[j] == before[j] by {
                    assert(mid.take(i + 1)[j] == before.take(i + 1)[j]);
                }
            }
            lemma_skip_digits(before, i as int);
            lemma_skip_digits(digits@, i as int);
            assert(a.skip(1) =~= before.skip(i + 1));
            assert(b.skip(1) =~= mid.skip(i + 1));
            lemma_first_digit(a);
            lemma_first_digit(b);
            let p = pow10((n - i - 1) as nat);
            let p10 = pow10((n - i) as nat);
            assert(p10 == 10 * p);
            let x = (before[i as int] - 48) as int;
            let va = digits_value(before.skip(i + 1)) as int;
            let vb = digits_value(mid.skip(i + 1)) as int;
            assert(2 * (x * p + va) == carry * p10 + (low * p + vb)) by (nonlinear_arith)
                requires
                    2 * va == c0 * p + vb,
                    2 * x + c0 == 10 * carry + low,
                    p10 == 10 * p,
            ;
        }
    }
    assert(before.skip(0) =~= before);
    assert(digits@.skip(0) =~= digits@);
    assert(1 * pow10(n as nat) == pow10(n as nat));
    carry == 1
}

proof fn lemma_skip_digits(s: Seq<u8>, i: int)
    requires
        all_digits(s),
        0 <= i <= s.len(),
    ensures
        all_digits(s.skip(i)),
{
    assert forall|j: int| 0 <= j < s.skip(i).len() implies 48 <= #[trigger] s.skip(i)[j] <= 57 by {
        assert(s.skip(i)[j] == s[i + j]);
    }
}

proof fn lemma_first_digit(s: Seq<u8>)
    requires
        s.len() > 0,
        all_digits(s),
    ensures
        digits_value(s) == (s[0] - 48) * pow10((s.len() - 1) as nat) + digits_value(s.skip(1)),
{
    lemma_digits_split(s, 1);
    reveal_with_fuel(digits_value, 2);
    assert(s.take(1).drop_last() =~= Seq::<u8>::empty());
    assert(s.take(1).last() == s[0]);
    assert(48 <= s[0]);
}

/// Whether a fraction given by its digits starts with `k` ones in binary.
fn starts_with_ones(digits: &Vec<u8>, k: u32) -> (r: bool)
    requires
        all_digits(digits@),
    ensures
        r == ((digits_value(digits@) * pow2(k as nat)) / pow10(digits@.len()) == pow2(k as nat)
            - 1),
{
    let mut rest: Vec<u8> = to_vec(digits);
    let mut i: u32 = 0;
    let ghost v = digits_value(digits@);
    let ghost d = pow10(digits@.len());
    proof {
        lemma_digits_bound(digits@);
        lemma_pow10_pos(digits@.len());
        vstd::arithmetic::power2::lemma2_to64();
        assert(v * 1 == 0 * d + v);
    }
    while i < k
        invariant
            i <= k,
            v == digits_value(digits@),
            d == pow10(digits@.len()),
            d > 0,
            rest@.len() == digits@.len(),
            all_digits(rest@),
            v * pow2(i as nat) == (pow2(i as nat) - 1) * d + digits_value(rest@),
        decreases k - i,
    {
        let ghost r0 = digits_value(rest@);
        let ghost p = pow2(i as nat);
        let carry: bool = double(&mut rest);
        proof {
            lemma_pow2_unfold((i + 1) as nat);
            lemma_digits_bound(rest@);
            let r1 = digits_value(rest@);
            let p2 = pow2((i + 1) as nat);
            assert(p2 == 2 * p);
            if carry {
                assert(v * p2 == (p2 - 1) * d + r1) by (nonlinear_arith)
                    requires
                        v * p == (p - 1) * d + r0,
                        2 * r0 == d + r1,
                        p2 == 2 * p,
                ;
            } else {
                assert(v * p2 == (p2 - 2) * d + r1) by (nonlinear_arith)
                    requires
                        v * p == (p - 1) * d + r0,
                        2 * r0 == r1,
                        p2 == 2 * p,
                ;
                let m = pow2((k - i - 1) as nat);
                lemma_pow2_pos((k - i - 1) as nat);
                lemma_pow2_adds((i + 1) as nat, (k - i - 1) as nat);
                let all = pow2(k as nat);
                assert(all == p2 * m);
                assert(v * all < (all - 1) * d) by (nonlinear_arith)
                    requires
                        v * p2 == (p2 - 2) * d + r1,
                        r1 < d,
                        all == p2 * m,
                        m >= 1,
                        d > 0,
                ;
                lemma_fundamental_div_mod((v * all) as int, d as int);
                let q = (v * all) / d;
                assert(q < all - 1) by (nonlinear_arith)
                    requires
                        v * all == d * q + (v * all) % d,
                        (v * all) % d >= 0,
                        v * all < (all - 1) * d,
                        d > 0,
                ;
            }
        }
        if !carry {
            return false;
        }
        i = i + 1;
    }
    proof {
        lemma_digits_bound(rest@);
        let all = pow2(k as nat);
        lemma_fundamental_div_mod_converse(
            (v * all) as int,
            d as int,
            all - 1,
            digits_value(rest@) as int,
        );
    }
    true
}

/// Whether all digits are zeros.
fn is_zero(digits: &Vec<u8>) -> (r: bool)
    requires
        all_digits(digits@),
    ensures
        r == (digits_value(digits@) == 0),
{
    let mut i: usize = 0;
    assert(digits@.skip(0) =~= digits@);
    while i < digits.len()
        invariant
            i <= digits@.len(),
            all_digits(digits@),
            digits_value(digits@.skip(i as int)) == digits_value(digits@),
        decreases digits@.len() - i,
    {
        let ghost s = digits@.skip(i as int);
        proof {
            lemma_skip_digits(digits@, i as int);
            assert(s[0] == digits@[i as int]);
            assert(s.skip(1) =~= digits@.skip(i + 1));
        }
        if digits[i] != 48 {
            proof {
                lemma_leading_digit(s);
                lemma_pow10_pos((s.len() - 1) as nat);
            }
            return false;
        }
        proof {
            lemma_leading_zero(s);
        }
        i = i + 1;
    }
    assert(digits@.skip(i as int) =~= Seq::<u8>::empty());
    true
}

/// How many binary digits `w` has.
fn bits_of(w: u128) -> (r: u32)
    ensures
        r == bit_length(w as nat),
        r <= 128,
    decreases w,
{
    if w == 0 {
        return 0;
    }
    let below: u32 = bits_of(w / 2);
    proof {
        lemma_bit_length(w as nat);
        let k = bit_length(w as nat);
        if k > 128 {
            if k > 129 {
                vstd::arithmetic::power2::lemma_pow2_strictly_increases(128, (k - 1) as nat);
            }
            vstd::arithmetic::power2::lemma2_to64();
            lemma_pow2_adds(64, 64);
            assert(false);
        }
    }
    below + 1
}

/// `2` to the power `k`.
fn power_of_two(k: u32) -> (r: u128)
    requires
        k < 64,
    ensures
        r == pow2(k as nat),
        r < 0x1_0000_0000_0000_0000,
{
    let mut r: u128 = 1;
    let mut i: u32 = 0;
    proof {
        vstd::arithmetic::power2::lemma2_to64();
    }
    while i < k
        invariant
            i <= k < 64,
            r == pow2(i as nat),
            r < 0x1_0000_0000_0000_0000,
        decreases k - i,
    {
        proof {
            lemma_pow2_unfold((i + 1) as nat);
            vstd::arithmetic::power2::lemma_pow2_strictly_increases((i + 1) as nat, 64);
            vstd::arithmetic::power2::lemma2_to64();
        }
        r = 2 * r;
        i = i + 1;
    }
    r
}

/// What `w`, with a fraction behind it, comes to.
fn whole(w: u128, fraction: &Vec<u8>) -> (r: u64)
    requires
        w < 100_000_000_000_000_000_000,
        all_digits(fraction@),
    ensures
        r == whole_of_double(
            joined(w as nat, digits_value(fraction@), pow10(fraction@.len())),
            pow10(fraction@.len()),
        ),
{
    let ghost v = digits_value(fraction@);
    let ghost d = pow10(fraction@.len());
    proof {
        lemma_digits_bound(fraction@);
        lemma_bit_length(w as nat);
        vstd::arithmetic::power2::lemma2_to64();
        vstd::arithmetic::power2::lemma2_to64_rest();
    }
    let bits: u32 = bits_of(w);
    if bits <= 52 {
        let near: bool = starts_with_ones(fraction, 54 - bits);
        proof {
            lemma_whole_small(w as nat, v, d);
            if bits < 52 {
                vstd::arithmetic::power2::lemma_pow2_strictly_increases(bits as nat, 52);
            }
        }
        if near {
            (w + 1) as u64
        } else {
            w as u64
        }
    } else if bits == 53 {
        let mut twice: Vec<u8> = to_vec(fraction);
        let carry: bool = double(&mut twice);
        let even: bool = is_zero(&twice);
        proof {
            lemma_whole_middle(w as nat, v, d);
            lemma_digits_bound(twice@);
        }
        if carry && (!even || w % 2 == 1) {
            (w + 1) as u64
        } else {
            w as u64
        }
    } else {
        proof {
            if bits > 67 {
                lemma_pow2_adds(64, 3);
                if bits > 68 {
                    vstd::arithmetic::power2::lemma_pow2_strictly_increases(
                        67,
                        (bits - 1) as nat,
                    );
                }
                assert(false);
            }
        }
        let u: u128 = power_of_two(bits - 53);
        proof {
            lemma_pow2_pos((bits - 53) as nat);
            lemma_fundamental_div_mod(w as int, u as int);
            lemma_whole_large(w as nat, v, d);
            let q = (w / u) as int;
            assert(q * u <= w) by (nonlinear_arith)
                requires
                    w == u * q + (w % u) as int,
                    (w % u) >= 0,
            ;
            assert((q + 1) * u == q * u + u) by (nonlinear_arith);
        }
        let q: u128 = w / u;
        let h: u128 = w % u;
        let exact: bool = is_zero(fraction);
        let r: u128 = if 2 * h > u || (2 * h == u && (!exact || q % 2 == 1)) {
            (q + 1) * u
        } else {
            q * u
        };
        if r > 0xffff_ffff_ffff_ffff {
            0xffff_ffff_ffff_ffff
        } else {
            r as u64
        }
    }
}

proof fn lemma_digit_run(s: Seq<u8>)
    ensures
        digit_run(s) <= s.len(),
        all_digits(s.take(digit_run(s) as int)),
    decreases s.len(),
{
    if s.len() > 0 && 48 <= s[0] <= 57 {
        lemma_digit_run(s.skip(1));
        let t = s.take(digit_run(s) as int);
        let u = s.skip(1).take(digit_run(s.skip(1)) as int);
        assert forall|i: int| 0 <= i < t.len() implies 48 <= #[trigger] t[i] <= 57 by {
            if i > 0 {
                assert(t[i] == u[i - 1]);
            }
        }
    }
}

/// Where the digits that start at `start` end.
fn run_end(s: &[u8], start: usize) -> (r: usize)
    requires
        start <= s@.len(),
    ensures
        start <= r <= s@.len(),
        r - start == digit_run(s@.skip(start as int)),
        all_digits(s@.subrange(start as int, r as int)),
{
    let mut i: usize = start;
    while i < s.len() && 48 <= s[i] && s[i] <= 57
        invariant
            start <= i <= s@.len(),
            (i - start) + digit_run(s@.skip(i as int)) == digit_run(s@.skip(start as int)),
        decreases s@.len() - i,
    {
        proof {
            assert(s@.skip(i as int)[0] == s@[i as int]);
            assert(s@.skip(i as int).skip(1) =~= s@.skip(i + 1));
        }
        i = i + 1;
    }
    proof {
        let t = s@.skip(start as int);
        if i < s@.len() {
            assert(s@.skip(i as int)[0] == s@[i as int]);
        }
        assert(digit_run(s@.skip(i as int)) == 0);
        lemma_digit_run(t);
        assert(t.take(i - start) =~= s@.subrange(start as int, i as int));
    }
    i
}

/// A byte in lower case.
fn lower_byte(b: u8) -> (r: u8)
    ensures
        r == lower(b),
{
    if 65 <= b && b <= 90 {
        b + 32
    } else {
        b
    }
}

/// A power of ten that no text in memory makes up for.
const FAR: i128 = 1_000_000_000_000_000_000_000_000_000_000;

/// `x`, kept within bounds.
spec fn clipped(x: int) -> int {
    if x > FAR {
        FAR as int
    } else if x < -FAR {
        -FAR
    } else {
        x
    }
}

/// Reads digits as a number, kept within bounds.
fn bounded(s: &[u8]) -> (r: i128)
    requires
        all_digits(s@),
    ensures
        r == clipped(digits_value(s@) as int),
{
    let mut v: i128 = 0;
    let mut i: usize = 0;
    while i < s.len()
        invariant
            i <= s@.len(),
            all_digits(s@),
            v == clipped(digits_value(s@.take(i as int)) as int),
        decreases s@.len() - i,
    {
        proof {
            let t = s@.take(i + 1);
            assert(t.drop_last() =~= s@.take(i as int));
            assert(t.last() == s@[i as int]);
        }
        let next: i128 = 10 * v + (s[i] - 48) as i128;
        v = if next > FAR {
            FAR
        } else {
            next
        };
        i = i + 1;
    }
    assert(s@.take(i as int) =~= s@);
    v
}

/// Reads the power behind the digits of a number, kept within bounds.
fn exponent(s: &[u8]) -> (r: Option<i128>)
    ensures
        match exponent_of(s@) {
            Some(x) => r matches Some(e) && e == clipped(x),
            None => r is None,
        },
{
    if s.len() == 0 {
        return Some(0);
    }
    if lower_byte(s[0]) != 101 {
        return None;
    }
    let ghost t = s@.skip(1);
    let signed: bool = s.len() > 1 && (s[1] == 43 || s[1] == 45);
    let negative: bool = s.len() > 1 && s[1] == 45;
    let start: usize = if signed {
        2
    } else {
        1
    };
    proof {
        if s@.len() > 1 {
            assert(t[0] == s@[1]);
        }
        assert(without_sign(t) =~= s@.skip(start as int));
        assert(s@.subrange(start as int, s@.len() as int) =~= s@.skip(start as int));
    }
    let end: usize = run_end(s, start);
    if end != s.len() {
        proof {
            lemma_run_is_all(s@.skip(start as int));
        }
        return None;
    }
    if end == start {
        return None;
    }
    let v: i128 = bounded(slice_subrange(s, start, end));
    Some(
        if negative {
            -v
        } else {
            v
        },
    )
}

/// Digits only are one run.
proof fn lemma_run_is_all(s: Seq<u8>)
    ensures
        all_digits(s) ==> digit_run(s) == s.len(),
    decreases s.len(),
{
    if s.len() > 0 && all_digits(s) {
        lemma_skip_digits(s, 1);
        lemma_run_is_all(s.skip(1));
    }
}

/// The digits from the first that is no zero on.
fn significant(digits: &Vec<u8>) -> (r: Vec<u8>)
    requires
        all_digits(digits@),
    ensures
        all_digits(r@),
        digits_value(r@) == digits_value(digits@),
        r@.len() <= digits@.len(),
        r@.len() > 0 ==> r@[0] != 48,
{
    let mut i: usize = 0;
    assert(digits@.skip(0) =~= digits@);
    while i < digits.len() && digits[i] == 48
        invariant
            i <= digits@.len(),
            all_digits(digits@),
            digits_value(digits@.skip(i as int)) == digits_value(digits@),
        decreases digits@.len() - i,
    {
        proof {
            lemma_skip_digits(digits@, i as int);
            assert(digits@.skip(i as int).skip(1) =~= digits@.skip(i + 1));
            lemma_leading_zero(digits@.skip(i as int));
        }
        i = i + 1;
    }
    proof {
        lemma_skip_digits(digits@, i as int);
        assert(digits@.skip(i as int) =~= digits@.subrange(i as int, digits@.len() as int));
    }
    to_vec(slice_subrange(digits.as_slice(), i, digits.len()))
}

proof fn lemma_pow10_increases(a: nat, b: nat)
    requires
        a <= b,
    ensures
        pow10(a) <= pow10(b),
    decreases b,
{
    if a < b {
        lemma_pow10_increases(a, (b - 1) as nat);
    }
}

/// Ten to no power changes nothing.
proof fn lemma_pow10_none(n: nat)
    ensures
        n * pow10(0) == n,
{
    let p = pow10(0);
    assert(p == 1);
    assert(n * p == n) by (nonlinear_arith)
        requires
            p == 1,
    ;
}

/// Nothing, whatever its power, comes to nothing.
proof fn lemma_whole_zero(exp: int)
    ensures
        whole_times(0, exp) == 0,
{
    let den = if exp >= 0 {
        1
    } else {
        pow10((-exp) as nat)
    };
    if exp < 0 {
        lemma_pow10_pos((-exp) as nat);
    }
    assert(0 * pow10(exp as nat) == 0) by (nonlinear_arith);
    assert(joined(0, 0, den) == 0);
    vstd::arithmetic::power2::lemma2_to64_rest();
    let m = pow2(54);
    assert((0 * m) / den == 0) by (nonlinear_arith)
        requires
            den > 0,
    ;
    lemma_whole_small(0, 0, den);
}

/// A number with more than twenty digits before the point is out of range.
proof fn lemma_whole_above(d: Seq<u8>, exp: int)
    requires
        d.len() > 0,
        d[0] != 48,
        all_digits(d),
        d.len() + exp > 20,
    ensures
        whole_times(digits_value(d), exp) == u64::MAX,
{
    let n = digits_value(d);
    lemma_leading_digit(d);
    let top = pow10((d.len() - 1) as nat);
    lemma_pow10_increases(20, (d.len() + exp - 1) as nat);
    reveal_with_fuel(pow10, 21);
    assert(pow10(20) == 100_000_000_000_000_000_000);
    if exp >= 0 {
        let p = pow10(exp as nat);
        lemma_pow10_adds((d.len() - 1) as nat, exp as nat);
        assert(n * p >= top * p) by (nonlinear_arith)
            requires
                n >= top,
        ;
        assert((n * p) / 1 == n * p);
        lemma_whole_huge(n * p, 1);
    } else {
        let den = pow10((-exp) as nat);
        let lead = pow10((d.len() + exp - 1) as nat);
        lemma_pow10_pos((-exp) as nat);
        lemma_pow10_adds((d.len() + exp - 1) as nat, (-exp) as nat);
        assert(top == lead * den);
        let q = n / den;
        lemma_fundamental_div_mod(n as int, den as int);
        assert(q >= lead) by (nonlinear_arith)
            requires
                n == den * q + n % den,
                n % den < den,
                n >= lead * den,
                den > 0,
        ;
        lemma_whole_huge(n, den);
    }
}

/// A number that starts behind the first place after the point comes to nothing.
proof fn lemma_whole_below(d: Seq<u8>, exp: int)
    requires
        all_digits(d),
        d.len() + exp < 0,
    ensures
        whole_times(digits_value(d), exp) == 0,
{
    let n = digits_value(d);
    lemma_digits_bound(d);
    let len = d.len();
    let den = pow10((-exp) as nat);
    let gap = (-exp - len) as nat;
    lemma_pow10_adds(len, gap);
    lemma_pow10_increases(1, gap);
    reveal_with_fuel(pow10, 2);
    let p = pow10(len);
    let g = pow10(gap);
    assert(den == p * g);
    assert(den > 10 * n) by (nonlinear_arith)
        requires
            den == p * g,
            g >= 10,
            n < p,
    ;
    vstd::arithmetic::power2::lemma2_to64_rest();
    let m = pow2(54);
    assert(m >= 2);
    assert((n * m) / den < m - 1) by {
        let q = (n * m) / den;
        lemma_fundamental_div_mod((n * m) as int, den as int);
        assert(q < m - 1) by (nonlinear_arith)
            requires
                n * m == den * q + (n * m) % den,
                (n * m) % den >= 0,
                den > 10 * n,
                m >= 2,
                n >= 0,
                q >= 0,
        ;
    }
    assert(joined(0, n, den) == n);
    lemma_whole_small(0, n, den);
}

/// What digits come to when the point stands behind the first `point` of them.
fn scaled(d: &Vec<u8>, point: usize) -> (r: u64)
    requires
        all_digits(d@),
        point <= 20,
    ensures
        r == whole_times(digits_value(d@), point - d@.len()),
{
    let mut w: u128 = 0;
    let mut j: usize = 0;
    let ghost n = digits_value(d@);
    let ghost len = d@.len();
    proof {
        lemma_digits_bound(d@);
        reveal_with_fuel(pow10, 21);
        assert(pow10(20) == 100_000_000_000_000_000_000);
        lemma_pow10_none(n);
    }
    while j < point
        invariant
            j <= point <= 20,
            all_digits(d@),
            n == digits_value(d@),
            len == d@.len(),
            pow10(20) == 100_000_000_000_000_000_000,
            w < pow10(j as nat),
            j <= len ==> w == digits_value(d@.take(j as int)),
            j >= len ==> w == n * pow10((j - len) as nat),
        decreases point - j,
    {
        proof {
            lemma_pow10_increases((j + 1) as nat, 20);
            assert(pow10((j + 1) as nat) == 10 * pow10(j as nat));
            if j < len {
                let t = d@.take(j + 1);
                assert(t.drop_last() =~= d@.take(j as int));
                assert(t.last() == d@[j as int]);
                assert(48 <= d@[j as int] <= 57);
                if j + 1 == len {
                    assert(t =~= d@);
                    lemma_pow10_none(n);
                }
            } else {
                let p = pow10((j - len) as nat);
                let p10 = pow10((j + 1 - len) as nat);
                assert(p10 == 10 * p);
                assert(n * p10 == 10 * (n * p)) by (nonlinear_arith)
                    requires
                        p10 == 10 * p,
                ;
            }
        }
        let digit: u128 = if j < d.len() {
            (d[j] - 48) as u128
        } else {
            0
        };
        w = 10 * w + digit;
        j = j + 1;
    }
    proof {
        lemma_pow10_increases(point as nat, 20);
    }
    if point >= d.len() {
        let none: Vec<u8> = Vec::new();
        assert(joined(w as nat, 0, 1) == w);
        whole(w, &none)
    } else {
        let rest: &[u8] = slice_subrange(d.as_slice(), point, d.len());
        proof {
            lemma_digits_split(d@, point as int);
            assert(rest@ =~= d@.skip(point as int));
        }
        let fraction: Vec<u8> = to_vec(rest);
        whole(w, &fraction)
    }
}

/// Reads a number without a sign.
fn number(s: &[u8]) -> (r: Option<u64>)
    ensures
        match scientific_of(s@) {
            Some(x) => r == Some(whole_of(x)),
            None => r is None,
        },
{
    let a: usize = run_end(s, 0);
    assert(s@.skip(0) =~= s@);
    let point: bool = a < s.len() && s[a] == 46;
    let f: usize = if point {
        a + 1
    } else {
        a
    };
    let b: usize = if point {
        run_end(s, f)
    } else {
        a
    };
    let mut digits: Vec<u8> = to_vec(slice_subrange(s, 0, a));
    push_all(&mut digits, slice_subrange(s, f, b));
    let tail: &[u8] = slice_subrange(s, b, s.len());
    proof {
        assert(whole_len(s@) == a);
        assert(s@.take(a as int) =~= s@.subrange(0, a as int));
        if point {
            assert(fraction_of(s@) =~= s@.subrange(f as int, b as int));
        } else {
            assert(fraction_of(s@) =~= s@.subrange(f as int, b as int));
        }
        assert(mantissa_len(s@) == b);
        assert(tail@ =~= s@.skip(b as int));
        assert(digits@ =~= s@.take(a as int) + fraction_of(s@));
        assert(all_digits(digits@)) by {
            assert forall|i: int| 0 <= i < digits@.len() implies 48 <= #[trigger] digits@[i]
                <= 57 by {
                if i < a {
                    assert(digits@[i] == s@.subrange(0, a as int)[i]);
                } else {
                    assert(digits@[i] == s@.subrange(f as int, b as int)[i - a]);
                }
            }
        }
    }
    let e: i128 = match exponent(tail) {
        Some(e) => e,
        None => {
            return None;
        },
    };
    if digits.len() == 0 {
        return None;
    }
    let d: Vec<u8> = significant(&digits);
    let ghost x = scientific_of(s@)->0;
    if d.len() == 0 {
        proof {
            lemma_whole_zero(x.exp);
        }
        return Some(0);
    }
    let k: i128 = d.len() as i128 + e - (b - f) as i128;
    if k > 20 {
        proof {
            lemma_whole_above(d@, x.exp);
        }
        return Some(0xffff_ffff_ffff_ffff);
    }
    if k < 0 {
        proof {
            lemma_whole_below(d@, x.exp);
        }
        return Some(0);
    }
    Some(scaled(&d, k as usize))
}

/// Whether a text is `inf`, whatever its case.
fn is_inf(s: &[u8]) -> (r: bool)
    ensures
        r == is_word(s@, word_inf()),
{
    s.len() == 3 && lower_byte(s[0]) == 105 && lower_byte(s[1]) == 110 && lower_byte(s[2]) == 102
}

/// Whether a text is `infinity`, whatever its case.
fn is_infinity(s: &[u8]) -> (r: bool)
    ensures
        r == is_word(s@, word_infinity()),
{
    s.len() == 8 && lower_byte(s[0]) == 105 && lower_byte(s[1]) == 110 && lower_byte(s[2]) == 102
        && lower_byte(s[3]) == 105 && lower_byte(s[4]) == 110 && lower_byte(s[5]) == 105
        && lower_byte(s[6]) == 116 && lower_byte(s[7]) == 121
}

/// Whether a text is `nan`, whatever its case.
fn is_nan(s: &[u8]) -> (r: bool)
    ensures
        r == is_word(s@, word_nan()),
{
    s.len() == 3 && lower_byte(s[0]) == 110 && lower_byte(s[1]) == 97 && lower_byte(s[2]) == 110
}

/// Reads a price: a whole number of 64 bits as it stands, any other number cut to a
/// whole one. What is below zero comes to zero, and what is too large to the largest.
pub fn parse_price(s: &[u8]) -> (r: Option<u64>)
    ensures
        r == price_value(s@),
{
    if let Some(v) = parse_u64(s) {
        return Some(v);
    }
    reveal(real_value);
    let negative: bool = s.len() > 0 && s[0] == 45;
    let start: usize = if s.len() > 0 && (s[0] == 43 || s[0] == 45) {
        1
    } else {
        0
    };
    let t: &[u8] = slice_subrange(s, start, s.len());
    assert(t@ =~= without_sign(s@));
    if is_nan(t) {
        return Some(0);
    }
    if is_inf(t) || is_infinity(t) {
        return Some(
            if negative {
                0
            } else {
                0xffff_ffff_ffff_ffff
            },
        );
    }
    match number(t) {
        Some(v) => Some(
            if negative {
                0
            } else {
                v
            },
        ),
        None => None,
    }
}

/// A whole number of 64 bits is taken as it is.
pub proof fn lemma_whole_price_stands(v: u64)
    ensures
        price_value(decimal(v as nat)) == Some(v),
{
    lemma_decimal_round_trip(v);
}

/// A price with a point in it.
pub open spec fn pointed(w: nat, fraction: Seq<u8>) -> Seq<u8> {
    decimal(w) + seq![46u8] + fraction
}

/// Digits, and behind them what is no digit, start with a run of just those digits.
proof fn lemma_run_ends(d: Seq<u8>, rest: Seq<u8>)
    requires
        all_digits(d),
        rest.len() == 0 || !(48 <= rest[0] <= 57),
    ensures
        digit_run(d + rest) == d.len(),
    decreases d.len(),
{
    let s = d + rest;
    if d.len() > 0 {
        assert(s[0] == d[0]);
        lemma_skip_digits(d, 1);
        lemma_run_ends(d.skip(1), rest);
        assert(s.skip(1) =~= d.skip(1) + rest);
    } else {
        assert(s =~= rest);
    }
}

/// A price with a point in it is read as the two numbers before and behind the point.
proof fn lemma_pointed(w: nat, fraction: Seq<u8>)
    requires
        all_digits(fraction),
    ensures
        price_value(pointed(w, fraction)) == Some(
            whole_of_double(
                joined(w, digits_value(fraction), pow10(fraction.len())),
                pow10(fraction.len()),
            ),
        ),
{
    reveal(real_value);
    let s = pointed(w, fraction);
    let d = decimal(w);
    let behind = seq![46u8] + fraction;
    let n = d.len();
    lemma_decimal_digits(w);
    assert(s =~= d + behind);
    assert(s[0] == d[0]);
    assert(s[n as int] == 46);
    assert(unsigned(s) is None) by {
        let digits = unsigned_digits(s);
        assert(digits =~= s);
        assert(digits[n as int] == 46);
    }
    assert(without_sign(s) =~= s);
    assert(lower(s[0]) == s[0]);
    assert(!is_word(s, word_nan()) && !is_word(s, word_inf()) && !is_word(s, word_infinity()));
    lemma_run_ends(d, behind);
    assert(whole_len(s) == n);
    assert(s.skip(n as int + 1) =~= fraction);
    lemma_run_ends(fraction, Seq::empty());
    assert(fraction + Seq::<u8>::empty() =~= fraction);
    assert(fraction.take(fraction.len() as int) =~= fraction);
    assert(fraction_of(s) == fraction);
    assert(mantissa_len(s) == s.len());
    assert(s.skip(s.len() as int) =~= Seq::empty());
    let digits = s.take(n as int) + fraction;
    assert(s.take(n as int) =~= d);
    assert(all_digits(digits)) by {
        assert forall|i: int| 0 <= i < digits.len() implies 48 <= #[trigger] digits[i] <= 57 by {
            if i < n {
                assert(digits[i] == d[i]);
            } else {
                assert(digits[i] == fraction[i - n]);
            }
        }
    }
    lemma_digits_split(digits, n as int);
    assert(digits.take(n as int) =~= d);
    assert(digits.skip(n as int) =~= fraction);
    if fraction.len() == 0 {
        lemma_pow10_none(digits_value(digits));
    }
}

/// A price with a point in it comes to what stands before the point, as long as that is
/// below `2^50` and what stands behind it does not start with a nine.
pub proof fn lemma_fraction_is_cut(w: nat, fraction: Seq<u8>)
    requires
        w < 0x4_0000_0000_0000,
        all_digits(fraction),
        fraction.len() > 0 ==> fraction[0] != 57,
    ensures
        price_value(pointed(w, fraction)) == Some(w as u64),
{
    let v = digits_value(fraction);
    let d = pow10(fraction.len());
    lemma_pointed(w, fraction);
    lemma_digits_bound(fraction);
    lemma_bit_length(w);
    vstd::arithmetic::power2::lemma2_to64_rest();
    let bits = bit_length(w);
    if bits > 50 {
        if bits > 51 {
            vstd::arithmetic::power2::lemma_pow2_strictly_increases(50, (bits - 1) as nat);
        }
        assert(false);
    }
    let m = pow2((54 - bits) as nat);
    lemma_pow2_adds(4, (50 - bits) as nat);
    vstd::arithmetic::power2::lemma2_to64();
    lemma_pow2_pos((50 - bits) as nat);
    assert(m >= 16);
    assert(10 * v < 9 * d) by {
        if fraction.len() > 0 {
            lemma_first_digit(fraction);
            lemma_skip_digits(fraction, 1);
            lemma_digits_bound(fraction.skip(1));
            let p = pow10((fraction.len() - 1) as nat);
            let x = fraction[0] - 48;
            assert(d == 10 * p);
            assert(x * p <= 8 * p) by (nonlinear_arith)
                requires
                    x <= 8,
                    p >= 0,
            ;
        }
    }
    let q = (v * m) / d;
    lemma_fundamental_div_mod((v * m) as int, d as int);
    assert(q < m - 1) by (nonlinear_arith)
        requires
            v * m == d * q + (v * m) % d,
            (v * m) % d >= 0,
            10 * v < 9 * d,
            m >= 16,
            q >= 0,
            d > 0,
    ;
    lemma_whole_small(w, v, d);
}

/// A price below zero comes to nothing.
pub proof fn lemma_price_below_zero_is_nothing(v: nat)
    ensures
        price_value(seq![45u8] + decimal(v)) == Some(0u64),
{
    reveal(real_value);
    let d = decimal(v);
    let s = seq![45u8] + d;
    lemma_decimal_digits(v);
    assert(s[0] == 45);
    assert(unsigned_digits(s) =~= s);
    assert(unsigned(s) is None);
    assert(without_sign(s) =~= d);
    assert(48 <= d[0] <= 57);
    assert(lower(d[0]) == d[0]);
    assert(!is_word(d, word_nan()) && !is_word(d, word_inf()) && !is_word(d, word_infinity()));
    lemma_run_ends(d, Seq::empty());
    assert(d + Seq::<u8>::empty() =~= d);
    assert(whole_len(d) == d.len());
    assert(fraction_of(d) =~= Seq::empty());
    assert(d.skip(d.len() as int) =~= Seq::empty());
    assert(d.take(d.len() as int) + Seq::<u8>::empty() =~= d);
}

} // verus!
