//! The integer side of the precision tools: the continued-fraction
//! convergents behind `to_fraction` (each partial quotient, read off the
//! value in floating point, advances the convergents or settles the answer
//! against a largest denominator) and mixed-number text such as `-1 1/3`.
use crate::text::{
    append_chars, chars_of, digits_of, digits_vec, signed_decimal, signed_decimal_vec,
    string_from_chars,
};
use vstd::prelude::*;

verus! {

// ===== Mixed numbers =====

pub open spec fn abs_int(n: int) -> int {
    if n < 0 {
        -n
    } else {
        n
    }
}

/// `num/den` as a mixed number: the whole part alone when nothing is left
/// over, `whole rem/den` when there is a whole part, `num/den` otherwise; a
/// `-` in front of negative values.
pub open spec fn mixed_text(num: int, den: int) -> Seq<char> {
    let a = abs_int(num);
    let whole = a / den;
    let rem = a % den;
    let sign = if num < 0 {
        seq!['-']
    } else {
        Seq::<char>::empty()
    };
    if rem == 0 {
        sign + digits_of(whole as nat, 10)
    } else if whole > 0 {
        sign + digits_of(whole as nat, 10) + seq![' '] + digits_of(rem as nat, 10) + seq!['/']
            + digits_of(den as nat, 10)
    } else {
        sign + digits_of(a as nat, 10) + seq!['/'] + digits_of(den as nat, 10)
    }
}

/// Writes `num/den` (with `den > 0`) as a mixed number.
pub fn format_mixed(num: i64, den: i64) -> (r: String)
    requires
        den > 0,
        num != i64::MIN,
    ensures
        r@ == mixed_text(num as int, den as int),
{
    let a: i64 = if num < 0 {
        -num
    } else {
        num
    };
    let whole = a / den;
    let rem = a % den;
    let mut v: Vec<char> = Vec::new();
    if num < 0 {
        v.push('-');
    }
    if rem == 0 {
        append_chars(&mut v, &digits_vec(whole as u64, 10));
    } else if whole > 0 {
        append_chars(&mut v, &digits_vec(whole as u64, 10));
        v.push(' ');
        append_chars(&mut v, &digits_vec(rem as u64, 10));
        v.push('/');
        append_chars(&mut v, &digits_vec(den as u64, 10));
    } else {
        append_chars(&mut v, &digits_vec(a as u64, 10));
        v.push('/');
        append_chars(&mut v, &digits_vec(den as u64, 10));
    }
    assert(v@ =~= mixed_text(num as int, den as int));
    string_from_chars(&v)
}

// ===== Continued-fraction convergents =====

/// The last two convergents `h/k` of a continued fraction (the earlier one
/// first); they start as 0/1 and 1/0.
#[derive(PartialEq, Eq, Structural, Clone, Copy, Debug)]
pub struct Convergents {
    pub h_prev2: i64,
    pub h_prev1: i64,
    pub k_prev2: i64,
    pub k_prev1: i64,
}

impl Convergents {
    pub open spec fn valid(self) -> bool {
        self.h_prev2 >= 0 && self.h_prev1 >= 0 && self.k_prev2 >= 0 && self.k_prev1 >= 0
    }

    /// The convergents before the first partial quotient.
    pub fn start() -> (c: Convergents)
        ensures
            c == (Convergents { h_prev2: 0, h_prev1: 1, k_prev2: 1, k_prev1: 0 }),
            c.valid(),
    {
        Convergents { h_prev2: 0, h_prev1: 1, k_prev2: 1, k_prev1: 0 }
    }
}

/// What the next partial quotient does, without the text of a settled answer.
pub enum CfMove {
    /// The partial quotient is taken in.
    Advance(Convergents),
    /// The expansion stops; `true` when the answer is no longer exact.
    Halt(bool),
    /// The best fraction within the largest denominator, as numerator and
    /// denominator before the sign.
    Settle(int, int),
}

/// Taking in the partial quotient `a`: stop (inexact) where the next
/// convergent `h = a*h1 + h2`, `k = a*k1 + k2` leaves `i64`. Past the largest
/// denominator `max`, stop where there is no earlier convergent; else settle
/// on the closer of the last convergent `h1/k1` and the semiconvergent
/// `(t*h1 + h2) / (t*k1 + k2)` with the largest `t = (max - k2) / k1`
/// (truncated) that fits: the semiconvergent when `t >= 1` and `2t > a`, or
/// `2t == a` and `tail_below` (the fractional part of the complete quotient,
/// times `k1`, is below `k2`). A non-positive denominator stops (inexact).
pub open spec fn cf_move(c: Convergents, a: int, max_den: Option<i64>, tail_below: bool) -> CfMove {
    let (h2, h1, k2, k1) = (
        c.h_prev2 as int,
        c.h_prev1 as int,
        c.k_prev2 as int,
        c.k_prev1 as int,
    );
    let h = a * h1 + h2;
    let k = a * k1 + k2;
    if h > i64::MAX || k > i64::MAX {
        CfMove::Halt(true)
    } else {
        match max_den {
            Some(m) if k > m => if k1 == 0 {
                CfMove::Halt(false)
            } else {
                let t = trunc_div(m - k2, k1);
                if t >= 1 && (2 * t > a || (2 * t == a && tail_below)) {
                    CfMove::Settle(t * h1 + h2, t * k1 + k2)
                } else {
                    CfMove::Settle(h1, k1)
                }
            },
            _ => if h < 0 || k <= 0 {
                CfMove::Halt(true)
            } else {
                CfMove::Advance(
                    Convergents {
                        h_prev2: h1 as i64,
                        h_prev1: h as i64,
                        k_prev2: k1 as i64,
                        k_prev1: k as i64,
                    },
                )
            },
        }
    }
}

/// Division truncated toward zero, for `b > 0`.
pub open spec fn trunc_div(a: int, b: int) -> int {
    if a >= 0 {
        a / b
    } else {
        -((-a) / b)
    }
}

/// The outcome of one partial quotient.
#[derive(Debug)]
pub enum CfStep {
    Advance(Convergents),
    Halt { inexact: bool },
    /// The answer: signed numerator, denominator and mixed-number text.
    Settle { num: i64, den: i64, mixed: String },
}

/// Takes in the partial quotient `a` (at least 0) of a value with sign `sign`;
/// `tail_below` tells whether the fractional part of the complete quotient,
/// times `k_prev1`, lies below `k_prev2`.
pub fn cf_step(c: &Convergents, a: i64, max_den: Option<i64>, sign: i64, tail_below: bool) -> (r:
    CfStep)
    requires
        c.valid(),
        a >= 0,
        sign == 1 || sign == -1,
    ensures
        match cf_move(*c, a as int, max_den, tail_below) {
            CfMove::Advance(n) => r matches CfStep::Advance(m) && m == n && n.valid(),
            CfMove::Halt(b) => r matches CfStep::Halt { inexact } && inexact == b,
            CfMove::Settle(h, k) => r matches CfStep::Settle { num, den, mixed } && num == sign
                * h && den == k && k > 0 && mixed@ == mixed_text(sign * h, k),
        },
{
    let h2 = c.h_prev2 as i128;
    let h1 = c.h_prev1 as i128;
    let k2 = c.k_prev2 as i128;
    let k1 = c.k_prev1 as i128;
    let aw = a as i128;
    assert(0 <= aw * h1 <= 0x7fff_ffff_ffff_ffff * 0x7fff_ffff_ffff_ffff) by (nonlinear_arith)
        requires
            0 <= aw <= 0x7fff_ffff_ffff_ffff,
            0 <= h1 <= 0x7fff_ffff_ffff_ffff,
    ;
    assert(0 <= aw * k1 <= 0x7fff_ffff_ffff_ffff * 0x7fff_ffff_ffff_ffff) by (nonlinear_arith)
        requires
            0 <= aw <= 0x7fff_ffff_ffff_ffff,
            0 <= k1 <= 0x7fff_ffff_ffff_ffff,
    ;
    let h = aw * h1 + h2;
    let k = aw * k1 + k2;
    if h > i64::MAX as i128 || k > i64::MAX as i128 {
        return CfStep::Halt { inexact: true };
    }
    if let Some(m) = max_den {
        if k > m as i128 {
            if k1 == 0 {
                return CfStep::Halt { inexact: false };
            }
            let diff = m as i128 - k2;
            let t: i128 = if diff >= 0 {
                diff / k1
            } else {
                0
            };
            proof {
                if diff < 0 {
                    assert((-diff) / (k1 as int) >= 0) by (nonlinear_arith)
                        requires
                            -diff > 0,
                            k1 > 0,
                    ;
                }
            }
            if t >= 1 && (2 * t > aw || (2 * t == aw && tail_below)) {
                proof {
                    // t < a, so the semiconvergent stays below h and k
                    assert(t * k1 <= diff) by (nonlinear_arith)
                        requires
                            diff >= 0,
                            k1 > 0,
                            t == diff / k1,
                    ;
                    assert(t * h1 <= aw * h1 && t * k1 <= aw * k1) by (nonlinear_arith)
                        requires
                            t * k1 <= diff,
                            diff < aw * k1,
                            k1 > 0,
                            h1 >= 0,
                            t >= 1,
                    ;
                    assert(t * k1 + k2 >= k1) by (nonlinear_arith)
                        requires
                            t >= 1,
                            k1 > 0,
                            k2 >= 0,
                    ;
                    assert(t * h1 >= 0) by (nonlinear_arith)
                        requires
                            t >= 1,
                            h1 >= 0,
                    ;
                }
                let hs = (t * h1 + h2) as i64;
                let ks = (t * k1 + k2) as i64;
                let num = sign * hs;
                return CfStep::Settle { num, den: ks, mixed: format_mixed(num, ks) };
            } else {
                let num = sign * c.h_prev1;
                return CfStep::Settle { num, den: c.k_prev1, mixed: format_mixed(num, c.k_prev1) };
            }
        }
    }
    if h < 0 || k <= 0 {
        return CfStep::Halt { inexact: true };
    }
    CfStep::Advance(
        Convergents {
            h_prev2: c.h_prev1,
            h_prev1: h as i64,
            k_prev2: c.k_prev1,
            k_prev1: k as i64,
        },
    )
}

pub open spec fn zero_denominator_message() -> Seq<char> {
    "Failed to compute fraction (denominator is zero)"@
}

/// The fraction the expansion ended on: `sign * h1 / k1` with its mixed-number
/// text and whether it is exact, or an error when no convergent was formed.
pub fn finish_fraction(c: &Convergents, sign: i64, exact: bool) -> (r: Result<
    (i64, i64, String, bool),
    String,
>)
    requires
        c.valid(),
        sign == 1 || sign == -1,
    ensures
        c.k_prev1 == 0 ==> (r matches Err(e) && e@ == zero_denominator_message()),
        c.k_prev1 != 0 ==> (r matches Ok((num, den, mixed, ex)) && num == sign * c.h_prev1 && den
            == c.k_prev1 && mixed@ == mixed_text(sign * c.h_prev1, c.k_prev1 as int) && ex
            == exact),
{
    let num = sign * c.h_prev1;
    let den = c.k_prev1;
    if den == 0 {
        return Err("Failed to compute fraction (denominator is zero)".to_owned());
    }
    Ok((num, den, format_mixed(num, den), exact))
}

// ===== Significant figures =====

pub open spec fn sig_figs_message(n: int) -> Seq<char> {
    "sig_figs must be 1..=17, got "@ + signed_decimal(n)
}

/// The number of significant figures asked for: 1 to 17, 6 when none is named.
pub fn sig_figs_precision(sig_figs: Option<i64>) -> (r: Result<usize, String>)
    ensures
        match sig_figs {
            None => r == Ok::<usize, String>(6),
            Some(n) => if 1 <= n <= 17 {
                r == Ok::<usize, String>(n as usize)
            } else {
                r matches Err(m) && m@ == sig_figs_message(n as int)
            },
        },
{
    match sig_figs {
        None => Ok(6),
        Some(n) => {
            if 1 <= n && n <= 17 {
                Ok(n as usize)
            } else {
                let mut v = chars_of("sig_figs must be 1..=17, got ");
                append_chars(&mut v, &signed_decimal_vec(n));
                Err(string_from_chars(&v))
            }
        },
    }
}

/// Zero in scientific notation with `prec` significant figures: `0.` and
/// `prec - 1` zeros (none when `prec` is 0), then `e0`.
pub open spec fn zero_notation_text(prec: nat) -> Seq<char> {
    let zeros: nat = if prec == 0 {
        0
    } else {
        (prec - 1) as nat
    };
    "0."@ + Seq::new(zeros, |i: int| '0') + "e0"@
}

/// Writes zero in scientific notation.
pub fn zero_notation(prec: usize) -> (r: String)
    ensures
        r@ == zero_notation_text(prec as nat),
{
    let zeros: usize = if prec == 0 {
        0
    } else {
        prec - 1
    };
    let mut v = chars_of("0.");
    let ghost start = v@;
    let mut i: usize = 0;
    while i < zeros
        invariant
            i <= zeros,
            v@ == start + Seq::new(i as nat, |j: int| '0'),
        decreases zeros - i,
    {
        v.push('0');
        i = i + 1;
        assert(v@ =~= start + Seq::new(i as nat, |j: int| '0'));
    }
    append_chars(&mut v, &chars_of("e0"));
    string_from_chars(&v)
}

/// The rounding mode when a request names none.
pub fn default_round_mode() -> (r: String)
    ensures
        r@ == "half_up"@,
{
    "half_up".to_owned()
}

// ===== Laws =====

/// The mixed-number text reads back as the fraction: for any whole part `w`
/// and remainder `r` of `|num|` by `den` (`w*den + r == |num|`, `r < den`),
/// it is a `-` for negative values, then `w` alone when `r` is 0, `w r/den`
/// when `w` is positive, and `r/den` otherwise.
pub proof fn law_mixed_reads_back(num: int, den: int, w: nat, r: nat)
    requires
        den > 0,
        w * den + r == abs_int(num),
        r < den,
    ensures
        mixed_text(num, den) == (if num < 0 {
            seq!['-']
        } else {
            Seq::<char>::empty()
        }) + if r == 0 {
            digits_of(w, 10)
        } else if w > 0 {
            digits_of(w, 10) + seq![' '] + digits_of(r, 10) + seq!['/'] + digits_of(den as nat, 10)
        } else {
            digits_of(r, 10) + seq!['/'] + digits_of(den as nat, 10)
        },
{
    vstd::arithmetic::div_mod::lemma_fundamental_div_mod_converse(abs_int(num), den, w as int, r as int);
    if r != 0 && w == 0 {
        assert(abs_int(num) == r);
    }
}

/// The cross difference `h1*k2 - h2*k1` of the last two convergents.
pub open spec fn cross_difference(c: Convergents) -> int {
    c.h_prev1 * c.k_prev2 - c.h_prev2 * c.k_prev1
}

/// `h*x + k*y`: some such combination equal to 1 shows `h/k` in lowest terms.
pub open spec fn combination(h: int, k: int, x: int, y: int) -> int {
    h * x + k * y
}

pub open spec fn lowest_terms(h: int, k: int) -> bool {
    exists|x: int, y: int| #[trigger] combination(h, k, x, y) == 1
}

/// The convergents start one unit apart crosswise.
pub proof fn law_start_cross_difference()
    ensures
        cross_difference(Convergents { h_prev2: 0, h_prev1: 1, k_prev2: 1, k_prev1: 0 }) == 1,
{
}

/// Each partial quotient taken in flips the sign of the cross difference and
/// keeps it at 1 or -1, so every convergent, and every fraction the expansion
/// settles on, is in lowest terms.
pub proof fn law_convergents_in_lowest_terms(
    c: Convergents,
    a: int,
    max_den: Option<i64>,
    tail_below: bool,
)
    requires
        c.valid(),
        a >= 0,
        cross_difference(c) == 1 || cross_difference(c) == -1,
    ensures
        cf_move(c, a, max_den, tail_below) matches CfMove::Advance(n) ==> cross_difference(n)
            == -cross_difference(c) && lowest_terms(n.h_prev1 as int, n.k_prev1 as int),
        cf_move(c, a, max_den, tail_below) matches CfMove::Settle(h, k) ==> lowest_terms(h, k),
{
    let d = cross_difference(c);
    let (h2, h1, k2, k1) = (
        c.h_prev2 as int,
        c.h_prev1 as int,
        c.k_prev2 as int,
        c.k_prev1 as int,
    );
    // one step of the recurrence with quotient q negates the cross difference
    assert forall|q: int| #![trigger (q * h1 + h2)]
        (q * h1 + h2) * k1 - h1 * (q * k1 + k2) == -d by {
        assert((q * h1 + h2) * k1 - h1 * (q * k1 + k2) == h2 * k1 - h1 * k2) by (nonlinear_arith);
    }
    // h1/k1 is in lowest terms: h1*k2 - h2*k1 = d
    assert(combination(h1, k1, d * k2, -d * h2) == 1) by (nonlinear_arith)
        requires
            h1 * k2 - h2 * k1 == d,
            d == 1 || d == -1,
    ;
    match cf_move(c, a, max_den, tail_below) {
        CfMove::Advance(n) => {
            let h = a * h1 + h2;
            let k = a * k1 + k2;
            assert(h * k1 - h1 * k == -d);
            assert(combination(h, k, -d * k1, d * h1) == 1) by (nonlinear_arith)
                requires
                    h * k1 - h1 * k == -d,
                    d == 1 || d == -1,
            ;
        },
        CfMove::Settle(h, k) => {
            if !(h == h1 && k == k1) {
                let q = trunc_div(max_den->0 - k2, k1);
                assert(h == q * h1 + h2 && k == q * k1 + k2);
                assert(h * k1 - h1 * k == -d);
                assert(combination(h, k, -d * k1, d * h1) == 1) by (nonlinear_arith)
                    requires
                        h * k1 - h1 * k == -d,
                        d == 1 || d == -1,
                ;
            }
        },
        _ => {},
    }
}

/// `|p/q - h/k|` scaled by `q*k`.
pub open spec fn scaled_gap(p: int, q: int, h: int, k: int) -> int {
    abs_int(p * k - h * q)
}

proof fn lemma_cross_gap(x: int, y: int, t: int, h1: int, h2: int, k1: int, k2: int)
    ensures
        (x * h1 + y * h2) * (t * k1 + k2) - (t * h1 + h2) * (x * k1 + y * k2) == (h1 * k2 - h2
            * k1) * (x - t * y),
{
    let b = t * k1 + k2;
    let c = t * h1 + h2;
    let d = h1 * k2 - h2 * k1;
    assert((x * h1 + y * h2) * b == x * (h1 * b) + y * (h2 * b)) by (nonlinear_arith);
    assert(c * (x * k1 + y * k2) == x * (k1 * c) + y * (k2 * c)) by (nonlinear_arith);
    assert(h1 * b - k1 * c == d) by (nonlinear_arith)
        requires
            b == t * k1 + k2,
            c == t * h1 + h2,
            d == h1 * k2 - h2 * k1,
    ;
    assert(h2 * b - k2 * c == -t * d) by (nonlinear_arith)
        requires
            b == t * k1 + k2,
            c == t * h1 + h2,
            d == h1 * k2 - h2 * k1,
    ;
    assert(x * (h1 * b) + y * (h2 * b) - (x * (k1 * c) + y * (k2 * c)) == x * (h1 * b - k1 * c)
        + y * (h2 * b - k2 * c)) by (nonlinear_arith);
    assert(x * d + y * (-t * d) == d * (x - t * y)) by (nonlinear_arith);
}

/// Past the largest denominator the expansion settles on whichever of the
/// last convergent and the semiconvergent that fits lies strictly closer to
/// the value, and on the convergent where both lie equally close. Here the
/// complete quotient at this step is `xn/fd` with `a = xn / fd`, so the value
/// is `p/q` with `p = xn*h1 + fd*h2` and `q = xn*k1 + fd*k2`; `tail_below` is
/// read off it, and `k2 <= k1`, as for every convergent the expansion forms.
pub proof fn law_settles_on_the_closer(
    c: Convergents,
    a: int,
    m: i64,
    xn: int,
    fd: int,
    tail_below: bool,
)
    requires
        c.valid(),
        cross_difference(c) == 1 || cross_difference(c) == -1,
        c.k_prev2 <= c.k_prev1,
        a >= 0,
        fd > 0,
        a * fd <= xn < (a + 1) * fd,
        tail_below == ((xn - a * fd) * c.k_prev1 < c.k_prev2 * fd),
        cf_move(c, a, Some(m), tail_below) is Settle,
    ensures
        ({
            let (h2, h1, k2, k1) = (
                c.h_prev2 as int,
                c.h_prev1 as int,
                c.k_prev2 as int,
                c.k_prev1 as int,
            );
            let p = xn * h1 + fd * h2;
            let q = xn * k1 + fd * k2;
            let t = trunc_div(m - k2, k1);
            cf_move(c, a, Some(m), tail_below) == if t >= 1 && scaled_gap(p, q, t * h1 + h2, t * k1 + k2)
                * k1 < scaled_gap(p, q, h1, k1) * (t * k1 + k2) {
                CfMove::Settle(t * h1 + h2, t * k1 + k2)
            } else {
                CfMove::Settle(h1, k1)
            }
        }),
{
    let d = cross_difference(c);
    let (h2, h1, k2, k1) = (c.h_prev2 as int, c.h_prev1 as int, c.k_prev2 as int, c.k_prev1 as int);
    let p = xn * h1 + fd * h2;
    let q = xn * k1 + fd * k2;
    let t = trunc_div(m - k2, k1);
    let f = xn - a * fd;
    assert(k1 > 0);
    // the convergent's gap is fd
    assert(p * k1 - h1 * q == -d * fd) by (nonlinear_arith)
        requires
            p == xn * h1 + fd * h2,
            q == xn * k1 + fd * k2,
            d == h1 * k2 - h2 * k1,
    ;
    assert(-d * fd == -fd || -d * fd == fd) by (nonlinear_arith)
        requires
            d == 1 || d == -1,
    ;
    assert(scaled_gap(p, q, h1, k1) == fd);
    assert((a + 1) * fd == a * fd + fd) by (nonlinear_arith);
    assert(0 <= f < fd);
    if t >= 1 {
        let hs = t * h1 + h2;
        let ks = t * k1 + k2;
        // t < a, since a*k1 + k2 goes past m
        assert(t * k1 <= m - k2) by (nonlinear_arith)
            requires
                m - k2 >= 0,
                k1 > 0,
                t == (m - k2) / k1,
        ;
        assert(t < a) by (nonlinear_arith)
            requires
                t * k1 <= m - k2,
                a * k1 + k2 > m,
                k1 > 0,
        ;
        lemma_cross_gap(xn, fd, t, h1, h2, k1, k2);
        let g = xn - t * fd;
        if d == 1 {
            assert(d * g == g);
        } else {
            assert(d * g == -g);
        }
        assert(xn - t * fd > 0) by (nonlinear_arith)
            requires
                xn >= a * fd,
                t < a,
                fd > 0,
        ;
        assert(p * ks - hs * q == d * g);
        assert(scaled_gap(p, q, hs, ks) == xn - t * fd);
        // closer exactly when (a - 2t)*fd*k1 + f*k1 < fd*k2
        assert((xn - t * fd) * k1 < fd * ks <==> (a - 2 * t) * fd * k1 + f * k1 < fd * k2)
            by (nonlinear_arith)
            requires
                xn == a * fd + f,
                ks == t * k1 + k2,
        ;
        if 2 * t > a {
            assert((a - 2 * t) * fd * k1 + f * k1 < fd * k2) by (nonlinear_arith)
                requires
                    a - 2 * t <= -1,
                    0 <= f < fd,
                    k1 > 0,
                    k2 >= 0,
                    fd > 0,
            ;
        } else if 2 * t == a {
            assert((a - 2 * t) * fd * k1 + f * k1 == f * k1) by (nonlinear_arith)
                requires
                    a - 2 * t == 0,
            ;
            assert(fd * k2 == k2 * fd) by (nonlinear_arith);
        } else {
            assert(!((a - 2 * t) * fd * k1 + f * k1 < fd * k2)) by (nonlinear_arith)
                requires
                    a - 2 * t >= 1,
                    0 <= f,
                    k2 <= k1,
                    fd > 0,
                    k1 > 0,
            ;
        }
    }
}

} // verus!
