//! Finite double-precision numbers as integers: a sign, a significand of
//! fifty-three bits and a power of two. Every operation gives the double nearest
//! to the exact result, ties to the even significand, and printing with a fixed
//! number of decimals rounds the exact value the same way.

use vstd::prelude::*;
use crate::text::{dec, digit, digit_char, push_dec_wide, push_zero_filled, zero_fill};

verus! {

/// Two to the power `n`.
pub open spec fn p2(n: nat) -> nat
    decreases n,
{
    if n == 0 {
        1
    } else {
        2 * p2((n - 1) as nat)
    }
}

pub proof fn lemma_p2_pos(n: nat)
    ensures
        p2(n) >= 1,
    decreases n,
{
    if n > 0 {
        lemma_p2_pos((n - 1) as nat);
    }
}

pub proof fn lemma_p2_sum(a: nat, b: nat)
    ensures
        p2(a + b) == p2(a) * p2(b),
    decreases b,
{
    if b > 0 {
        lemma_p2_sum(a, (b - 1) as nat);
        let x = p2(a) as int;
        let y = p2((b - 1) as nat) as int;
        assert(2 * (x * y) == x * (2 * y)) by (nonlinear_arith);
    } else {
        assert(p2(a) * 1 == p2(a)) by (nonlinear_arith);
    }
}

pub proof fn lemma_p2_mono(a: nat, b: nat)
    requires
        a <= b,
    ensures
        p2(a) <= p2(b),
    decreases b - a,
{
    if a < b {
        lemma_p2_mono(a, (b - 1) as nat);
        lemma_p2_pos((b - 1) as nat);
    }
}

pub proof fn lemma_p2_values()
    ensures
        p2(52) == 0x10_0000_0000_0000,
        p2(53) == 0x20_0000_0000_0000,
        p2(60) == 0x1000_0000_0000_0000,
        p2(64) == 0x1_0000_0000_0000_0000,
{
    reveal_with_fuel(p2, 20);
    assert(p2(16) == 0x1_0000);
    lemma_p2_sum(16, 16);
    lemma_p2_sum(32, 16);
    lemma_p2_sum(48, 4);
    lemma_p2_sum(48, 5);
    lemma_p2_sum(48, 12);
    lemma_p2_sum(32, 32);
}

/// `n / d` rounded to the nearest integer, ties to the even one.
pub open spec fn half_even(n: nat, d: nat) -> nat {
    let q = n / d;
    let r = n % d;
    if 2 * r > d || (2 * r == d && q % 2 == 1) {
        q + 1
    } else {
        q
    }
}

/// The part of two to the power `k` that multiplies.
pub open spec fn up(k: int) -> nat {
    if k >= 0 {
        p2(k as nat)
    } else {
        1
    }
}

/// The part of two to the power `k` that divides.
pub open spec fn down(k: int) -> nat {
    if k < 0 {
        p2((-k) as nat)
    } else {
        1
    }
}

/// `n / d` takes fifty-three bits in units of two to the power `k`.
pub open spec fn fits(n: nat, d: nat, k: int) -> bool {
    p2(52) * (d * up(k)) <= n * down(k) && n * down(k) < p2(53) * (d * up(k))
}

/// The significand and exponent of the double nearest to `n / d`.
pub open spec fn near(n: nat, d: nat) -> (nat, int) {
    if n == 0 {
        (0, 0)
    } else {
        let k = choose|k: int| #[trigger] fits(n, d, k);
        let m = half_even(n * down(k), d * up(k));
        if m == p2(53) {
            (p2(52), k + 1)
        } else {
            (m, k)
        }
    }
}

/// The significand and exponent of the double nearest to `(n / d)` times two to
/// the power `s`.
pub open spec fn nearest(n: nat, d: nat, s: int) -> (nat, int) {
    near(n * up(s), d * down(s))
}

pub proof fn lemma_up_down_pos(k: int)
    ensures
        up(k) >= 1,
        down(k) >= 1,
{
    if k >= 0 {
        lemma_p2_pos(k as nat);
    } else {
        lemma_p2_pos((-k) as nat);
    }
}

/// Rounding depends on the ratio alone.
proof fn lemma_half_even_scale(n: nat, d: nat, c: nat)
    requires
        d > 0,
        c > 0,
    ensures
        half_even(n * c, d * c) == half_even(n, d),
{
    let q = n / d;
    let r = n % d;
    assert(n == d * q + r) by (nonlinear_arith)
        requires
            d > 0,
            q == n / d,
            r == n % d,
    ;
    assert(n * c == (d * c) * q + r * c) by (nonlinear_arith)
        requires
            n == d * q + r,
    ;
    assert(0 <= r * c < d * c) by (nonlinear_arith)
        requires
            0 <= r < d,
            c > 0,
    ;
    assert(d * c > 0) by (nonlinear_arith)
        requires
            d > 0,
            c > 0,
    ;
    vstd::arithmetic::div_mod::lemma_fundamental_div_mod_converse((n * c) as int, (d * c) as int, q as int, (r * c) as int);
    assert(2 * r > d ==> 2 * (r * c) > d * c) by (nonlinear_arith)
        requires
            c > 0,
    ;
    assert(2 * r == d ==> 2 * (r * c) == d * c) by (nonlinear_arith);
    assert(2 * r < d ==> 2 * (r * c) < d * c) by (nonlinear_arith)
        requires
            c > 0,
    ;
}

proof fn lemma_half_even_ratio(n1: nat, d1: nat, n2: nat, d2: nat)
    requires
        d1 > 0,
        d2 > 0,
        n1 * d2 == n2 * d1,
    ensures
        half_even(n1, d1) == half_even(n2, d2),
{
    lemma_half_even_scale(n1, d1, d2);
    lemma_half_even_scale(n2, d2, d1);
    assert(d1 * d2 == d2 * d1) by (nonlinear_arith);
}

/// At most one unit gives fifty-three bits.
proof fn lemma_fits_unique(n: nat, d: nat, a: int, b: int)
    requires
        d > 0,
        fits(n, d, a),
        fits(n, d, b),
    ensures
        a == b,
{
    if a < b {
        lemma_fits_apart(n, d, a, b);
    }
    if b < a {
        lemma_fits_apart(n, d, b, a);
    }
}

proof fn lemma_fits_apart(n: nat, d: nat, a: int, b: int)
    requires
        d > 0,
        a < b,
        fits(n, d, a),
    ensures
        !fits(n, d, b),
{
    lemma_up_down_pos(a);
    lemma_up_down_pos(b);
    lemma_shift_step(a, b);
    let t = p2(52);
    assert(p2(53) == 2 * t);
    let (ua, da, ub, db) = (up(a), down(a), up(b), down(b));
    assert((n * da) * db < ((2 * t) * (d * ua)) * db) by (nonlinear_arith)
        requires
            n * da < (2 * t) * (d * ua),
            db >= 1,
    ;
    assert((n * da) * db == (n * db) * da) by (nonlinear_arith);
    assert(((2 * t) * (d * ua)) * db == (t * d) * (2 * (ua * db))) by (nonlinear_arith);
    assert((t * (d * ub)) * da == (t * d) * (ub * da)) by (nonlinear_arith);
    assert((t * d) * (ub * da) >= (t * d) * (2 * (ua * db))) by (nonlinear_arith)
        requires
            ub * da >= 2 * (ua * db),
            t >= 0,
            d >= 0,
    ;
    if t * (d * ub) <= n * db {
        assert((t * (d * ub)) * da <= (n * db) * da) by (nonlinear_arith)
            requires
                t * (d * ub) <= n * db,
                da >= 1,
        ;
    }
}

proof fn lemma_shift_step(a: int, b: int)
    requires
        a < b,
    ensures
        up(b) * down(a) >= 2 * (up(a) * down(b)),
{
    let (ua, da, ub, db) = (up(a), down(a), up(b), down(b));
    if a >= 0 {
        lemma_p2_mono((a + 1) as nat, b as nat);
        assert(p2((a + 1) as nat) == 2 * p2(a as nat));
        assert(ub * da >= 2 * (ua * db)) by (nonlinear_arith)
            requires
                da == 1,
                db == 1,
                ub >= 2 * ua,
        ;
    } else if b >= 0 {
        lemma_p2_pos(b as nat);
        lemma_p2_mono(1, (-a) as nat);
        assert(p2(1) == 2) by {
            reveal_with_fuel(p2, 2);
        }
        assert(ub * da >= 2 * (ua * db)) by (nonlinear_arith)
            requires
                ua == 1,
                db == 1,
                ub >= 1,
                da >= 2,
        ;
    } else {
        lemma_p2_mono((-b + 1) as nat, (-a) as nat);
        assert(p2((-b + 1) as nat) == 2 * p2((-b) as nat));
        assert(ub * da >= 2 * (ua * db)) by (nonlinear_arith)
            requires
                ua == 1,
                ub == 1,
                da >= 2 * db,
        ;
    }
}

/// The nearest double depends on the ratio alone.
proof fn lemma_near_ratio(n1: nat, d1: nat, n2: nat, d2: nat, k: int)
    requires
        d1 > 0,
        d2 > 0,
        n1 * d2 == n2 * d1,
        fits(n1, d1, k),
    ensures
        fits(n2, d2, k),
        near(n1, d1) == near(n2, d2),
{
    lemma_up_down_pos(k);
    let (u, w) = (up(k), down(k));
    lemma_cross(n1, d1, n2, d2, u, w);
    assert(fits(n2, d2, k)) by {
        lemma_cross_fits(n1, d1, n2, d2, u, w);
    }
    if n1 == 0 {
        assert(n2 == 0) by (nonlinear_arith)
            requires n1 == 0, n1 * d2 == n2 * d1, d1 > 0;
    } else {
        assert(n2 > 0) by (nonlinear_arith)
            requires n1 > 0, n1 * d2 == n2 * d1, d2 > 0;
        let k1 = choose|k: int| #[trigger] fits(n1, d1, k);
        let k2 = choose|k: int| #[trigger] fits(n2, d2, k);
        lemma_fits_unique(n1, d1, k, k1);
        lemma_fits_unique(n2, d2, k, k2);
        assert(d1 * u > 0) by (nonlinear_arith) requires d1 > 0, u >= 1;
        assert(d2 * u > 0) by (nonlinear_arith) requires d2 > 0, u >= 1;
        lemma_half_even_ratio(n1 * w, d1 * u, n2 * w, d2 * u);
    }
}

proof fn lemma_cross(n1: nat, d1: nat, n2: nat, d2: nat, u: nat, w: nat)
    requires
        n1 * d2 == n2 * d1,
    ensures
        (n1 * w) * (d2 * u) == (n2 * w) * (d1 * u),
{
    assert((n1 * w) * (d2 * u) == (n1 * d2) * (w * u)) by (nonlinear_arith);
    assert((n2 * w) * (d1 * u) == (n2 * d1) * (w * u)) by (nonlinear_arith);
}

proof fn lemma_cross_fits(n1: nat, d1: nat, n2: nat, d2: nat, u: nat, w: nat)
    requires
        d1 > 0,
        d2 > 0,
        n1 * d2 == n2 * d1,
        p2(52) * (d1 * u) <= n1 * w,
        n1 * w < p2(53) * (d1 * u),
    ensures
        p2(52) * (d2 * u) <= n2 * w,
        n2 * w < p2(53) * (d2 * u),
{
    let (a, b) = (p2(52), p2(53));
    lemma_scaled_bounds(n1, d1, n2, d2, u, w, a, b);
}

proof fn lemma_scaled_bounds(n1: nat, d1: nat, n2: nat, d2: nat, u: nat, w: nat, a: nat, b: nat)
    requires
        d1 > 0,
        d2 > 0,
        n1 * d2 == n2 * d1,
        a * (d1 * u) <= n1 * w,
        n1 * w < b * (d1 * u),
    ensures
        a * (d2 * u) <= n2 * w,
        n2 * w < b * (d2 * u),
{
    let x = n2 * w;
    let lo = a * (d2 * u);
    let hi = b * (d2 * u);
    assert(d1 * (a * (d2 * u)) == (a * (d1 * u)) * d2) by (nonlinear_arith);
    assert(d1 * (b * (d2 * u)) == (b * (d1 * u)) * d2) by (nonlinear_arith);
    assert(d1 * (n2 * w) == (n2 * d1) * w) by (nonlinear_arith);
    assert((n1 * d2) * w == (n1 * w) * d2) by (nonlinear_arith);
    assert((a * (d1 * u)) * d2 <= (n1 * w) * d2) by (nonlinear_arith)
        requires
            a * (d1 * u) <= n1 * w,
            d2 > 0,
    ;
    assert((n1 * w) * d2 < (b * (d1 * u)) * d2) by (nonlinear_arith)
        requires
            n1 * w < b * (d1 * u),
            d2 > 0,
    ;
    assert(lo <= x) by (nonlinear_arith)
        requires
            d1 > 0,
            d1 * lo <= d1 * x,
    ;
    assert(x < hi) by (nonlinear_arith)
        requires
            d1 > 0,
            d1 * x < d1 * hi,
    ;
}

/// A finite double: `m` times two to the power `e`, negated where `neg` is set.
/// A nonzero value has fifty-three significant bits in `m`; zero has exponent 0.
#[derive(Clone, Copy, Debug, PartialEq, Eq, Structural)]
pub struct Double {
    pub neg: bool,
    pub m: u64,
    pub e: i32,
}

impl Double {
    /// The significand is normalised and the exponent within bounds.
    pub open spec fn wf(&self) -> bool {
        &&& self.m == 0 ==> self.e == 0
        &&& self.m != 0 ==> 0x10_0000_0000_0000 <= self.m < 0x20_0000_0000_0000
        &&& -4000 <= self.e <= 4000
    }

    /// Significand and exponent.
    pub open spec fn mag(&self) -> (nat, int) {
        (self.m as nat, self.e as int)
    }
}

/// The double of a significand and an exponent.
pub open spec fn made(neg: bool, p: (nat, int)) -> Double {
    Double { neg, m: p.0 as u64, e: p.1 as i32 }
}

/// The double nearest to a count.
pub open spec fn of_nat(n: nat) -> Double {
    made(false, nearest(n, 1, 0))
}

/// The double nearest to an integer.
pub open spec fn of_int(i: int) -> Double {
    made(i < 0, nearest((if i < 0 { -i } else { i }) as nat, 1, 0))
}

/// The double nearest to a product.
pub open spec fn product(a: Double, b: Double) -> Double {
    made(a.neg != b.neg, nearest(a.m as nat * b.m as nat, 1, a.e + b.e))
}

/// The double nearest to a quotient.
pub open spec fn quotient(a: Double, b: Double) -> Double {
    made(a.neg != b.neg, nearest(a.m as nat, b.m as nat, a.e - b.e))
}

/// The double nearest to the sum of two positive doubles.
pub open spec fn sum(a: Double, b: Double) -> Double {
    if a.e >= b.e {
        made(false, nearest(a.m as nat * p2((a.e - b.e) as nat) + b.m as nat, 1, b.e as int))
    } else {
        made(false, nearest(b.m as nat * p2((b.e - a.e) as nat) + a.m as nat, 1, a.e as int))
    }
}

/// `n` times two to the power `s` is below the smallest double of fifty-three bits.
pub open spec fn tiny(n: nat, s: int) -> bool {
    s < -1022 && n < p2((-1022 - s) as nat)
}

/// The double of so many steps of two to the power `s`.
pub open spec fn steps(u: nat, s: int) -> Double {
    made(false, nearest(u, 1, s))
}

/// The product of two positive doubles where small ones lose bits: below two to the
/// power -1022 it is a number of steps of two to the power -1074, the nearest one.
pub open spec fn gradual(a: Double, b: Double) -> Double {
    let n = a.m as nat * b.m as nat;
    let s = a.e + b.e;
    if tiny(n, s) {
        steps(half_even(n, p2((-1074 - s) as nat)), -1074)
    } else {
        product(a, b)
    }
}

/// One hundred.
pub open spec fn hundred() -> Double {
    Double { neg: false, m: 7036874417766400, e: -46i32 }
}

/// In which unit `n / d` times two to the power `s` has fifty-three bits, and to
/// what it rounds there.
proof fn lemma_nearest_at(n: nat, d: nat, s: int, t: nat, m: nat)
    requires
        d > 0,
        p2(52) * (d * p2(t)) <= n,
        n < p2(53) * (d * p2(t)),
        m == half_even(n, d * p2(t)),
    ensures
        fits(n * up(s), d * down(s), s + t),
        n > 0,
        nearest(n, d, s) == (if m == p2(53) {
            (p2(52), s + t + 1)
        } else {
            (m, s + t)
        }),
{
    let p = p2(t);
    lemma_p2_pos(t);
    lemma_p2_values();
    lemma_up_down_pos(s);
    let k = s + t;
    lemma_up_down_pos(k);
    let (us, ds, uk, dk) = (up(s), down(s), up(k), down(k));
    // us * dk and ds * uk stand in the ratio 1 : p.
    let c = us * dk;
    assert(ds * uk == p * c) by {
        if s >= 0 {
            lemma_p2_sum(s as nat, t);
            assert(ds * uk == p * c) by (nonlinear_arith)
                requires
                    ds == 1,
                    uk == us * p,
                    dk == 1,
                    c == us * dk,
            ;
        } else if k >= 0 {
            lemma_p2_sum((-s) as nat, k as nat);
            assert(ds * uk == p * c) by (nonlinear_arith)
                requires
                    p == ds * uk,
                    us == 1,
                    dk == 1,
                    c == us * dk,
            ;
        } else {
            lemma_p2_sum(t, (-k) as nat);
            assert(ds * uk == p * c) by (nonlinear_arith)
                requires
                    ds == p * dk,
                    uk == 1,
                    us == 1,
                    c == us * dk,
            ;
        }
    }
    assert(c > 0) by (nonlinear_arith)
        requires
            us >= 1,
            dk >= 1,
            c == us * dk,
    ;
    assert((n * us) * dk == n * c) by (nonlinear_arith)
        requires
            c == us * dk,
    ;
    assert((d * ds) * uk == (d * p) * c) by (nonlinear_arith)
        requires
            ds * uk == p * c,
    ;
    let (a, b) = (p2(52), p2(53));
    assert(a * ((d * p) * c) <= n * c) by (nonlinear_arith)
        requires
            a * (d * p) <= n,
            c > 0,
    ;
    assert(n * c < b * ((d * p) * c)) by (nonlinear_arith)
        requires
            n < b * (d * p),
            c > 0,
    ;
    let (nn, dd) = (n * us, d * ds);
    assert(fits(nn, dd, k));
    assert(d * p > 0) by (nonlinear_arith)
        requires
            d > 0,
            p >= 1,
    ;
    assert(a * (d * p) > 0) by (nonlinear_arith)
        requires
            a > 0,
            d * p > 0,
    ;
    assert(nn > 0) by (nonlinear_arith)
        requires
            nn == n * us,
            n > 0,
            us >= 1,
    ;
    assert(dd > 0) by (nonlinear_arith)
        requires
            dd == d * ds,
            d > 0,
            ds >= 1,
    ;
    let kk = choose|k: int| #[trigger] fits(nn, dd, k);
    lemma_fits_unique(nn, dd, k, kk);
    lemma_half_even_scale(n, d * p, c);
}

/// Rounding `n / (d * p)` from the quotient by `d` and what it leaves.
proof fn lemma_half_even_split(n: nat, d: nat, q: nat, r: nat, h: nat, m: nat, low: nat)
    requires
        d > 0,
        h > 0,
        n == d * q + r,
        r < d,
        q == (2 * h) * m + low,
        low < 2 * h,
    ensures
        half_even(n, d * (2 * h)) == (if low > h || (low == h && (r > 0 || m % 2 == 1)) {
            m + 1
        } else {
            m
        }),
{
    let p = 2 * h;
    let rest = d * low + r;
    assert(n == (d * p) * m + rest) by (nonlinear_arith)
        requires
            n == d * q + r,
            q == p * m + low,
            rest == d * low + r,
    ;
    assert(rest < d * p) by (nonlinear_arith)
        requires
            rest == d * low + r,
            r < d,
            low + 1 <= p,
    ;
    assert(d * p > 0) by (nonlinear_arith)
        requires
            d > 0,
            p > 0,
    ;
    assert(n == m * (d * p) + rest) by (nonlinear_arith)
        requires
            n == (d * p) * m + rest,
    ;
    vstd::arithmetic::div_mod::lemma_fundamental_div_mod_converse(n as int, (d * p) as int, m as int, rest as int);
    assert(d * p == 2 * (d * h)) by (nonlinear_arith)
        requires
            p == 2 * h,
    ;
    if low > h {
        assert(d * low >= d * h + d) by (nonlinear_arith)
            requires
                low >= h + 1,
                d > 0,
        ;
    } else if low < h {
        assert(d * low + d <= d * h) by (nonlinear_arith)
            requires
                low + 1 <= h,
                d > 0,
        ;
    }
}

/// The double nearest to `(n / d)` times two to the power `s`, for a quotient of
/// more than fifty-three bits.
#[verifier::rlimit(60)]
#[verifier::spinoff_prover]
fn round_wide(n: u128, d: u128, s: i32) -> (r: Double)
    requires
        d > 0,
        n / d >= 0x20_0000_0000_0000,
        -3500 <= s <= 3500,
    ensures
        r.mag() == nearest(n as nat, d as nat, s as int),
        exists|k: int| #[trigger] fits(n as nat * up(s as int), d as nat * down(s as int), k),
        r.wf(),
        !r.neg,
        r.m > 0,
        s + 1 <= r.e <= s + 130,
        p2((r.e - s - 1) as nat) * 0x1f_ffff_ffff_ffff <= n / d,
        n / d < p2((r.e - s) as nat) * 0x20_0000_0000_0000,
{
    let q: u128 = n / d;
    let r: u128 = n % d;
    let mut p: u128 = 2;
    let mut t: i32 = 1;
    assert(p2(1) == 2) by {
        reveal_with_fuel(p2, 2);
    }
    while q / p >= 0x20_0000_0000_0000
        invariant
            1 <= t <= 127,
            p == p2(t as nat),
            p >= 2,
            p <= q,
            q >= 0x20_0000_0000_0000,
            q / p >= 0x10_0000_0000_0000,
        decreases q - p,
    {
        let ghost was = p;
        assert(0x20_0000_0000_0000 * p <= q) by (nonlinear_arith)
            requires
                q / p >= 0x20_0000_0000_0000,
                p > 0,
        ;
        assert(p2((t + 1) as nat) == 2 * p2(t as nat));
        proof {
            lemma_p2_values();
            if t >= 75 {
                lemma_p2_sum(64, 11);
                lemma_p2_mono(75, t as nat);
                reveal_with_fuel(p2, 12);
            }
        }
        p = p * 2;
        t = t + 1;
        assert(q / p >= 0x10_0000_0000_0000) by (nonlinear_arith)
            requires
                0x20_0000_0000_0000 * was <= q,
                p == 2 * was,
                was > 0,
        ;
    }
    let m0: u64 = (q / p) as u64;
    let low: u128 = q % p;
    let half: u128 = p / 2;
    proof {
        lemma_p2_values();
        assert(p2(t as nat) == 2 * p2((t - 1) as nat));
        assert(p == 2 * half);
        let (nn, dd, qq, rr, hh) = (n as nat, d as nat, q as nat, r as nat, half as nat);
        assert(nn == dd * qq + rr) by (nonlinear_arith)
            requires
                d > 0,
                q == n / d,
                r == n % d,
                nn == n,
                dd == d,
                qq == q,
                rr == r,
        ;
        assert(qq == (2 * hh) * (m0 as nat) + low as nat) by (nonlinear_arith)
            requires
                p > 0,
                m0 == q / p,
                low == q % p,
                qq == q,
                p == 2 * hh,
        ;
        lemma_half_even_split(nn, dd, qq, rr, hh, m0 as nat, low as nat);
        let pp = p2(t as nat);
        let dp = dd * pp;
        assert(p2(52) * dp <= nn) by (nonlinear_arith)
            requires
                nn == dd * qq + rr,
                qq == pp * (m0 as nat) + low as nat,
                m0 >= p2(52),
                dp == dd * pp,
                dd > 0,
        ;
        assert(nn < p2(53) * dp) by (nonlinear_arith)
            requires
                nn == dd * qq + rr,
                rr < dd,
                qq == pp * (m0 as nat) + low as nat,
                low < pp,
                m0 + 1 <= p2(53),
                dp == dd * pp,
                dd > 0,
        ;
        lemma_nearest_at(nn, dd, s as int, t as nat, half_even(nn, dp));
    }
    proof {
        let (x, y) = (q as nat, p as nat);
        let z = m0 as nat;
        assert(y * z <= x < y * (z + 1)) by (nonlinear_arith)
            requires
                z == x / y,
                y > 0,
        ;
        assert(y * 0x10_0000_0000_0000 <= y * z) by (nonlinear_arith)
            requires
                z >= 0x10_0000_0000_0000,
        ;
        assert(y * (z + 1) <= y * 0x20_0000_0000_0000) by (nonlinear_arith)
            requires
                z < 0x20_0000_0000_0000,
        ;
        assert(p2((t + 1) as nat) == 2 * y);
    }
    let up_one = low > half || (low == half && (r > 0 || m0 % 2 == 1));
    let m: u64 = if up_one {
        m0 + 1
    } else {
        m0
    };
    if m == 0x20_0000_0000_0000 {
        Double { neg: false, m: 0x10_0000_0000_0000, e: s + t + 1 }
    } else {
        Double { neg: false, m, e: s + t }
    }
}

/// A power of two whose product with a number above two to the power 52 stays below
/// two to the power `b + 52` has an exponent below `b`.
proof fn lemma_exponent_below(x: nat, q: nat, b: nat)
    requires
        p2(x) * 0x1f_ffff_ffff_ffff <= q,
        q < p2(b) * 0x10_0000_0000_0000,
    ensures
        x < b,
{
    if x >= b {
        lemma_p2_mono(b, x);
    }
}

/// Moving a power of two between numerator and exponent changes nothing.
proof fn lemma_nearest_shift(n: nat, d: nat, s: int, c: nat)
    requires
        d > 0,
        exists|k: int| #[trigger] fits((n * p2(c)) * up(s - c), d * down(s - c), k),
    ensures
        nearest(n * p2(c), d, s - c) == nearest(n, d, s),
{
    let w = s - c;
    lemma_up_down_pos(s);
    lemma_up_down_pos(w);
    lemma_p2_pos(c);
    let (us, ds, uw, dw, p) = (up(s), down(s), up(w), down(w), p2(c));
    assert(p * (uw * ds) == us * dw) by {
        if w >= 0 {
            lemma_p2_sum(c, w as nat);
            assert(p * (uw * ds) == us * dw) by (nonlinear_arith)
                requires
                    us == p * uw,
                    ds == 1,
                    dw == 1,
            ;
        } else if s >= 0 {
            lemma_p2_sum(s as nat, (-w) as nat);
            assert(p * (uw * ds) == us * dw) by (nonlinear_arith)
                requires
                    p == us * dw,
                    uw == 1,
                    ds == 1,
            ;
        } else {
            lemma_p2_sum(c, (-s) as nat);
            assert(p * (uw * ds) == us * dw) by (nonlinear_arith)
                requires
                    dw == p * ds,
                    uw == 1,
                    us == 1,
            ;
        }
    }
    let (n1, d1, n2, d2) = ((n * p) * uw, d * dw, n * us, d * ds);
    assert(n1 * d2 == (n * d) * (p * (uw * ds))) by (nonlinear_arith)
        requires
            n1 == (n * p) * uw,
            d2 == d * ds,
    ;
    assert(n2 * d1 == (n * d) * (us * dw)) by (nonlinear_arith)
        requires
            n2 == n * us,
            d1 == d * dw,
    ;
    assert(d1 > 0) by (nonlinear_arith)
        requires
            d1 == d * dw,
            d > 0,
            dw >= 1,
    ;
    assert(d2 > 0) by (nonlinear_arith)
        requires
            d2 == d * ds,
            d > 0,
            ds >= 1,
    ;
    let k = choose|k: int| #[trigger] fits(n1, d1, k);
    lemma_near_ratio(n1, d1, n2, d2, k);
}

/// Two to the power `t`.
pub(crate) fn power_of_two(t: u32) -> (p: u128)
    requires
        t <= 120,
    ensures
        p == p2(t as nat),
        p >= 1,
{
    let mut p: u128 = 1;
    let mut i: u32 = 0;
    while i < t
        invariant
            i <= t <= 120,
            p == p2(i as nat),
            p >= 1,
        decreases t - i,
    {
        proof {
            lemma_p2_values();
            lemma_p2_sum(60, 60);
            lemma_p2_mono(i as nat, 119);
            lemma_p2_mono(119, 120);
            assert(p2((i + 1) as nat) == 2 * p2(i as nat));
        }
        p = p * 2;
        i = i + 1;
    }
    p
}

/// Ten to the power `k`.
pub open spec fn p10(k: nat) -> nat
    decreases k,
{
    if k == 0 {
        1
    } else {
        10 * p10((k - 1) as nat)
    }
}

impl Double {
    /// Zero.
    pub fn zero() -> (r: Double)
        ensures
            r == (Double { neg: false, m: 0, e: 0 }),
            r.wf(),
    {
        Double { neg: false, m: 0, e: 0 }
    }

    /// One hundred.
    pub fn hundred() -> (r: Double)
        ensures
            r == hundred(),
            r.wf(),
    {
        Double { neg: false, m: 7036874417766400, e: -46 }
    }

    /// The double nearest to `n`.
    pub fn from_u64(n: u64) -> (r: Double)
        ensures
            r.wf(),
            !r.neg,
            r == of_nat(n as nat),
            r.mag() == nearest(n as nat, 1, 0),
            n > 0 ==> r.m > 0 && -60 <= r.e <= 12,
            n == 0 ==> r.m == 0,
    {
        if n == 0 {
            assert(0 * up(0) == 0) by (nonlinear_arith);
            return Double::zero();
        }
        let wide: u128 = (n as u128) * 0x1000_0000_0000_0000;
        assert(wide / 1 == wide);
        let r = round_wide(wide, 1, -60);
        proof {
            lemma_p2_values();
            lemma_nearest_shift(n as nat, 1, 0, 60);
            lemma_p2_sum(64, 8);
            reveal_with_fuel(p2, 10);
            lemma_exponent_below((r.e + 60 - 1) as nat, wide as nat, 72);
        }
        r
    }

    /// The double nearest to `i`.
    pub fn from_i64(i: i64) -> (r: Double)
        ensures
            r.wf(),
            r.neg == (i < 0),
            r == of_int(i as int),
            i != 0 ==> r.m > 0 && -60 <= r.e <= 12,
            i == 0 ==> r.m == 0,
    {
        let mut r = Double::from_u64(crate::text::magnitude(i));
        r.neg = i < 0;
        r
    }

    /// The double nearest to the quotient of two others.
    pub fn div(&self, b: &Double) -> (r: Double)
        requires
            self.wf(),
            b.wf(),
            b.m > 0,
            -1500 <= self.e <= 1500,
            -1500 <= b.e <= 1500,
        ensures
            r.wf(),
            r.neg == (self.neg != b.neg),
            r == quotient(*self, *b),
            r.mag() == nearest(self.m as nat, b.m as nat, self.e - b.e),
            self.m > 0 ==> r.m > 0 && self.e - b.e - 63 <= r.e <= self.e - b.e - 49,
            self.m == 0 ==> r.m == 0,
    {
        if self.m == 0 {
            let ghost s = self.e - b.e;
            assert(0 * up(s) == 0) by (nonlinear_arith);
            return Double { neg: self.neg != b.neg, m: 0, e: 0 };
        }
        let n: u128 = (self.m as u128) * 0x1_0000_0000_0000_0000;
        let d: u128 = b.m as u128;
        let s: i32 = self.e - b.e - 64;
        assert(n / d >= 0x20_0000_0000_0000) by (nonlinear_arith)
            requires
                n >= 0x10_0000_0000_0000 * 0x1_0000_0000_0000_0000,
                0 < d < 0x20_0000_0000_0000,
        ;
        let mut r = round_wide(n, d, s);
        proof {
            lemma_p2_values();
            assert(n as nat == self.m as nat * p2(64));
            lemma_nearest_shift(self.m as nat, b.m as nat, self.e - b.e, 64);
            assert(n / d < 0x4_0000_0000_0000_0000) by (nonlinear_arith)
                requires
                    n < 0x20_0000_0000_0000 * 0x1_0000_0000_0000_0000,
                    d >= 0x10_0000_0000_0000,
            ;
            reveal_with_fuel(p2, 16);
            lemma_exponent_below((r.e - s - 1) as nat, (n / d) as nat, 14);
        }
        r.neg = self.neg != b.neg;
        r
    }

    /// The double nearest to the product of two others.
    pub fn mul(&self, b: &Double) -> (r: Double)
        requires
            self.wf(),
            b.wf(),
            -1500 <= self.e <= 1500,
            -1500 <= b.e <= 1500,
        ensures
            r.wf(),
            r.neg == (self.neg != b.neg),
            r == product(*self, *b),
            r.mag() == nearest(self.m as nat * b.m as nat, 1, self.e + b.e),
            self.m > 0 && b.m > 0 ==> r.m > 0 && self.e + b.e + 1 <= r.e <= self.e + b.e + 53,
            self.m > 0 && b.m > 0 ==> self.m * b.m < p2((r.e - self.e - b.e) as nat) * 0x20_0000_0000_0000,
            self.m == 0 || b.m == 0 ==> r.m == 0,
    {
        if self.m == 0 || b.m == 0 {
            let ghost s = self.e + b.e;
            proof {
                let (x, y) = (self.m as nat, b.m as nat);
                assert(x * y == 0) by (nonlinear_arith)
                    requires
                        x == 0 || y == 0,
                ;
                assert(0 * up(s) == 0) by (nonlinear_arith);
            }
            return Double { neg: self.neg != b.neg, m: 0, e: 0 };
        }
        proof {
            let (x, y) = (self.m as nat, b.m as nat);
            assert(x * y < 0x400_0000_0000_0000_0000_0000_0000) by (nonlinear_arith)
                requires
                    x < 0x20_0000_0000_0000,
                    y < 0x20_0000_0000_0000,
            ;
            assert(x * y >= 0x20_0000_0000_0000) by (nonlinear_arith)
                requires
                    x >= 0x10_0000_0000_0000,
                    y >= 0x10_0000_0000_0000,
            ;
        }
        let n: u128 = (self.m as u128) * (b.m as u128);
        assert(n / 1 == n);
        let mut r = round_wide(n, 1, self.e + b.e);
        proof {
            lemma_p2_values();
            let (x, y) = (self.m as nat, b.m as nat);
            let gap = (r.e - (self.e + b.e)) as nat;
            if gap >= 54 {
                lemma_p2_mono(53, (gap - 1) as nat);
                assert(x * y < 0x20_0000_0000_0000 * 0x1f_ffff_ffff_ffff) by (nonlinear_arith)
                    requires
                        0 < x <= 0x1f_ffff_ffff_ffff,
                        0 < y <= 0x1f_ffff_ffff_ffff,
                ;
                assert(p2((gap - 1) as nat) * 0x1f_ffff_ffff_ffff >= 0x20_0000_0000_0000 * 0x1f_ffff_ffff_ffff);
            }
        }
        r.neg = self.neg != b.neg;
        r
    }

    /// See [`steps`].
    pub(crate) fn from_steps(u: u64, s: i32) -> (r: Double)
        requires
            u <= 0x10_0000_0000_0000,
            -1074 <= s <= 0,
        ensures
            r == steps(u as nat, s as int),
            r.wf(),
            !r.neg,
            u == 0 ==> r.m == 0,
            u > 0 ==> r.m > 0 && s - 52 <= r.e <= s,
    {
        if u == 0 {
            assert(0 * up(s as int) == 0) by (nonlinear_arith);
            return Double::zero();
        }
        let wide: u128 = (u as u128) * 0x1000_0000_0000_0000;
        assert(wide / 1 == wide);
        let w: i32 = s - 60;
        let r = round_wide(wide, 1, w);
        proof {
            lemma_p2_values();
            assert(wide as nat == u as nat * p2(60));
            let k = choose|k: int| #[trigger] fits(wide as nat * up(w as int), 1 * down(w as int), k);
            assert(fits((u as nat * p2(60)) * up(s - 60), 1 * down(s - 60), k));
            lemma_nearest_shift(u as nat, 1, s as int, 60);
            lemma_exponent_below((r.e - w - 1) as nat, wide as nat, 61);
            assert(p2(61) == 2 * p2(60));
            if r.e < s - 52 {
                lemma_p2_mono((r.e - w) as nat, 7);
                reveal_with_fuel(p2, 8);
                assert(p2(7) == 128);
            }
        }
        r
    }

    /// See [`gradual`].
    pub fn mul_gradually(&self, b: &Double) -> (r: Double)
        requires
            ordinary(*self),
            ordinary(*b),
            self.m > 0,
            b.m > 0,
            !self.neg,
            !b.neg,
        ensures
            r == gradual(*self, *b),
            r.wf(),
            !r.neg,
            r.m > 0 ==> -1126 <= r.e && (r.e <= -1074 || r.e <= self.e + b.e + 53),
    {
        let s: i32 = self.e + b.e;
        proof {
            let (x, y) = (self.m as nat, b.m as nat);
            assert(0x100_0000_0000_0000_0000_0000_0000 <= x * y < 0x400_0000_0000_0000_0000_0000_0000) by (nonlinear_arith)
                requires
                    0x10_0000_0000_0000 <= x < 0x20_0000_0000_0000,
                    0x10_0000_0000_0000 <= y < 0x20_0000_0000_0000,
            ;
            lemma_p2_values();
            lemma_p2_sum(52, 52);
            lemma_p2_sum(53, 53);
            assert(p2(104) == 0x100_0000_0000_0000_0000_0000_0000);
            assert(p2(106) == 0x400_0000_0000_0000_0000_0000_0000);
        }
        let n: u128 = (self.m as u128) * (b.m as u128);
        let small = if s >= -1022 {
            false
        } else if s <= -1128 {
            proof {
                lemma_p2_mono(106, (-1022 - s) as nat);
            }
            true
        } else {
            n < power_of_two((-1022 - s) as u32)
        };
        if !small {
            let r = self.mul(b);
            proof {
                let gap = (r.e - s) as nat;
                if r.e < -1126 {
                    lemma_p2_sum(gap, 53);
                    lemma_p2_mono(gap + 53, (-1022 - s) as nat);
                }
            }
            return r;
        }
        proof {
            if s > -1127 {
                lemma_p2_mono((-1022 - s) as nat, 104);
            }
        }
        let g: i32 = -1074 - s;
        let ghost unit = p2(g as nat);
        proof {
            lemma_p2_sum(52, g as nat);
            lemma_p2_pos(g as nat);
        }
        let u: u64 = if g >= 107 {
            proof {
                lemma_p2_mono(107, g as nat);
                assert(p2(107) == 2 * p2(106));
                vstd::arithmetic::div_mod::lemma_fundamental_div_mod_converse(n as int, unit as int, 0, n as int);
            }
            0
        } else {
            let d: u128 = power_of_two(g as u32);
            let q: u128 = n / d;
            let rest: u128 = n % d;
            assert(q < 0x10_0000_0000_0000) by (nonlinear_arith)
                requires
                    q == n / d,
                    n < 0x10_0000_0000_0000 * d,
                    d > 0,
            ;
            if rest > d - rest || (rest == d - rest && q % 2 == 1) {
                (q + 1) as u64
            } else {
                q as u64
            }
        };
        assert(u as nat == half_even(n as nat, unit));
        Double::from_steps(u, -1074)
    }

    /// The double nearest to the sum of two positive others, the one with the
    /// larger exponent first.
    pub fn plus(&self, b: &Double) -> (r: Double)
        requires
            self.wf(),
            b.wf(),
            self.m > 0,
            b.m > 0,
            !self.neg,
            !b.neg,
            b.e <= self.e,
            -1500 <= self.e <= 1500,
            -1500 <= b.e <= 1500,
        ensures
            r.wf(),
            !r.neg,
            r.m > 0,
            r == sum(*self, *b),
            b.e < r.e || r.e == self.e,
            r.e <= self.e + 2,
            self.e - b.e >= 56 ==> r == *self,
    {
        let d: u32 = (self.e - b.e) as u32;
        let ghost n = self.m as nat * p2(d as nat) + b.m as nat;
        if d >= 56 {
            proof {
                lemma_p2_values();
                lemma_p2_mono(56, d as nat);
                assert(p2(56) == 8 * p2(53)) by {
                    lemma_p2_sum(53, 3);
                    reveal_with_fuel(p2, 4);
                }
                let (x, y, g) = (self.m as nat, b.m as nat, p2(d as nat));
                assert(n == x * g + y);
                vstd::arithmetic::div_mod::lemma_fundamental_div_mod_converse(n as int, g as int, x as int, y as int);
                assert(1 * g == g) by (nonlinear_arith);
                assert(half_even(n, 1 * g) == x);
                assert(p2(52) * g <= n) by (nonlinear_arith)
                    requires
                        n == x * g + y,
                        x >= p2(52),
                ;
                assert(n < p2(53) * g) by (nonlinear_arith)
                    requires
                        n == x * g + y,
                        x + 1 <= p2(53),
                        y < g,
                ;
                lemma_nearest_at(n, 1, b.e as int, d as nat, x);
            }
            return *self;
        }
        let g: u128 = power_of_two(d);
        proof {
            lemma_p2_values();
            lemma_p2_mono(d as nat, 55);
            assert(p2(55) == 4 * p2(53)) by {
                lemma_p2_sum(53, 2);
                reveal_with_fuel(p2, 3);
            }
            let x = self.m as nat;
            assert(x * (g as nat) <= 0x20_0000_0000_0000 * 0x80_0000_0000_0000) by (nonlinear_arith)
                requires
                    x <= 0x20_0000_0000_0000,
                    g <= 0x80_0000_0000_0000,
            ;
            assert(x * (g as nat) >= x) by (nonlinear_arith)
                requires
                    g >= 1,
            ;
        }
        let wide: u128 = (self.m as u128) * g + b.m as u128;
        assert(wide / 1 == wide);
        let r = round_wide(wide, 1, b.e);
        proof {
            lemma_p2_sum(d as nat, 2);
            reveal_with_fuel(p2, 3);
            let (x, y, gg) = (self.m as nat, b.m as nat, g as nat);
            let top = p2((d + 2) as nat);
            assert(x * gg + y < top * 0x10_0000_0000_0000) by (nonlinear_arith)
                requires
                    top == gg * 4,
                    x < 0x20_0000_0000_0000,
                    y < 0x20_0000_0000_0000,
                    gg >= 1,
            ;
            lemma_exponent_below((r.e - b.e - 1) as nat, wide as nat, (d + 2) as nat);
        }
        r
    }

    /// The value in units of ten to the power `-k`, rounded to the nearest
    /// integer, ties to the even one; the sign is left aside.
    pub open spec fn scaled(&self, k: nat) -> nat {
        half_even(self.m as nat * up(self.e as int) * p10(k), down(self.e as int))
    }

    /// The integer part, the sign left aside.
    pub open spec fn floor(&self) -> nat {
        (self.m as nat * up(self.e as int)) / down(self.e as int)
    }

    /// The nearest integer, ties away from zero, held to what sixty-four bits with
    /// a sign can say.
    pub open spec fn rounded(&self) -> int {
        let n = self.m as nat * up(self.e as int);
        let d = down(self.e as int);
        let r = (2 * n + d) / (2 * d);
        if self.neg {
            if r > 0x8000_0000_0000_0000 { i64::MIN as int } else { -(r as int) }
        } else {
            if r > i64::MAX { i64::MAX as int } else { r as int }
        }
    }

    /// The integer part, held to what sixty-four bits with a sign can say.
    pub open spec fn truncated(&self) -> int {
        let r = self.floor();
        if self.neg {
            if r > 0x8000_0000_0000_0000 { i64::MIN as int } else { -(r as int) }
        } else {
            if r > i64::MAX { i64::MAX as int } else { r as int }
        }
    }

    /// See [`Double::scaled`].
    fn to_scaled(&self, k: u32) -> (r: u128)
        requires
            self.wf(),
            k <= 5,
            self.e <= 55,
        ensures
            r == self.scaled(k as nat),
    {
        let mut ten: u128 = 1;
        let mut i: u32 = 0;
        proof {
            reveal_with_fuel(p10, 7);
        }
        while i < k
            invariant
                i <= k <= 5,
                ten == p10(i as nat),
                ten <= 100000,
                i == 0 ==> ten == 1,
                i == 1 ==> ten == 10,
                i == 2 ==> ten == 100,
                i == 3 ==> ten == 1000,
                i == 4 ==> ten == 10000,
                i == 5 ==> ten == 100000,
            decreases k - i,
        {
            assert(p10((i + 1) as nat) == 10 * p10(i as nat));
            ten = ten * 10;
            i = i + 1;
        }
        if self.e >= 0 {
            let g: u128 = power_of_two(self.e as u32);
            proof {
                lemma_p2_values();
                lemma_p2_mono(self.e as nat, 55);
                lemma_p2_sum(52, 3);
                reveal_with_fuel(p2, 5);
                let (x, y, z) = (self.m as nat, g as nat, ten as nat);
                assert(x * y <= 0x20_0000_0000_0000 * 0x80_0000_0000_0000) by (nonlinear_arith)
                    requires
                        x <= 0x20_0000_0000_0000,
                        y <= 0x80_0000_0000_0000,
                ;
                assert(x * y * z <= 0x20_0000_0000_0000 * 0x80_0000_0000_0000 * 100000) by (nonlinear_arith)
                    requires
                        x * y <= 0x20_0000_0000_0000 * 0x80_0000_0000_0000,
                        z <= 100000,
                ;
                let v = x * y * z;
                assert(v / 1 == v && v % 1 == 0);
            }
            return (self.m as u128) * g * ten;
        }
        proof {
            let (x, z) = (self.m as nat, ten as nat);
            assert(x * 1 * z == x * z) by (nonlinear_arith);
            assert(x * z <= 0x20_0000_0000_0000 * 100000) by (nonlinear_arith)
                requires
                    x <= 0x20_0000_0000_0000,
                    z <= 100000,
            ;
        }
        let n: u128 = (self.m as u128) * ten;
        if self.e < -76 {
            proof {
                lemma_p2_values();
                lemma_p2_sum(64, 12);
                assert(p2(12) == 4096) by {
                    reveal_with_fuel(p2, 14);
                }
                lemma_p2_mono(76, (-self.e) as nat);
                let d = p2((-self.e) as nat);
                vstd::arithmetic::div_mod::lemma_small_mod(n as nat, d);
                vstd::arithmetic::div_mod::lemma_basic_div(n as int, d as int);
            }
            return 0;
        }
        let d: u128 = power_of_two((-self.e) as u32);
        proof {
            lemma_p2_values();
            lemma_p2_sum(64, 12);
            assert(p2(12) == 4096) by {
                reveal_with_fuel(p2, 14);
            }
            lemma_p2_mono((-self.e) as nat, 76);
        }
        let q: u128 = n / d;
        let r: u128 = n % d;
        assert(q <= n) by (nonlinear_arith)
            requires
                q == n / d,
                d >= 1,
        ;
        if 2 * r > d || (2 * r == d && q % 2 == 1) {
            q + 1
        } else {
            q
        }
    }

    /// See [`Double::floor`].
    pub fn to_floor(&self) -> (r: u128)
        requires
            self.wf(),
            self.e <= 70,
        ensures
            r == self.floor(),
    {
        if self.e >= 0 {
            let g: u128 = power_of_two(self.e as u32);
            proof {
                lemma_p2_values();
                lemma_p2_sum(60, 10);
                reveal_with_fuel(p2, 12);
                lemma_p2_mono(self.e as nat, 70);
                let (x, y) = (self.m as nat, g as nat);
                assert(x * y <= 0x20_0000_0000_0000 * 0x40_0000_0000_0000_0000) by (nonlinear_arith)
                    requires
                        x <= 0x20_0000_0000_0000,
                        y <= 0x40_0000_0000_0000_0000,
                ;
                let v = x * y;
                assert(v / 1 == v);
            }
            return (self.m as u128) * g;
        }
        proof {
            let x = self.m as nat;
            assert(x * 1 == x) by (nonlinear_arith);
        }
        if self.e < -66 {
            proof {
                lemma_p2_values();
                lemma_p2_sum(60, 6);
                reveal_with_fuel(p2, 8);
                lemma_p2_mono(66, (-self.e) as nat);
                vstd::arithmetic::div_mod::lemma_basic_div(self.m as int, p2((-self.e) as nat) as int);
            }
            return 0;
        }
        let d: u128 = power_of_two((-self.e) as u32);
        (self.m as u128) / d
    }
}

/// `n` units of ten to the power `-k`, printed with `k` decimals.
pub open spec fn fixed(neg: bool, n: nat, k: nat) -> Seq<char> {
    let sign = if neg { seq!['-'] } else { Seq::<char>::empty() };
    let whole = sign + dec(n / p10(k));
    if k == 0 {
        whole
    } else {
        whole + seq!['.'] + zero_fill(dec(n % p10(k)), k)
    }
}

/// What decimal digits stand for, the lowest first.
spec fn low_first(d: Seq<u8>) -> nat
    decreases d.len(),
{
    if d.len() == 0 {
        0
    } else {
        low_first(d.drop_last()) + d.last() as nat * p10((d.len() - 1) as nat)
    }
}

/// Digits, none of them over nine, and no zero in front.
spec fn digits_ok(d: Seq<u8>) -> bool {
    &&& d.len() > 0
    &&& d.last() > 0
    &&& forall|i: int| 0 <= i < d.len() ==> #[trigger] d[i] < 10
}

proof fn lemma_low_first(d: Seq<u8>)
    requires
        d.len() > 0,
    ensures
        low_first(d) == d[0] as nat + 10 * low_first(d.skip(1)),
    decreases d.len(),
{
    let n = d.len();
    let x = d.last() as nat;
    if n == 1 {
        assert(low_first(d.drop_last()) == 0);
        assert(low_first(d.skip(1)) == 0);
        assert(p10(0) == 1);
        assert(x * 1 == x);
    } else {
        lemma_low_first(d.drop_last());
        assert(d.drop_last().skip(1) =~= d.skip(1).drop_last());
        assert(p10((n - 1) as nat) == 10 * p10((n - 2) as nat));
        let g = p10((n - 2) as nat);
        assert(x * (10 * g) == 10 * (x * g)) by (nonlinear_arith);
        assert(d.skip(1).last() == d.last());
    }
}

/// The digits, printed from the highest down, are the number in decimal.
proof fn lemma_digits_print(d: Seq<u8>)
    requires
        digits_ok(d),
    ensures
        dec(low_first(d)).len() == d.len(),
        forall|i: int| 0 <= i < d.len() ==> #[trigger] dec(low_first(d))[i] == digit(d[d.len() - 1 - i] as nat),
        low_first(d) > 0,
    decreases d.len(),
{
    lemma_low_first(d);
    let v = low_first(d);
    if d.len() == 1 {
        assert(low_first(d.skip(1)) == 0);
    } else {
        lemma_digits_print(d.skip(1));
        let w = low_first(d.skip(1));
        assert(v / 10 == w && v % 10 == d[0]);
        assert(dec(v) == dec(w).push(digit(d[0] as nat)));
        assert forall|i: int| 0 <= i < d.len() implies #[trigger] dec(v)[i] == digit(d[d.len() - 1 - i] as nat) by {
            if i < d.len() - 1 {
                assert(d.skip(1)[d.skip(1).len() - 1 - i] == d[d.len() - 1 - i]);
            }
        }
    }
}

/// Doubles a number held as digits.
fn double_digits(d: &mut Vec<u8>)
    requires
        digits_ok(old(d)@),
        old(d)@.len() < 0x7fff_0000,
    ensures
        digits_ok(final(d)@),
        low_first(final(d)@) == 2 * low_first(old(d)@),
        final(d)@.len() <= old(d)@.len() + 1,
{
    let ghost was = d@;
    let n: usize = d.len();
    let mut carry: u8 = 0;
    let mut i: usize = 0;
    assert(was.take(0).len() == 0);
    while i < n
        invariant
            i <= n,
            n == was.len(),
            d@.len() == n,
            carry <= 1,
            digits_ok(was),
            forall|j: int| i <= j < n ==> #[trigger] d@[j] == was[j],
            forall|j: int| 0 <= j < i ==> #[trigger] d@[j] < 10,
            low_first(d@.take(i as int)) + carry as nat * p10(i as nat) == 2 * low_first(was.take(i as int)),
            i == n ==> carry == 1 || d@[n - 1] > 0,
        decreases n - i,
    {
        let t: u8 = d[i] * 2 + carry;
        let ghost before = d@;
        let ghost c0 = carry;
        let low: u8 = t % 10;
        d.set(i, low);
        carry = t / 10;
        proof {
            let g = p10(i as nat);
            assert(d@.take(i + 1).drop_last() =~= before.take(i as int));
            assert(was.take(i + 1).drop_last() =~= was.take(i as int));
            assert(p10((i + 1) as nat) == 10 * g);
            let (a, l, c, w) = (c0 as nat, low as nat, carry as nat, was[i as int] as nat);
            assert(l + 10 * c == 2 * w + a);
            assert(l * g + c * (10 * g) == 2 * (w * g) + a * g) by (nonlinear_arith)
                requires
                    l + 10 * c == 2 * w + a,
            ;
        }
        i = i + 1;
    }
    assert(d@.take(n as int) =~= d@);
    assert(was.take(n as int) =~= was);
    if carry > 0 {
        let ghost before = d@;
        d.push(carry);
        assert(d@.drop_last() =~= before);
    }
}

/// Appends `m` times two to the power `e` in decimal.
fn push_big(out: &mut String, m: u64, e: u32)
    requires
        m > 0,
        e <= 4000,
    ensures
        final(out)@ == old(out)@ + dec(m as nat * p2(e as nat)),
{
    let ghost base = out@;
    let mut d: Vec<u8> = Vec::new();
    let mut rest: u64 = m;
    assert(p10(0) == 1);
    assert(rest as nat * 1 == rest as nat);
    assert(p10(19) == 10000000000000000000nat) by {
        reveal_with_fuel(p10, 21);
    }
    while rest > 0
        invariant
            d@.len() <= 20,
            rest > 0 ==> d@.len() <= 19,
            forall|j: int| 0 <= j < d@.len() ==> #[trigger] d@[j] < 10,
            low_first(d@) + rest as nat * p10(d@.len()) == m,
            rest == 0 ==> d@.len() > 0 && d@.last() > 0,
            rest as nat * p10(d@.len()) <= u64::MAX,
            p10(19) == 10000000000000000000nat,
        decreases rest,
    {
        let low: u8 = (rest % 10) as u8;
        let ghost before = d@;
        d.push(low);
        proof {
            let g = p10(before.len());
            assert(d@.drop_last() =~= before);
            assert(p10(d@.len()) == 10 * g);
            let (r, q, l) = (rest as nat, (rest / 10) as nat, low as nat);
            assert(r * g == l * g + q * (10 * g)) by (nonlinear_arith)
                requires
                    r == l + 10 * q,
            ;
            if before.len() == 19 {
                assert(q == 0) by (nonlinear_arith)
                    requires
                        r * g <= u64::MAX,
                        g == 10000000000000000000nat,
                        r == l + 10 * q,
                ;
            }
        }
        rest = rest / 10;
    }
    assert(0 * p10(d@.len()) == 0);
    let mut i: u32 = 0;
    assert(p2(0) == 1);
    assert(m as nat * 1 == m as nat);
    while i < e
        invariant
            i <= e <= 4000,
            digits_ok(d@),
            d@.len() <= 20 + i,
            low_first(d@) == m as nat * p2(i as nat),
        decreases e - i,
    {
        double_digits(&mut d);
        proof {
            let (x, g) = (m as nat, p2(i as nat));
            assert(p2((i + 1) as nat) == 2 * g);
            assert(x * (2 * g) == 2 * (x * g)) by (nonlinear_arith);
        }
        i = i + 1;
    }
    let ghost all = dec(low_first(d@));
    proof {
        lemma_digits_print(d@);
    }
    let n: usize = d.len();
    let mut j: usize = 0;
    assert(all.take(0) =~= Seq::<char>::empty());
    while j < n
        invariant
            j <= n,
            n == d@.len(),
            digits_ok(d@),
            all.len() == n,
            all == dec(low_first(d@)),
            forall|i: int| 0 <= i < n ==> #[trigger] all[i] == digit(d@[n - 1 - i] as nat),
            out@ == base + all.take(j as int),
        decreases n - j,
    {
        out.push(digit_char(d[n - 1 - j]));
        assert(all[j as int] == digit(d@[n - 1 - j] as nat));
        assert(out@ =~= base + all.take(j + 1));
        j = j + 1;
    }
    assert(all.take(n as int) =~= all);
}

impl Double {
    /// The value printed with `k` decimals.
    pub open spec fn text(&self, k: nat) -> Seq<char> {
        fixed(self.neg, self.scaled(k), k)
    }

    /// Appends the value with `k` decimals.
    pub fn push_text(&self, out: &mut String, k: u32)
        requires
            self.wf(),
            k <= 5,
        ensures
            final(out)@ == old(out)@ + self.text(k as nat),
    {
        let ghost base = out@;
        if self.neg {
            out.push('-');
        }
        let ghost sign = if self.neg { seq!['-'] } else { Seq::<char>::empty() };
        assert(out@ =~= base + sign);
        let unit: u128 = match k {
            0 => 1,
            1 => 10,
            2 => 100,
            3 => 1000,
            4 => 10000,
            _ => 100000,
        };
        assert(unit == p10(k as nat)) by {
            reveal_with_fuel(p10, 7);
        }
        if self.e > 55 {
            push_big(out, self.m, self.e as u32);
            let ghost v = self.m as nat * p2(self.e as nat);
            if k > 0 {
                out.push('.');
                push_zero_filled(out, 0, k as usize);
            }
            proof {
                let u = unit as nat;
                let x = self.m as nat * up(self.e as int) * p10(k as nat);
                assert(x == v * u);
                assert(x / 1 == x && x % 1 == 0);
                assert(self.scaled(k as nat) == v * u);
                assert((v * u) / u == v && (v * u) % u == 0) by {
                    vstd::arithmetic::div_mod::lemma_fundamental_div_mod_converse((v * u) as int, u as int, v as int, 0);
                }
                if k > 0 {
                    assert(out@ =~= base + (sign + dec(v) + seq!['.'] + zero_fill(dec(0), k as nat)));
                } else {
                    assert(out@ =~= base + (sign + dec(v)));
                }
            }
            return;
        }
        let n: u128 = self.to_scaled(k);
        push_dec_wide(out, n / unit);
        assert(out@ =~= base + (sign + dec((n / unit) as nat)));
        if k > 0 {
            out.push('.');
            push_zero_filled(out, (n % unit) as u64, k as usize);
        }
        assert(out@ =~= base + self.text(k as nat));
    }

    /// What a 64-bit pattern of a double stands for: sign, significand and
    /// exponent, the significand not yet normalised; nothing for an infinity or a
    /// not-a-number.
    pub open spec fn decode(bits: u64) -> Option<(bool, nat, int)> {
        let frac = (bits % 0x10_0000_0000_0000) as nat;
        let exp = ((bits / 0x10_0000_0000_0000) % 2048) as int;
        let neg = bits >= 0x8000_0000_0000_0000;
        if exp == 2047 {
            None
        } else if exp == 0 {
            Some((neg, frac, -1074int))
        } else {
            Some((neg, frac + 0x10_0000_0000_0000, exp - 1075))
        }
    }

    /// The double of a 64-bit pattern, nothing where it is not finite.
    pub fn from_bits(bits: u64) -> (r: Option<Double>)
        ensures
            r is None <==> Double::decode(bits) is None,
            r matches Some(d) ==> {
                let (neg, m, e) = Double::decode(bits)->0;
                &&& d.wf()
                &&& -1130 <= d.e <= 971
                &&& d.neg == neg
                &&& m == 0 ==> d.m == 0
                &&& m != 0 ==> d.e <= e && d.m == m * p2((e - d.e) as nat)
                &&& m >= 0x10_0000_0000_0000 ==> d.m == m && d.e == e
            },
    {
        let frac: u64 = bits % 0x10_0000_0000_0000;
        let exp: i32 = ((bits / 0x10_0000_0000_0000) % 2048) as i32;
        let neg: bool = bits >= 0x8000_0000_0000_0000;
        if exp == 2047 {
            return None;
        }
        if exp > 0 {
            let m: u64 = frac + 0x10_0000_0000_0000;
            assert(m as nat * p2(0) == m) by {
                let x = m as nat;
                assert(x * 1 == x) by (nonlinear_arith);
            }
            return Some(Double { neg, m, e: exp - 1075 });
        }
        if frac == 0 {
            return Some(Double { neg, m: 0, e: 0 });
        }
        let mut m: u64 = frac;
        let mut e: i32 = -1074;
        assert(frac as nat * p2(0) == m) by {
            let x = m as nat;
            assert(x * 1 == x) by (nonlinear_arith);
        }
        while m < 0x10_0000_0000_0000
            invariant
                1 <= frac < 0x10_0000_0000_0000,
                1 <= m < 0x20_0000_0000_0000,
                m >= p2((-1074 - e) as nat),
                -1130 <= e <= -1074,
                m == frac as nat * p2((-1074 - e) as nat),
            decreases 0x20_0000_0000_0000 - m,
        {
            proof {
                let t = (-1074 - e) as nat;
                lemma_p2_values();
                if t >= 52 {
                    lemma_p2_mono(52, t);
                }
                assert(p2(t + 1) == 2 * p2(t));
                let (f, g) = (frac as nat, p2(t));
                assert(f * (2 * g) == 2 * (f * g)) by (nonlinear_arith);
            }
            m = m * 2;
            e = e - 1;
        }
        Some(Double { neg, m, e })
    }
}

fn hold(neg: bool, r: u128) -> (i: i64)
    ensures
        i == if neg {
            if r > 0x8000_0000_0000_0000 { i64::MIN as int } else { -(r as int) }
        } else {
            if r > i64::MAX { i64::MAX as int } else { r as int }
        },
{
    if neg {
        if r >= 0x8000_0000_0000_0000 {
            i64::MIN
        } else {
            -(r as i64)
        }
    } else if r > 0x7fff_ffff_ffff_ffff {
        i64::MAX
    } else {
        r as i64
    }
}

/// A value with a large exponent is beyond sixty-four bits.
proof fn lemma_large(m: nat, e: int)
    requires
        m >= 0x10_0000_0000_0000,
        e > 60,
    ensures
        m * up(e) > 0xffff_ffff_ffff_ffff,
        down(e) == 1,
{
    lemma_p2_values();
    lemma_p2_mono(60, e as nat);
    let g = up(e);
    assert(m * g > 0xffff_ffff_ffff_ffff) by (nonlinear_arith)
        requires
            m >= 0x10_0000_0000_0000,
            g >= 0x1000_0000_0000_0000,
    ;
}

impl Double {
    /// A double with a large exponent is beyond sixty-four bits.
    pub proof fn lemma_large_floor(self)
        requires
            self.wf(),
            self.e > 60,
        ensures
            self.floor() > u64::MAX,
    {
        lemma_large(self.m as nat, self.e as int);
        let v = self.m as nat * up(self.e as int);
        assert(v / 1 == v) by (nonlinear_arith);
    }

    /// Whether the integer part, the sign left aside, is at least `n`.
    pub fn at_least(&self, n: u64) -> (r: bool)
        requires
            self.wf(),
        ensures
            r == (self.floor() >= n),
    {
        if self.e > 60 {
            proof {
                lemma_large(self.m as nat, self.e as int);
                let v = self.m as nat * up(self.e as int);
                assert(v / 1 == v) by (nonlinear_arith);
            }
            return true;
        }
        self.to_floor() >= n as u128
    }

    /// See [`Double::truncated`].
    pub fn to_truncated(&self) -> (i: i64)
        requires
            self.wf(),
        ensures
            i == self.truncated(),
    {
        if self.e > 60 {
            proof {
                lemma_large(self.m as nat, self.e as int);
                let v = self.m as nat * up(self.e as int);
                assert(v / 1 == v);
            }
            return hold(self.neg, 0x1_0000_0000_0000_0000);
        }
        hold(self.neg, self.to_floor())
    }

    /// See [`Double::rounded`].
    pub fn to_rounded(&self) -> (i: i64)
        requires
            self.wf(),
        ensures
            i == self.rounded(),
    {
        let ghost n = self.m as nat * up(self.e as int);
        if self.e > 60 {
            proof {
                lemma_large(self.m as nat, self.e as int);
                assert((2 * n + 1) / 2 == n);
            }
            return hold(self.neg, 0x1_0000_0000_0000_0000);
        }
        if self.e >= 0 {
            proof {
                assert((2 * n + 1) / 2 == n);
                assert(n / 1 == n);
            }
            return hold(self.neg, self.to_floor());
        }
        proof {
            let x = self.m as nat;
            assert(x * 1 == x) by (nonlinear_arith);
        }
        if self.e < -66 {
            proof {
                lemma_p2_values();
                lemma_p2_sum(60, 6);
                reveal_with_fuel(p2, 8);
                lemma_p2_mono(66, (-self.e) as nat);
                let d = p2((-self.e) as nat) as int;
                vstd::arithmetic::div_mod::lemma_basic_div(2 * (self.m as int) + d, 2 * d);
            }
            return hold(self.neg, 0);
        }
        let d: u128 = power_of_two((-self.e) as u32);
        proof {
            lemma_p2_values();
            lemma_p2_sum(60, 6);
            reveal_with_fuel(p2, 8);
            lemma_p2_mono((-self.e) as nat, 66);
        }
        hold(self.neg, (2 * (self.m as u128) + d) / (2 * d))
    }
}

/// A floating-point number: finite, an infinity of either sign, or not a number.
#[derive(Clone, Copy, Debug, PartialEq, Eq, Structural)]
pub enum Number {
    Finite(Double),
    Infinite(bool),
    Nan,
}

/// A double of sixty-four bits.
pub open spec fn ordinary(d: Double) -> bool {
    d.wf() && -1130 <= d.e <= 971
}

impl Number {
    /// What is finite is a double of sixty-four bits.
    pub open spec fn wf(&self) -> bool {
        match *self {
            Number::Finite(d) => ordinary(d),
            _ => true,
        }
    }

    /// The number of a 64-bit pattern.
    pub fn from_bits(bits: u64) -> (r: Number)
        ensures
            r.wf(),
            r is Finite <==> Double::decode(bits) is Some,
            r is Nan <==> Double::decode(bits) is None && bits % 0x10_0000_0000_0000 != 0,
            r matches Number::Infinite(neg) ==> neg == (bits >= 0x8000_0000_0000_0000),
            r matches Number::Finite(d) ==> {
                let (neg, m, e) = Double::decode(bits)->0;
                &&& d.neg == neg
                &&& m == 0 ==> d.m == 0
                &&& m != 0 ==> d.e <= e && d.m == m * p2((e - d.e) as nat)
            },
    {
        match Double::from_bits(bits) {
            Some(d) => Number::Finite(d),
            None => if bits % 0x10_0000_0000_0000 != 0 {
                Number::Nan
            } else {
                Number::Infinite(bits >= 0x8000_0000_0000_0000)
            },
        }
    }

    /// The number printed with `k` decimals.
    pub open spec fn text(&self, k: nat) -> Seq<char> {
        match *self {
            Number::Finite(d) => d.text(k),
            Number::Infinite(neg) => if neg { "-inf"@ } else { "inf"@ },
            Number::Nan => "NaN"@,
        }
    }

    /// Appends the number with `k` decimals.
    pub fn push_text(&self, out: &mut String, k: u32)
        requires
            self.wf(),
            k <= 5,
        ensures
            final(out)@ == old(out)@ + self.text(k as nat),
    {
        match self {
            Number::Finite(d) => d.push_text(out, k),
            Number::Infinite(neg) => out.append(if *neg { "-inf" } else { "inf" }),
            Number::Nan => out.append("NaN"),
        }
    }

    /// The integer part, held to what sixty-four bits with a sign can say; zero of
    /// what is not a number.
    pub open spec fn truncated(&self) -> int {
        match *self {
            Number::Finite(d) => d.truncated(),
            Number::Infinite(neg) => if neg { i64::MIN as int } else { i64::MAX as int },
            Number::Nan => 0,
        }
    }

    /// See [`Number::truncated`].
    pub fn to_truncated(&self) -> (i: i64)
        requires
            self.wf(),
        ensures
            i == self.truncated(),
    {
        match self {
            Number::Finite(d) => d.to_truncated(),
            Number::Infinite(neg) => if *neg { i64::MIN } else { i64::MAX },
            Number::Nan => 0,
        }
    }

    /// A fraction in per cent: the nearest whole one, held to what sixty-four bits with
    /// a sign can say; zero of what is not a number.
    pub open spec fn percent(&self) -> int {
        match *self {
            Number::Finite(d) => product(d, hundred()).rounded(),
            Number::Infinite(neg) => if neg { i64::MIN as int } else { i64::MAX as int },
            Number::Nan => 0,
        }
    }

    /// See [`Number::percent`].
    pub fn to_percent(&self) -> (i: i64)
        requires
            self.wf(),
        ensures
            i == self.percent(),
    {
        match self {
            Number::Finite(d) => d.mul(&Double::hundred()).to_rounded(),
            Number::Infinite(neg) => if *neg { i64::MIN } else { i64::MAX },
            Number::Nan => 0,
        }
    }

    /// Whether the number is at least `n`.
    pub open spec fn reaches(&self, n: nat) -> bool {
        match *self {
            Number::Finite(d) => !d.neg && d.floor() >= n,
            Number::Infinite(neg) => !neg,
            Number::Nan => false,
        }
    }

    /// See [`Number::reaches`].
    pub fn at_least(&self, n: u64) -> (r: bool)
        requires
            self.wf(),
            n > 0,
        ensures
            r == self.reaches(n as nat),
    {
        match self {
            Number::Finite(d) => !d.neg && d.at_least(n),
            Number::Infinite(neg) => !*neg,
            Number::Nan => false,
        }
    }
}

/// The value of `a` is below that of `b`, both taken without their signs.
pub open spec fn below(a: Double, b: Double) -> bool {
    a.m as nat * up(a.e - b.e) < b.m as nat * down(a.e - b.e)
}

impl Double {
    /// See [`below`].
    pub fn is_below(&self, b: &Double) -> (r: bool)
        requires
            self.wf(),
            b.wf(),
        ensures
            r == below(*self, *b),
    {
        let ghost k = self.e - b.e;
        proof {
            lemma_up_down_pos(k);
            let (x, y, g, h) = (self.m as nat, b.m as nat, up(k), down(k));
            if x == 0 {
                assert(0 * g == 0) by (nonlinear_arith);
            }
            if y == 0 {
                assert(0 * h == 0) by (nonlinear_arith);
                assert(x * g >= 0) by (nonlinear_arith);
            }
            if x == 0 && y > 0 {
                assert(y * h > 0) by (nonlinear_arith)
                    requires
                        y > 0,
                        h >= 1,
                ;
            }
            if x > 0 && y > 0 && k == 0 {
                reveal_with_fuel(p2, 2);
                assert(x * 1 == x && y * 1 == y) by (nonlinear_arith);
            }
            if x > 0 && y > 0 && k > 0 {
                reveal_with_fuel(p2, 2);
                lemma_p2_mono(1, k as nat);
                assert(x * g >= y * 1) by (nonlinear_arith)
                    requires
                        x >= 0x10_0000_0000_0000,
                        y < 0x20_0000_0000_0000,
                        g >= 2,
                ;
            }
            if x > 0 && y > 0 && k < 0 {
                reveal_with_fuel(p2, 2);
                lemma_p2_mono(1, (-k) as nat);
                assert(x * 1 < y * h) by (nonlinear_arith)
                    requires
                        x < 0x20_0000_0000_0000,
                        y >= 0x10_0000_0000_0000,
                        h >= 2,
                ;
            }
        }
        if b.m == 0 {
            false
        } else if self.m == 0 {
            true
        } else if self.e != b.e {
            self.e < b.e
        } else {
            self.m < b.m
        }
    }

    /// The sum of two doubles that are not negative: the other one where one is
    /// zero.
    pub open spec fn joined(a: Double, b: Double) -> Double {
        if a.m == 0 {
            b
        } else if b.m == 0 {
            a
        } else {
            sum(a, b)
        }
    }

    /// See [`Double::joined`].
    pub fn join(&self, b: &Double) -> (r: Double)
        requires
            self.wf(),
            b.wf(),
            !self.neg,
            !b.neg,
            -1500 <= self.e <= 1500,
            -1500 <= b.e <= 1500,
        ensures
            r == Double::joined(*self, *b),
            r.wf(),
            !r.neg,
            r.e <= self.e + 2 || r.e <= b.e + 2,
            r.e >= self.e || r.e >= b.e,
            r.m == 0 <==> self.m == 0 && b.m == 0,
            self.m > 0 && self.e - b.e >= 56 ==> r == *self,
    {
        if self.m == 0 {
            *b
        } else if b.m == 0 {
            *self
        } else if self.e >= b.e {
            self.plus(b)
        } else {
            b.plus(self)
        }
    }
}

/// Every integer below two to the power 53 is its own nearest double.
pub proof fn law_small_integers_are_exact(n: nat)
    requires
        n < 0x20_0000_0000_0000,
    ensures
        nearest(n, 1, 0).0 * up(nearest(n, 1, 0).1) == n * down(nearest(n, 1, 0).1),
        -52 <= nearest(n, 1, 0).1 <= 0,
        nearest(n, 1, 0).0 < 0x20_0000_0000_0000,
{
    if n == 0 {
        assert(0 * up(0) == 0) by (nonlinear_arith);
    } else {
        assert(n * p2(0) == n) by (nonlinear_arith)
            requires
                p2(0) == 1,
        ;
        lemma_exact_from(n, 0);
    }
}

proof fn lemma_exact_from(n: nat, t: nat)
    requires
        0 < n,
        n * p2(t) < 0x20_0000_0000_0000,
        t <= 52,
    ensures
        nearest(n, 1, 0).0 * up(nearest(n, 1, 0).1) == n * down(nearest(n, 1, 0).1),
        -52 <= nearest(n, 1, 0).1 <= 0,
        nearest(n, 1, 0).0 < 0x20_0000_0000_0000,
    decreases 0x20_0000_0000_0000 - n * p2(t),
{
    lemma_p2_values();
    lemma_p2_pos(t);
    let v = n * p2(t);
    assert(v >= 1) by (nonlinear_arith)
        requires
            v == n * p2(t),
            n >= 1,
            p2(t) >= 1,
    ;
    if v < 0x10_0000_0000_0000 {
        assert(p2(t + 1) == 2 * p2(t));
        let g = p2(t);
        assert(n * (2 * g) == 2 * (n * g)) by (nonlinear_arith);
        assert(g <= v) by (nonlinear_arith)
            requires
                v == n * g,
                n >= 1,
                g >= 1,
        ;
        assert(t < 52);
        lemma_exact_from(n, t + 1);
    } else {
        let k = -(t as int);
        assert(up(k) == 1) by {
            reveal_with_fuel(p2, 2);
        }
        assert(down(k) == p2(t)) by {
            reveal_with_fuel(p2, 2);
        }
        assert(n * up(0) == n) by (nonlinear_arith)
            requires
                up(0) == 1,
        ;
        assert(fits(n, 1, k));
        let kk = choose|k: int| #[trigger] fits(n, 1, k);
        lemma_fits_unique(n, 1, k, kk);
        assert(half_even(v, 1) == v);
        assert(v * 1 == v);
    }
}

/// Rounding gives an integer that no other is nearer than, and of two that are equally near
/// the even one.
pub proof fn law_rounding_gives_the_nearest(n: nat, d: nat)
    requires
        d > 0,
    ensures
        -(d as int) <= 2 * (n - half_even(n, d) * d) <= d,
        2 * (n - half_even(n, d) * d) == d || 2 * (half_even(n, d) * d - n) == d ==> half_even(n, d) % 2 == 0,
{
    let (q, r) = (n / d, n % d);
    assert(n == q * d + r && r < d) by (nonlinear_arith)
        requires
            q == n / d,
            r == n % d,
            d > 0,
    ;
    assert((q + 1) * d == q * d + d) by (nonlinear_arith);
}

/// What is printed of a value is the value to that many decimals: the digits say the
/// nearest number of units, and there are exactly that many behind the point.
pub proof fn law_decimals_say_the_value(neg: bool, n: nat, k: nat)
    requires
        k > 0,
    ensures
        ({
            let t = fixed(neg, n, k);
            let body = if neg { t.skip(1) } else { t };
            &&& neg ==> t[0] == '-'
            &&& body.len() > k + 1
            &&& body[body.len() - k - 1] == '.'
            &&& crate::text::all_digits(body.take(body.len() - k - 1))
            &&& crate::text::all_digits(body.skip(body.len() - k))
            &&& crate::text::digits_value(body.take(body.len() - k - 1)) * p10(k) + crate::text::digits_value(body.skip(body.len() - k)) == n
        }),
{
    let t = fixed(neg, n, k);
    let g = p10(k);
    lemma_p10_is_pow(k);
    let body = if neg { t.skip(1) } else { t };
    let whole = dec(n / g);
    let part = zero_fill(dec(n % g), k);
    assert(n == (n / g) * g + n % g && n % g < g) by (nonlinear_arith)
        requires
            g > 0,
    ;
    crate::text::lemma_dec_reads_back(n / g);
    crate::text::lemma_dec_len(n / g);
    crate::text::lemma_zero_fill_reads_back(n % g, k);
    crate::text::lemma_dec_fits(n % g, k);
    assert(body =~= whole + seq!['.'] + part);
    assert(body.take(body.len() - k - 1) =~= whole);
    assert(body.skip(body.len() - k) =~= part);
}

proof fn lemma_p10_is_pow(k: nat)
    ensures
        p10(k) == vstd::arithmetic::power::pow(10, k),
        p10(k) > 0,
    decreases k,
{
    reveal(vstd::arithmetic::power::pow);
    if k > 0 {
        lemma_p10_is_pow((k - 1) as nat);
    }
}

/// A value rounds to the nearest integer, and away from zero where two are as near; its whole
/// part is the largest integer that does not exceed it.
pub proof fn law_a_value_rounds_to_the_nearest_integer(d: Double)
    requires
        !d.neg,
        d.m as nat * up(d.e as int) / down(d.e as int) < 0x7fff_ffff_ffff_ffff,
    ensures
        ({
            let (n, k) = (d.m as nat * up(d.e as int), down(d.e as int));
            &&& 2 * d.rounded() * k <= 2 * n + k < 2 * (d.rounded() + 1) * k
            &&& d.floor() * k <= n < (d.floor() + 1) * k
            &&& d.truncated() == d.floor()
            &&& (Double { neg: true, ..d }).truncated() == -d.truncated()
            &&& (Double { neg: true, ..d }).rounded() == -d.rounded()
        }),
{
    let (n, k) = (d.m as nat * up(d.e as int), down(d.e as int));
    lemma_up_down_pos(d.e as int);
    let (r, f) = ((2 * n + k) / (2 * k), n / k);
    assert(r * (2 * k) <= 2 * n + k < (r + 1) * (2 * k)) by (nonlinear_arith)
        requires
            r == (2 * n + k) / (2 * k),
            k > 0,
    ;
    assert(f * k <= n < (f + 1) * k) by (nonlinear_arith)
        requires
            f == n / k,
            k > 0,
    ;
    assert(r <= f + 1) by (nonlinear_arith)
        requires
            r * (2 * k) <= 2 * n + k,
            n < (f + 1) * k,
            k > 0,
    ;
    assert(2 * r * k == r * (2 * k) && 2 * (r + 1) * k == (r + 1) * (2 * k)) by (nonlinear_arith);
}

/// The double nearest to a fraction has fifty-three bits, and no more than half of the last of
/// them lies between the two.
pub proof fn law_the_nearest_double_is_near(n: nat, d: nat, k: int)
    requires
        n > 0,
        d > 0,
        fits(n, d, k),
    ensures
        ({
            let (m, e) = near(n, d);
            let (a, b) = (n * down(k), d * up(k));
            &&& e == k || e == k + 1
            &&& e == k ==> p2(52) <= m < p2(53) && -(b as int) <= 2 * (a - m * b) <= b
            &&& e == k + 1 ==> m == p2(52) && -(b as int) <= 2 * (a - p2(53) * b) <= b
        }),
{
    let c = choose|c: int| #[trigger] fits(n, d, c);
    lemma_fits_unique(n, d, k, c);
    let (a, b) = (n * down(k), d * up(k));
    lemma_up_down_pos(k);
    assert(b > 0) by (nonlinear_arith)
        requires
            b == d * up(k),
            d > 0,
            up(k) > 0,
    ;
    law_rounding_gives_the_nearest(a, b);
    let m = half_even(a, b);
    lemma_p2_values();
    assert(p2(52) <= m <= p2(53)) by {
        let (lo, hi) = (p2(52), p2(53));
        assert(lo <= m <= hi) by (nonlinear_arith)
            requires
                lo * b <= a,
                a < hi * b,
                -(b as int) <= 2 * (a - m * b) <= b,
                b > 0,
        ;
    }
}

/// A pattern of sixty-four bits says its sign, its exponent and its fraction; all ones in the
/// exponent say no finite number.
pub proof fn law_a_pattern_says_its_parts(neg: bool, exp: u64, frac: u64)
    requires
        exp < 2048,
        frac < 0x10_0000_0000_0000,
    ensures
        ({
            let bits = ((if neg { 0x8000_0000_0000_0000int } else { 0 }) + exp * 0x10_0000_0000_0000 + frac) as u64;
            &&& exp == 2047 ==> Double::decode(bits) is None
            &&& exp == 0 ==> Double::decode(bits) == Some((neg, frac as nat, -1074int))
            &&& 0 < exp < 2047 ==> Double::decode(bits) == Some((neg, (frac + 0x10_0000_0000_0000) as nat, exp - 1075))
        }),
{
    let v = (if neg { 0x8000_0000_0000_0000int } else { 0 }) + exp * 0x10_0000_0000_0000 + frac;
    let bits = v as u64;
    assert(bits == v);
    assert(bits % 0x10_0000_0000_0000 == frac);
    assert((bits / 0x10_0000_0000_0000) % 2048 == exp);
}

} // verus!
