//! Doubles held to the twenty-four bits of a single-precision number.

use vstd::prelude::*;
use crate::double::{half_even, of_nat, p2, power_of_two, steps, Double, Number};

verus! {

/// A double rounded to twenty-four bits, ties to even; the exponent is free.
pub open spec fn single(d: Double) -> Double {
    if d.m == 0 {
        d
    } else {
        let h = half_even(d.m as nat, 0x2000_0000);
        if h == 0x100_0000 {
            Double { neg: d.neg, m: 0x10_0000_0000_0000, e: (d.e + 1) as i32 }
        } else {
            Double { neg: d.neg, m: (h * 0x2000_0000) as u64, e: d.e }
        }
    }
}

/// How often a count has to be halved to lie within twenty-four bits.
pub open spec fn halvings(n: nat) -> nat
    decreases n,
{
    if n < 0x100_0000 {
        0
    } else {
        1 + halvings(n / 2)
    }
}

/// A count rounded to twenty-four bits, ties to even.
pub open spec fn single_of(n: nat) -> Double {
    if n < 0x100_0000 {
        of_nat(n)
    } else {
        let k = halvings(n);
        let h = half_even(n, p2(k));
        if h == 0x100_0000 {
            Double { neg: false, m: 0x10_0000_0000_0000, e: (k - 28) as i32 }
        } else {
            Double { neg: false, m: (h * 0x2000_0000) as u64, e: (k - 29) as i32 }
        }
    }
}

/// See [`single`].
pub fn to_single(d: &Double) -> (r: Double)
    requires
        d.wf(),
        d.e < 4000,
    ensures
        r == single(*d),
        r.wf(),
        r.m == 0 <==> d.m == 0,
        r.neg == d.neg,
        d.e <= r.e <= d.e + 1,
{
    if d.m == 0 {
        return *d;
    }
    let q: u64 = d.m / 0x2000_0000;
    let r: u64 = d.m % 0x2000_0000;
    let h: u64 = if 2 * r > 0x2000_0000 || (2 * r == 0x2000_0000 && q % 2 == 1) { q + 1 } else { q };
    assert(h == half_even(d.m as nat, 0x2000_0000));
    if h == 0x100_0000 {
        Double { neg: d.neg, m: 0x10_0000_0000_0000, e: d.e + 1 }
    } else {
        Double { neg: d.neg, m: h * 0x2000_0000, e: d.e }
    }
}

/// See [`single_of`].
pub fn single_from(n: u64) -> (r: Double)
    ensures
        r == single_of(n as nat),
        r.wf(),
        !r.neg,
        n > 0 ==> r.m > 0,
        n == 0 ==> r.m == 0,
        -60 <= r.e <= 12,
{
    if n < 0x100_0000 {
        return Double::from_u64(n);
    }
    let mut x: u64 = n;
    let mut d: u64 = 1;
    let mut k: u32 = 0;
    assert(n as nat / 1 == n);
    proof {
        reveal_with_fuel(p2, 21);
        crate::double::lemma_p2_sum(20, 20);
        crate::double::lemma_p2_sum(20, 19);
        assert(p2(20) == 0x10_0000);
        assert(p2(19) == 0x8_0000);
    }
    while x >= 0x100_0000
        invariant
            x == n as nat / (d as nat),
            d == p2(k as nat),
            d >= 1,
            k <= 40,
            n >= 0x100_0000,
            x >= 0x80_0000,
            halvings(n as nat) == k + halvings(x as nat),
            k < 40 || x < 0x100_0000,
            n as nat >= d as nat * (x as nat),
            p2(40) == 0x100_0000_0000,
            p2(39) == 0x80_0000_0000,
        decreases x,
    {
        proof {
            let (nn, dd) = (n as nat, d as nat);
            crate::double::lemma_p2_mono(k as nat, 39);
            vstd::arithmetic::div_mod::lemma_div_denominator(nn as int, dd as int, 2);
            assert(dd * 2 == 2 * dd);
            assert(p2((k + 1) as nat) == 2 * p2(k as nat));
            let half = nn / (2 * dd);
            vstd::arithmetic::div_mod::lemma_fundamental_div_mod(nn as int, (2 * dd) as int);
            assert((2 * dd) * half <= nn);
            if k + 1 == 40 {
                assert(half < 0x100_0000) by (nonlinear_arith)
                    requires
                        (2 * dd) * half <= nn,
                        nn <= 0xffff_ffff_ffff_ffff,
                        2 * dd == 0x100_0000_0000,
                ;
            }
        }
        x = x / 2;
        d = d * 2;
        k = k + 1;
    }
    let q: u64 = n / d;
    let r: u64 = n % d;
    let h: u64 = if r > d - r || (r == d - r && q % 2 == 1) { q + 1 } else { q };
    proof {
        let (nn, dd) = (n as nat, d as nat);
        assert(h == half_even(nn, dd));
        assert(k >= 1) by {
            if k == 0 {
                assert(p2(0) == 1);
                assert(nn / 1 == nn);
            }
        }
        assert(halvings(nn) == k);
    }
    if h == 0x100_0000 {
        Double { neg: false, m: 0x10_0000_0000_0000, e: k as i32 - 28 }
    } else {
        Double { neg: false, m: h * 0x2000_0000, e: k as i32 - 29 }
    }
}

/// What a double is as a single-precision number: twenty-four bits, fewer below two to
/// the power -126 where it counts steps of two to the power -149, and infinite from two to
/// the power 128.
pub open spec fn held_single(d: Double) -> Number {
    if d.m == 0 {
        Number::Finite(d)
    } else if d.e < -178 {
        Number::Finite(Double { neg: d.neg, ..steps(half_even(d.m as nat, p2((-149 - d.e) as nat)), -149) })
    } else if single(d).e > 75 {
        Number::Infinite(d.neg)
    } else {
        Number::Finite(single(d))
    }
}

/// See [`held_single`].
pub fn hold_single(d: &Double) -> (r: Number)
    requires
        d.wf(),
        d.e < 4000,
    ensures
        r == held_single(*d),
        r.wf(),
{
    if d.m == 0 {
        return Number::Finite(*d);
    }
    if d.e >= -178 {
        let s = to_single(d);
        return if s.e > 75 { Number::Infinite(d.neg) } else { Number::Finite(s) };
    }
    let g: i32 = -149 - d.e;
    proof {
        crate::double::lemma_p2_values();
    }
    let u: u64 = if g >= 54 {
        proof {
            crate::double::lemma_p2_mono(54, g as nat);
            assert(p2(54) == 2 * p2(53));
            let unit = p2(g as nat);
            vstd::arithmetic::div_mod::lemma_fundamental_div_mod_converse(d.m as int, unit as int, 0, d.m as int);
        }
        0
    } else {
        let unit: u128 = power_of_two(g as u32);
        proof {
            crate::double::lemma_p2_mono(g as nat, 53);
            crate::double::lemma_p2_mono(2, g as nat);
            reveal_with_fuel(p2, 3);
        }
        let q: u128 = (d.m as u128) / unit;
        let rest: u128 = (d.m as u128) % unit;
        assert(q <= d.m) by (nonlinear_arith)
            requires
                q == d.m as u128 / unit,
                unit >= 1,
        ;
        assert(q < 0x8_0000_0000_0000) by (nonlinear_arith)
            requires
                q == d.m as u128 / unit,
                unit >= 4,
                d.m < 0x20_0000_0000_0000,
        ;
        if rest > unit - rest || (rest == unit - rest && q % 2 == 1) {
            (q + 1) as u64
        } else {
            q as u64
        }
    };
    assert(u as nat == half_even(d.m as nat, p2(g as nat)));
    let mut r = Double::from_steps(u, -149);
    r.neg = d.neg;
    Number::Finite(r)
}

/// A number in single precision.
pub open spec fn single_number(n: Number) -> Number {
    match n {
        Number::Finite(d) => held_single(d),
        _ => n,
    }
}

/// See [`single_number`].
pub fn number_to_single(n: &Number) -> (r: Number)
    requires
        n.wf(),
    ensures
        r == single_number(*n),
        r.wf(),
{
    match n {
        Number::Finite(d) => hold_single(d),
        _ => *n,
    }
}

/// Twenty-four bits are kept of a number, the nearest that there are, and of two that are as
/// near the even one; a number that fits stays as it is.
pub proof fn law_single_precision_keeps_the_nearest(d: Double)
    requires
        0x10_0000_0000_0000 <= d.m < 0x20_0000_0000_0000,
        -4000 <= d.e <= 3000,
    ensures
        ({
            let s = single(d);
            let m: int = if s.e == d.e { s.m as int } else { 2 * s.m };
            &&& s.neg == d.neg
            &&& s.e == d.e || s.e == d.e + 1
            &&& s.m % 0x2000_0000 == 0
            &&& -0x2000_0000 <= 2 * (d.m - m) <= 0x2000_0000
            &&& d.m % 0x2000_0000 == 0 ==> s == d
        }),
{
    let h = half_even(d.m as nat, 0x2000_0000);
    crate::double::law_rounding_gives_the_nearest(d.m as nat, 0x2000_0000);
    assert(0x80_0000 <= h <= 0x100_0000);
    if h != 0x100_0000 {
        assert((h * 0x2000_0000) as u64 as int == h * 0x2000_0000);
        assert((h * 0x2000_0000) % 0x2000_0000 == 0);
    }
}

} // verus!
