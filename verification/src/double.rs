//! The order of double-precision numbers, by their bits.

use vstd::prelude::*;

verus! {

/// Whether bits are those of no number.
pub open spec fn is_nan(bits: u64) -> bool {
    0x7ff0_0000_0000_0000 < bits < 0x8000_0000_0000_0000 || 0xfff0_0000_0000_0000 < bits
}

/// Where a number stands in the order of the numbers. Both zeros stand at zero.
pub open spec fn place(bits: u64) -> int {
    if bits < 0x8000_0000_0000_0000 {
        bits as int
    } else {
        0x8000_0000_0000_0000 - bits
    }
}

/// Where a number stands in the order of the numbers, if it is one.
pub open spec fn standing(bits: u64) -> Option<int> {
    if is_nan(bits) {
        None
    } else {
        Some(place(bits))
    }
}

/// A power of two.
pub open spec fn power(k: nat) -> nat
    decreases k,
{
    if k == 0 {
        1
    } else {
        2 * power((k - 1) as nat)
    }
}

/// The exponent of the greatest power of two that is not above `m`.
pub open spec fn exponent(m: nat) -> nat
    decreases m,
{
    if m < 2 {
        0
    } else {
        1 + exponent(m / 2)
    }
}

/// `m` in units of `unit`, rounded to the nearest whole number and, halfway, to the even one.
pub open spec fn rounded(m: nat, unit: nat) -> nat {
    let q = m / unit;
    let rest = m % unit;
    if 2 * rest > unit || (2 * rest == unit && q % 2 == 1) {
        q + 1
    } else {
        q
    }
}

/// Where the number nearest to `m` stands: its significand has 53 bits, and a carry out of them
/// goes into the exponent.
pub open spec fn place_of(m: nat) -> nat {
    let e = exponent(m);
    if m == 0 {
        0
    } else if e <= 52 {
        (e + 1022) * 0x10_0000_0000_0000 + m * power((52 - e) as nat)
    } else {
        (e + 1022) * 0x10_0000_0000_0000 + rounded(m, power((e - 52) as nat))
    }
}

/// Where the number nearest to an integer stands.
pub open spec fn integer_place(n: int) -> int {
    if n < 0 {
        -(place_of((-n) as nat) as int)
    } else {
        place_of(n as nat) as int
    }
}

/// Powers of two grow.
proof fn lemma_power_grows(a: nat, b: nat)
    requires
        a <= b,
    ensures
        1 <= power(a) <= power(b),
    decreases b,
{
    if b > 0 && a < b {
        lemma_power_grows(a, (b - 1) as nat);
    } else if a > 0 {
        lemma_power_grows((a - 1) as nat, (b - 1) as nat);
    }
}

/// A number below a power of two has a smaller exponent.
proof fn lemma_exponent(m: nat, k: nat)
    requires
        k >= 1,
        m < power(k),
    ensures
        exponent(m) < k,
    decreases k,
{
    if m >= 2 {
        if k == 1 {
            assert(power(1) == 2) by {
                reveal_with_fuel(power, 2);
            }
        } else {
            lemma_exponent(m / 2, (k - 1) as nat);
        }
    }
}

/// A power of two.
fn power_of(k: u64) -> (r: u128)
    requires
        k <= 64,
    ensures
        r == power(k as nat),
        1 <= r <= 0x1_0000_0000_0000_0000,
{
    assert(power(64) == 0x1_0000_0000_0000_0000) by {
        reveal_with_fuel(power, 65);
    }
    let mut r: u128 = 1;
    let mut i: u64 = 0;
    while i < k
        invariant
            i <= k <= 64,
            r == power(i as nat),
            power(64) == 0x1_0000_0000_0000_0000,
        decreases k - i,
    {
        proof {
            lemma_power_grows(i as nat, 64);
        }
        i += 1;
        r = 2 * r;
    }
    proof {
        lemma_power_grows(k as nat, 64);
    }
    r
}

/// Where the number nearest to `m` stands.
fn find_place(m: u64) -> (r: u128)
    ensures
        r == place_of(m as nat),
        r <= 0x100_0000_0000_0000_0000_0000_0000_0000,
{
    if m == 0 {
        return 0;
    }
    proof {
        assert(power(64) == 0x1_0000_0000_0000_0000) by {
            reveal_with_fuel(power, 65);
        }
        lemma_exponent(m as nat, 64);
    }
    let mut rest: u64 = m;
    let mut e: u64 = 0;
    while rest >= 2
        invariant
            rest >= 1,
            e + exponent(rest as nat) == exponent(m as nat),
            exponent(m as nat) < 64,
        decreases rest,
    {
        e += 1;
        rest = rest / 2;
    }
    let base: u128 = (e + 1022) as u128 * 0x10_0000_0000_0000;
    if e <= 52 {
        let unit = power_of(52 - e);
        assert(m as int * unit as int <= 0xffff_ffff_ffff_ffff * 0x10_0000_0000_0000) by {
            assert(power(52) == 0x10_0000_0000_0000) by {
                reveal_with_fuel(power, 53);
            }
            lemma_power_grows((52 - e) as nat, 52);
            assert(m as int * unit as int <= 0xffff_ffff_ffff_ffff * 0x10_0000_0000_0000)
                by (nonlinear_arith)
                requires
                    0 <= m <= 0xffff_ffff_ffff_ffff,
                    0 <= unit <= 0x10_0000_0000_0000,
            ;
        }
        base + (m as u128) * unit
    } else {
        let unit = power_of(e - 52);
        let q: u128 = (m as u128) / unit;
        let over: u128 = (m as u128) % unit;
        assert(q <= m) by (nonlinear_arith)
            requires
                q == m as int / unit as int,
                unit >= 1,
        ;
        if 2 * over > unit || (2 * over == unit && q % 2 == 1) {
            base + q + 1
        } else {
            base + q
        }
    }
}

/// Where a number stands in the order of the numbers, if it is one.
pub fn double_standing(bits: u64) -> (r: Option<i128>)
    ensures
        match r {
            Some(p) => standing(bits) == Some(p as int),
            None => standing(bits) is None,
        },
{
    if (0x7ff0_0000_0000_0000 < bits && bits < 0x8000_0000_0000_0000) || 0xfff0_0000_0000_0000
        < bits {
        None
    } else if bits < 0x8000_0000_0000_0000 {
        Some(bits as i128)
    } else {
        Some(0x8000_0000_0000_0000 - bits as i128)
    }
}

/// Where the number nearest to an integer stands.
pub fn integer_standing(n: i64) -> (r: i128)
    ensures
        r == integer_place(n as int),
{
    if n < 0 {
        let m: u64 = (-(n as i128)) as u64;
        -(find_place(m) as i128)
    } else {
        find_place(n as u64) as i128
    }
}

} // verus!
