//! A byte count as a person reads it: the number of a double, scaled by
//! powers of 1024 and written to one decimal place.
//!
//! The card divides a count held as a double, so what it prints is decided by
//! how a double holds the count: rounded to 53 significant bits, ties to even.
//! Dividing by 1024 only moves the exponent, so the scaled value is that
//! double over a power of two, exactly, and writing it to one place rounds
//! the exact value, ties to even. Everything here is that arithmetic done in
//! integers.

use vstd::prelude::*;

use crate::text::{decimal, decimal_chars, digit};

verus! {

/// Two to the power `e`.
pub open spec fn two_to(e: nat) -> nat
    decreases e,
{
    if e == 0 {
        1
    } else {
        2 * two_to((e - 1) as nat)
    }
}

/// How many binary digits `n` has.
pub open spec fn bit_len(n: nat) -> nat
    decreases n,
{
    if n == 0 {
        0
    } else {
        1 + bit_len(n / 2)
    }
}

/// How many low bits of `n` a double has no room for beside its 53
/// significant ones.
pub open spec fn excess_bits(n: nat) -> nat {
    if bit_len(n) > 53 {
        (bit_len(n) - 53) as nat
    } else {
        0
    }
}

/// `a / d` rounded to the nearest integer, a tie going to the even one.
pub open spec fn round_half_even(a: nat, d: nat) -> nat
    recommends
        d > 0,
{
    let q = a / d;
    let r = a % d;
    if 2 * r > d || (2 * r == d && q % 2 == 1) {
        q + 1
    } else {
        q
    }
}

/// The value of `n` once held as a double.
pub open spec fn double_of(n: nat) -> nat {
    round_half_even(n, two_to(excess_bits(n))) * two_to(excess_bits(n))
}

/// How many times a value is divided by 1024 before it is shown: once at
/// least, and again while what is left is 1024 or more, up to five times.
pub open spec fn scale_of(v: nat) -> nat {
    if v < two_to(20) {
        1
    } else if v < two_to(30) {
        2
    } else if v < two_to(40) {
        3
    } else if v < two_to(50) {
        4
    } else {
        5
    }
}

/// The unit a value divided `k` times by 1024 is in.
pub open spec fn unit_name(k: nat) -> Seq<char> {
    if k == 1 {
        "KiB"@
    } else if k == 2 {
        "MiB"@
    } else if k == 3 {
        "GiB"@
    } else if k == 4 {
        "TiB"@
    } else {
        "PiB"@
    }
}

/// `v` divided `k` times by 1024, in tenths, rounded as one decimal place is.
pub open spec fn tenths(v: nat, k: nat) -> nat {
    round_half_even(10 * v, two_to(10 * k))
}

/// A count of tenths written with one decimal place.
pub open spec fn one_place(t: nat) -> Seq<char> {
    decimal(t / 10).push('.').push(digit(t % 10))
}

/// Two to the `a + b` is two to the `a` times two to the `b`.
proof fn lemma_two_to_adds(a: nat, b: nat)
    ensures
        two_to(a + b) == two_to(a) * two_to(b),
    decreases b,
{
    if b > 0 {
        lemma_two_to_adds(a, (b - 1) as nat);
        assert(two_to(a + b) == 2 * two_to((a + b - 1) as nat));
        assert(two_to(b) == 2 * two_to((b - 1) as nat));
        let x = two_to(a);
        let y = two_to((b - 1) as nat);
        assert((a + (b - 1) as nat) as nat == (a + b - 1) as nat);
        assert(two_to((a + b - 1) as nat) == x * y);
        assert(2 * (x * y) == x * (2 * y)) by (nonlinear_arith);
        assert(two_to(a + b) == x * two_to(b));
    } else {
        assert(two_to(b) == 1);
        assert(a + b == a);
    }
}

/// The powers of two this file names by value.
proof fn lemma_two_to_values()
    ensures
        two_to(10) == 1024,
        two_to(11) == 2048,
        two_to(20) == 1048576,
        two_to(30) == 1073741824,
        two_to(40) == 1099511627776,
        two_to(50) == 1125899906842624,
        two_to(53) == 0x20_0000_0000_0000,
        two_to(64) == 0x1_0000_0000_0000_0000,
{
    reveal_with_fuel(two_to, 12);
    assert(two_to(3) == 8);
    assert(two_to(4) == 16);
    assert(two_to(10) == 1024);
    assert(two_to(11) == 2048);
    lemma_two_to_adds(10, 10);
    lemma_two_to_adds(20, 10);
    lemma_two_to_adds(30, 10);
    lemma_two_to_adds(40, 10);
    lemma_two_to_adds(50, 3);
    lemma_two_to_adds(50, 10);
    lemma_two_to_adds(60, 4);
}

proof fn lemma_two_to_pos(e: nat)
    ensures
        two_to(e) >= 1,
    decreases e,
{
    if e > 0 {
        lemma_two_to_pos((e - 1) as nat);
    }
}

proof fn lemma_two_to_grows(a: nat, b: nat)
    requires
        a <= b,
    ensures
        two_to(a) <= two_to(b),
    decreases b,
{
    if a < b {
        lemma_two_to_grows(a, (b - 1) as nat);
    }
}

proof fn lemma_below_bit_len(n: nat)
    ensures
        n < two_to(bit_len(n)),
    decreases n,
{
    if n > 0 {
        lemma_below_bit_len(n / 2);
    }
}

proof fn lemma_bit_len_bound(n: nat, e: nat)
    requires
        n < two_to(e),
    ensures
        bit_len(n) <= e,
    decreases n,
{
    if n > 0 {
        assert(e > 0);
        lemma_bit_len_bound(n / 2, (e - 1) as nat);
    }
}

/// The number of binary digits of `n`.
fn bit_length(n: u64) -> (b: u64)
    ensures
        b == bit_len(n as nat),
        b <= 64,
{
    proof {
        lemma_two_to_values();
        lemma_bit_len_bound(n as nat, 64);
    }
    let mut m: u64 = n;
    let mut b: u64 = 0;
    while m > 0
        invariant
            b + bit_len(m as nat) == bit_len(n as nat),
            bit_len(n as nat) <= 64,
        decreases m,
    {
        m = m / 2;
        b = b + 1;
    }
    b
}

/// Two to the power `e`, for an exponent small enough to hold.
fn power_of_two(e: u64) -> (p: u128)
    requires
        e <= 64,
    ensures
        p == two_to(e as nat),
{
    proof {
        lemma_two_to_values();
    }
    let mut p: u128 = 1;
    let mut i: u64 = 0;
    while i < e
        invariant
            i <= e <= 64,
            p == two_to(i as nat),
            two_to(64) == 0x1_0000_0000_0000_0000,
        decreases e - i,
    {
        proof {
            lemma_two_to_grows((i + 1) as nat, 64);
        }
        p = p * 2;
        i = i + 1;
    }
    p
}

/// `a / d`, rounded to nearest with ties to even.
fn rounded(a: u128, d: u128) -> (r: u128)
    requires
        d > 0,
        a + d <= u128::MAX,
    ensures
        r == round_half_even(a as nat, d as nat),
{
    let q = a / d;
    let rem = a % d;
    proof {
        assert(q * d <= a) by (nonlinear_arith)
            requires
                q == a / d,
                d > 0,
        ;
        assert(q + 1 <= a + d) by (nonlinear_arith)
            requires
                q == a / d,
                d > 0,
        ;
    }
    if rem > d - rem || (rem == d - rem && q % 2 == 1) {
        q + 1
    } else {
        q
    }
}

/// The value `n` takes on as a double.
pub fn as_double(n: u64) -> (v: u128)
    ensures
        v == double_of(n as nat),
        v <= 0x1_0000_0000_0000_0000,
{
    let b = bit_length(n);
    let s: u64 = if b > 53 {
        b - 53
    } else {
        0
    };
    let p = power_of_two(s);
    proof {
        lemma_two_to_pos(s as nat);
        lemma_two_to_values();
        lemma_two_to_grows(s as nat, 11);
    }
    let m = rounded(n as u128, p);
    proof {
        let q = n as nat / p as nat;
        assert(q * p <= n) by (nonlinear_arith)
            requires
                q == n as nat / p as nat,
                p > 0,
        ;
        assert(m * p <= n + p) by (nonlinear_arith)
            requires
                m <= q + 1,
                q * p <= n,
                p > 0,
        ;
    }
    let v = m * p;
    proof {
        if v > 0x1_0000_0000_0000_0000 {
            lemma_v_bound(n as nat, s as nat, p as nat, m as nat);
        }
    }
    v
}

/// A double of a 64-bit count is at most two to the 64.
proof fn lemma_v_bound(n: nat, s: nat, p: nat, m: nat)
    requires
        n < 0x1_0000_0000_0000_0000,
        p == two_to(s),
        s == excess_bits(n),
        m == round_half_even(n, p),
    ensures
        m * p <= 0x1_0000_0000_0000_0000,
{
    lemma_two_to_values();
    lemma_two_to_pos(s);
    let q = n / p;
    let r = n % p;
    if bit_len(n) <= 53 {
        assert(s == 0);
        assert(p == 1);
        assert(q == n && r == 0) by (nonlinear_arith)
            requires
                q == n / p,
                r == n % p,
                p == 1,
        ;
        assert(m == n);
        assert(m * p == n);
    } else {
        assert(s + 53 == bit_len(n));
        lemma_bit_len_bound(n, 64);
        assert(s <= 11);
        lemma_two_to_adds(53, s);
        lemma_below_bit_len(n);
        lemma_two_to_grows(bit_len(n), 64);
        // n < 2^(53 + s) = 2^53 * p, so n / p < 2^53 and m <= 2^53.
        assert(two_to(53) * p == two_to(bit_len(n)));
        assert(q < two_to(53)) by (nonlinear_arith)
            requires
                q == n / p,
                n < two_to(53) * p,
                p > 0,
        ;
        assert(m <= two_to(53));
        assert(m * p <= two_to(53) * p) by (nonlinear_arith)
            requires
                m <= two_to(53),
                p > 0,
        ;
    }
}

/// How many times the card divides `v` by 1024.
pub fn scale_for(v: u128) -> (k: u128)
    ensures
        k == scale_of(v as nat),
        1 <= k <= 5,
{
    proof {
        lemma_two_to_values();
    }
    if v < 1048576 {
        1
    } else if v < 1073741824 {
        2
    } else if v < 1099511627776 {
        3
    } else if v < 1125899906842624 {
        4
    } else {
        5
    }
}

/// The unit for a value divided `k` times.
pub fn unit_for(k: u128) -> (u: &'static str)
    requires
        1 <= k <= 5,
    ensures
        u@ == unit_name(k as nat),
{
    if k == 1 {
        proof {
            reveal_strlit("KiB");
        }
        "KiB"
    } else if k == 2 {
        proof {
            reveal_strlit("MiB");
        }
        "MiB"
    } else if k == 3 {
        proof {
            reveal_strlit("GiB");
        }
        "GiB"
    } else if k == 4 {
        proof {
            reveal_strlit("TiB");
        }
        "TiB"
    } else {
        proof {
            reveal_strlit("PiB");
        }
        "PiB"
    }
}

/// `v` divided `k` times by 1024, in tenths.
pub fn tenths_of(v: u128, k: u128) -> (t: u128)
    requires
        v <= 0x1_0000_0000_0000_0000,
        1 <= k <= 5,
    ensures
        t == tenths(v as nat, k as nat),
{
    let d: u128 = if k == 1 {
        1024
    } else if k == 2 {
        1048576
    } else if k == 3 {
        1073741824
    } else if k == 4 {
        1099511627776
    } else {
        1125899906842624
    };
    proof {
        lemma_two_to_values();
        assert(d == two_to(10 * k as nat));
    }
    rounded(10 * v, d)
}

/// A count of tenths, written to one decimal place.
pub fn one_place_chars(t: u128) -> (s: Vec<char>)
    ensures
        s@ == one_place(t as nat),
{
    let mut s = decimal_chars(t / 10);
    s.push('.');
    s.push(crate::text::digit_char(t % 10));
    s
}

} // verus!
