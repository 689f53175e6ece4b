//! Byte counts for people: `512 B`, `2.0 KB`, `21.0 MB`.
//!
//! The figure shown is what formatting the byte count as an `f64` to one
//! decimal gives: the count rounded to the nearest double (ties to even),
//! scaled down by 1024 per unit, then rounded to tenths (ties to even). All of
//! it is done here in integers, exactly.

use vstd::prelude::*;
use crate::num::{dec_s, digit_char, push_dec};
use crate::text::{push_char, push_str};

verus! {

/// 2 to the `k`.
pub open spec fn p2(k: nat) -> nat
    decreases k,
{
    if k == 0 {
        1
    } else {
        2 * p2((k - 1) as nat)
    }
}

/// Number of binary digits of `n` (0 for 0).
pub open spec fn bit_len(n: nat) -> nat
    decreases n,
{
    if n == 0 {
        0
    } else {
        1 + bit_len(n / 2)
    }
}

/// `a / b` rounded to the nearest integer, ties to even.
pub open spec fn round_half_even(a: nat, b: nat) -> nat {
    let q = a / b;
    let r = a % b;
    if 2 * r > b || (2 * r == b && q % 2 == 1) {
        q + 1
    } else {
        q
    }
}

/// The value of the `f64` nearest to `n` (ties to even), as `n as f64` gives.
pub open spec fn as_f64(n: nat) -> nat {
    if bit_len(n) <= 53 {
        n
    } else {
        let s = (bit_len(n) - 53) as nat;
        round_half_even(n, p2(s)) * p2(s)
    }
}

/// 1024 to the `u`.
pub open spec fn kib(u: nat) -> nat {
    p2(10 * u)
}

/// The unit a size of `f` bytes is shown in: B, KB, MB or GB.
pub open spec fn unit_of(f: nat) -> nat {
    if f < kib(1) {
        0
    } else if f < kib(2) {
        1
    } else if f < kib(3) {
        2
    } else {
        3
    }
}

/// The name of unit `u`.
pub open spec fn unit_name(u: nat) -> Seq<char> {
    if u == 0 {
        "B"@
    } else if u == 1 {
        "KB"@
    } else if u == 2 {
        "MB"@
    } else {
        "GB"@
    }
}

/// `n` bytes for people.
pub open spec fn human_bytes_s(n: nat) -> Seq<char> {
    let f = as_f64(n);
    let u = unit_of(f);
    if u == 0 {
        dec_s(n) + " B"@
    } else {
        let t = round_half_even(f * 10, kib(u));
        dec_s(t / 10) + "."@ + seq![digit_char(t % 10)] + " "@ + unit_name(u)
    }
}

/// Powers of two multiply by adding exponents.
proof fn lemma_p2_add(a: nat, b: nat)
    ensures
        p2(a + b) == p2(a) * p2(b),
    decreases a,
{
    if a > 0 {
        let a1 = (a - 1) as nat;
        lemma_p2_add(a1, b);
        assert(a + b == a1 + b + 1);
        let x = p2(a1 + b + 1);
        let y = p2(a1 + b);
        let pa = p2(a);
        let pa1 = p2(a1);
        let pb = p2(b);
        assert(x == 2 * y);
        assert(pa == 2 * pa1);
        assert(y == pa1 * pb);
        assert(x == pa * pb) by (nonlinear_arith)
            requires
                x == 2 * y,
                pa == 2 * pa1,
                y == pa1 * pb,
        ;
    } else {
        assert(p2(0) == 1);
        assert(p2(a + b) == p2(b));
    }
}

/// Two to the 53rd and the 65th.
proof fn lemma_p2_constants()
    ensures
        p2(53) == 0x20_0000_0000_0000,
        p2(65) == 0x2_0000_0000_0000_0000,
{
    reveal_with_fuel(p2, 66);
}

/// 1024, 1024 squared and 1024 cubed.
proof fn lemma_kib_constants()
    ensures
        kib(1) == 1024,
        kib(2) == 1048576,
        kib(3) == 1073741824,
{
    reveal_with_fuel(p2, 31);
}

/// Powers of two are positive.
proof fn lemma_p2_pos(k: nat)
    ensures
        p2(k) >= 1,
    decreases k,
{
    if k > 0 {
        lemma_p2_pos((k - 1) as nat);
    }
}

/// A number with `k` binary digits lies in `[2^(k-1), 2^k)`.
proof fn lemma_bit_len(n: nat, k: nat)
    requires
        n < p2(k),
        k == 0 || p2((k - 1) as nat) <= n,
    ensures
        bit_len(n) == k,
    decreases k,
{
    if k > 0 {
        lemma_p2_pos((k - 1) as nat);
        if k > 1 {
            assert(p2((k - 1) as nat) == 2 * p2((k - 2) as nat));
        }
        lemma_bit_len(n / 2, (k - 1) as nat);
    }
}

/// Round `a / b` to the nearest integer, ties to even.
fn round_div(a: u128, b: u128) -> (r: u128)
    requires
        b > 0,
        b <= 0x1_0000_0000_0000_0000,
    ensures
        r == round_half_even(a as nat, b as nat),
{
    let q = a / b;
    let rem = a % b;
    if 2 * rem > b || (2 * rem == b && q % 2 == 1) {
        assert(q < u128::MAX) by (nonlinear_arith)
            requires
                q == a / b,
                b >= 1,
                rem == a % b,
                2 * rem >= b,
                b >= 2 || rem == 0,
        ;
        q + 1
    } else {
        q
    }
}

/// `n as f64`, exactly, as an integer.
fn to_f64_value(n: u64) -> (f: u128)
    ensures
        f == as_f64(n as nat),
        f <= 0x2_0000_0000_0000_0000,
{
    let mut p: u128 = 1;
    let mut k: usize = 0;
    while p <= n as u128
        invariant
            p == p2(k as nat),
            p >= 1,
            k <= 65,
            k == 0 || p2((k - 1) as nat) <= n,
            p <= 2 * (n as nat) + 1,
        decreases 2 * (n as int) + 2 - p,
    {
        proof {
            if k == 65 {
                lemma_p2_constants();
            }
        }
        p = p * 2;
        k = k + 1;
        assert(p2(k as nat) == 2 * p2((k - 1) as nat));
    }
    proof {
        lemma_bit_len(n as nat, k as nat);
    }
    if k <= 53 {
        return n as u128;
    }
    let s = k - 53;
    proof {
        lemma_p2_add(53, s as nat);
        lemma_p2_pos(s as nat);
        lemma_p2_constants();
    }
    assert(p2(53) == 0x20_0000_0000_0000);
    let d = p / 0x20_0000_0000_0000;
    assert(d == p2(s as nat)) by (nonlinear_arith)
        requires
            p == 0x20_0000_0000_0000 * p2(s as nat),
            d == p / 0x20_0000_0000_0000,
    ;
    assert(d <= 0x1_0000_0000_0000_0000) by (nonlinear_arith)
        requires
            d == p / 0x20_0000_0000_0000,
            p <= 2 * (n as nat) + 1,
            n <= u64::MAX,
    ;
    let q2 = round_div(n as u128, d);
    assert(q2 <= 0x20_0000_0000_0000) by (nonlinear_arith)
        requires
            q2 == round_half_even(n as nat, d as nat),
            (n as nat) < 0x20_0000_0000_0000 * d,
            d >= 1,
    ;
    assert(q2 * d <= 0x2_0000_0000_0000_0000) by (nonlinear_arith)
        requires
            q2 <= 0x20_0000_0000_0000,
            d == p / 0x20_0000_0000_0000,
            p <= 2 * (n as nat) + 1,
            n <= u64::MAX,
    ;
    q2 * d
}

/// `n` bytes for people: whole bytes below 1 KB, otherwise one decimal of
/// the largest unit up to GB.
pub fn human_bytes(n: u64) -> (r: String)
    ensures
        r@ == human_bytes_s(n as nat),
{
    let f = to_f64_value(n);
    proof {
        lemma_kib_constants();
    }
    assert(kib(1) == 1024 && kib(2) == 1048576 && kib(3) == 1073741824);
    let (u, scale, name): (u64, u128, &str) = if f < 1024 {
        (0, 1, "B")
    } else if f < 1048576 {
        (1, 1024, "KB")
    } else if f < 1073741824 {
        (2, 1048576, "MB")
    } else {
        (3, 1073741824, "GB")
    };
    let mut r = String::new();
    if u == 0 {
        push_dec(&mut r, n as u128);
        push_str(&mut r, " B");
        return r;
    }
    let t = round_div(f * 10, scale);
    push_dec(&mut r, t / 10);
    push_str(&mut r, ".");
    let d = (t % 10) as u8;
    push_char(&mut r, (48u8 + d) as char);
    push_str(&mut r, " ");
    push_str(&mut r, name);
    assert(r@ =~= human_bytes_s(n as nat));
    r
}

} // verus!
