//! 32-bit arithmetic that wraps around.
use vstd::prelude::*;

verus! {

/// The 32-bit integer that equals `x` modulo 2^32.
#[verifier::opaque]
pub open spec fn wrap32(x: int) -> i32 {
    ((x + 0x8000_0000) % 0x1_0000_0000 - 0x8000_0000) as i32
}

/// In range, nothing wraps.
pub proof fn in_range_is_exact(x: int)
    requires
        i32::MIN <= x <= i32::MAX,
    ensures
        wrap32(x) == x,
{
    reveal(wrap32);
}

proof fn lemma_wrap_multiple(x: int, k: int)
    ensures
        wrap32(x + k * 0x1_0000_0000) == wrap32(x),
{
    reveal(wrap32);
    vstd::arithmetic::div_mod::lemma_mod_multiples_vanish(k, x + 0x8000_0000, 0x1_0000_0000);
}

proof fn lemma_wrap_differs_by_multiple(x: int) -> (k: int)
    ensures
        wrap32(x) == x + k * 0x1_0000_0000,
{
    reveal(wrap32);
    vstd::arithmetic::div_mod::lemma_fundamental_div_mod(x + 0x8000_0000, 0x1_0000_0000);
    -((x + 0x8000_0000) / 0x1_0000_0000)
}

pub(crate) proof fn lemma_wrap_add(x: int, y: int)
    ensures
        wrap32(wrap32(x) + y) == wrap32(x + y),
        wrap32(x + wrap32(y)) == wrap32(x + y),
        wrap32(wrap32(x) - y) == wrap32(x - y),
{
    let k = lemma_wrap_differs_by_multiple(x);
    let l = lemma_wrap_differs_by_multiple(y);
    lemma_wrap_multiple(x + y, k);
    lemma_wrap_multiple(x + y, l);
    lemma_wrap_multiple(x - y, k);
}

pub(crate) proof fn lemma_wrap_mul(x: int, d: int)
    ensures
        wrap32(d * wrap32(x)) == wrap32(d * x),
{
    let k = lemma_wrap_differs_by_multiple(x);
    assert(d * (x + k * 0x1_0000_0000) == d * x + (d * k) * 0x1_0000_0000) by (nonlinear_arith);
    lemma_wrap_multiple(d * x, d * k);
}

pub(crate) fn add32(a: i32, b: i32) -> (r: i32)
    ensures
        r == wrap32(a + b),
{
    reveal(wrap32);
    a.wrapping_add(b)
}

pub(crate) fn sub32(a: i32, b: i32) -> (r: i32)
    ensures
        r == wrap32(a - b),
{
    reveal(wrap32);
    a.wrapping_sub(b)
}

/// Five times `a`.
pub(crate) fn quintuple32(a: i32) -> (r: i32)
    ensures
        r == wrap32(5 * a),
{
    reveal(wrap32);
    let y: i64 = 5 * (a as i64) + 0x3_8000_0000;
    let m: i64 = y % 0x1_0000_0000;
    (m - 0x8000_0000) as i32
}

/// A length as a 32-bit integer.
pub(crate) fn len32(n: usize) -> (r: i32)
    ensures
        r == wrap32(n as int),
{
    reveal(wrap32);
    let m: u64 = n as u64 % 0x1_0000_0000;
    if m < 0x8000_0000 {
        m as i32
    } else {
        let k: i64 = m as i64 - 0x1_0000_0000;
        k as i32
    }
}

/// Division that rounds toward zero.
pub open spec fn quotient(x: int, d: int) -> int
    recommends
        d > 0,
{
    if x >= 0 {
        x / d
    } else {
        -((-x) / d)
    }
}

pub(crate) fn div32(x: i32, d: i32) -> (r: i32)
    requires
        d > 0,
    ensures
        r == quotient(x as int, d as int),
{
    if x >= 0 {
        x / d
    } else {
        let n: i64 = -(x as i64);
        assert(0 <= n / (d as i64) <= n) by (nonlinear_arith)
            requires
                0 <= n,
                0 < d,
        ;
        let q: i64 = n / (d as i64);
        (-q) as i32
    }
}

/// A wrapped number differs from the exact one by a multiple of 2^32.
pub proof fn wrapping_keeps_the_residue(x: int)
    ensures
        (wrap32(x) - x) % 0x1_0000_0000 == 0,
{
    let k = lemma_wrap_differs_by_multiple(x);
    assert(wrap32(x) - x == k * 0x1_0000_0000);
    vstd::arithmetic::div_mod::lemma_mod_multiples_basic(k, 0x1_0000_0000);
}

/// Division rounds toward zero.
pub proof fn quotients_round_toward_zero(x: int, d: int)
    requires
        d > 0,
    ensures
        x >= 0 ==> quotient(x, d) == x / d,
        quotient(-x, d) == -quotient(x, d),
{
}
} // verus!
