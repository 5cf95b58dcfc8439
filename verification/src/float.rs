//! IEEE-754 binary64 numbers held by their bit pattern: their order, and the
//! conversion of integers into them (round to nearest, ties to even), both in
//! integer arithmetic.
use vstd::prelude::*;

verus! {

/// The outcome of comparing two numbers.
#[derive(Debug, Clone, Copy, PartialEq, Eq, Structural)]
pub enum Comparison {
    Less,
    Equal,
    Greater,
}

/// `2^e`.
pub open spec fn p2(e: nat) -> nat
    decreases e,
{
    if e == 0 { 1 } else { 2 * p2((e - 1) as nat) }
}

/// `floor(m / 2^k)`.
pub open spec fn shr(m: nat, k: nat) -> nat
    decreases k,
{
    if k == 0 { m } else { shr(m, (k - 1) as nat) / 2 }
}

/// `m * 2^k`.
pub open spec fn shl(m: nat, k: nat) -> nat
    decreases k,
{
    if k == 0 { m } else { 2 * shl(m, (k - 1) as nat) }
}

/// The number of binary digits of `m` (0 for 0).
pub open spec fn bit_length(m: nat) -> nat
    decreases m,
{
    if m == 0 { 0 } else { 1 + bit_length(m / 2) }
}

pub open spec fn sign_bit() -> nat { 0x8000_0000_0000_0000 }

/// The absolute value encoded by the low 63 bits.
pub open spec fn magnitude_bits(b: u64) -> nat {
    (b as nat) % sign_bit()
}

pub open spec fn is_negative_bits(b: u64) -> bool {
    b as nat >= sign_bit()
}

/// Not a number: the exponent bits are all set and the fraction is not zero.
pub open spec fn is_nan_bits(b: u64) -> bool {
    magnitude_bits(b) > 0x7ff0_0000_0000_0000
}

/// A key that orders the encodings that are numbers as the numbers they
/// encode are ordered; both zeros have key 0.
pub open spec fn order_key(b: u64) -> int {
    if is_negative_bits(b) { -(magnitude_bits(b) as int) } else { magnitude_bits(b) as int }
}

pub open spec fn compare_ints(a: int, b: int) -> Comparison {
    if a < b { Comparison::Less } else if a == b { Comparison::Equal } else { Comparison::Greater }
}

/// The order of two binary64 values: none when either is not a number.
pub open spec fn float_order(a: u64, b: u64) -> Option<Comparison> {
    if is_nan_bits(a) || is_nan_bits(b) {
        None
    } else {
        Some(compare_ints(order_key(a), order_key(b)))
    }
}

/// `m` with its `k` low bits dropped, rounded to nearest with ties to even.
pub open spec fn rounded_shr(m: nat, k: nat) -> nat {
    let q = shr(m, k);
    let r = m - shl(q, k);
    if k == 0 {
        q
    } else if r > p2((k - 1) as nat) || (r == p2((k - 1) as nat) && q % 2 == 1) {
        q + 1
    } else {
        q
    }
}

/// The biased exponent `e` in its place in a binary64 encoding.
pub open spec fn exponent_field(e: nat) -> nat {
    shl(e, 52)
}

/// The encoding of the non-negative integer `m` as a binary64 value.
pub open spec fn magnitude_to_bits(m: nat) -> nat {
    if m == 0 {
        0
    } else {
        let n = bit_length(m);
        if n <= 53 {
            (exponent_field((n - 1 + 1023) as nat) + (shl(m, (53 - n) as nat) - p2(52))) as nat
        } else {
            let sig = rounded_shr(m, (n - 53) as nat);
            if sig == p2(53) {
                exponent_field((n + 1023) as nat)
            } else {
                (exponent_field((n - 1 + 1023) as nat) + (sig - p2(52))) as nat
            }
        }
    }
}

/// The encoding of the integer `v` as a binary64 value, as the cast `v as f64`
/// gives it.
pub open spec fn int_to_float_bits(v: int) -> nat {
    if v < 0 { (sign_bit() + magnitude_to_bits((-v) as nat)) as nat } else { magnitude_to_bits(v as nat) }
}

proof fn lemma_p2_pos(e: nat)
    ensures
        p2(e) >= 1,
    decreases e,
{
    if e > 0 {
        lemma_p2_pos((e - 1) as nat);
    }
}

proof fn lemma_p2_mono(a: nat, b: nat)
    requires
        a <= b,
    ensures
        p2(a) <= p2(b),
    decreases b,
{
    lemma_p2_pos(b);
    if a < b {
        lemma_p2_mono(a, (b - 1) as nat);
    }
}

proof fn lemma_shl_one(k: nat)
    ensures
        shl(1, k) == p2(k),
    decreases k,
{
    if k > 0 {
        lemma_shl_one((k - 1) as nat);
    }
}

proof fn lemma_shl_add(a: nat, b: nat, k: nat)
    ensures
        shl(a + b, k) == shl(a, k) + shl(b, k),
    decreases k,
{
    if k > 0 {
        lemma_shl_add(a, b, (k - 1) as nat);
    }
}

proof fn lemma_shl_double(x: nat, k: nat)
    requires
        k > 0,
    ensures
        shl(x, k) == shl(2 * x, (k - 1) as nat),
    decreases k,
{
    if k > 1 {
        lemma_shl_double(x, (k - 1) as nat);
    } else {
        assert(shl(x, 0) == x);
        assert(shl(2 * x, 0) == 2 * x);
    }
}

proof fn lemma_shl_mono(a: nat, b: nat, k: nat)
    requires
        a <= b,
    ensures
        shl(a, k) <= shl(b, k),
    decreases k,
{
    if k > 0 {
        lemma_shl_mono(a, b, (k - 1) as nat);
    }
}

/// `shl(shr(m, k), k) <= m < shl(shr(m, k), k) + 2^k`.
proof fn lemma_shr_bounds(m: nat, k: nat)
    ensures
        shl(shr(m, k), k) <= m,
        m < shl(shr(m, k), k) + p2(k),
    decreases k,
{
    if k > 0 {
        let k1 = (k - 1) as nat;
        lemma_shr_bounds(m, k1);
        let q1 = shr(m, k1);
        let q = q1 / 2;
        assert(q1 == 2 * q + q1 % 2);
        lemma_shl_add(2 * q, q1 % 2, k1);
        lemma_shl_double(q, k);
        lemma_shl_one(k1);
        if q1 % 2 == 1 {
            assert(shl(q1 % 2, k1) == p2(k1));
        } else {
            assert(shl(0, k1) == 0) by { lemma_shl_zero(k1); }
        }
    }
}

proof fn lemma_shl_zero(k: nat)
    ensures
        shl(0, k) == 0,
    decreases k,
{
    if k > 0 {
        lemma_shl_zero((k - 1) as nat);
    }
}

/// `2^(n-1) <= m < 2^n` where `n` is the bit length of a positive `m`.
proof fn lemma_bit_length_bounds(m: nat)
    requires
        m > 0,
    ensures
        bit_length(m) >= 1,
        p2((bit_length(m) - 1) as nat) <= m,
        m < p2(bit_length(m)),
    decreases m,
{
    if m >= 2 {
        lemma_bit_length_bounds(m / 2);
        let b = bit_length(m / 2);
        assert(bit_length(m) == b + 1);
        assert(p2(b + 1) == 2 * p2(b));
        assert(p2(b) == 2 * p2((b - 1) as nat));
    } else {
        assert(bit_length(m) == 1) by {
            assert(bit_length(0) == 0);
        }
        assert(p2(1) == 2 * p2(0));
    }
}

proof fn lemma_bit_length_u64(m: nat)
    requires
        0 < m < 0x1_0000_0000_0000_0000,
    ensures
        bit_length(m) <= 64,
{
    lemma_bit_length_bounds(m);
    if bit_length(m) > 64 {
        lemma_p2_mono(64, (bit_length(m) - 1) as nat);
        lemma_p2_64();
    }
}

proof fn lemma_p2_64()
    ensures
        p2(52) == 0x10_0000_0000_0000,
        p2(53) == 0x20_0000_0000_0000,
        p2(63) == 0x8000_0000_0000_0000,
        p2(64) == 0x1_0000_0000_0000_0000,
{
    reveal_with_fuel(p2, 65);
}

/// Compares two binary64 values; `None` when either is not a number.
pub fn float_compare(a: u64, b: u64) -> (r: Option<Comparison>)
    ensures
        r == float_order(a, b),
{
    let ma = a % 0x8000_0000_0000_0000;
    let mb = b % 0x8000_0000_0000_0000;
    if ma > 0x7ff0_0000_0000_0000 || mb > 0x7ff0_0000_0000_0000 {
        return None;
    }
    let ka: i128 = if a >= 0x8000_0000_0000_0000 { -(ma as i128) } else { ma as i128 };
    let kb: i128 = if b >= 0x8000_0000_0000_0000 { -(mb as i128) } else { mb as i128 };
    if ka < kb {
        Some(Comparison::Less)
    } else if ka == kb {
        Some(Comparison::Equal)
    } else {
        Some(Comparison::Greater)
    }
}

/// `(x, k)` with `x == shl(m, k)`, computed by doubling.
fn shift_left(m: u64, k: u64) -> (r: u128)
    requires
        shl(m as nat, k as nat) < 0x1_0000_0000_0000_0000_0000_0000_0000_0000,
    ensures
        r == shl(m as nat, k as nat),
{
    let mut x: u128 = m as u128;
    let mut i: u64 = 0;
    while i < k
        invariant
            i <= k,
            x == shl(m as nat, i as nat),
            shl(m as nat, k as nat) < 0x1_0000_0000_0000_0000_0000_0000_0000_0000,
        decreases k - i,
    {
        proof {
            lemma_shl_grows(m as nat, (i + 1) as nat, k as nat);
        }
        x = x * 2;
        i = i + 1;
    }
    x
}

proof fn lemma_shl_grows(m: nat, a: nat, b: nat)
    requires
        a <= b,
    ensures
        shl(m, a) <= shl(m, b),
    decreases b,
{
    if a < b {
        lemma_shl_grows(m, a, (b - 1) as nat);
    }
}

/// `2^k`.
fn power_of_two(k: u64) -> (r: u128)
    requires
        k < 64,
    ensures
        r == p2(k as nat),
{
    let mut x: u128 = 1;
    let mut i: u64 = 0;
    while i < k
        invariant
            i <= k < 64,
            x == p2(i as nat),
        decreases k - i,
    {
        proof {
            lemma_p2_mono((i + 1) as nat, 64);
            lemma_p2_64();
        }
        x = x * 2;
        i = i + 1;
    }
    x
}


/// The binary64 encoding of a non-negative integer.
pub fn magnitude_to_float_bits(m: u64) -> (r: u64)
    ensures
        r == magnitude_to_bits(m as nat),
{
    if m == 0 {
        return 0;
    }
    proof {
        lemma_bit_length_u64(m as nat);
        lemma_bit_length_bounds(m as nat);
        lemma_p2_64();
    }
    let mut t: u64 = m;
    let mut n: u64 = 0;
    while t > 0
        invariant
            bit_length(m as nat) == n + bit_length(t as nat),
            n <= 64,
            t > 0 ==> n + bit_length(t as nat) <= 64,
        decreases t,
    {
        t = t / 2;
        n = n + 1;
    }
    proof {
        lemma_bit_length_u64(m as nat);
        lemma_bit_length_bounds(m as nat);
        lemma_p2_64();
    }
    assert(n == bit_length(m as nat));
    if n <= 53 {
        proof {
            lemma_shl_p2(m as nat, (53 - n) as nat, n as nat);
        }
        let sig = shift_left(m, 53 - n);
        proof {
            lemma_shl_lower(m as nat, (53 - n) as nat, (n - 1) as nat);
        }
        proof { lemma_exponent_field_bound((n - 1 + 1023) as nat); }
        let e = shift_left(n - 1 + 1023, 52);
        (e + (sig - 0x10_0000_0000_0000)) as u64
    } else {
        let k: u64 = n - 53;
        let mut q: u64 = m;
        let mut i: u64 = 0;
        while i < k
            invariant
                i <= k,
                q == shr(m as nat, i as nat),
            decreases k - i,
        {
            q = q / 2;
            i = i + 1;
        }
        proof {
            lemma_shr_bounds(m as nat, k as nat);
            lemma_shr_range(m as nat, k as nat, n as nat);
        }
        let low = shift_left(q, k);
        let r = m - (low as u64);
        let half = power_of_two(k - 1);
        let sig: u64 = if (r as u128) > half || ((r as u128) == half && q % 2 == 1) { q + 1 } else { q };
        assert(sig == rounded_shr(m as nat, k as nat));
        if sig == 0x20_0000_0000_0000 {
            proof { lemma_exponent_field_bound((n + 1023) as nat); }
            let e = shift_left(n + 1023, 52);
            e as u64
        } else {
            proof { lemma_exponent_field_bound((n - 1 + 1023) as nat); }
            let e = shift_left(n - 1 + 1023, 52);
            (e + (sig - 0x10_0000_0000_0000) as u128) as u64
        }
    }
}

/// `shl(m, j)` stays below `2^(n + j)` when `m < 2^n`.
proof fn lemma_shl_p2(m: nat, j: nat, n: nat)
    requires
        m < p2(n),
    ensures
        shl(m, j) < p2(n + j),
    decreases j,
{
    if j > 0 {
        lemma_shl_p2(m, (j - 1) as nat, n);
        assert(p2(n + j) == 2 * p2((n + j - 1) as nat));
    }
}

/// `shl(m, j)` is at least `2^(e + j)` when `m >= 2^e`.
proof fn lemma_shl_lower(m: nat, j: nat, e: nat)
    requires
        m >= p2(e),
    ensures
        shl(m, j) >= p2(e + j),
    decreases j,
{
    if j > 0 {
        lemma_shl_lower(m, (j - 1) as nat, e);
        assert(p2(e + j) == 2 * p2((e + j - 1) as nat));
    }
}

/// With `n` the bit length of `m`, dropping `k = n - 53` bits leaves 53 bits.
proof fn lemma_shr_range(m: nat, k: nat, n: nat)
    requires
        m > 0,
        n == bit_length(m),
        n > 53,
        k == n - 53,
        n <= 64,
    ensures
        p2(52) <= shr(m, k) < p2(53),
{
    lemma_bit_length_bounds(m);
    lemma_shr_bounds(m, k);
    let q = shr(m, k);
    lemma_shl_one(k);
    // q * 2^k <= m < 2^n = 2^53 * 2^k, hence q < 2^53
    if q >= p2(53) {
        lemma_shl_mono(p2(53), q, k);
        lemma_shl_p2_eq(53, k);
    }
    // m >= 2^(n-1) = 2^52 * 2^k and m < (q + 1) * 2^k, hence q >= 2^52
    if q < p2(52) {
        lemma_shl_mono(q + 1, p2(52), k);
        lemma_shl_add(q, 1, k);
        lemma_shl_p2_eq(52, k);
    }
}

/// `shl(2^a, b) == 2^(a + b)`.
proof fn lemma_shl_p2_eq(a: nat, b: nat)
    ensures
        shl(p2(a), b) == p2(a + b),
    decreases b,
{
    if b > 0 {
        lemma_shl_p2_eq(a, (b - 1) as nat);
        assert(p2(a + b) == 2 * p2((a + b - 1) as nat));
    }
}

proof fn lemma_exponent_field_bound(e: nat)
    requires
        e <= 2047,
    ensures
        exponent_field(e) <= 0x7ff0_0000_0000_0000,
        shl(e, 52) < 0x1_0000_0000_0000_0000_0000_0000_0000_0000,
{
    lemma_shl_mul(e, 52);
    lemma_p2_64();
    assert(e * 0x10_0000_0000_0000 <= 2047 * 0x10_0000_0000_0000) by (nonlinear_arith)
        requires e <= 2047;
}

/// `shl(m, k) == m * 2^k`.
proof fn lemma_shl_mul(m: nat, k: nat)
    ensures
        shl(m, k) == m * p2(k),
    decreases k,
{
    if k > 0 {
        lemma_shl_mul(m, (k - 1) as nat);
        let x = p2((k - 1) as nat);
        assert(2 * (m * x) == m * (2 * x)) by (nonlinear_arith);
    } else {
        assert(m * 1 == m);
    }
}

/// The binary64 encoding of a signed integer, as `v as f64` gives it.
pub fn i64_to_float_bits(v: i64) -> (r: u64)
    ensures
        r == int_to_float_bits(v as int),
{
    if v < 0 {
        let m: u64 = (0i128 - (v as i128)) as u64;
        let b = magnitude_to_float_bits(m);
        proof { lemma_magnitude_bits_bound(m as nat); }
        b + 0x8000_0000_0000_0000
    } else {
        magnitude_to_float_bits(v as u64)
    }
}

/// The binary64 encoding of an unsigned integer, as `v as f64` gives it.
pub fn u64_to_float_bits(v: u64) -> (r: u64)
    ensures
        r == int_to_float_bits(v as int),
{
    magnitude_to_float_bits(v)
}

/// Encodings of integers up to `2^63` in magnitude leave the sign bit clear.
proof fn lemma_magnitude_bits_bound(m: nat)
    requires
        m <= 0x8000_0000_0000_0000,
    ensures
        magnitude_to_bits(m) < 0x8000_0000_0000_0000,
{
    if m > 0 {
        lemma_bit_length_bounds(m);
        lemma_p2_64();
        let n = bit_length(m);
        if n > 64 {
            lemma_p2_mono(64, (n - 1) as nat);
        }
        lemma_exponent_field_bound((n + 1023) as nat);
        lemma_exponent_field_bound((n - 1 + 1023) as nat);
        if n <= 53 {
            lemma_shl_p2(m, (53 - n) as nat, n);
        } else {
            lemma_shr_range(m, (n - 53) as nat, n);
        }
        // the exponent is at most 64 + 1023, far below the sign bit
        lemma_shl_mul((n + 1023) as nat, 52);
        lemma_shl_mul((n - 1 + 1023) as nat, 52);
        let ea = (n + 1023) as nat;
        let eb = (n - 1 + 1023) as nat;
        assert(ea * 0x10_0000_0000_0000 <= 1087 * 0x10_0000_0000_0000) by (nonlinear_arith)
            requires ea <= 1087;
        assert(eb * 0x10_0000_0000_0000 <= 1087 * 0x10_0000_0000_0000) by (nonlinear_arith)
            requires eb <= 1087;
    }
}

} // verus!
