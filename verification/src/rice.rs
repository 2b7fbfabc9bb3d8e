//! Rice coding of quantized samples: the zigzag map from signed samples to
//! codes, the choice of remainder length for a band, and the value the
//! decoder gives a code.

use vstd::prelude::*;
use vstd::arithmetic::power2::pow2;
use crate::bitstream::{le_bits, unary_bits};

verus! {

/// The largest remainder length a band is coded with.
pub const MAX_REMAINDER_LEN: u32 = 8;

/// The zigzag code of a sample: 0, -1, 1, -2, 2, ... become 0, 1, 2, 3, 4, ...
pub open spec fn zigzag_code(q: int) -> nat {
    if q >= 0 {
        (2 * q) as nat
    } else {
        (-2 * q - 1) as nat
    }
}

/// The sample that the decoder reads from the 32-bit code `z`. For codes
/// below `2^31` it undoes `zigzag_code`; codes from `2^31` on are read as
/// their two's complement, so they come out shifted by `2^31`.
pub open spec fn unit_value(z: nat) -> int {
    let h: int = if z < 0x8000_0000 { (z / 2) as int } else { z / 2 - 0x8000_0000 };
    if z % 2 == 0 {
        h
    } else {
        -h - 1
    }
}

/// Whether `k` is the remainder length for a band of `len` samples whose
/// zigzag codes sum to `sum`: the floor of the base-2 logarithm of the mean
/// code, capped at 8, and 0 where the mean is below 2.
pub open spec fn is_remainder_len(k: nat, sum: nat, len: nat) -> bool {
    &&& k <= MAX_REMAINDER_LEN
    &&& (k == 0 || len * pow2(k) <= sum)
    &&& (k == MAX_REMAINDER_LEN || sum < len * pow2(k + 1))
}

/// The largest `j <= k` with `len * 2^j <= sum`, or 0 if there is none.
pub open spec fn remainder_len_below(sum: nat, len: nat, k: nat) -> nat
    decreases k,
{
    if k == 0 {
        0
    } else if len * pow2(k) <= sum {
        k
    } else {
        remainder_len_below(sum, len, (k - 1) as nat)
    }
}

/// The remainder length of a band of `len` samples whose zigzag codes sum to `sum`.
pub open spec fn remainder_len_of(sum: nat, len: nat) -> nat {
    remainder_len_below(sum, len, MAX_REMAINDER_LEN as nat)
}

/// The sum of the zigzag codes of `s`.
pub open spec fn zigzag_sum(s: Seq<i32>) -> nat
    decreases s.len(),
{
    if s.len() == 0 {
        0
    } else {
        zigzag_sum(s.drop_last()) + zigzag_code(s.last() as int)
    }
}

/// The bits of code `u` with remainder length `k`: the quotient `u / 2^k`
/// in unary, then the remainder in `k` bits.
pub open spec fn unit_bits(u: nat, k: nat) -> Seq<bool> {
    unary_bits(u / pow2(k)) + le_bits(u % pow2(k), k)
}

/// The bits of the samples `s`, each coded with remainder length `k`.
pub open spec fn units_bits(s: Seq<i32>, k: nat) -> Seq<bool>
    decreases s.len(),
{
    if s.len() == 0 {
        Seq::empty()
    } else {
        units_bits(s.drop_last(), k) + unit_bits(zigzag_code(s.last() as int), k)
    }
}

/// `remainder_len_of` is the remainder length that `is_remainder_len` describes.
pub proof fn lemma_remainder_len_of(sum: nat, len: nat)
    requires
        len > 0,
    ensures
        is_remainder_len(remainder_len_of(sum, len), sum, len),
{
    lemma_remainder_len_below(sum, len, MAX_REMAINDER_LEN as nat);
}

proof fn lemma_remainder_len_below(sum: nat, len: nat, j: nat)
    requires
        len > 0,
        j <= MAX_REMAINDER_LEN,
        j == MAX_REMAINDER_LEN || sum < len * pow2(j + 1),
    ensures
        is_remainder_len(remainder_len_below(sum, len, j), sum, len),
    decreases j,
{
    if j > 0 && !(len * pow2(j) <= sum) {
        lemma_remainder_len_below(sum, len, (j - 1) as nat);
    }
}

/// Exactly one remainder length fits a band.
pub proof fn lemma_remainder_len_unique(k1: nat, k2: nat, sum: nat, len: nat)
    requires
        is_remainder_len(k1, sum, len),
        is_remainder_len(k2, sum, len),
    ensures
        k1 == k2,
{
    if k1 < k2 {
        lemma_pow2_monotone(k1 + 1, k2);
        assert(len * pow2(k1 + 1) <= len * pow2(k2)) by (nonlinear_arith)
            requires
                pow2(k1 + 1) <= pow2(k2),
        ;
    } else if k2 < k1 {
        lemma_pow2_monotone(k2 + 1, k1);
        assert(len * pow2(k2 + 1) <= len * pow2(k1)) by (nonlinear_arith)
            requires
                pow2(k2 + 1) <= pow2(k1),
        ;
    }
}

proof fn lemma_pow2_monotone(a: nat, b: nat)
    requires
        a <= b,
    ensures
        pow2(a) <= pow2(b),
{
    if a < b {
        vstd::arithmetic::power2::lemma_pow2_strictly_increases(a, b);
    }
}

/// The zigzag code of a sample.
pub fn zigzag(q: i32) -> (u: u32)
    ensures
        q >= 0 ==> u == 2 * q,
        q < 0 ==> u == -2 * q - 1,
        u == zigzag_code(q as int),
{
    if q >= 0 {
        (q as u32) * 2
    } else {
        ((-(q + 1)) as u32) * 2 + 1
    }
}

/// The sample that a 32-bit code stands for, read as `unit_value` says.
pub fn unzigzag(z: u32) -> (q: i32)
    ensures
        q as int == unit_value(z as nat),
        z < 0x8000_0000 && z % 2 == 0 ==> 2 * q == z,
        z < 0x8000_0000 && z % 2 == 1 ==> -2 * q == z + 1,
        z >= 0x8000_0000 && z % 2 == 0 ==> 2 * q == z - 0x1_0000_0000,
        z >= 0x8000_0000 && z % 2 == 1 ==> -2 * q == z + 1 - 0x1_0000_0000,
{
    let half: u32 = z / 2;
    let h: i32 = if z < 0x8000_0000 {
        half as i32
    } else {
        (half as i32) - 0x4000_0000 - 0x4000_0000
    };
    if z % 2 == 0 {
        h
    } else {
        -h - 1
    }
}

/// Reading back the zigzag code of a sample gives the sample, for samples
/// in `[-2^30, 2^30)`.
pub proof fn lemma_unit_value_zigzag(q: int)
    requires
        -0x4000_0000 <= q < 0x4000_0000,
    ensures
        zigzag_code(q) < 0x8000_0000,
        unit_value(zigzag_code(q)) == q,
{
}

/// The zigzag code in plain arithmetic: a sample `q >= 0` gets the even
/// code `2q`, a sample `q < 0` the odd code `-2q - 1`, so the samples
/// 0, -1, 1, -2, 2, ... get the codes 0, 1, 2, 3, 4, ...
pub proof fn lemma_zigzag_arithmetic(q: int)
    ensures
        q >= 0 ==> zigzag_code(q) == 2 * q,
        q < 0 ==> zigzag_code(q) == -2 * q - 1,
        zigzag_code(q) % 2 == (if q >= 0 { 0int } else { 1int }),
{
}

/// Consecutive samples in the order 0, -1, 1, -2, 2, ... get consecutive
/// codes: `n` gets `2n` and `-n - 1` gets `2n + 1`.
pub proof fn lemma_zigzag_order(n: nat)
    ensures
        zigzag_code(n as int) == 2 * n,
        zigzag_code(-(n as int) - 1) == 2 * n + 1,
        zigzag_code(-(n as int) - 1) == zigzag_code(n as int) + 1,
        zigzag_code(n as int + 1) == zigzag_code(-(n as int) - 1) + 1,
{
}

/// Reading a code below `2^31` in plain arithmetic: an even code `z` is the
/// sample `z / 2`, an odd one the sample `-(z + 1) / 2`.
pub proof fn lemma_unit_value_arithmetic(z: nat)
    requires
        z < 0x8000_0000,
    ensures
        z % 2 == 0 ==> 2 * unit_value(z) == z,
        z % 2 == 1 ==> -2 * unit_value(z) == z + 1,
{
}

/// Codes from `2^31` on are read as the 32-bit two's complement value `c`
/// of the code: an even one as `c / 2`, an odd one as `-(c + 1) / 2`.
pub proof fn lemma_unit_value_wrapped(z: nat)
    requires
        0x8000_0000 <= z < 0x1_0000_0000,
    ensures
        z % 2 == 0 ==> 2 * unit_value(z) == z - 0x1_0000_0000,
        z % 2 == 1 ==> -2 * unit_value(z) == z + 1 - 0x1_0000_0000,
{
}

/// `2^k` as a `u32`, for `k < 32`.
pub fn pow2_u32(k: u32) -> (p: u32)
    requires
        k < 32,
    ensures
        p as nat == pow2(k as nat),
{
    proof {
        vstd::bits::lemma_u32_pow2_no_overflow(k as nat);
        vstd::bits::lemma_u32_shl_is_mul(1, k);
    }
    1u32 << k
}

/// The remainder length for a band of `len` samples whose zigzag codes sum
/// to `sum`.
pub fn remainder_len(sum: u64, len: u64) -> (k: u32)
    requires
        0 < len <= 0x1_0000,
    ensures
        k as nat == remainder_len_of(sum as nat, len as nat),
        is_remainder_len(k as nat, sum as nat, len as nat),
{
    proof {
        lemma_remainder_len_of(sum as nat, len as nat);
    }
    let mut k: u32 = MAX_REMAINDER_LEN;
    loop
        invariant
            k <= MAX_REMAINDER_LEN,
            0 < len <= 0x1_0000,
            remainder_len_below(sum as nat, len as nat, k as nat) == remainder_len_of(sum as nat, len as nat),
            is_remainder_len(remainder_len_of(sum as nat, len as nat), sum as nat, len as nat),
        decreases k,
    {
        if k == 0 {
            return k;
        }
        let p = pow2_u32(k) as u64;
        proof {
            vstd::arithmetic::power2::lemma2_to64();
            lemma_pow2_monotone(k as nat, 8);
            assert(len * p <= 0x1_0000 * 256) by (nonlinear_arith)
                requires
                    len <= 0x1_0000,
                    p <= 256,
            ;
        }
        if len * p <= sum {
            return k;
        }
        k = k - 1;
    }
}

} // verus!
