use vstd::prelude::*;

verus! {

/// Exclusive upper bound of the integers a number value can carry exactly:
/// two to the power of fifty-three.
pub const NUMBER_INT_LIMIT: u64 = 0x20_0000_0000_0000;

/// Position of the highest set bit of `n` (zero for `n <= 1`).
pub open spec fn high_bit(n: u64) -> u64
    decreases n,
{
    if n <= 1 {
        0
    } else {
        proof {
            assert(n >> 1 < n) by (bit_vector)
                requires
                    n > 1,
            ;
        }
        (1 + high_bit(n >> 1)) as u64
    }
}

/// The raw bits of the IEEE-754 double that represents the integer `n`
/// exactly; meaningful for `n < NUMBER_INT_LIMIT`.
pub open spec fn number_bits_of(n: u64) -> u64 {
    if n == 0 {
        0
    } else {
        let h = high_bit(n);
        (((1023 + h) as u64) << 52) | ((n << ((52 - h) as u64)) & 0xf_ffff_ffff_ffff)
    }
}

/// The raw bits of the IEEE-754 double representing the signed integer `i`
/// exactly; meaningful for `-NUMBER_INT_LIMIT < i < NUMBER_INT_LIMIT`.
pub open spec fn signed_number_bits_of(i: int) -> u64 {
    if i >= 0 {
        number_bits_of(i as u64)
    } else {
        (1u64 << 63) | number_bits_of((-i) as u64)
    }
}

/// Decode the raw bits of a number into the non-negative integer they
/// canonically represent, or nothing when the number is not such an integer
/// (negative, fractional, too large, infinite, or not a number at all).
pub open spec fn number_index_of(bits: u64) -> Option<u64> {
    if bits == 0 {
        Some(0u64)
    } else {
        let sign = bits >> 63;
        let e = (bits >> 52) & 0x7ff;
        let m = bits & 0xf_ffff_ffff_ffff;
        if sign != 0 || e < 1023 || e > 1075 {
            None
        } else {
            let k = (e - 1023) as u64;
            if k < 52 && (m & (((1u64 << ((52 - k) as u64)) - 1) as u64)) != 0 {
                None
            } else {
                Some((((1u64 << 52) | m) >> ((52 - k) as u64)) as u64)
            }
        }
    }
}

/// Decoding the encoding of an integer below the exact-integer limit gives
/// the integer back.
pub proof fn lemma_number_bits_roundtrip(n: u64)
    requires
        n < NUMBER_INT_LIMIT,
    ensures
        number_index_of(number_bits_of(n)) == Some(n),
{
    if n == 0 {
        assert(number_index_of(0) == Some(0u64));
    } else {
        let h = high_bit(n);
        lemma_high_bit(n);
        assert(h <= 52) by (bit_vector)
            requires
                n >> h == 1 && n < 0x20_0000_0000_0000u64 && h <= 63,
        ;
        let b = (((1023 + h) as u64) << 52) | ((n << ((52 - h) as u64)) & 0xf_ffff_ffff_ffff);
        assert(b != 0 && (b >> 63) == 0 && ((b >> 52) & 0x7ff) == (1023 + h) as u64 && (h < 52
            ==> ((b & 0xf_ffff_ffff_ffff) & (((1u64 << ((52 - h) as u64)) - 1) as u64)) == 0)
            && ((((1u64 << 52) | (b & 0xf_ffff_ffff_ffff)) >> ((52 - h) as u64)) as u64) == n)
            by (bit_vector)
            requires
                n >> h == 1,
                h <= 52,
                b == (((1023 + h) as u64) << 52) | ((n << ((52 - h) as u64))
                    & 0xf_ffff_ffff_ffff),
        ;
        assert(((b >> 52) & 0x7ff) >= 1023 && ((b >> 52) & 0x7ff) <= 1075);
        assert(((((b >> 52) & 0x7ff)) - 1023) as u64 == h);
    }
}

/// The highest set bit is where [`high_bit`] says: shifting it away leaves one.
pub proof fn lemma_high_bit(n: u64)
    requires
        n >= 1,
    ensures
        n >> high_bit(n) == 1,
        high_bit(n) <= 63,
    decreases n,
{
    if n <= 1 {
        assert(n >> 0u64 == n) by (bit_vector);
    } else {
        assert(1 <= n >> 1 && n >> 1 < n) by (bit_vector)
            requires
                n > 1,
        ;
        lemma_high_bit(n >> 1);
        let h = high_bit(n >> 1);
        assert((n >> 1) >> h == 1 && h <= 62 ==> n >> ((1 + h) as u64) == 1 && (1 + h) <= 63)
            by (bit_vector)
            requires
                n > 1,
        ;
        assert(h <= 62) by {
            if h == 63 {
                assert((n >> 1) >> 63u64 == 0) by (bit_vector)
                    requires
                        n <= 0xffff_ffff_ffff_ffffu64,
                ;
            }
        }
    }
}

/// Decode number bits into the canonical non-negative integer they stand for.
pub fn number_index(bits: u64) -> (r: Option<u64>)
    ensures
        r == number_index_of(bits),
{
    if bits == 0 {
        return Some(0);
    }
    let sign = bits >> 63;
    let e = (bits >> 52) & 0x7ff;
    let m = bits & 0xf_ffff_ffff_ffff;
    if sign != 0 || e < 1023 || e > 1075 {
        return None;
    }
    let k = e - 1023;
    proof {
        assert(k < 52 ==> (1u64 << ((52 - k) as u64)) >= 1) by (bit_vector);
    }
    if k < 52 && (m & ((1u64 << (52 - k)) - 1)) != 0 {
        return None;
    }
    Some(((1u64 << 52) | m) >> (52 - k))
}

/// Encode an integer below the exact-integer limit into number bits.
pub fn number_bits(n: u64) -> (r: u64)
    requires
        n < NUMBER_INT_LIMIT,
    ensures
        r == number_bits_of(n),
        number_index_of(r) == Some(n),
{
    proof {
        lemma_number_bits_roundtrip(n);
    }
    if n == 0 {
        return 0;
    }
    proof {
        assert(n >> 0u64 == n) by (bit_vector);
    }
    let mut h: u64 = 0;
    let mut t: u64 = n;
    while t > 1
        invariant
            t == n >> h,
            h <= 63,
            high_bit(n) == h + high_bit(t),
        decreases t,
    {
        proof {
            assert((n >> h) >> 1u64 == n >> ((h + 1) as u64) && (n >> ((h + 1) as u64)) < (n >> h))
                by (bit_vector)
                requires
                    (n >> h) > 1 && h <= 63,
            ;
            assert(h <= 62) by {
                if h == 63 {
                    assert(n >> 63u64 <= 1) by (bit_vector);
                }
            }
            assert(1 <= t >> 1) by (bit_vector)
                requires
                    t > 1,
            ;
            lemma_high_bit(t >> 1);
            assert(high_bit(t) == 1 + high_bit(t >> 1));
        }
        t = t >> 1;
        h = h + 1;
    }
    proof {
        assert(high_bit(t) == 0);
        assert(high_bit(n) == h);
        lemma_high_bit(n);
        assert(h <= 52) by (bit_vector)
            requires
                n >> h == 1 && n < 0x20_0000_0000_0000u64 && h <= 63,
        ;
    }
    (((1023 + h) as u64) << 52) | ((n << (52 - h)) & 0xf_ffff_ffff_ffff)
}

/// Encode a signed integer into number bits; nothing when its magnitude
/// reaches the exact-integer limit.
pub fn signed_number_bits(i: i64) -> (r: Option<u64>)
    ensures
        -(NUMBER_INT_LIMIT as int) < i < NUMBER_INT_LIMIT ==> r == Some(
            signed_number_bits_of(i as int),
        ),
        !(-(NUMBER_INT_LIMIT as int) < i < NUMBER_INT_LIMIT) ==> r is None,
{
    if i >= 0 {
        if (i as u64) < NUMBER_INT_LIMIT {
            Some(number_bits(i as u64))
        } else {
            None
        }
    } else {
        if i > -(NUMBER_INT_LIMIT as i64) {
            let magnitude = (-i) as u64;
            Some((1u64 << 63) | number_bits(magnitude))
        } else {
            None
        }
    }
}

} // verus!
