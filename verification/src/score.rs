use vstd::prelude::*;

verus! {

/// The Jaro-Winkler similarity of two strings, as the bit pattern of the
/// value; on non-negative values the bit patterns order exactly as the
/// values themselves.
pub uninterp spec fn jw_sim_of(a: Seq<char>, b: Seq<char>) -> u64;

/// Relies on strsim::jaro_winkler: its result depends on the two strings
/// alone and lies between 0.0 and 1.0. It is returned as the value's bit
/// pattern, so comparing these numbers compares similarities.
#[verifier::external_body]
pub fn jw_sim(a: &str, b: &str) -> (r: u64)
    ensures
        r == jw_sim_of(a@, b@),
{
    strsim::jaro_winkler(a, b).to_bits()
}

/// The normalized Damerau-Levenshtein similarity of two strings, as the bit
/// pattern of the value.
pub uninterp spec fn ndl_sim_of(a: Seq<char>, b: Seq<char>) -> u64;

/// Relies on strsim::normalized_damerau_levenshtein: its result depends on
/// the two strings alone and lies between 0.0 and 1.0 (1.0 for equal
/// strings). It is returned as the value's bit pattern, so comparing these
/// numbers compares similarities.
#[verifier::external_body]
pub fn ndl_sim(a: &str, b: &str) -> (r: u64)
    ensures
        r == ndl_sim_of(a@, b@),
{
    strsim::normalized_damerau_levenshtein(a, b).to_bits()
}

/// The significand of a non-negative binary64 bit pattern: the stored
/// fraction, with the implicit leading bit added for normal numbers.
pub open spec fn spec_mantissa(bits: u64) -> u128 {
    if (bits >> 52) & 0x7ff == 0 {
        (bits & 0xf_ffff_ffff_ffff) as u128
    } else {
        ((bits & 0xf_ffff_ffff_ffff) | 0x10_0000_0000_0000) as u128
    }
}

/// The power of two that scales the significand of a binary64 bit pattern.
pub open spec fn spec_exp(bits: u64) -> int {
    if (bits >> 52) & 0x7ff == 0 {
        -1074
    } else {
        ((bits >> 52) & 0x7ff) - 1075
    }
}

/// Shifts a significand up until it reaches the canonical window, adjusting
/// the exponent, with at most `k` steps.
pub open spec fn spec_norm(m: u128, e: int, k: nat) -> (u128, int)
    decreases k,
{
    if k == 0 || m >= (1u128 << 105) {
        (m, e)
    } else {
        spec_norm(m << 1, e - 1, (k - 1) as nat)
    }
}

/// The similarity product in the total order of real numbers: each factor is
/// read as a binary64 bit pattern, clamped below to the smallest positive
/// float, and the exact real product `m * 2^e` is encoded as a number that
/// compares as the product itself.
pub open spec fn spec_sim_product(a: u64, b: u64) -> u128 {
    let ac = if a == 0 {
        1u64
    } else {
        a
    };
    let bc = if b == 0 {
        1u64
    } else {
        b
    };
    let pair = spec_norm(
        (spec_mantissa(ac) * spec_mantissa(bc)) as u128,
        spec_exp(ac) + spec_exp(bc),
        106,
    );
    (((pair.1 + 3000) as u128) << 106) | pair.0
}

fn mantissa(bits: u64) -> (r: u128)
    ensures
        r == spec_mantissa(bits),
        r < 0x20_0000_0000_0000u128,
{
    proof {
        assert((bits & 0xf_ffff_ffff_ffff) | 0x10_0000_0000_0000 < 0x20_0000_0000_0000u64
            && (bits & 0xf_ffff_ffff_ffff) < 0x20_0000_0000_0000u64) by (bit_vector);
    }
    if (bits >> 52) & 0x7ff == 0 {
        (bits & 0xf_ffff_ffff_ffff) as u128
    } else {
        ((bits & 0xf_ffff_ffff_ffff) | 0x10_0000_0000_0000) as u128
    }
}

fn exponent(bits: u64) -> (r: i32)
    ensures
        r == spec_exp(bits),
        -1074 <= r < 0x800,
{
    proof {
        assert((bits >> 52) & 0x7ff < 0x800) by (bit_vector);
    }
    let raw = ((bits >> 52) & 0x7ff) as u32;
    if raw == 0 {
        -1074
    } else {
        (raw as i32) - 1075
    }
}

/// The score of a declaration against a query: the product of the two
/// clamped Jaro-Winkler similarities, encoded so that the integer order of
/// scores is the real order of the products.
pub fn sim_product(a: u64, b: u64) -> (r: u128)
    ensures
        r == spec_sim_product(a, b),
{
    let ac: u64 = if a == 0 {
        1
    } else {
        a
    };
    let bc: u64 = if b == 0 {
        1
    } else {
        b
    };
    let ma = mantissa(ac);
    let mb = mantissa(bc);
    proof {
        assert(ma * mb <= 0x1f_ffff_ffff_ffffu128 * 0x1f_ffff_ffff_ffffu128) by (nonlinear_arith)
            requires
                ma < 0x20_0000_0000_0000u128,
                mb < 0x20_0000_0000_0000u128,
        ;
    }
    let m0 = ma * mb;
    let e0 = exponent(ac) + exponent(bc);
    let mut m = m0;
    let mut e = e0;
    let mut k: u32 = 106;
    while k > 0 && m < (1u128 << 105)
        invariant
            spec_norm(m, e as int, k as nat) == spec_norm(m0, e0 as int, 106),
            k <= 106,
            -2148 <= e0 < 0x1000,
            e == e0 - (106 - k),
            -2254 <= e < 0x1000,
        decreases k,
    {
        m = m << 1;
        e = e - 1;
        k = k - 1;
    }
    proof {
        assert(spec_norm(m, e as int, k as nat) == (m, e as int));
        assert(m == spec_norm(m0, e0 as int, 106).0);
        assert(e as int == spec_norm(m0, e0 as int, 106).1);
    }
    (((e + 3000) as u128) << 106) | m
}

} // verus!
