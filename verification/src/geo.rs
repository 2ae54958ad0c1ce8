//! Web Mercator projection in fixed-point integer arithmetic.
//!
//! Latitudes and longitudes are microdegrees (1e-6 degree, `i64`);
//! world positions are micropixels (1e-6 pixel, `i64`) on a square
//! world of `2^(zoom+8)` pixels. The transcendental part of the
//! projection (the inverse Gudermannian) is computed in Q32 fixed
//! point by truncated series; the spec functions below mirror the
//! executable arithmetic exactly, so the contracts pin every bit of
//! the result.

use vstd::prelude::*;
use vstd::arithmetic::div_mod::*;
use vstd::arithmetic::mul::*;

verus! {

/// Latitude bound of the Web Mercator projection, in microdegrees.
pub const MERC_LAT_LIMIT_UDEG: i64 = 85051128;
/// Half a turn (180 degrees) in microdegrees.
pub const HALF_TURN_UDEG: i64 = 180000000;
/// A full turn (360 degrees) in microdegrees.
pub const FULL_TURN_UDEG: i64 = 360000000;

/// One in Q32 fixed point.
pub const ONE_Q32: u128 = 4294967296;
/// Pi in Q32 fixed point (rounded).
pub const PI_Q32: u128 = 13493037705;
/// ln(2) in Q32 fixed point (rounded).
pub const LN2_Q32: u128 = 2977044472;
/// Cap on the Q32 sine magnitude, slightly above sin of the Mercator
/// latitude limit; keeps the artanh argument away from one.
pub const SIN_CAP_Q32: u128 = 4280000000;

/// Latitude clamped to the Mercator-valid range.
pub open spec fn clamp_lat_spec(lat: int) -> int {
    if lat < -85051128 {
        -85051128
    } else if lat > 85051128 {
        85051128
    } else {
        lat
    }
}

/// A latitude clamped into the coordinate domain [-90, 90] degrees.
pub open spec fn clamp_lat90_spec(lat: int) -> int {
    if lat < -90000000 {
        -90000000
    } else if lat > 90000000 {
        90000000
    } else {
        lat
    }
}

/// Clamp a latitude into the coordinate domain [-90, 90] degrees.
pub fn clamp_lat90(lat: i64) -> (r: i64)
    ensures
        r as int == clamp_lat90_spec(lat as int),
        -90000000 <= r <= 90000000,
{
    if lat < -90000000 {
        -90000000
    } else if lat > 90000000 {
        90000000
    } else {
        lat
    }
}

/// Clamp a latitude to the Mercator-valid range.
pub fn clamp_lat(lat: i64) -> (r: i64)
    ensures
        r as int == clamp_lat_spec(lat as int),
{
    if lat < -MERC_LAT_LIMIT_UDEG {
        -MERC_LAT_LIMIT_UDEG
    } else if lat > MERC_LAT_LIMIT_UDEG {
        MERC_LAT_LIMIT_UDEG
    } else {
        lat
    }
}

/// Wrap a longitude into [-180, 180] degrees by whole turns.
pub fn wrap_lng(lng: i64) -> (r: i64)
    requires
        -9000000000000000000 <= lng <= 9000000000000000000,
    ensures
        -180000000 <= r <= 180000000,
        exists|k: int| r as int == lng as int + #[trigger] (360000000 * k),
        -180000000 <= lng <= 180000000 ==> r == lng,
{
    let mut l: i64 = lng;
    let ghost mut k: int = 0;
    while l > HALF_TURN_UDEG
        invariant
            l as int == lng as int + 360000000 * k,
            l >= -180000000 || l == lng,
            lng <= 9000000000000000000,
            -180000000 <= lng <= 180000000 ==> l == lng,
        decreases l + 180000000,
    {
        l = l - FULL_TURN_UDEG;
        proof {
            k = k - 1;
        }
    }
    while l < -HALF_TURN_UDEG
        invariant
            l as int == lng as int + 360000000 * k,
            l <= 180000000,
            lng >= -9000000000000000000,
            -180000000 <= lng <= 180000000 ==> l == lng,
        decreases 180000000 - l,
    {
        l = l + FULL_TURN_UDEG;
        proof {
            k = k + 1;
        }
    }
    proof {
        assert(l as int == lng as int + 360000000 * k);
    }
    l
}

/// Truncated Taylor series for sine on a nonnegative Q32 radian value,
/// capped into [0, SIN_CAP_Q32].
pub open spec fn sin_abs_q32_spec(x: int) -> int {
    let x2 = (x * x) / 4294967296;
    let u1 = ((x * x2) / 4294967296) / 6;
    let u2 = ((u1 * x2) / 4294967296) / 20;
    let u3 = ((u2 * x2) / 4294967296) / 42;
    let u4 = ((u3 * x2) / 4294967296) / 72;
    let u5 = ((u4 * x2) / 4294967296) / 110;
    let u6 = ((u5 * x2) / 4294967296) / 156;
    let u7 = ((u6 * x2) / 4294967296) / 210;
    let u8 = ((u7 * x2) / 4294967296) / 272;
    let acc = x - u1 + u2 - u3 + u4 - u5 + u6 - u7 + u8;
    if acc < 0 {
        0
    } else if acc > 4280000000 {
        4280000000
    } else {
        acc
    }
}

/// One series step: from a nonnegative term `a`, the next term
/// `((a * x2) / one) / d` is no larger than `a` whenever `x2 <= d * one`.
proof fn lemma_series_step(a: int, x2: int, one: int, d: int)
    requires
        0 <= a,
        0 <= x2,
        0 < one,
        0 < d,
        x2 <= d * one,
    ensures
        0 <= ((a * x2) / one) / d <= a,
{
    lemma_mul_nonnegative(a, x2);
    assert(a * x2 <= (a * d) * one) by (nonlinear_arith)
        requires
            0 <= a,
            x2 <= d * one,
            0 < one,
            0 < d,
    ;
    lemma_mul_nonnegative(a, d);
    lemma_div_is_ordered(a * x2, (a * d) * one, one);
    lemma_div_by_multiple(a * d, one);
    lemma_div_pos_is_pos(a * x2, one);
    lemma_div_is_ordered((a * x2) / one, a * d, d);
    lemma_div_by_multiple(a, d);
    lemma_div_pos_is_pos((a * x2) / one, d);
}

/// Quotient range from a product range: if `lo * d <= x < hi * d`
/// then `lo <= x / d < hi`.
proof fn lemma_div_range(x: int, d: int, lo: int, hi: int)
    requires
        0 < d,
        0 <= lo,
        lo * d <= x,
        x < hi * d,
    ensures
        lo <= x / d < hi,
{
    lemma_mul_nonnegative(lo, d);
    lemma_div_is_ordered(lo * d, x, d);
    lemma_div_by_multiple(lo, d);
    assert(hi * d - 1 == (hi - 1) * d + (d - 1)) by (nonlinear_arith);
    lemma_div_is_ordered(x, hi * d - 1, d);
    lemma_fundamental_div_mod_converse(hi * d - 1, d, hi - 1, d - 1);
}

/// Sine of a nonnegative Q32 radian value by truncated Taylor series.
fn sin_abs_q32(x: u128) -> (r: u128)
    requires
        x <= 6400000000,
    ensures
        r as int == sin_abs_q32_spec(x as int),
        r <= 4280000000,
{
    proof {
        assert(x * x <= 40960000000000000000) by (nonlinear_arith)
            requires
                x <= 6400000000,
        ;
    }
    let x2: u128 = (x * x) / 4294967296;
    proof {
        lemma_div_is_ordered((x * x) as int, 40960000000000000000int, 4294967296);
        assert(x2 <= 9536743164);
        assert(x * x2 <= 61035156249600000000) by (nonlinear_arith)
            requires
                x <= 6400000000,
                x2 <= 9536743164,
        ;
        lemma_series_step(x as int, x2 as int, 4294967296, 6);
    }
    let u1: u128 = ((x * x2) / 4294967296) / 6;
    proof {
        assert(u1 * x2 <= 61035156249600000000) by (nonlinear_arith)
            requires
                u1 <= 6400000000,
                x2 <= 9536743164,
        ;
        lemma_series_step(u1 as int, x2 as int, 4294967296, 20);
    }
    let u2: u128 = ((u1 * x2) / 4294967296) / 20;
    proof {
        assert(u2 * x2 <= 61035156249600000000) by (nonlinear_arith)
            requires
                u2 <= 6400000000,
                x2 <= 9536743164,
        ;
        lemma_series_step(u2 as int, x2 as int, 4294967296, 42);
    }
    let u3: u128 = ((u2 * x2) / 4294967296) / 42;
    proof {
        assert(u3 * x2 <= 61035156249600000000) by (nonlinear_arith)
            requires
                u3 <= 6400000000,
                x2 <= 9536743164,
        ;
        lemma_series_step(u3 as int, x2 as int, 4294967296, 72);
    }
    let u4: u128 = ((u3 * x2) / 4294967296) / 72;
    proof {
        assert(u4 * x2 <= 61035156249600000000) by (nonlinear_arith)
            requires
                u4 <= 6400000000,
                x2 <= 9536743164,
        ;
        lemma_series_step(u4 as int, x2 as int, 4294967296, 110);
    }
    let u5: u128 = ((u4 * x2) / 4294967296) / 110;
    proof {
        assert(u5 * x2 <= 61035156249600000000) by (nonlinear_arith)
            requires
                u5 <= 6400000000,
                x2 <= 9536743164,
        ;
        lemma_series_step(u5 as int, x2 as int, 4294967296, 156);
    }
    let u6: u128 = ((u5 * x2) / 4294967296) / 156;
    proof {
        assert(u6 * x2 <= 61035156249600000000) by (nonlinear_arith)
            requires
                u6 <= 6400000000,
                x2 <= 9536743164,
        ;
        lemma_series_step(u6 as int, x2 as int, 4294967296, 210);
    }
    let u7: u128 = ((u6 * x2) / 4294967296) / 210;
    proof {
        assert(u7 * x2 <= 61035156249600000000) by (nonlinear_arith)
            requires
                u7 <= 6400000000,
                x2 <= 9536743164,
        ;
        lemma_series_step(u7 as int, x2 as int, 4294967296, 272);
    }
    let u8: u128 = ((u7 * x2) / 4294967296) / 272;
    let acc: u128 = x - u1 + u2 - u3 + u4 - u5 + u6 - u7 + u8;
    if acc > SIN_CAP_Q32 {
        SIN_CAP_Q32
    } else {
        acc
    }
}

/// Inverse hyperbolic tangent of a nonnegative Q32 value below one,
/// capped at pi: artanh(s) = ln((1+s)/(1-s)) / 2, with the logarithm
/// taken by normalizing into [1, 2) and a truncated artanh series.
pub open spec fn artanh_abs_q32_spec(s: int) -> int {
    let u = ((4294967296 + s) * 4294967296) / (4294967296 - s);
    let m1 = if u >= 1099511627776 { u / 256 } else { u };
    let e1 = if u >= 1099511627776 { 8int } else { 0int };
    let m2 = if m1 >= 68719476736 { m1 / 16 } else { m1 };
    let e2 = e1 + if m1 >= 68719476736 { 4int } else { 0int };
    let m3 = if m2 >= 17179869184 { m2 / 4 } else { m2 };
    let e3 = e2 + if m2 >= 17179869184 { 2int } else { 0int };
    let m4 = if m3 >= 8589934592 { m3 / 2 } else { m3 };
    let e4 = e3 + if m3 >= 8589934592 { 1int } else { 0int };
    let z = ((m4 - 4294967296) * 4294967296) / (m4 + 4294967296);
    let zsq = (z * z) / 4294967296;
    let w1 = (z * zsq) / 4294967296;
    let w2 = (w1 * zsq) / 4294967296;
    let w3 = (w2 * zsq) / 4294967296;
    let w4 = (w3 * zsq) / 4294967296;
    let w5 = (w4 * zsq) / 4294967296;
    let w6 = (w5 * zsq) / 4294967296;
    let w7 = (w6 * zsq) / 4294967296;
    let w8 = (w7 * zsq) / 4294967296;
    let w9 = (w8 * zsq) / 4294967296;
    let half_lnm = z + w1 / 3 + w2 / 5 + w3 / 7 + w4 / 9 + w5 / 11 + w6 / 13 + w7 / 15 + w8
        / 17 + w9 / 19;
    let lnu = e4 * 2977044472 + 2 * half_lnm;
    let r = lnu / 2;
    if r > 13493037705 {
        13493037705
    } else {
        r
    }
}

/// Executable counterpart of `artanh_abs_q32_spec`.
#[verifier::rlimit(100)]
fn artanh_abs_q32(s: u128) -> (r: u128)
    requires
        s <= 4280000000,
    ensures
        r as int == artanh_abs_q32_spec(s as int),
        r <= 13493037705,
{
    proof {
        lemma_mul_inequality((4294967296 + s) as int, 8574967296, 4294967296);
    }
    let num: u128 = (ONE_Q32 + s) * ONE_Q32;
    let den: u128 = ONE_Q32 - s;
    proof {
        assert(den >= 14967296);
        lemma_mul_inequality((4294967296 - s) as int, (4294967296 + s) as int, 4294967296);
        assert((4294967296 + s) * 4294967296 < 2460645135942 * (4294967296 - s))
            by (nonlinear_arith)
            requires
                s <= 4280000000,
        ;
        lemma_div_range(num as int, den as int, 4294967296, 2460645135942);
    }
    let u: u128 = num / den;
    proof {
        assert(4294967296 <= u <= 2460645135941);
        if u >= 1099511627776 {
            lemma_div_range(u as int, 256, 4294967296, 9611895063);
        }
    }
    let m1: u128 = if u >= 1099511627776 { u / 256 } else { u };
    let e1: u128 = if u >= 1099511627776 { 8 } else { 0 };
    proof {
        assert(4294967296 <= m1 < 1099511627776);
        if m1 >= 68719476736 {
            lemma_div_range(m1 as int, 16, 4294967296, 68719476736);
        }
    }
    let m2: u128 = if m1 >= 68719476736 { m1 / 16 } else { m1 };
    let e2: u128 = e1 + if m1 >= 68719476736 { 4u128 } else { 0u128 };
    proof {
        assert(4294967296 <= m2 < 68719476736);
        if m2 >= 17179869184 {
            lemma_div_range(m2 as int, 4, 4294967296, 17179869184);
        }
    }
    let m3: u128 = if m2 >= 17179869184 { m2 / 4 } else { m2 };
    let e3: u128 = e2 + if m2 >= 17179869184 { 2u128 } else { 0u128 };
    proof {
        assert(4294967296 <= m3 < 17179869184);
        if m3 >= 8589934592 {
            lemma_div_range(m3 as int, 2, 4294967296, 8589934592);
        }
    }
    let m4: u128 = if m3 >= 8589934592 { m3 / 2 } else { m3 };
    let e4: u128 = e3 + if m3 >= 8589934592 { 1u128 } else { 0u128 };
    proof {
        assert(4294967296 <= m4 < 8589934592);
        assert(e4 <= 15);
        lemma_mul_inequality((m4 - 4294967296) as int, 4294967295, 4294967296);
        lemma_mul_nonnegative((m4 - 4294967296) as int, 4294967296);
        assert((4294967295int * 4294967296) < 2147483648 * ((m4 + 4294967296) as int))
            by (nonlinear_arith)
            requires
                m4 >= 4294967296,
        ;
        lemma_div_range(((m4 - ONE_Q32) * ONE_Q32) as int, (m4 + ONE_Q32) as int, 0,
            2147483648);
    }
    let z: u128 = ((m4 - ONE_Q32) * ONE_Q32) / (m4 + ONE_Q32);
    proof {
        assert(z < 2147483648);
        assert(z * z <= 4611686018427387904) by (nonlinear_arith)
            requires
                z < 2147483648,
        ;
    }
    let zsq: u128 = (z * z) / 4294967296;
    proof {
        lemma_div_is_ordered((z * z) as int, 4611686018427387904, 4294967296);
        assert(zsq <= 1073741824);
        lemma_series_step(z as int, zsq as int, 4294967296, 1);
    }
    proof {
        assert(z * zsq < 4611686018427387904) by (nonlinear_arith)
            requires
                z < 2147483648,
                zsq <= 1073741824,
        ;
        lemma_series_step(z as int, zsq as int, 4294967296, 1);
    }
    let w1: u128 = (z * zsq) / 4294967296;
    proof {
        assert(w1 * zsq < 4611686018427387904) by (nonlinear_arith)
            requires
                w1 < 2147483648,
                zsq <= 1073741824,
        ;
        lemma_series_step(w1 as int, zsq as int, 4294967296, 1);
    }
    let w2: u128 = (w1 * zsq) / 4294967296;
    proof {
        assert(w2 * zsq < 4611686018427387904) by (nonlinear_arith)
            requires
                w2 < 2147483648,
                zsq <= 1073741824,
        ;
        lemma_series_step(w2 as int, zsq as int, 4294967296, 1);
    }
    let w3: u128 = (w2 * zsq) / 4294967296;
    proof {
        assert(w3 * zsq < 4611686018427387904) by (nonlinear_arith)
            requires
                w3 < 2147483648,
                zsq <= 1073741824,
        ;
        lemma_series_step(w3 as int, zsq as int, 4294967296, 1);
    }
    let w4: u128 = (w3 * zsq) / 4294967296;
    proof {
        assert(w4 * zsq < 4611686018427387904) by (nonlinear_arith)
            requires
                w4 < 2147483648,
                zsq <= 1073741824,
        ;
        lemma_series_step(w4 as int, zsq as int, 4294967296, 1);
    }
    let w5: u128 = (w4 * zsq) / 4294967296;
    proof {
        assert(w5 * zsq < 4611686018427387904) by (nonlinear_arith)
            requires
                w5 < 2147483648,
                zsq <= 1073741824,
        ;
        lemma_series_step(w5 as int, zsq as int, 4294967296, 1);
    }
    let w6: u128 = (w5 * zsq) / 4294967296;
    proof {
        assert(w6 * zsq < 4611686018427387904) by (nonlinear_arith)
            requires
                w6 < 2147483648,
                zsq <= 1073741824,
        ;
        lemma_series_step(w6 as int, zsq as int, 4294967296, 1);
    }
    let w7: u128 = (w6 * zsq) / 4294967296;
    proof {
        assert(w7 * zsq < 4611686018427387904) by (nonlinear_arith)
            requires
                w7 < 2147483648,
                zsq <= 1073741824,
        ;
        lemma_series_step(w7 as int, zsq as int, 4294967296, 1);
    }
    let w8: u128 = (w7 * zsq) / 4294967296;
    proof {
        assert(w8 * zsq < 4611686018427387904) by (nonlinear_arith)
            requires
                w8 < 2147483648,
                zsq <= 1073741824,
        ;
        lemma_series_step(w8 as int, zsq as int, 4294967296, 1);
    }
    let w9: u128 = (w8 * zsq) / 4294967296;
    let half_lnm: u128 = z + w1 / 3 + w2 / 5 + w3 / 7 + w4 / 9 + w5 / 11 + w6 / 13 + w7 / 15
        + w8 / 17 + w9 / 19;
    let lnu: u128 = e4 * LN2_Q32 + 2 * half_lnm;
    let r: u128 = lnu / 2;
    if r > PI_Q32 {
        PI_Q32
    } else {
        r
    }
}

/// The Mercator vertical position of a latitude as a Q32 fraction of
/// the world height: 0 at the north clamp, one at the south clamp,
/// one half at the equator. Opaque: the fixed-point series inside is
/// revealed only where it is computed.
#[verifier::opaque]
pub open spec fn merc_q_spec(lat: int) -> int {
    let lc = clamp_lat_spec(lat);
    let a = if lc < 0 { -lc } else { lc };
    let phi = (a * 13493037705) / 180000000;
    let s = sin_abs_q32_spec(phi);
    let t = artanh_abs_q32_spec(s);
    let ratio = (t * 4294967296) / 13493037705;
    if lc < 0 {
        (4294967296 + ratio) / 2
    } else {
        (4294967296 - ratio) / 2
    }
}

/// Mercator vertical fraction (Q32) of a latitude in microdegrees.
pub fn merc_q_of_lat(lat: i64) -> (q: u64)
    ensures
        q as int == merc_q_spec(lat as int),
        q <= 4294967296,
{
    proof {
        reveal(merc_q_spec);
    }
    let lc: i64 = clamp_lat(lat);
    let neg: bool = lc < 0;
    let a: u128 = if neg {
        (-lc) as u128
    } else {
        lc as u128
    };
    proof {
        assert(a <= 85051128);
        lemma_mul_inequality(a as int, 85051128, 13493037705);
        lemma_div_is_ordered((a * 13493037705) as int, 85051128int * 13493037705, 180000000);
        lemma_mul_nonnegative(a as int, 13493037705);
        lemma_div_pos_is_pos((a * 13493037705) as int, 180000000);
    }
    let phi: u128 = (a * 13493037705) / 180000000;
    let s: u128 = sin_abs_q32(phi);
    let t: u128 = artanh_abs_q32(s);
    proof {
        lemma_mul_inequality(t as int, 13493037705, 4294967296);
        lemma_div_is_ordered((t * 4294967296) as int, 13493037705int * 4294967296, 13493037705);
        lemma_div_by_multiple(4294967296, 13493037705);
        assert(13493037705int * 4294967296 == 4294967296 * 13493037705) by (nonlinear_arith);
        lemma_mul_nonnegative(t as int, 4294967296);
        lemma_div_pos_is_pos((t * 4294967296) as int, 13493037705);
    }
    let ratio: u128 = (t * ONE_Q32) / PI_Q32;
    assert(ratio <= 4294967296);
    let q: u128 = if neg {
        (ONE_Q32 + ratio) / 2
    } else {
        (ONE_Q32 - ratio) / 2
    };
    q as u64
}

/// The latitude returned by the bisection inverse of `merc_q_spec`.
pub open spec fn lat_search_spec(q: int, lo: int, hi: int) -> int
    decreases hi - lo,
{
    if lo >= hi {
        lo
    } else {
        let mid = lo + (hi - lo) / 2;
        if merc_q_spec(mid) > q {
            lat_search_spec(q, mid + 1, hi)
        } else {
            lat_search_spec(q, lo, mid)
        }
    }
}

/// Latitude whose Mercator fraction is `q`, by bisection over the
/// monotone projection; exact inverse of `merc_q_spec` up to its
/// microdegree quantization.
pub fn lat_of_merc_q(q: u64) -> (lat: i64)
    requires
        q <= 4294967296,
    ensures
        lat as int == lat_search_spec(q as int, -85051128, 85051128),
        -85051128 <= lat <= 85051128,
{
    let mut lo: i64 = -MERC_LAT_LIMIT_UDEG;
    let mut hi: i64 = MERC_LAT_LIMIT_UDEG;
    while lo < hi
        invariant
            -85051128 <= lo <= hi <= 85051128,
            q <= 4294967296,
            lat_search_spec(q as int, lo as int, hi as int) == lat_search_spec(
                q as int,
                -85051128,
                85051128,
            ),
        decreases hi - lo,
    {
        let mid: i64 = lo + (hi - lo) / 2;
        if merc_q_of_lat(mid) > q {
            lo = mid + 1;
        } else {
            hi = mid;
        }
    }
    lo
}

/// World width and height in whole pixels at an integer zoom:
/// 256 tiles of 256 pixels, doubled at each zoom step.
pub open spec fn world_px_spec(zr: int) -> int {
    if zr <= 1 {
        512
    } else if zr == 2 {
        1024
    } else if zr == 3 {
        2048
    } else if zr == 4 {
        4096
    } else if zr == 5 {
        8192
    } else if zr == 6 {
        16384
    } else if zr == 7 {
        32768
    } else if zr == 8 {
        65536
    } else if zr == 9 {
        131072
    } else if zr == 10 {
        262144
    } else if zr == 11 {
        524288
    } else if zr == 12 {
        1048576
    } else if zr == 13 {
        2097152
    } else if zr == 14 {
        4194304
    } else if zr == 15 {
        8388608
    } else if zr == 16 {
        16777216
    } else if zr == 17 {
        33554432
    } else {
        67108864
    }
}

/// World side length in whole pixels at an integer zoom in [1, 18].
pub fn world_px(zr: u32) -> (w: u64)
    requires
        1 <= zr <= 18,
    ensures
        w as int == world_px_spec(zr as int),
        512 <= w <= 67108864,
{
    if zr <= 1 {
        512
    } else if zr == 2 {
        1024
    } else if zr == 3 {
        2048
    } else if zr == 4 {
        4096
    } else if zr == 5 {
        8192
    } else if zr == 6 {
        16384
    } else if zr == 7 {
        32768
    } else if zr == 8 {
        65536
    } else if zr == 9 {
        131072
    } else if zr == 10 {
        262144
    } else if zr == 11 {
        524288
    } else if zr == 12 {
        1048576
    } else if zr == 13 {
        2097152
    } else if zr == 14 {
        4194304
    } else if zr == 15 {
        8388608
    } else if zr == 16 {
        16777216
    } else if zr == 17 {
        33554432
    } else {
        67108864
    }
}

/// World x position, in micropixels, of a longitude at an integer zoom.
pub open spec fn lng_to_world_x_spec(lng: int, zr: int) -> int {
    (lng + 180000000) * world_px_spec(zr) / 360
}

/// Project a longitude to a world x position in micropixels.
pub fn lng_to_world_x(lng: i64, zr: u32) -> (wx: i64)
    requires
        -180000000 <= lng <= 180000000,
        1 <= zr <= 18,
    ensures
        wx as int == lng_to_world_x_spec(lng as int, zr as int),
        0 <= wx as int <= world_px_spec(zr as int) * 1000000,
{
    let w: u64 = world_px(zr);
    proof {
        assert((lng as int + 180000000) * (w as int) <= 24159191040000000) by (nonlinear_arith)
            requires
                lng as int + 180000000 <= 360000000,
                w <= 67108864,
        ;
        lemma_mul_nonnegative(lng as int + 180000000, w as int);
    }
    let a: i128 = (lng as i128 + 180000000) * (w as i128);
    proof {
        lemma_mul_nonnegative((lng + 180000000) as int, w as int);
        lemma_mul_inequality((lng + 180000000) as int, 360000000, w as int);
        lemma_div_is_ordered(a as int, 360000000 * (w as int), 360);
        assert(360000000 * (w as int) / 360 == 1000000 * (w as int)) by (nonlinear_arith);
        lemma_div_pos_is_pos(a as int, 360);
        assert(1000000 * (w as int) == (w as int) * 1000000) by (nonlinear_arith);
    }
    let r: i128 = a / 360;
    r as i64
}

/// Longitude, in microdegrees, of a world x position at an integer zoom.
pub open spec fn world_x_to_lng_spec(wx: int, zr: int) -> int {
    wx * 360 / world_px_spec(zr) - 180000000
}

/// Unproject a world x position (micropixels) back to a longitude.
pub fn world_x_to_lng(wx: i64, zr: u32) -> (lng: i64)
    requires
        1 <= zr <= 18,
        0 <= wx as int <= world_px_spec(zr as int) * 1000000,
    ensures
        lng as int == world_x_to_lng_spec(wx as int, zr as int),
        -180000000 <= lng <= 180000000,
{
    let w: u64 = world_px(zr);
    let a: i128 = (wx as i128) * 360;
    proof {
        lemma_mul_nonnegative(wx as int, 360);
        lemma_mul_inequality(wx as int, (w as int) * 1000000, 360);
        lemma_div_is_ordered(a as int, ((w as int) * 1000000) * 360, w as int);
        assert(((w as int) * 1000000) * 360 == (w as int) * 360000000) by (nonlinear_arith);
        lemma_div_by_multiple(360000000, w as int);
        assert((w as int) * 360000000 == 360000000 * (w as int)) by (nonlinear_arith);
        lemma_div_pos_is_pos(a as int, w as int);
    }
    let r: i128 = a / (w as i128);
    (r as i64) - HALF_TURN_UDEG
}

/// Projecting a longitude and unprojecting it again loses at most one
/// microdegree, at any integer zoom.
pub proof fn lemma_lng_round_trip(lng: int, zr: int)
    requires
        -180000000 <= lng <= 180000000,
        1 <= zr <= 18,
    ensures
        lng - 1 <= world_x_to_lng_spec(lng_to_world_x_spec(lng, zr), zr) <= lng,
{
    let w = world_px_spec(zr);
    let a = lng + 180000000;
    let wx = a * w / 360;
    lemma_mul_nonnegative(a, w);
    lemma_fundamental_div_mod(a * w, 360);
    let rem = (a * w) % 360;
    lemma_mod_bound(a * w, 360);
    assert(wx * 360 == a * w - rem) by (nonlinear_arith)
        requires
            a * w == 360 * wx + rem,
    ;
    if rem == 0 {
        assert(wx * 360 == a * w);
        lemma_div_multiples_vanish(a, w);
        assert((a * w) / w == a);
    } else {
        assert(wx * 360 == (a - 1) * w + (w - rem)) by (nonlinear_arith)
            requires
                wx * 360 == a * w - rem,
        ;
        assert(0 <= w - rem < w);
        lemma_fundamental_div_mod_converse(wx * 360, w, a - 1, w - rem);
        assert((wx * 360) / w == a - 1);
    }
}


/// World side length in micropixels at an integer zoom.
pub open spec fn world_span_spec(zr: int) -> int {
    world_px_spec(zr) * 1000000
}

/// World side length in micropixels at an integer zoom in [1, 18].
pub fn world_span_upx(zr: u32) -> (s: i64)
    requires
        1 <= zr <= 18,
    ensures
        s as int == world_span_spec(zr as int),
        512000000 <= s <= 67108864000000,
{
    let w: u64 = world_px(zr);
    proof {
        lemma_mul_inequality(512, w as int, 1000000);
        lemma_mul_inequality(w as int, 67108864, 1000000);
    }
    (w as i64) * 1000000
}

/// World y position, in micropixels, of a latitude at an integer zoom.
pub open spec fn lat_to_world_y_spec(lat: int, zr: int) -> int {
    merc_q_spec(lat) * world_span_spec(zr) / 4294967296
}

/// Project a latitude to a world y position in micropixels.
pub fn lat_to_world_y(lat: i64, zr: u32) -> (wy: i64)
    requires
        1 <= zr <= 18,
    ensures
        wy as int == lat_to_world_y_spec(lat as int, zr as int),
        0 <= wy as int <= world_span_spec(zr as int),
{
    let q: u64 = merc_q_of_lat(lat);
    let span: i64 = world_span_upx(zr);
    proof {
        assert((q as int) * (span as int) <= 4294967296 * (span as int)) by (nonlinear_arith)
            requires
                q <= 4294967296,
                span >= 0,
        ;
        lemma_mul_nonnegative(q as int, span as int);
        lemma_div_is_ordered((q as int) * (span as int), 4294967296 * (span as int),
            4294967296);
        assert(4294967296 * (span as int) == (span as int) * 4294967296) by (nonlinear_arith);
        lemma_div_by_multiple(span as int, 4294967296);
        lemma_div_pos_is_pos((q as int) * (span as int), 4294967296);
    }
    let a: i128 = (q as i128) * (span as i128);
    (a / 4294967296) as i64
}

/// Mercator fraction (Q32) of a world y position at an integer zoom.
pub open spec fn world_y_to_q_spec(wy: int, zr: int) -> int {
    wy * 4294967296 / world_span_spec(zr)
}

/// Unproject a world y position (micropixels) back to a latitude.
pub open spec fn world_y_to_lat_spec(wy: int, zr: int) -> int {
    lat_search_spec(world_y_to_q_spec(wy, zr), -85051128, 85051128)
}

/// Unproject a world y position (micropixels) back to a latitude.
pub fn world_y_to_lat(wy: i64, zr: u32) -> (lat: i64)
    requires
        1 <= zr <= 18,
        0 <= wy as int <= world_span_spec(zr as int),
    ensures
        lat as int == world_y_to_lat_spec(wy as int, zr as int),
        -85051128 <= lat <= 85051128,
{
    let span: i64 = world_span_upx(zr);
    proof {
        lemma_mul_nonnegative(wy as int, 4294967296);
        lemma_mul_inequality(wy as int, span as int, 4294967296);
        lemma_div_is_ordered((wy as int) * 4294967296, (span as int) * 4294967296,
            span as int);
        lemma_div_by_multiple(4294967296, span as int);
        assert((span as int) * 4294967296 == 4294967296 * (span as int)) by (nonlinear_arith);
        lemma_div_pos_is_pos((wy as int) * 4294967296, span as int);
    }
    let a: i128 = (wy as i128) * 4294967296;
    let q: i128 = a / (span as i128);
    lat_of_merc_q(q as u64)
}

/// Wrap a world x position into [0, span) by whole world widths;
/// the result is the Euclidean remainder.
pub fn wrap_world_x(x: i64, span: i64) -> (r: i64)
    requires
        0 < span <= 67108864000000,
        -9000000000000000000 <= x <= 9000000000000000000,
    ensures
        r as int == (x as int) % (span as int),
        0 <= r < span,
{
    let mut l: i64 = x;
    let ghost mut k: int = 0;
    while l < 0
        invariant
            l as int == x as int + span as int * k,
            l < span || l == x,
            x >= -9000000000000000000,
            0 < span <= 67108864000000,
        decreases (if l < 0 { 0 - l as int } else { 0int }),
    {
        l = l + span;
        proof {
            assert(span as int * (k + 1) == span as int * k + span as int)
                by (nonlinear_arith);
            k = k + 1;
        }
    }
    while l >= span
        invariant
            l as int == x as int + span as int * k,
            l >= 0,
            x <= 9000000000000000000,
            0 < span <= 67108864000000,
        decreases l,
    {
        l = l - span;
        proof {
            assert(span as int * (k - 1) == span as int * k - span as int)
                by (nonlinear_arith);
            k = k - 1;
        }
    }
    proof {
        assert(x as int == (-k) * (span as int) + l as int) by (nonlinear_arith)
            requires
                l as int == x as int + span as int * k,
        ;
        lemma_fundamental_div_mod_converse(x as int, span as int, -k, l as int);
    }
    l
}


/// A geographic position in microdegrees.
#[derive(Clone, Copy, Debug, PartialEq, Eq, Hash, Structural)]
pub struct LatLng {
    pub lat: i64,
    pub lng: i64,
}

impl LatLng {
    /// Within half a turn on both axes (latitude is even tighter in
    /// valid data, but the geometry code only needs a working bound).
    pub open spec fn bounded(self) -> bool {
        &&& -400000000 <= self.lat <= 400000000
        &&& -400000000 <= self.lng <= 400000000
    }
}


/// The projection clamps first: latitudes at or beyond the Mercator
/// limit project exactly as the clamped latitude does.
pub proof fn lemma_merc_clamp_first(lat: int)
    ensures
        merc_q_spec(lat) == merc_q_spec(clamp_lat_spec(lat)),
{
    reveal(merc_q_spec);
}


/// Ground meters per screen pixel at an integer zoom, in whole
/// millimeters: the Earth's equatorial circumference over the world
/// width.
pub open spec fn meters_per_pixel_mm_spec(zr: int) -> int {
    40075016686int / world_px_spec(zr)
}

/// Ground millimeters per pixel at an integer zoom in [1, 18].
pub fn meters_per_pixel_mm(zr: u32) -> (r: u64)
    requires
        1 <= zr <= 18,
    ensures
        r as int == meters_per_pixel_mm_spec(zr as int),
{
    let w: u64 = world_px(zr);
    proof {
        lemma_div_pos_is_pos(40075016686, w as int);
        lemma_div_is_ordered_by_denominator(40075016686, 512, w as int);
    }
    40075016686u64 / w
}

} // verus!




