//! Drag tracking and momentum: pointer samples become an
//! exponentially smoothed velocity; after release the velocity decays
//! under friction each animation tick until it falls below the stop
//! threshold. Positions are micropixels, velocities micropixels per
//! second, times milliseconds; every step is exact integer
//! arithmetic, so the whole trajectory is reproducible.

use vstd::prelude::*;
use vstd::arithmetic::div_mod::lemma_div_is_ordered;
use vstd::math::abs;
use vstd::arithmetic::div_mod::lemma_div_by_multiple;
use vstd::arithmetic::div_mod::lemma_div_pos_is_pos;

verus! {

/// Cap on the momentum speed, in micropixels/second.
pub const CAP_SPEED_UPPS: i64 = 2000000000;
/// Squared start threshold.
pub const START_SQ: i128 = 30000000 * 30000000;
/// Squared stop threshold.
pub const STOP_SQ: i128 = 2000000 * 2000000;
/// Squared speed cap.
pub const CAP_SQ: i128 = 2000000000 * 2000000000;

/// Division rounding toward zero, as the executable code computes it
/// on a possibly negative numerator.
pub open spec fn trunc_div_spec(a: int, b: int) -> int {
    if a >= 0 {
        a / b
    } else {
        -((-a) / b)
    }
}

/// The exponentially smoothed velocity after one drag sample:
/// seven parts old velocity, three parts the sample rate.
pub open spec fn smooth_spec(v: int, d_upx: int, dt_ms: int) -> int {
    let sample = trunc_div_spec(d_upx * 1000, dt_ms);
    trunc_div_spec(7 * v + 3 * sample, 10)
}

/// The drag and momentum state.
pub struct Momentum {
    pub vx_upps: i64,
    pub vy_upps: i64,
    pub active: bool,
    pub dragging: bool,
    pub button_down: bool,
    pub last_x_upx: i64,
    pub last_y_upx: i64,
    pub last_time_ms: u64,
}

impl Momentum {
    /// Velocities stay within the working bound.
    pub open spec fn wf(self) -> bool {
        &&& -2000000000000 <= self.vx_upps <= 2000000000000
        &&& -2000000000000 <= self.vy_upps <= 2000000000000
        &&& -10000000000 <= self.last_x_upx <= 10000000000
        &&& -10000000000 <= self.last_y_upx <= 10000000000
    }

    /// The squared speed, for threshold comparisons.
    pub open spec fn speed_sq(self) -> int {
        self.vx_upps * self.vx_upps + self.vy_upps * self.vy_upps
    }

    /// A fresh, idle state.
    pub fn new() -> (m: Momentum)
        ensures
            m.wf(),
            !m.active,
            !m.dragging,
            !m.button_down,
            m.vx_upps == 0,
            m.vy_upps == 0,
    {
        Momentum {
            vx_upps: 0,
            vy_upps: 0,
            active: false,
            dragging: false,
            button_down: false,
            last_x_upx: 0,
            last_y_upx: 0,
            last_time_ms: 0,
        }
    }

    /// Press: remember the pointer, zero the velocity, and cancel any
    /// running momentum (a new drag always cancels the old one).
    pub fn on_mouse_down(&mut self, x_upx: i64, y_upx: i64, now_ms: u64)
        requires
            old(self).wf(),
            -10000000000 <= x_upx <= 10000000000,
            -10000000000 <= y_upx <= 10000000000,
        ensures
            final(self).wf(),
            final(self).button_down,
            !final(self).dragging,
            !final(self).active,
            final(self).vx_upps == 0,
            final(self).vy_upps == 0,
            final(self).last_x_upx == x_upx,
            final(self).last_y_upx == y_upx,
            final(self).last_time_ms == now_ms,
    {
        self.button_down = true;
        self.dragging = false;
        self.active = false;
        self.vx_upps = 0;
        self.vy_upps = 0;
        self.last_x_upx = x_upx;
        self.last_y_upx = y_upx;
        self.last_time_ms = now_ms;
    }

    /// Pointer motion. While the button is down this is a drag: the
    /// returned delta is to be applied as a pan, and the velocity is
    /// resmoothed when the sample interval lies in (0, 100)
    /// milliseconds and the motion is physically small enough to be a
    /// real drag step. Returns None when no drag is in progress.
    pub fn on_mouse_move(&mut self, x_upx: i64, y_upx: i64, now_ms: u64) -> (delta: Option<
        (i64, i64)>)
        requires
            old(self).wf(),
            -10000000000 <= x_upx <= 10000000000,
            -10000000000 <= y_upx <= 10000000000,
            old(self).last_time_ms <= now_ms,
        ensures
            final(self).wf(),
            !old(self).button_down ==> delta is None && *final(self) == *old(self),
            old(self).button_down ==> {
                let dx = x_upx as int - old(self).last_x_upx as int;
                let dy = y_upx as int - old(self).last_y_upx as int;
                let dt = now_ms as int - old(self).last_time_ms as int;
                let sampled = 0 < dt < 100 && -1000000000 <= dx <= 1000000000
                    && -1000000000 <= dy <= 1000000000;
                &&& delta == Some((sub64(x_upx, old(self).last_x_upx), sub64(
                    y_upx,
                    old(self).last_y_upx,
                )))
                &&& final(self).dragging
                &&& final(self).button_down
                &&& final(self).last_x_upx == x_upx
                &&& final(self).last_y_upx == y_upx
                &&& final(self).last_time_ms == now_ms
                &&& final(self).active == old(self).active
                &&& (sampled ==> final(self).vx_upps as int == smooth_spec(
                    old(self).vx_upps as int,
                    dx,
                    dt,
                ))
                &&& (sampled ==> final(self).vy_upps as int == smooth_spec(
                    old(self).vy_upps as int,
                    dy,
                    dt,
                ))
                &&& (!sampled ==> final(self).vx_upps == old(self).vx_upps)
                &&& (!sampled ==> final(self).vy_upps == old(self).vy_upps)
            },
    {
        if !self.button_down {
            return None;
        }
        self.dragging = true;
        let dx: i64 = x_upx - self.last_x_upx;
        let dy: i64 = y_upx - self.last_y_upx;
        let dt: u64 = now_ms - self.last_time_ms;
        if 0 < dt && dt < 100 && -1000000000 <= dx && dx <= 1000000000 && -1000000000 <= dy
            && dy <= 1000000000 {
            let sx: i64 = trunc_div(dx * 1000, dt as i64);
            let sy: i64 = trunc_div(dy * 1000, dt as i64);
            self.vx_upps = trunc_div_i128(7 * (self.vx_upps as i128) + 3 * (sx as i128), 10)
                as i64;
            self.vy_upps = trunc_div_i128(7 * (self.vy_upps as i128) + 3 * (sy as i128), 10)
                as i64;
        }
        self.last_x_upx = x_upx;
        self.last_y_upx = y_upx;
        self.last_time_ms = now_ms;
        Some((dx, dy))
    }

    /// Release. If a drag was in progress and the release speed
    /// exceeds the start threshold, momentum begins; otherwise the
    /// velocity is zeroed. Returns whether momentum is now active.
    pub fn on_mouse_up(&mut self) -> (started: bool)
        requires
            old(self).wf(),
        ensures
            final(self).wf(),
            !old(self).button_down ==> *final(self) == *old(self) && !started,
            old(self).button_down ==> {
                &&& started == (old(self).dragging && old(self).speed_sq() > START_SQ as int)
                &&& final(self).active == started
                &&& !final(self).button_down
                &&& !final(self).dragging
                &&& (started ==> final(self).vx_upps == old(self).vx_upps && final(self).vy_upps == old(self).vy_upps)
                &&& (!started ==> final(self).vx_upps == 0 && final(self).vy_upps == 0)
            },
    {
        if !self.button_down {
            return false;
        }
        self.button_down = false;
        let was_dragging: bool = self.dragging;
        self.dragging = false;
        let vx: i128 = self.vx_upps as i128;
        let vy: i128 = self.vy_upps as i128;
        proof {
            assert(vx * vx + vy * vy <= 2 * (2000000000000int * 2000000000000))
                by (nonlinear_arith)
                requires
                    -2000000000000 <= vx <= 2000000000000,
                    -2000000000000 <= vy <= 2000000000000,
            ;
            assert(vx * vx >= 0) by (nonlinear_arith);
            assert(vy * vy >= 0) by (nonlinear_arith);
        }
        let sq: i128 = vx * vx + vy * vy;
        if was_dragging && sq > START_SQ {
            self.active = true;
            return true;
        }
        self.active = false;
        self.vx_upps = 0;
        self.vy_upps = 0;
        false
    }
}

/// Division of a possibly negative numerator by a positive divisor,
/// rounding toward zero.
fn trunc_div(a: i64, b: i64) -> (r: i64)
    requires
        0 < b,
        -9000000000000000000 <= a <= 9000000000000000000,
    ensures
        r as int == trunc_div_spec(a as int, b as int),
        a >= 0 ==> 0 <= r <= a,
        a < 0 ==> a <= r <= 0,
{
    if a >= 0 {
        proof {
            vstd::arithmetic::div_mod::lemma_div_pos_is_pos(a as int, b as int);
            vstd::arithmetic::div_mod::lemma_div_is_ordered_by_denominator(a as int, 1,
                b as int);
        }
        a / b
    } else {
        proof {
            vstd::arithmetic::div_mod::lemma_div_pos_is_pos(-(a as int), b as int);
            vstd::arithmetic::div_mod::lemma_div_is_ordered_by_denominator(-(a as int), 1,
                b as int);
        }
        -((-a) / b)
    }
}

/// As `trunc_div`, on a 128-bit numerator.
fn trunc_div_i128(a: i128, b: i128) -> (r: i128)
    requires
        0 < b,
        -10000000000000000000000000 <= a <= 10000000000000000000000000,
    ensures
        r as int == trunc_div_spec(a as int, b as int),
        a >= 0 ==> 0 <= r <= a,
        a < 0 ==> a <= r <= 0,
{
    if a >= 0 {
        proof {
            vstd::arithmetic::div_mod::lemma_div_pos_is_pos(a as int, b as int);
            vstd::arithmetic::div_mod::lemma_div_is_ordered_by_denominator(a as int, 1,
                b as int);
        }
        a / b
    } else {
        proof {
            vstd::arithmetic::div_mod::lemma_div_pos_is_pos(-(a as int), b as int);
            vstd::arithmetic::div_mod::lemma_div_is_ordered_by_denominator(-(a as int), 1,
                b as int);
        }
        -((-a) / b)
    }
}

/// The difference of two bounded micropixel positions.
pub open spec fn sub64(a: i64, b: i64) -> i64
    recommends
        -10000000000 <= a <= 10000000000,
        -10000000000 <= b <= 10000000000,
{
    (a - b) as i64
}


/// The friction step: ninety-five percent of the velocity, rounded
/// toward zero.
pub open spec fn friction_spec(v: int) -> int {
    trunc_div_spec(95 * v, 100)
}

/// The tick interval clamped against jank, in whole milliseconds
/// inside [1/120 s, 1/30 s].
pub open spec fn clamp_dt_spec(dt_ms: int) -> int {
    if dt_ms < 9 {
        9
    } else if dt_ms > 33 {
        33
    } else {
        dt_ms
    }
}

/// The horizontal velocity after one tick's cap and friction.
pub open spec fn tick_fvx_spec(m: Momentum) -> int {
    let sq = m.speed_sq();
    if sq > CAP_SQ as int {
        friction_spec(cap_component_spec(m.vx_upps as int, spec_isqrt_witness(sq)))
    } else {
        friction_spec(m.vx_upps as int)
    }
}

/// The vertical velocity after one tick's cap and friction.
pub open spec fn tick_fvy_spec(m: Momentum) -> int {
    let sq = m.speed_sq();
    if sq > CAP_SQ as int {
        friction_spec(cap_component_spec(m.vy_upps as int, spec_isqrt_witness(sq)))
    } else {
        friction_spec(m.vy_upps as int)
    }
}

/// Whether this tick's decayed speed falls below the stop threshold.
pub open spec fn tick_stops_spec(m: Momentum) -> bool {
    tick_fvx_spec(m) * tick_fvx_spec(m) + tick_fvy_spec(m) * tick_fvy_spec(m) < STOP_SQ as int
}

/// The horizontal displacement one tick pans by.
pub open spec fn tick_dx_spec(m: Momentum, dt_ms: int) -> int {
    trunc_div_spec(tick_fvx_spec(m) * clamp_dt_spec(dt_ms), 1000)
}

/// The vertical displacement one tick pans by.
pub open spec fn tick_dy_spec(m: Momentum, dt_ms: int) -> int {
    trunc_div_spec(tick_fvy_spec(m) * clamp_dt_spec(dt_ms), 1000)
}

/// One velocity component rescaled onto the speed cap: `v * cap / s`
/// for the floor square root `s` of the squared speed.
pub open spec fn cap_component_spec(v: int, s: int) -> int {
    trunc_div_spec(v * 2000000000, s)
}

/// A truncating quotient is bounded by any bound on the numerator in
/// units of the divisor.
proof fn lemma_trunc_div_bound(a: int, b: int, m: int)
    requires
        0 < b,
        0 <= m,
        -(m * b) <= a <= m * b,
    ensures
        -m <= trunc_div_spec(a, b) <= m,
{
    if a >= 0 {
        lemma_div_is_ordered(a, m * b, b);
        lemma_div_by_multiple(m, b);
        lemma_div_pos_is_pos(a, b);
    } else {
        lemma_div_is_ordered(-a, m * b, b);
        lemma_div_by_multiple(m, b);
        lemma_div_pos_is_pos(-a, b);
    }
}

/// Friction strictly shrinks a nonzero velocity component.
proof fn lemma_friction_shrinks(v: int)
    requires
        v != 0,
        -2000000000000 <= v <= 2000000000000,
    ensures
        v > 0 ==> 0 <= friction_spec(v) <= v - 1,
        v < 0 ==> v + 1 <= friction_spec(v) <= 0,
{
    let a = if v > 0 {
        v
    } else {
        -v
    };
    lemma_div_is_ordered(95 * a, 100 * (a - 1) + 99, 100);
    vstd::arithmetic::div_mod::lemma_fundamental_div_mod_converse(
        100 * (a - 1) + 99,
        100,
        a - 1,
        99,
    );
    lemma_div_pos_is_pos(95 * a, 100);
    if v < 0 {
        assert(95 * a == -(95 * v));
    }
}

/// Rescaling a component onto the speed cap never grows its
/// magnitude nor flips its sign, because the floor square root of
/// the (over-cap) squared speed is at least the cap.
proof fn lemma_cap_shrinks(v: int, s: int)
    requires
        s >= 2000000000,
        -2000000000000 <= v <= 2000000000000,
    ensures
        v >= 0 ==> 0 <= cap_component_spec(v, s) <= v,
        v <= 0 ==> v <= cap_component_spec(v, s) <= 0,
{
    if v >= 0 {
        assert(v * 2000000000 <= v * s) by (nonlinear_arith)
            requires
                v >= 0,
                s >= 2000000000,
        ;
        vstd::arithmetic::mul::lemma_mul_nonnegative(v, 2000000000);
        lemma_div_is_ordered(v * 2000000000, v * s, s);
        lemma_div_by_multiple(v, s);
        lemma_div_pos_is_pos(v * 2000000000, s);
    } else {
        assert((-v) * 2000000000 == -(v * 2000000000)) by (nonlinear_arith);
        assert((-v) * 2000000000 <= (-v) * s) by (nonlinear_arith)
            requires
                v <= 0,
                s >= 2000000000,
        ;
        vstd::arithmetic::mul::lemma_mul_nonnegative(-v, 2000000000);
        lemma_div_is_ordered((-v) * 2000000000, (-v) * s, s);
        lemma_div_by_multiple(-v, s);
        lemma_div_pos_is_pos((-v) * 2000000000, s);
    }
}

/// Floor square root by bisection.
fn isqrt(n: i128) -> (r: i128)
    requires
        0 <= n < 9000000000000000000000000,
    ensures
        0 <= r,
        r * r <= n,
        (r + 1) * (r + 1) > n,
{
    let mut lo: i128 = 0;
    let mut hi: i128 = 3000000000000;
    while hi - lo > 1
        invariant
            0 <= lo < hi <= 3000000000000,
            lo * lo <= n,
            hi * hi > n,
        decreases hi - lo,
    {
        let mid: i128 = lo + (hi - lo) / 2;
        proof {
            assert(mid * mid < 9000000000000000000000000000) by (nonlinear_arith)
                requires
                    0 <= mid <= 3000000000000,
            ;
        }
        let sq: i128 = mid * mid;
        if sq <= n {
            lo = mid;
        } else {
            hi = mid;
        }
    }
    lo
}

impl Momentum {
    /// One animation tick of active momentum: the speed is capped,
    /// friction applied, and the resulting displacement over the
    /// (jank-clamped) tick interval returned for panning. Momentum
    /// deactivates, zeroing the velocity, once the decayed speed
    /// falls below the stop threshold. The speed never grows, and
    /// each nonzero component strictly shrinks, so momentum always
    /// halts.
    pub fn tick(&mut self, dt_ms: u64) -> (d: (i64, i64))
        requires
            old(self).wf(),
            old(self).active,
        ensures
            final(self).wf(),
            final(self).button_down == old(self).button_down,
            final(self).dragging == old(self).dragging,
            final(self).last_x_upx == old(self).last_x_upx,
            final(self).last_y_upx == old(self).last_y_upx,
            final(self).last_time_ms == old(self).last_time_ms,
            tick_stops_spec(*old(self)) ==> !final(self).active && final(self).vx_upps
                == 0 && final(self).vy_upps == 0,
            !tick_stops_spec(*old(self)) ==> final(self).active && final(self).vx_upps as int == tick_fvx_spec(*old(self)) && final(self).vy_upps as int
                == tick_fvy_spec(*old(self)),
            d.0 as int == tick_dx_spec(*old(self), dt_ms as int),
            d.1 as int == tick_dy_spec(*old(self), dt_ms as int),
            -66000000000 <= d.0 <= 66000000000,
            -66000000000 <= d.1 <= 66000000000,
            final(self).speed_sq() <= old(self).speed_sq(),
            final(self).active == (final(self).speed_sq() >= STOP_SQ as int),
            old(self).vx_upps > 0 ==> final(self).vx_upps < old(self).vx_upps,
            old(self).vx_upps < 0 ==> final(self).vx_upps > old(self).vx_upps,
            old(self).vy_upps > 0 ==> final(self).vy_upps < old(self).vy_upps,
            old(self).vy_upps < 0 ==> final(self).vy_upps > old(self).vy_upps,
    {
        let dt: i64 = if dt_ms < 9 {
            9
        } else if dt_ms > 33 {
            33
        } else {
            dt_ms as i64
        };
        let vx: i128 = self.vx_upps as i128;
        let vy: i128 = self.vy_upps as i128;
        proof {
            assert(vx * vx + vy * vy < 9000000000000000000000000 && vx * vx >= 0 && vy * vy
                >= 0) by (nonlinear_arith)
                requires
                    -2000000000000 <= vx <= 2000000000000,
                    -2000000000000 <= vy <= 2000000000000,
            ;
        }
        let sq: i128 = vx * vx + vy * vy;
        let cvx: i128;
        let cvy: i128;
        if sq > CAP_SQ {
            let s: i128 = isqrt(sq);
            proof {
                assert(s >= 2000000000) by (nonlinear_arith)
                    requires
                        (s + 1) * (s + 1) > sq,
                        sq > 2000000000i128 * 2000000000,
                        s >= 0,
                ;
                lemma_spec_isqrt_witness(sq as int, s as int);
                assert(vx * vx <= sq);
                assert(-s <= vx <= s) by (nonlinear_arith)
                    requires
                        vx * vx <= sq,
                        (s + 1) * (s + 1) > sq,
                        s >= 0,
                ;
                assert(-s <= vy <= s) by (nonlinear_arith)
                    requires
                        vy * vy <= sq,
                        (s + 1) * (s + 1) > sq,
                        s >= 0,
                ;
                assert(-(s * 2000000000) <= vx * 2000000000 <= s * 2000000000)
                    by (nonlinear_arith)
                    requires
                        -s <= vx <= s,
                        s >= 0,
                ;
                assert(-(s * 2000000000) <= vy * 2000000000 <= s * 2000000000)
                    by (nonlinear_arith)
                    requires
                        -s <= vy <= s,
                        s >= 0,
                ;
                lemma_trunc_div_bound(vx as int * 2000000000, s as int, 2000000000);
                lemma_trunc_div_bound(vy as int * 2000000000, s as int, 2000000000);
                lemma_cap_shrinks(vx as int, s as int);
                lemma_cap_shrinks(vy as int, s as int);
                assert(vx * 2000000000 <= 2000000000000i128 * 2000000000)
                    by (nonlinear_arith)
                    requires
                        vx <= 2000000000000,
                ;
            }
            cvx = trunc_div_i128(vx * (CAP_SPEED_UPPS as i128), s);
            cvy = trunc_div_i128(vy * (CAP_SPEED_UPPS as i128), s);
        } else {
            cvx = vx;
            cvy = vy;
        }
        proof {
            assert(-2000000000000 <= cvx <= 2000000000000);
            assert(-2000000000000 <= cvy <= 2000000000000);
            lemma_trunc_div_bound(95 * (cvx as int), 100, 2000000000000);
            lemma_trunc_div_bound(95 * (cvy as int), 100, 2000000000000);
        }
        let fvx: i128 = trunc_div_i128(95 * cvx, 100);
        let fvy: i128 = trunc_div_i128(95 * cvy, 100);
        proof {
            assert(fvx * fvx >= 0 && fvy * fvy >= 0 && fvx * fvx + fvy * fvy
                < 9000000000000000000000000) by (nonlinear_arith)
                requires
                    -2000000000000 <= fvx <= 2000000000000,
                    -2000000000000 <= fvy <= 2000000000000,
            ;
        }
        let fsq: i128 = fvx * fvx + fvy * fvy;
        proof {
            assert(fvx * dt >= -66000000000000 && fvx * dt <= 66000000000000)
                by (nonlinear_arith)
                requires
                    -2000000000000 <= fvx <= 2000000000000,
                    9 <= dt <= 33,
            ;
            assert(fvy * dt >= -66000000000000 && fvy * dt <= 66000000000000)
                by (nonlinear_arith)
                requires
                    -2000000000000 <= fvy <= 2000000000000,
                    9 <= dt <= 33,
            ;
            lemma_trunc_div_bound(fvx as int * dt as int, 1000, 66000000000);
            lemma_trunc_div_bound(fvy as int * dt as int, 1000, 66000000000);
        }
        let dx: i64 = trunc_div_i128(fvx * (dt as i128), 1000) as i64;
        let dy: i64 = trunc_div_i128(fvy * (dt as i128), 1000) as i64;
        proof {
            lemma_decay_shrinks(vx as int, sq as int, cvx as int);
            lemma_decay_shrinks(vy as int, sq as int, cvy as int);
            assert(fvx * fvx + fvy * fvy <= vx * vx + vy * vy) by (nonlinear_arith)
                requires
                    vx >= 0 ==> 0 <= fvx <= vx,
                    vx <= 0 ==> vx <= fvx <= 0,
                    vy >= 0 ==> 0 <= fvy <= vy,
                    vy <= 0 ==> vy <= fvy <= 0,
            ;
        }
        if fsq < STOP_SQ {
            self.active = false;
            self.vx_upps = 0;
            self.vy_upps = 0;
        } else {
            self.vx_upps = fvx as i64;
            self.vy_upps = fvy as i64;
        }
        (dx, dy)
    }
}

/// The floor square root of a squared speed, named for contracts: the
/// unique nonnegative `s` with `s * s <= sq < (s + 1) * (s + 1)`.
pub open spec fn spec_isqrt_witness(sq: int) -> int {
    choose|s: int| 0 <= s && #[trigger] (s * s) <= sq && (s + 1) * (s + 1) > sq
}

/// A value satisfying the floor-square-root property is the witness
/// `spec_isqrt_witness` picks: the property pins it uniquely.
proof fn lemma_spec_isqrt_witness(sq: int, s: int)
    requires
        0 <= s,
        s * s <= sq,
        (s + 1) * (s + 1) > sq,
    ensures
        spec_isqrt_witness(sq) == s,
{
    assert(0 <= s && (s * s) <= sq && (s + 1) * (s + 1) > sq);
    let w = spec_isqrt_witness(sq);
    assert(0 <= w && (w * w) <= sq && (w + 1) * (w + 1) > sq);
    assert(w == s) by (nonlinear_arith)
        requires
            0 <= s,
            s * s <= sq,
            (s + 1) * (s + 1) > sq,
            0 <= w,
            w * w <= sq,
            (w + 1) * (w + 1) > sq,
    ;
}

/// Capping then friction never grows a component's magnitude.
proof fn lemma_decay_shrinks(v: int, sq: int, cv: int)
    requires
        -2000000000000 <= v <= 2000000000000,
        -2000000000000 <= cv <= 2000000000000,
        v >= 0 ==> 0 <= cv <= v,
        v <= 0 ==> v <= cv <= 0,
    ensures
        v >= 0 ==> 0 <= friction_spec(cv) <= v,
        v <= 0 ==> v <= friction_spec(cv) <= 0,
        v > 0 ==> friction_spec(cv) < v,
        v < 0 ==> friction_spec(cv) > v,
{
    if cv == 0 {
    } else {
        lemma_friction_shrinks(cv);
    }
}


/// The velocity after `k` animation ticks of pure friction.
pub open spec fn iter_friction(v: int, k: nat) -> int
    decreases k,
{
    if k == 0 {
        v
    } else {
        iter_friction(friction_spec(v), (k - 1) as nat)
    }
}

/// Friction fixes zero.
proof fn lemma_friction_zero(k: nat)
    ensures
        iter_friction(0, k) == 0,
    decreases k,
{
    if k > 0 {
        lemma_friction_zero((k - 1) as nat);
    }
}

/// Iterated friction composes additively.
proof fn lemma_iter_friction_split(v: int, a: nat, b: nat)
    ensures
        iter_friction(v, a + b) == iter_friction(iter_friction(v, a), b),
    decreases a,
{
    if a > 0 {
        lemma_iter_friction_split(friction_spec(v), (a - 1) as nat, b);
        assert(a + b == 1 + ((a - 1) as nat + b));
    }
}

/// Momentum always halts: friction annihilates a velocity component
/// within as many ticks as its magnitude, since every tick strictly
/// shrinks a nonzero component (`Momentum::tick` shrinks at least as
/// fast, as its speed is also capped).
pub proof fn lemma_friction_halts(v: int, k: nat)
    requires
        -2000000000000 <= v <= 2000000000000,
        k >= abs(v),
    ensures
        iter_friction(v, k) == 0,
    decreases abs(v),
{
    if v == 0 {
        lemma_friction_zero(k);
    } else {
        lemma_friction_shrinks(v);
        let w = friction_spec(v);
        assert(abs(w) < abs(v));
        lemma_friction_halts(w, (k - 1) as nat);
    }
}


/// The total distance panned by `k` further ticks of pure friction
/// decay at a fixed tick interval, starting from velocity `v`.
pub open spec fn decay_distance(v: int, dt: int, k: nat) -> int
    decreases k,
{
    if k == 0 {
        0
    } else {
        trunc_div_spec(friction_spec(v) * dt, 1000) + decay_distance(
            friction_spec(v),
            dt,
            (k - 1) as nat,
        )
    }
}

/// The geometric-series distance bound: at a fixed tick interval,
/// the total distance momentum pans from a release velocity `v`
/// never exceeds the series limit `v * dt * (19/20) / (1/20) / 1000`
/// = `19 * v * dt / 1000`, since each tick keeps ninety-five
/// hundredths of the velocity and pans `dt/1000` seconds' worth of
/// it. (The lower half of the approximation is not provable exactly:
/// truncation sheds up to one micropixel per division.)
pub proof fn lemma_decay_distance_series(v: int, dt: int, k: nat)
    requires
        0 <= v <= 2000000000000,
        9 <= dt <= 33,
    ensures
        0 <= decay_distance(v, dt, k),
        1000 * decay_distance(v, dt, k) <= 19 * v * dt,
    decreases k,
{
    if k == 0 {
        vstd::arithmetic::mul::lemma_mul_nonnegative(19 * v, dt);
        assert(19 * v * dt >= 0) by (nonlinear_arith)
            requires
                v >= 0,
                dt >= 9,
        ;
    } else {
        let f = friction_spec(v);
        lemma_trunc_div_bound(95 * v, 100, 2000000000000);
        lemma_div_pos_is_pos(95 * v, 100);
        assert(0 <= f <= 2000000000000);
        lemma_decay_distance_series(f, dt, (k - 1) as nat);
        let d1 = trunc_div_spec(f * dt, 1000);
        vstd::arithmetic::mul::lemma_mul_nonnegative(f, dt);
        lemma_div_pos_is_pos(f * dt, 1000);
        // d1 <= f * dt / 1000, so 1000 * d1 <= f * dt
        vstd::arithmetic::div_mod::lemma_fundamental_div_mod(f * dt, 1000);
        assert(1000 * d1 <= f * dt);
        // 20 * f <= 19 * v since f <= 95 * v / 100
        vstd::arithmetic::div_mod::lemma_fundamental_div_mod(95 * v, 100);
        assert(100 * f <= 95 * v);
        assert(1000 * decay_distance(v, dt, k) == 1000 * d1 + 1000 * decay_distance(
            f,
            dt,
            (k - 1) as nat,
        )) by (nonlinear_arith)
            requires
                decay_distance(v, dt, k) == d1 + decay_distance(f, dt, (k - 1) as nat),
        ;
        assert(1000 * d1 + 19 * f * dt <= 19 * v * dt) by (nonlinear_arith)
            requires
                1000 * d1 <= f * dt,
                100 * f <= 95 * v,
                9 <= dt <= 33,
                0 <= f,
                0 <= v,
        ;
    }
}

} // verus!



