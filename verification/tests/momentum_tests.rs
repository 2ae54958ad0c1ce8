//! Drag velocity, momentum start, decay and stop.

use rustyleaf::engine::RustyleafMap;
use rustyleaf::momentum::Momentum;

#[test]
fn fast_release_starts_momentum_and_decay_stops_it() {
    let mut m = Momentum::new();
    m.on_mouse_down(0, 0, 1000);
    let mut x: i64 = 0;
    let mut t: u64 = 1000;
    for _ in 0..10 {
        x += 4000000;  // four pixels per sample
        t += 16;
        m.on_mouse_move(x, 0, t);
    }
    assert!(m.on_mouse_up());
    assert!(m.active);
    let mut speed_before = m.vx_upps.abs();
    let mut ticks = 0;
    while m.active && ticks < 10000 {
        m.tick(16);
        let speed_now = m.vx_upps.abs();
        assert!(speed_now <= speed_before);
        speed_before = speed_now;
        ticks += 1;
    }
    assert!(!m.active);
    assert_eq!(m.vx_upps, 0);
    assert_eq!(m.vy_upps, 0);
}

#[test]
fn slow_release_does_not_start_momentum() {
    let mut m = Momentum::new();
    m.on_mouse_down(0, 0, 1000);
    m.on_mouse_move(100000, 0, 1050);  // a tenth of a pixel over 50 ms
    assert!(!m.on_mouse_up());
    assert!(!m.active);
    assert_eq!(m.vx_upps, 0);
}

#[test]
fn new_press_cancels_momentum() {
    let mut m = Momentum::new();
    m.on_mouse_down(0, 0, 0);
    let mut x: i64 = 0;
    let mut t: u64 = 0;
    for _ in 0..10 {
        x += 4000000;
        t += 16;
        m.on_mouse_move(x, 0, t);
    }
    assert!(m.on_mouse_up());
    m.on_mouse_down(0, 0, t + 100);
    assert!(!m.active);
    assert_eq!(m.vx_upps, 0);
}

#[test]
fn engine_momentum_pans_until_stop() {
    let mut map = RustyleafMap::new(800, 600);
    map.set_view(0, 0, 5000);
    map.take_events();
    map.handle_mouse_down(400000000, 300000000, 0);
    let mut x: i64 = 400000000;
    let mut t: u64 = 0;
    for _ in 0..12 {
        x += 5000000;
        t += 16;
        map.on_mouse_move(x, 300000000, t);
    }
    assert!(map.handle_mouse_up());
    assert!(map.has_momentum());
    let (_, lng_before) = map.get_center();
    let mut ticks = 0;
    while map.has_momentum() && ticks < 10000 {
        map.tick_frame(16);
        ticks += 1;
    }
    assert!(!map.has_momentum());
    let (_, lng_after) = map.get_center();
    assert!(lng_after < lng_before, "momentum kept panning west");
}

#[test]
fn momentum_distance_follows_the_decay_series() {
    let mut m = Momentum::new();
    m.on_mouse_down(0, 0, 0);
    let mut x: i64 = 0;
    let mut t: u64 = 0;
    for _ in 0..20 {
        x += 4000000;
        t += 16;
        m.on_mouse_move(x, 0, t);
    }
    assert!(m.on_mouse_up());
    let v0 = m.vx_upps;
    let mut total: i128 = 0;
    let mut ticks = 0;
    while m.active && ticks < 10000 {
        let (dx, _) = m.tick(16);
        total += dx as i128;
        ticks += 1;
    }
    // each tick keeps ninety-five hundredths of the velocity and pans
    // sixteen thousandths of a second's worth of it, so the total
    // distance approximates the geometric series sum
    // v0 * 0.016 * (0.95 / 0.05) = v0 * 16 * 19 / 1000
    let expected = (v0 as i128) * 16 * 19 / 1000;
    assert!(
        total > expected * 8 / 10 && total < expected * 11 / 10,
        "panned {} against a series sum of {}",
        total,
        expected
    );
}
