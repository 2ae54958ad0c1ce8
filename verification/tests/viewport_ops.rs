//! Viewport scenarios: panning direction, bounds, fitting.

use rustyleaf::engine::RustyleafMap;
use rustyleaf::error::MapError;

#[test]
fn pan_right_reveals_west_and_keeps_latitude() {
    let mut map = RustyleafMap::new(800, 600);
    map.set_view(0, 0, 3000);
    let before = map.get_bounds();
    map.pan(256000000, 0);
    let (lat, lng) = map.get_center();
    assert_eq!(lat, 0);
    assert_eq!(lng, -45000000);
    let after = map.get_bounds();
    assert_eq!(before.sw_lat, after.sw_lat);
    assert_eq!(before.ne_lat, after.ne_lat);
    assert!(after.sw_lng < before.sw_lng);
    assert!(after.ne_lng < before.ne_lng);
}

#[test]
fn fit_bounds_picks_highest_containing_zoom() {
    let mut map = RustyleafMap::new(800, 600);
    let r = map.fit_bounds(10000000, 10000000, 20000000, 20000000);
    assert!(r.is_ok());
    assert_eq!(map.get_zoom(), 6000);
    let (lat, lng) = map.get_center();
    assert_eq!(lng, 15000000);
    assert_eq!(lat, 15000000);
    let b = map.get_bounds();
    assert!(b.sw_lat <= 10000000 && b.sw_lng <= 10000000);
    assert!(b.ne_lat >= 20000000 && b.ne_lng >= 20000000);
}

#[test]
fn fit_bounds_rejects_bad_input() {
    let mut map = RustyleafMap::new(800, 600);
    assert_eq!(
        map.fit_bounds(95000000, 0, 96000000, 1000000).unwrap_err(),
        MapError::LatOutOfRange
    );
    assert_eq!(
        map.fit_bounds(0, 190000000, 1000000, 191000000).unwrap_err(),
        MapError::LngOutOfRange
    );
    assert_eq!(
        map.fit_bounds(20000000, 10000000, 10000000, 20000000).unwrap_err(),
        MapError::BoundsNotOrdered
    );
    assert_eq!(
        map.fit_bounds(10000000, 20000000, 20000000, 10000000).unwrap_err(),
        MapError::BoundsNotOrdered
    );
    assert_eq!(map.get_zoom(), 2000);
    let (lat, lng) = map.get_center();
    assert_eq!((lat, lng), (48856600, 2352200));
}

#[test]
fn zoom_limits_reclamp_the_view() {
    let mut map = RustyleafMap::new(800, 600);
    map.set_min_zoom(4000);
    assert_eq!(map.get_zoom(), 4000);
    map.set_max_zoom(3000);
    // the maximum cannot drop below the minimum, so both sit at four
    assert_eq!(map.get_zoom(), 4000);
    map.set_view(0, 0, 18000);
    assert_eq!(map.get_zoom(), 4000);
}

#[test]
fn zoom_clamps_to_bounds() {
    let mut map = RustyleafMap::new(800, 600);
    for _ in 0..25 {
        map.zoom_in();
    }
    assert_eq!(map.get_zoom(), 18000);
    for _ in 0..25 {
        map.zoom_out();
    }
    assert_eq!(map.get_zoom(), 1000);
}

#[test]
fn events_record_moves_and_zooms() {
    let mut map = RustyleafMap::new(800, 600);
    map.set_view(0, 0, 3000);
    map.zoom_in();
    let evs = map.take_events();
    assert_eq!(evs.len(), 2);
    assert_eq!(evs[1].zoom_milli, 4000);
    assert!(map.take_events().is_empty());
}

#[test]
fn polar_centers_are_kept_in_the_coordinate_domain() {
    let mut map = RustyleafMap::new(800, 600);
    map.set_view(89000000, 0, 3000);
    let (lat, _) = map.get_center();
    // the projection clamps to the Mercator range only when it
    // projects; the stored center keeps the given latitude
    assert_eq!(lat, 89000000);
    map.set_view(95000000, 0, 3000);
    let (lat2, _) = map.get_center();
    assert_eq!(lat2, 90000000);
}

#[test]
fn clamped_zooms_are_silent() {
    let mut map = RustyleafMap::new(800, 600);
    map.set_view(0, 0, 18000);
    map.take_events();
    map.zoom_in();
    assert!(map.take_events().is_empty());
    map.set_view(0, 0, 1000);
    map.take_events();
    map.zoom_out();
    assert!(map.take_events().is_empty());
    map.zoom_in();
    assert_eq!(map.take_events().len(), 1);
}
