//! Hit-testing through the spatial index.

use rustyleaf::engine::RustyleafMap;
use rustyleaf::layers::{LineFeature, PointFeature};
use rustyleaf::geojson::JsonValue;
use rustyleaf::spatial::LayerKind;
use rustyleaf::color::Rgba;

fn blue() -> Rgba {
    Rgba { r: 0, g: 128, b: 255, a: 255 }
}

#[test]
fn point_at_screen_pixel_is_hit_within_tolerance() {
    let mut map = RustyleafMap::new(800, 600);
    // place a feature at the coordinate under screen pixel (100, 100)
    let (lat, lng) = map.unproject(100000000, 100000000);
    let li = map.add_point_layer();
    let pts = vec![PointFeature {
        pos: rustyleaf::geo::LatLng { lat, lng },
        size_mpx: 5000,
        color: blue(),
        meta: JsonValue::Null,
    }];
    map.add_points(li, pts).unwrap();
    map.tick_frame(16);
    let hit = map.hit_test(101000000, 99000000);
    assert!(hit.is_some());
    let e = &map.spatial.entries[hit.unwrap()];
    assert_eq!(e.kind, LayerKind::Point);
    assert_eq!(e.layer_index, li);
    assert_eq!(e.feature_index, 0);
    assert!(map.hit_test(200000000, 200000000).is_none());
}

#[test]
fn first_inserted_entry_wins_ties() {
    let mut map = RustyleafMap::new(800, 600);
    let (lat, lng) = map.unproject(100000000, 100000000);
    let li = map.add_point_layer();
    let mk = |m: &str| PointFeature {
        pos: rustyleaf::geo::LatLng { lat, lng },
        size_mpx: 5000,
        color: blue(),
        meta: JsonValue::Str(m.as_bytes().to_vec()),
    };
    map.add_points(li, vec![mk("first"), mk("second")]).unwrap();
    map.tick_frame(16);
    let hit = map.hit_test(100000000, 100000000).unwrap();
    assert_eq!(map.spatial.entries[hit].feature_index, 0);
}

#[test]
fn line_segments_are_hit_per_segment() {
    let mut map = RustyleafMap::new(800, 600);
    let (alat, alng) = map.unproject(100000000, 100000000);
    let (blat, blng) = map.unproject(300000000, 100000000);
    let li = map.add_line_layer();
    let line = LineFeature {
        points: vec![
            rustyleaf::geo::LatLng { lat: alat, lng: alng },
            rustyleaf::geo::LatLng { lat: blat, lng: blng },
        ],
        color: blue(),
        width_mpx: 2000,
        meta: JsonValue::Null,
    };
    map.add_lines(li, vec![line]).unwrap();
    map.tick_frame(16);
    let hit = map.hit_test(200000000, 100000000);
    assert!(hit.is_some());
    let e = &map.spatial.entries[hit.unwrap()];
    assert_eq!(e.kind, LayerKind::Line);
    assert_eq!(e.segment_index, 0);
    assert!(map.hit_test(200000000, 300000000).is_none());
}
