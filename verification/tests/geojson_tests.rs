//! Textual geometry ingestion: documents, errors, chunk recovery,
//! and style color parsing.

use rustyleaf::color::{parse_color, Rgba};
use rustyleaf::engine::RustyleafMap;
use rustyleaf::error::MapError;
use rustyleaf::geojson::{parse_json, JsonValue};

#[test]
fn numbers_parse_to_micro_units() {
    match parse_json(b"2.3522") {
        Some(JsonValue::Num(n)) => assert_eq!(n, 2352200),
        _ => panic!("expected a number"),
    }
    match parse_json(b"-48.856600") {
        Some(JsonValue::Num(n)) => assert_eq!(n, -48856600),
        _ => panic!("expected a number"),
    }
    match parse_json(b"1.5e2") {
        Some(JsonValue::Num(n)) => assert_eq!(n, 150000000),
        _ => panic!("expected a number"),
    }
    assert!(parse_json(b"{ \"a\": [1, true, null, \"s\"] }").is_some());
    assert!(parse_json(b"{").is_none());
}

#[test]
fn feature_collection_loads_and_builds_cache() {
    let mut map = RustyleafMap::new(800, 600);
    let li = map.add_geojson_layer();
    let doc = "{\"type\":\"FeatureCollection\",\"features\":[\
        {\"type\":\"Feature\",\"geometry\":{\"type\":\"Point\",\"coordinates\":[2.3522,48.8566]},\"properties\":{\"name\":\"a\"}},\
        {\"type\":\"Feature\",\"geometry\":{\"type\":\"LineString\",\"coordinates\":[[0,0],[1,1]]},\"properties\":{}},\
        {\"type\":\"Feature\",\"geometry\":{\"type\":\"Polygon\",\"coordinates\":[[[0,0],[10,0],[10,10],[0,10]]]},\"properties\":{}}]}";
    let n = map.load_geojson(li, doc).unwrap();
    assert_eq!(n, 3);
    assert_eq!(map.get_geojson_feature_count(li).unwrap(), 3);
    let lay = &map.geojson_layers[li];
    assert_eq!(lay.cached_points.len(), 1);
    assert_eq!(lay.cached_points[0].pos.lat, 48856600);
    assert_eq!(lay.cached_points[0].pos.lng, 2352200);
    // the line string plus the polygon outline
    assert_eq!(lay.cached_lines.len(), 2);
    assert!(lay.cache_complete);
    assert!(!lay.cached_triangles.is_empty());
}

#[test]
fn malformed_members_are_skipped_not_fatal() {
    let mut map = RustyleafMap::new(800, 600);
    let li = map.add_geojson_layer();
    let doc = "{\"type\":\"FeatureCollection\",\"features\":[\
        {\"type\":\"Feature\",\"geometry\":{\"type\":\"Point\",\"coordinates\":[1]},\"properties\":{}},\
        {\"type\":\"Feature\",\"geometry\":{\"type\":\"Point\",\"coordinates\":[3,4]},\"properties\":{}}]}";
    let n = map.load_geojson(li, doc).unwrap();
    assert_eq!(n, 1);
}

#[test]
fn document_errors_are_reported() {
    let mut map = RustyleafMap::new(800, 600);
    let li = map.add_geojson_layer();
    assert_eq!(map.load_geojson(li, "[1,2]").unwrap_err(), MapError::NotAnObject);
    assert_eq!(map.load_geojson(li, "{\"a\":1}").unwrap_err(), MapError::MissingType);
    assert_eq!(
        map.load_geojson(li, "{\"type\":\"Sphere\"}").unwrap_err(),
        MapError::UnsupportedType
    );
    assert_eq!(
        map.load_geojson(li, "{\"type\":\"Point\",\"coordinates\":[1]}").unwrap_err(),
        MapError::BadCoordinates
    );
    assert_eq!(map.load_geojson(li, "not json at all").unwrap_err(), MapError::ParseFailed);
    assert_eq!(
        map.load_geojson(li + 1, "{}").unwrap_err(),
        MapError::LayerIndexOutOfBounds
    );
}

#[test]
fn bare_geometry_loads_as_one_feature() {
    let mut map = RustyleafMap::new(800, 600);
    let li = map.add_geojson_layer();
    let n = map.load_geojson(li, "{\"type\":\"Point\",\"coordinates\":[10.5,-20.25]}").unwrap();
    assert_eq!(n, 1);
    let lay = &map.geojson_layers[li];
    assert_eq!(lay.cached_points[0].pos.lat, -20250000);
    assert_eq!(lay.cached_points[0].pos.lng, 10500000);
}

#[test]
fn chunk_recovery_extracts_embedded_features() {
    let mut map = RustyleafMap::new(800, 600);
    let li = map.add_geojson_layer();
    // a truncated collection: the document as a whole does not parse
    let chunk = "{\"type\":\"FeatureCollection\",\"features\":[\
        {\"type\":\"Feature\",\"geometry\":{\"type\":\"Point\",\"coordinates\":[1,2]},\"properties\":{}},\
        {\"type\":\"Feature\",\"geometry\":{\"type\":\"Point\",\"coordinates\":[3,4]}";
    let n = map.load_geojson_chunk(li, chunk, false).unwrap();
    assert_eq!(n, 1);
    // the final chunk falls back to line-delimited features
    let tail = "{\"type\":\"Feature\",\"geometry\":{\"type\":\"Point\",\"coordinates\":[5,6]},\"properties\":{}}";
    let n2 = map.load_geojson_chunk(li, tail, true).unwrap();
    assert_eq!(n2, 1);
    assert_eq!(map.get_geojson_feature_count(li).unwrap(), 2);
}

#[test]
fn colors_parse_exactly() {
    assert_eq!(parse_color("#ff0000"), Rgba { r: 255, g: 0, b: 0, a: 255 });
    assert_eq!(parse_color("#00FF00"), Rgba { r: 0, g: 255, b: 0, a: 255 });
    assert_eq!(parse_color("#0080ff"), Rgba { r: 0, g: 128, b: 255, a: 255 });
    assert_eq!(parse_color("#12345678"), Rgba { r: 18, g: 52, b: 86, a: 120 });
    assert_eq!(parse_color("#abc"), Rgba { r: 170, g: 187, b: 204, a: 255 });
    assert_eq!(parse_color("#abcd"), Rgba { r: 170, g: 187, b: 204, a: 221 });
    assert_eq!(parse_color("red"), Rgba { r: 255, g: 0, b: 0, a: 255 });
    assert_eq!(parse_color("  CYAN  "), Rgba { r: 0, g: 255, b: 255, a: 255 });
    assert_eq!(parse_color("\t red \r\n"), Rgba { r: 255, g: 0, b: 0, a: 255 });
    assert_eq!(parse_color("nonsense"), Rgba { r: 0, g: 0, b: 0, a: 255 });
    assert_eq!(parse_color("#xyz"), Rgba { r: 0, g: 0, b: 0, a: 255 });
}

#[test]
fn restyling_rebuilds_the_cache() {
    let mut map = RustyleafMap::new(800, 600);
    let li = map.add_geojson_layer();
    map.load_geojson(li, "{\"type\":\"Point\",\"coordinates\":[1,2]}").unwrap();
    let mut style = map.geojson_layers[li].style;
    style.point_color = parse_color("#123456");
    style.point_size_mpx = 9000;
    map.set_geojson_style(li, style).unwrap();
    let lay = &map.geojson_layers[li];
    assert_eq!(lay.cached_points[0].color, Rgba { r: 18, g: 52, b: 86, a: 255 });
    assert_eq!(lay.cached_points[0].size_mpx, 9000);
}

#[test]
fn clearing_a_layer_empties_features_and_cache() {
    let mut map = RustyleafMap::new(800, 600);
    let li = map.add_geojson_layer();
    map.load_geojson(li, "{\"type\":\"Point\",\"coordinates\":[1,2]}").unwrap();
    assert_eq!(map.get_geojson_feature_count(li).unwrap(), 1);
    map.clear_geojson_layer(li).unwrap();
    assert_eq!(map.get_geojson_feature_count(li).unwrap(), 0);
    assert!(map.geojson_layers[li].cached_points.is_empty());
}

#[test]
fn parseable_but_rejected_chunks_propagate_their_error() {
    let mut map = RustyleafMap::new(800, 600);
    let li = map.add_geojson_layer();
    // the fragment is well-formed JSON, so the whole-document path
    // runs and its structural rejection comes back unchanged
    let r = map.load_geojson_chunk(li, "{\"a\": 1}", false);
    assert_eq!(r.unwrap_err(), MapError::MissingType);
    assert_eq!(map.get_geojson_feature_count(li).unwrap(), 0);
}
