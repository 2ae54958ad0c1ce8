//! Projection round trips and coordinate normalization.

use rustyleaf::geo::{
    clamp_lat, lat_of_merc_q, lat_to_world_y, lng_to_world_x, merc_q_of_lat,
    meters_per_pixel_mm, world_px, world_span_upx, world_x_to_lng, world_y_to_lat,
    wrap_lng,
};

#[test]
fn equator_projects_to_half_world() {
    assert_eq!(merc_q_of_lat(0), 2147483648);
    assert_eq!(lat_of_merc_q(2147483648), 0);
}

#[test]
fn latitude_round_trip_within_one_microdegree() {
    let cases: [(i64, u32); 5] =
        [(48856600, 10), (0, 3), (-33868800, 12), (85051128, 18), (40712800, 2)];
    for (lat, z) in cases {
        let wy = lat_to_world_y(lat, z);
        let back = world_y_to_lat(wy, z);
        assert!((back - lat).abs() <= 1, "lat {} zoom {} came back {}", lat, z, back);
    }
}

#[test]
fn latitude_round_trip_exact_values() {
    assert_eq!(lat_to_world_y(48856600, 10), 90184981750);
    assert_eq!(world_y_to_lat(90184981750, 10), 48856601);
    assert_eq!(lat_to_world_y(0, 3), 1024000000);
}

#[test]
fn longitude_round_trip_within_one_microdegree() {
    for z in 1..=18u32 {
        for lng in [-180000000i64, -45000000, 0, 2352200, 179999999] {
            let wx = lng_to_world_x(lng, z);
            let back = world_x_to_lng(wx, z);
            assert!(lng - 1 <= back && back <= lng, "lng {} zoom {} came back {}", lng, z, back);
        }
    }
}

#[test]
fn world_sizes_double_per_zoom() {
    assert_eq!(world_px(1), 512);
    assert_eq!(world_px(18), 67108864);
    assert_eq!(world_span_upx(3), 2048000000);
}

#[test]
fn ground_resolution_shrinks_with_zoom() {
    // the equatorial circumference over the world width, in whole
    // millimeters per pixel
    assert_eq!(meters_per_pixel_mm(1), 40075016686 / 512);
    assert_eq!(meters_per_pixel_mm(18), 40075016686 / 67108864);
    assert!(meters_per_pixel_mm(5) > meters_per_pixel_mm(6));
}

#[test]
fn projection_clamps_polar_latitudes_first() {
    assert_eq!(merc_q_of_lat(89000000), merc_q_of_lat(85051128));
    assert_eq!(merc_q_of_lat(-89000000), merc_q_of_lat(-85051128));
}

#[test]
fn clamping_and_wrapping() {
    assert_eq!(clamp_lat(90000000), 85051128);
    assert_eq!(clamp_lat(-90000000), -85051128);
    assert_eq!(clamp_lat(10), 10);
    assert_eq!(wrap_lng(190000000), -170000000);
    assert_eq!(wrap_lng(-190000000), 170000000);
    assert_eq!(wrap_lng(180000000), 180000000);
    assert_eq!(wrap_lng(540000000), 180000000);
}
