//! Triangulation area conservation on concrete polygons.

use rustyleaf::geo::LatLng;
use rustyleaf::triangulate::{triangulate_ring, triangulate_rings, Triangle};

fn area2(t: &Triangle) -> i128 {
    let e = |a: LatLng, b: LatLng| (a.lng as i128) * (b.lat as i128) - (b.lng as i128) * (a.lat as i128);
    e(t.a, t.b) + e(t.b, t.c) + e(t.c, t.a)
}

fn p(lat: i64, lng: i64) -> LatLng {
    LatLng { lat, lng }
}

#[test]
fn square_triangulates_to_its_shoelace_area() {
    // a ten-degree square, counterclockwise
    let ring = vec![p(0, 0), p(0, 10000000), p(10000000, 10000000), p(10000000, 0)];
    let (tris, complete) = triangulate_ring(&ring);
    assert!(complete);
    assert_eq!(tris.len(), 2);
    let total: i128 = tris.iter().map(area2).sum();
    // twice the signed area: (1e7)^2 * 2 = 2e14
    assert_eq!(total, 200000000000000);
}

#[test]
fn concave_polygon_triangulates_fully() {
    let ring = vec![
        p(0, 0),
        p(0, 4000000),
        p(4000000, 4000000),
        p(4000000, 2000000),
        p(1000000, 2000000),
        p(1000000, 0),
    ];
    let (tris, complete) = triangulate_ring(&ring);
    assert!(complete);
    assert_eq!(tris.len(), ring.len() - 2);
    let total: i128 = tris.iter().map(area2).sum();
    // shoelace of the ring, computed by hand: 2 * (area of the L-shape)
    let mut shoelace: i128 = 0;
    for i in 0..ring.len() {
        let a = ring[i];
        let b = ring[(i + 1) % ring.len()];
        shoelace += (a.lng as i128) * (b.lat as i128) - (b.lng as i128) * (a.lat as i128);
    }
    assert_eq!(total, shoelace);
}

#[test]
fn polygon_with_hole_yields_outer_minus_hole() {
    // outer: ten-degree square counterclockwise; hole: two-degree square clockwise
    let outer = vec![p(0, 0), p(0, 10000000), p(10000000, 10000000), p(10000000, 0)];
    let hole = vec![p(2000000, 2000000), p(4000000, 2000000), p(4000000, 4000000), p(2000000, 4000000)];
    let rings = vec![outer, hole];
    let (tris, complete) = triangulate_rings(&rings);
    assert!(complete);
    let total: i128 = tris.iter().map(area2).sum();
    // twice (outer area - hole area) = 2*(1e14 - 4e12)
    assert_eq!(total, 200000000000000 - 8000000000000);
}

#[test]
fn degenerate_rings_yield_nothing() {
    let ring = vec![p(0, 0), p(0, 1000000)];
    let (tris, complete) = triangulate_ring(&ring);
    assert!(tris.is_empty());
    assert!(!complete);
}

#[test]
fn culling_keeps_on_screen_triangles_only() {
    let mut map = rustyleaf::engine::RustyleafMap::new(800, 600);
    map.set_view(48856600, 2352200, 10000);
    // one triangle at the view center, one on the far side of the
    // world
    let near = Triangle {
        a: p(48856600, 2352200),
        b: p(48856600, 2400000),
        c: p(48900000, 2352200),
    };
    let far = Triangle {
        a: p(-40000000, -150000000),
        b: p(-40000000, -149000000),
        c: p(-39000000, -150000000),
    };
    let tris = vec![near, far];
    let kept = map.cull_triangles(&tris);
    assert_eq!(kept.len(), 1);
    assert_eq!(kept[0].a.lat, 48856600);
}

#[test]
fn same_wound_holes_are_reversed_before_clipping() {
    // outer and hole both counterclockwise: the hole's winding is
    // resolved against the outer ring, so its area still subtracts
    let outer = vec![p(0, 0), p(0, 10000000), p(10000000, 10000000), p(10000000, 0)];
    let hole = vec![p(2000000, 2000000), p(2000000, 4000000), p(4000000, 4000000), p(4000000, 2000000)];
    let rings = vec![outer, hole];
    let (tris, complete) = rustyleaf::layers::triangulate_polygon_rings(&rings);
    assert!(complete);
    let total: i128 = tris.iter().map(area2).sum();
    assert_eq!(total.abs(), 200000000000000 - 8000000000000);
}
