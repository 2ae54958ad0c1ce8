//! Tile visibility planning, eviction and load bookkeeping.

use rustyleaf::engine::RustyleafMap;
use rustyleaf::tiles::{grid_size, subdomain_index, TileAddress, TileStore};
use rustyleaf::viewport::Viewport;

#[test]
fn planned_requests_are_valid_and_at_current_zoom() {
    let mut map = RustyleafMap::new(800, 600);
    let reqs = map.set_view(48856600, 2352200, 5000);
    assert!(!reqs.is_empty());
    let g = grid_size(5);
    for a in &reqs {
        assert_eq!(a.z, 5);
        assert!((a.x as u64) < g && (a.y as u64) < g);
    }
}

#[test]
fn eviction_keeps_cache_small_and_at_current_zoom() {
    let mut map = RustyleafMap::new(800, 600);
    for z in 1..=8u32 {
        map.set_view(0, 0, z * 1000);
        map.pan(300000000, 150000000);
    }
    let cap = map.tile_store.capacity;
    assert!(map.tile_store.tiles.len() <= cap);
    for t in &map.tile_store.tiles {
        assert_eq!(t.address.z, 8);
    }
}

#[test]
fn completions_for_evicted_tiles_are_ignored() {
    let mut store = TileStore::new();
    let vp = Viewport::new(800, 600);
    let reqs = store.plan_requests(&vp);
    assert!(!reqs.is_empty());
    let addr = reqs[0];
    assert!(store.complete_load(addr, 7));
    let gone = TileAddress { x: 0, y: 0, z: 9 };
    assert!(!store.complete_load(gone, 8));
    let mut found = false;
    for t in &store.tiles {
        if t.address == addr {
            assert_eq!(t.texture, Some(7));
            assert!(!t.loading);
            found = true;
        }
    }
    assert!(found);
}

#[test]
fn failed_loads_free_the_request() {
    let mut store = TileStore::new();
    let vp = Viewport::new(800, 600);
    let reqs = store.plan_requests(&vp);
    let addr = reqs[0];
    assert!(store.is_requested(addr));
    store.fail_load(addr);
    assert!(!store.is_requested(addr));
}

#[test]
fn subdomains_rotate_by_tile_position() {
    let a = TileAddress { x: 3, y: 4, z: 4 };
    assert_eq!(subdomain_index(a, 3), (3 + 4) % 3);
    assert!(subdomain_index(a, 2) < 2);
}

#[test]
fn draw_list_holds_loaded_current_zoom_tiles() {
    let mut store = TileStore::new();
    let vp = Viewport::new(800, 600);
    let reqs = store.plan_requests(&vp);
    assert!(reqs.len() >= 2);
    store.complete_load(reqs[0], 7);
    let quads = store.tile_quads(&vp);
    assert_eq!(quads.len(), 1);
    assert_eq!(quads[0].address, reqs[0]);
    assert_eq!(quads[0].texture, 7);
    let (x, y) = rustyleaf::tiles::tile_screen_rect(&vp, reqs[0]);
    assert_eq!((quads[0].x_upx, quads[0].y_upx), (x, y));
}

#[test]
fn tile_urls_substitute_every_placeholder() {
    let addr = TileAddress { x: 37, y: 5, z: 12 };
    let url = rustyleaf::tiles::tile_url_bytes(
        "https://{s}.tiles.example/{z}/{x}/{y}.png",
        "b",
        addr,
    );
    assert_eq!(url, b"https://b.tiles.example/12/37/5.png".to_vec());
    let plain = rustyleaf::tiles::tile_url_bytes("{x}-{y}-{z}-{s}", "abc", addr);
    assert_eq!(plain, b"37-5-12-abc".to_vec());
}
