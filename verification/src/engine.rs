//! The map engine: one owner of viewport, momentum, tile cache,
//! layers, geometry caches and the spatial index, advancing in a
//! single thread of control. Every mutating operation either fully
//! commits or fully rejects, recomputes tile visibility, runs the
//! eviction policy, and records a notification for the host to
//! drain.

use vstd::prelude::*;
use vstd::string::StringSliceAdditionalSpecFns;
use crate::viewport::Viewport;
use crate::viewport::Bounds;
use crate::viewport::rounded_zoom_spec;
use crate::viewport::zoom_clamp_spec;
use crate::viewport::bounds_at_zoom_spec;
use crate::viewport::pan_lng_spec;
use crate::viewport::pan_lat_spec;
use crate::viewport::fit_bounds_check_spec;
use crate::viewport::screen_x_spec;
use crate::viewport::screen_y_spec;
use crate::momentum::Momentum;
use crate::tiles::TileStore;
use crate::tiles::TileAddress;
use crate::error::MapError;
use crate::geo::LatLng;
use crate::geo::clamp_lat90_spec;
use crate::layers::PointLayer;
use crate::layers::LineLayer;
use crate::layers::PolygonLayer;
use crate::layers::GeoJsonLayer;
use crate::layers::PointFeature;
use crate::layers::LineFeature;
use crate::layers::PolygonFeature;
use crate::layers::GeoJsonStyle;
use crate::layers::Feature;
use crate::layers::pos_wf;
use crate::layers::ring_wf;
use crate::layers::rings_wf;
use crate::layers::features_points_spec;
use crate::layers::features_lines_spec;
use crate::layers::features_area;
use crate::layers::pf_view;
use crate::layers::lf_view;
use crate::layers::rebuild_cache;
use crate::spatial::SpatialIndex;
use crate::triangulate::tri_sum;

verus! {

/// What kind of notification an operation recorded.
#[derive(Clone, Copy, Debug, PartialEq, Eq, Structural)]
pub enum EventKind {
    Move,
    Zoom,
    DragEnd,
}

/// A notification for the host: the kind of change and the view
/// state after it, bounds included.
#[derive(Clone, Copy, Debug, PartialEq, Eq, Structural)]
pub struct EventRecord {
    pub kind: EventKind,
    pub center_lat: i64,
    pub center_lng: i64,
    pub zoom_milli: u32,
    pub bounds: Bounds,
}

/// The tile service configuration: a URL template with `{s}`, `{z}`,
/// `{x}`, `{y}` placeholders and the subdomains rotated through.
pub struct TileLayerConfig {
    pub url_template: String,
    pub subdomains: Vec<String>,
    pub max_zoom: u32,
    pub min_zoom: u32,
}

/// The map engine.
pub struct RustyleafMap {
    pub viewport: Viewport,
    pub momentum: Momentum,
    pub tile_store: TileStore,
    pub tile_layer: Option<TileLayerConfig>,
    pub point_layers: Vec<PointLayer>,
    pub line_layers: Vec<LineLayer>,
    pub polygon_layers: Vec<PolygonLayer>,
    pub geojson_layers: Vec<GeoJsonLayer>,
    pub spatial: SpatialIndex,
    pub events: Vec<EventRecord>,
}

impl RustyleafMap {
    /// All owned state is well-formed: the viewport, drag state, tile
    /// bookkeeping and spatial index satisfy their invariants, and
    /// every stored coordinate is in valid geographic range.
    pub open spec fn wf(self) -> bool {
        &&& self.viewport.wf()
        &&& self.momentum.wf()
        &&& self.tile_store.wf()
        &&& self.spatial.wf()
        &&& forall|l: int, i: int|
            0 <= l < self.point_layers@.len() && 0 <= i < (
            #[trigger] self.point_layers@[l]).points@.len() ==> pos_wf(
                (#[trigger] self.point_layers@[l].points@[i]).pos,
            )
        &&& forall|l: int, i: int|
            0 <= l < self.line_layers@.len() && 0 <= i < (
            #[trigger] self.line_layers@[l]).lines@.len() ==> ring_wf(
                (#[trigger] self.line_layers@[l].lines@[i]).points@,
            )
        &&& forall|l: int, i: int|
            0 <= l < self.polygon_layers@.len() && 0 <= i < (
            #[trigger] self.polygon_layers@[l]).polygons@.len() ==> rings_wf(
                (#[trigger] self.polygon_layers@[l].polygons@[i]).rings@,
            )
        &&& forall|l: int, i: int|
            0 <= l < self.geojson_layers@.len() && 0 <= i < (
            #[trigger] self.geojson_layers@[l]).features@.len() ==> (
            #[trigger] self.geojson_layers@[l].features@[i]).wf()
    }

    /// A fresh engine over the default view, with empty stores.
    pub fn new(width_px: u32, height_px: u32) -> (m: RustyleafMap)
        ensures
            m.wf(),
            m.viewport.zoom_milli == 2000,
            m.viewport.center_lat == 48856600,
            m.viewport.center_lng == 2352200,
            m.viewport.min_zoom_milli == 1000,
            m.viewport.max_zoom_milli == 18000,
            1 <= width_px <= 8192 ==> m.viewport.width_px == width_px,
            1 <= height_px <= 8192 ==> m.viewport.height_px == height_px,
            m.tile_store.tiles@.len() == 0,
            m.tile_store.requested@.len() == 0,
            m.spatial.entries@.len() == 0,
            m.point_layers@.len() == 0,
            m.line_layers@.len() == 0,
            m.polygon_layers@.len() == 0,
            m.geojson_layers@.len() == 0,
            m.events@.len() == 0,
            !m.momentum.active,
    {
        RustyleafMap {
            viewport: Viewport::new(width_px, height_px),
            momentum: Momentum::new(),
            tile_store: TileStore::new(),
            tile_layer: None,
            point_layers: Vec::new(),
            line_layers: Vec::new(),
            polygon_layers: Vec::new(),
            geojson_layers: Vec::new(),
            spatial: SpatialIndex::new(),
            events: Vec::new(),
        }
    }

    /// Recompute visibility and run eviction after a view change:
    /// emits the capped batch of new tile requests (all valid, all at
    /// the current rounded zoom), then settles the cache to at most
    /// its capacity with every record at the current zoom.
    fn settle_tiles(&mut self) -> (reqs: Vec<TileAddress>)
        requires
            old(self).viewport.wf(),
            old(self).tile_store.wf(),
        ensures
            final(self).tile_store.wf(),
            final(self).viewport == old(self).viewport,
            final(self).momentum == old(self).momentum,
            final(self).point_layers == old(self).point_layers,
            final(self).line_layers == old(self).line_layers,
            final(self).polygon_layers == old(self).polygon_layers,
            final(self).geojson_layers == old(self).geojson_layers,
            final(self).spatial == old(self).spatial,
            final(self).events == old(self).events,
            final(self).tile_layer == old(self).tile_layer,
            forall|i: int|
                0 <= i < reqs@.len() ==> (#[trigger] reqs@[i]).valid() && reqs@[i].z as int
                    == rounded_zoom_spec(old(self).viewport.zoom_milli as int),
            final(self).tile_store.tiles@.len() <= final(self).tile_store.capacity,
            forall|i: int|
                0 <= i < final(self).tile_store.tiles@.len() ==> (#[trigger] final(self).tile_store.tiles@[i]).address.z as int == rounded_zoom_spec(
                    old(self).viewport.zoom_milli as int,
                ),
    {
        let vp = self.viewport;
        let reqs = self.tile_store.plan_requests(&vp);
        let zr = vp.rounded_zoom();
        self.tile_store.evict(zr);
        reqs
    }

    /// Record a notification with the current view state.
    fn push_event(&mut self, kind: EventKind)
        requires
            old(self).viewport.wf(),
        ensures
            final(self).events@ == old(self).events@.push(
                EventRecord {
                    kind,
                    center_lat: old(self).viewport.center_lat,
                    center_lng: old(self).viewport.center_lng,
                    zoom_milli: old(self).viewport.zoom_milli,
                    bounds: bounds_at_zoom_spec(
                        old(self).viewport.center_lat as int,
                        old(self).viewport.center_lng as int,
                        rounded_zoom_spec(old(self).viewport.zoom_milli as int),
                        old(self).viewport.width_px as int,
                        old(self).viewport.height_px as int,
                    ),
                },
            ),
            final(self).viewport == old(self).viewport,
            final(self).momentum == old(self).momentum,
            final(self).tile_store == old(self).tile_store,
            final(self).point_layers == old(self).point_layers,
            final(self).line_layers == old(self).line_layers,
            final(self).polygon_layers == old(self).polygon_layers,
            final(self).geojson_layers == old(self).geojson_layers,
            final(self).spatial == old(self).spatial,
            final(self).tile_layer == old(self).tile_layer,
    {
        let bounds = self.viewport.get_bounds();
        let rec = EventRecord {
            kind,
            center_lat: self.viewport.center_lat,
            center_lng: self.viewport.center_lng,
            zoom_milli: self.viewport.zoom_milli,
            bounds,
        };
        self.events.push(rec);
    }

    /// Move the view to a center and zoom; recomputes visibility,
    /// settles the cache and records a move notification. Returns
    /// the tile requests to issue.
    pub fn set_view(&mut self, lat: i64, lng: i64, zoom_milli: u32) -> (reqs: Vec<
        TileAddress>)
        requires
            old(self).wf(),
            -9000000000000000000 <= lng <= 9000000000000000000,
        ensures
            final(self).wf(),
            final(self).viewport.center_lat as int == clamp_lat90_spec(lat as int),
            -180000000 <= lng <= 180000000 ==> final(self).viewport.center_lng == lng,
            final(self).viewport.zoom_milli as int == zoom_clamp_spec(
                zoom_milli as int,
                old(self).viewport.min_zoom_milli as int,
                old(self).viewport.max_zoom_milli as int,
            ),
            forall|i: int|
                0 <= i < reqs@.len() ==> (#[trigger] reqs@[i]).valid() && reqs@[i].z as int
                    == rounded_zoom_spec(final(self).viewport.zoom_milli as int),
            final(self).tile_store.tiles@.len() <= final(self).tile_store.capacity,
            forall|i: int|
                0 <= i < final(self).tile_store.tiles@.len() ==> (#[trigger] final(self).tile_store.tiles@[i]).address.z as int == rounded_zoom_spec(
                    final(self).viewport.zoom_milli as int,
                ),
            final(self).events@ == old(self).events@.push(
                EventRecord {
                    kind: EventKind::Move,
                    center_lat: final(self).viewport.center_lat,
                    center_lng: final(self).viewport.center_lng,
                    zoom_milli: final(self).viewport.zoom_milli,
                    bounds: bounds_at_zoom_spec(
                        final(self).viewport.center_lat as int,
                        final(self).viewport.center_lng as int,
                        rounded_zoom_spec(final(self).viewport.zoom_milli as int),
                        final(self).viewport.width_px as int,
                        final(self).viewport.height_px as int,
                    ),
                },
            ),
    {
        self.viewport.set_view(lat, lng, zoom_milli);
        let reqs = self.settle_tiles();
        self.push_event(EventKind::Move);
        reqs
    }

    /// Pan by a screen-pixel delta in micropixels: dragging right
    /// moves the center west. A pan with no vertical component never
    /// changes the latitude. Settles tiles and records a move
    /// notification.
    pub fn pan(&mut self, dx_upx: i64, dy_upx: i64) -> (reqs: Vec<TileAddress>)
        requires
            old(self).wf(),
            -67108864000000 <= dx_upx <= 67108864000000,
            -67108864000000 <= dy_upx <= 67108864000000,
        ensures
            final(self).wf(),
            final(self).viewport.center_lng as int == pan_lng_spec(
                old(self).viewport,
                dx_upx as int,
            ),
            -85051128 <= final(self).viewport.center_lat <= 85051128,
            dy_upx == 0 ==> final(self).viewport.center_lat as int
                == crate::geo::clamp_lat_spec(old(self).viewport.center_lat as int),
            dy_upx != 0 ==> final(self).viewport.center_lat as int == pan_lat_spec(
                old(self).viewport,
                dy_upx as int,
            ),
            final(self).viewport.zoom_milli == old(self).viewport.zoom_milli,
            final(self).viewport.width_px == old(self).viewport.width_px,
            final(self).viewport.height_px == old(self).viewport.height_px,
            final(self).viewport.min_zoom_milli == old(self).viewport.min_zoom_milli,
            final(self).viewport.max_zoom_milli == old(self).viewport.max_zoom_milli,
            final(self).tile_store.tiles@.len() <= final(self).tile_store.capacity,
            forall|i: int|
                0 <= i < final(self).tile_store.tiles@.len() ==> (#[trigger] final(self).tile_store.tiles@[i]).address.z as int == rounded_zoom_spec(
                    final(self).viewport.zoom_milli as int,
                ),
            forall|i: int|
                0 <= i < reqs@.len() ==> (#[trigger] reqs@[i]).valid() && reqs@[i].z as int
                    == rounded_zoom_spec(final(self).viewport.zoom_milli as int),
            final(self).events@ == old(self).events@.push(
                EventRecord {
                    kind: EventKind::Move,
                    center_lat: final(self).viewport.center_lat,
                    center_lng: final(self).viewport.center_lng,
                    zoom_milli: final(self).viewport.zoom_milli,
                    bounds: bounds_at_zoom_spec(
                        final(self).viewport.center_lat as int,
                        final(self).viewport.center_lng as int,
                        rounded_zoom_spec(final(self).viewport.zoom_milli as int),
                        final(self).viewport.width_px as int,
                        final(self).viewport.height_px as int,
                    ),
                },
            ),
    {
        self.viewport.pan(dx_upx, dy_upx);
        let reqs = self.settle_tiles();
        self.push_event(EventKind::Move);
        reqs
    }

    /// Zoom one level in (clamped) and settle tiles; a zoom
    /// notification is recorded only when the zoom actually changed,
    /// so a zoom at the bound is a silent no-op.
    pub fn zoom_in(&mut self) -> (reqs: Vec<TileAddress>)
        requires
            old(self).wf(),
        ensures
            final(self).wf(),
            final(self).viewport.zoom_milli as int == zoom_clamp_spec(
                old(self).viewport.zoom_milli as int + 1000,
                old(self).viewport.min_zoom_milli as int,
                old(self).viewport.max_zoom_milli as int,
            ),
            final(self).viewport.center_lat == old(self).viewport.center_lat,
            final(self).viewport.center_lng == old(self).viewport.center_lng,
            final(self).tile_store.tiles@.len() <= final(self).tile_store.capacity,
            forall|i: int|
                0 <= i < final(self).tile_store.tiles@.len() ==> (#[trigger] final(self).tile_store.tiles@[i]).address.z as int == rounded_zoom_spec(
                    final(self).viewport.zoom_milli as int,
                ),
            final(self).viewport.zoom_milli != old(self).viewport.zoom_milli ==> final(self).events@ == old(self).events@.push(
                EventRecord {
                    kind: EventKind::Zoom,
                    center_lat: final(self).viewport.center_lat,
                    center_lng: final(self).viewport.center_lng,
                    zoom_milli: final(self).viewport.zoom_milli,
                    bounds: bounds_at_zoom_spec(
                        final(self).viewport.center_lat as int,
                        final(self).viewport.center_lng as int,
                        rounded_zoom_spec(final(self).viewport.zoom_milli as int),
                        final(self).viewport.width_px as int,
                        final(self).viewport.height_px as int,
                    ),
                },
            ),
            final(self).viewport.zoom_milli == old(self).viewport.zoom_milli ==> final(self).events@ == old(self).events@,
    {
        let before: u32 = self.viewport.zoom_milli;
        self.viewport.zoom_in();
        let reqs = self.settle_tiles();
        if self.viewport.zoom_milli != before {
            self.push_event(EventKind::Zoom);
        }
        reqs
    }

    /// Zoom one level out (clamped) and settle tiles; a zoom
    /// notification is recorded only when the zoom actually changed,
    /// so a zoom at the bound is a silent no-op.
    pub fn zoom_out(&mut self) -> (reqs: Vec<TileAddress>)
        requires
            old(self).wf(),
        ensures
            final(self).wf(),
            final(self).viewport.zoom_milli as int == zoom_clamp_spec(
                old(self).viewport.zoom_milli as int - 1000,
                old(self).viewport.min_zoom_milli as int,
                old(self).viewport.max_zoom_milli as int,
            ),
            final(self).viewport.center_lat == old(self).viewport.center_lat,
            final(self).viewport.center_lng == old(self).viewport.center_lng,
            final(self).tile_store.tiles@.len() <= final(self).tile_store.capacity,
            forall|i: int|
                0 <= i < final(self).tile_store.tiles@.len() ==> (#[trigger] final(self).tile_store.tiles@[i]).address.z as int == rounded_zoom_spec(
                    final(self).viewport.zoom_milli as int,
                ),
            final(self).viewport.zoom_milli != old(self).viewport.zoom_milli ==> final(self).events@ == old(self).events@.push(
                EventRecord {
                    kind: EventKind::Zoom,
                    center_lat: final(self).viewport.center_lat,
                    center_lng: final(self).viewport.center_lng,
                    zoom_milli: final(self).viewport.zoom_milli,
                    bounds: bounds_at_zoom_spec(
                        final(self).viewport.center_lat as int,
                        final(self).viewport.center_lng as int,
                        rounded_zoom_spec(final(self).viewport.zoom_milli as int),
                        final(self).viewport.width_px as int,
                        final(self).viewport.height_px as int,
                    ),
                },
            ),
            final(self).viewport.zoom_milli == old(self).viewport.zoom_milli ==> final(self).events@ == old(self).events@,
    {
        let before: u32 = self.viewport.zoom_milli;
        self.viewport.zoom_out();
        let reqs = self.settle_tiles();
        if self.viewport.zoom_milli != before {
            self.push_event(EventKind::Zoom);
        }
        reqs
    }

    /// Fit the view to the given bounds (validated; rejected input
    /// leaves the engine unchanged); on success the zoom is the
    /// highest whose view contains them, the cache settles, and a
    /// move notification is recorded.
    pub fn fit_bounds(&mut self, sw_lat: i64, sw_lng: i64, ne_lat: i64, ne_lng: i64) -> (r:
        Result<Vec<TileAddress>, MapError>)
        requires
            old(self).wf(),
        ensures
            final(self).wf(),
            r is Ok <==> fit_bounds_check_spec(
                sw_lat as int,
                sw_lng as int,
                ne_lat as int,
                ne_lng as int,
            ) is Ok,
            r is Err ==> r->Err_0 == fit_bounds_check_spec(
                sw_lat as int,
                sw_lng as int,
                ne_lat as int,
                ne_lng as int,
            )->Err_0 && *final(self) == *old(self),
            r is Ok ==> final(self).viewport.zoom_milli as int == zoom_clamp_spec(
                1000 * crate::viewport::fit_zoom_spec(
                    sw_lat as int + (ne_lat as int - sw_lat as int) / 2,
                    sw_lng as int + (ne_lng as int - sw_lng as int) / 2,
                    old(self).viewport.width_px as int,
                    old(self).viewport.height_px as int,
                    Bounds { sw_lat, sw_lng, ne_lat, ne_lng },
                    ({
                        let zlo = (old(self).viewport.min_zoom_milli as int + 999) / 1000;
                        let zhi = old(self).viewport.max_zoom_milli as int / 1000;
                        if zlo <= zhi {
                            zlo
                        } else {
                            zhi
                        }
                    }),
                    old(self).viewport.max_zoom_milli as int / 1000,
                ),
                old(self).viewport.min_zoom_milli as int,
                old(self).viewport.max_zoom_milli as int,
            ),
            r is Ok ==> final(self).viewport.center_lat as int == sw_lat as int + (
            ne_lat as int - sw_lat as int) / 2,
            r is Ok ==> final(self).viewport.center_lng as int == sw_lng as int + (
            ne_lng as int - sw_lng as int) / 2,
            r is Ok ==> final(self).tile_store.tiles@.len() <= final(self).tile_store.capacity,
            final(self).viewport.width_px == old(self).viewport.width_px,
            final(self).viewport.height_px == old(self).viewport.height_px,
            final(self).viewport.min_zoom_milli == old(self).viewport.min_zoom_milli,
            final(self).viewport.max_zoom_milli == old(self).viewport.max_zoom_milli,
    {
        let r = self.viewport.fit_bounds(sw_lat, sw_lng, ne_lat, ne_lng);
        match r {
            Ok(()) => {
                let reqs = self.settle_tiles();
                self.push_event(EventKind::Move);
                Ok(reqs)
            },
            Err(e) => Err(e),
        }
    }

    /// The center coordinate in microdegrees.
    pub fn get_center(&self) -> (c: (i64, i64))
        ensures
            c.0 == self.viewport.center_lat,
            c.1 == self.viewport.center_lng,
    {
        (self.viewport.center_lat, self.viewport.center_lng)
    }

    /// The zoom in thousandths of a level.
    pub fn get_zoom(&self) -> (z: u32)
        ensures
            z == self.viewport.zoom_milli,
    {
        self.viewport.zoom_milli
    }

    /// The current view bounds.
    pub fn get_bounds(&self) -> (b: Bounds)
        requires
            self.wf(),
        ensures
            b == bounds_at_zoom_spec(
                self.viewport.center_lat as int,
                self.viewport.center_lng as int,
                rounded_zoom_spec(self.viewport.zoom_milli as int),
                self.viewport.width_px as int,
                self.viewport.height_px as int,
            ),
    {
        self.viewport.get_bounds()
    }

    /// Project a coordinate to screen micropixels.
    pub fn project(&self, lat: i64, lng: i64) -> (p: (i64, i64))
        requires
            self.wf(),
            -180000000 <= lng <= 180000000,
        ensures
            p.0 as int == screen_x_spec(self.viewport, lng as int),
            p.1 as int == screen_y_spec(self.viewport, lat as int),
    {
        self.viewport.project(lat, lng)
    }

    /// Unproject a screen position (micropixels) to a coordinate:
    /// the horizontal axis wraps around the world, the vertical axis
    /// clamps to the world edge.
    pub fn unproject(&self, sx: i64, sy: i64) -> (c: (i64, i64))
        requires
            self.wf(),
            -1000000000000000 <= sx <= 1000000000000000,
            -1000000000000000 <= sy <= 1000000000000000,
        ensures
            ({
                let vp = self.viewport;
                let zr = rounded_zoom_spec(vp.zoom_milli as int);
                let span = crate::geo::world_span_spec(zr);
                let wx = (sx as int - vp.width_px as int * 500000
                    + crate::geo::lng_to_world_x_spec(vp.center_lng as int, zr)) % span;
                let wy = crate::viewport::clamp_to_span(
                    sy as int - vp.height_px as int * 500000
                        + crate::geo::lat_to_world_y_spec(vp.center_lat as int, zr),
                    span,
                );
                &&& c.0 as int == crate::geo::world_y_to_lat_spec(wy, zr)
                &&& c.1 as int == crate::geo::world_x_to_lng_spec(wx, zr)
            }),
            -85051128 <= c.0 <= 85051128,
            -180000000 <= c.1 <= 180000000,
    {
        self.viewport.unproject(sx, sy)
    }

    /// Resize the canvas (clamped to the supported pixel range).
    pub fn resize(&mut self, width_px: u32, height_px: u32)
        requires
            old(self).wf(),
        ensures
            final(self).wf(),
            1 <= width_px <= 8192 ==> final(self).viewport.width_px == width_px,
            1 <= height_px <= 8192 ==> final(self).viewport.height_px == height_px,
            final(self).viewport.center_lat == old(self).viewport.center_lat,
            final(self).viewport.center_lng == old(self).viewport.center_lng,
            final(self).viewport.zoom_milli == old(self).viewport.zoom_milli,
    {
        let w: u32 = if width_px < 1 {
            1
        } else if width_px > 8192 {
            8192
        } else {
            width_px
        };
        let h: u32 = if height_px < 1 {
            1
        } else if height_px > 8192 {
            8192
        } else {
            height_px
        };
        self.viewport.width_px = w;
        self.viewport.height_px = h;
    }

    /// Configure the tile service from a URL template, with the
    /// conventional three subdomains.
    pub fn add_tile_layer(&mut self, url_template: String)
        requires
            old(self).wf(),
        ensures
            final(self).wf(),
            final(self).tile_layer is Some,
            ({
                let cfg = final(self).tile_layer->Some_0;
                &&& cfg.url_template@ == url_template@
                &&& cfg.subdomains@.len() == 3
                &&& cfg.subdomains@[0]@ == "a"@
                &&& cfg.subdomains@[1]@ == "b"@
                &&& cfg.subdomains@[2]@ == "c"@
                &&& cfg.min_zoom == 0
                &&& cfg.max_zoom == 18
            }),
            final(self).viewport == old(self).viewport,
            final(self).events == old(self).events,
    {
        let mut subs: Vec<String> = Vec::new();
        subs.push(String::from_str("a"));
        subs.push(String::from_str("b"));
        subs.push(String::from_str("c"));
        self.tile_layer = Some(
            TileLayerConfig { url_template, subdomains: subs, max_zoom: 18, min_zoom: 0 },
        );
    }

    /// Apply a finished tile fetch: stored if the address is still
    /// cached, ignored otherwise.
    pub fn tile_loaded(&mut self, addr: TileAddress, texture: u64) -> (applied: bool)
        requires
            old(self).wf(),
        ensures
            final(self).wf(),
            applied == old(self).tile_store.contains_tile_spec(addr),
            final(self).tile_store.tiles@.len() == old(self).tile_store.tiles@.len(),
            forall|i: int|
                0 <= i < final(self).tile_store.tiles@.len() && (#[trigger] old(self).tile_store.tiles@[i]).address != addr ==> final(self).tile_store.tiles@[i]
                    == old(self).tile_store.tiles@[i],
            forall|i: int|
                0 <= i < final(self).tile_store.tiles@.len() && (#[trigger] old(self).tile_store.tiles@[i]).address == addr ==> final(self).tile_store.tiles@[i]
                    == (crate::tiles::TileRecord {
                    address: addr,
                    texture: Some(texture),
                    loading: false,
                }),
            applied ==> !final(self).tile_store.is_requested_spec(addr),
            !applied ==> final(self).tile_store.requested@ == old(self).tile_store.requested@,
            final(self).viewport == old(self).viewport,
            final(self).events == old(self).events,
            final(self).spatial == old(self).spatial,
    {
        self.tile_store.complete_load(addr, texture)
    }

    /// Apply a failed tile fetch: the request is dropped so a later
    /// visibility pass may ask again; the tile stays absent.
    pub fn tile_failed(&mut self, addr: TileAddress)
        requires
            old(self).wf(),
        ensures
            final(self).wf(),
            !final(self).tile_store.is_requested_spec(addr),
            final(self).tile_store.tiles@.len() == old(self).tile_store.tiles@.len(),
            forall|i: int|
                0 <= i < final(self).tile_store.tiles@.len() && (#[trigger] old(self).tile_store.tiles@[i]).address != addr ==> final(self).tile_store.tiles@[i]
                    == old(self).tile_store.tiles@[i],
            forall|i: int|
                0 <= i < final(self).tile_store.tiles@.len() && (#[trigger] old(self).tile_store.tiles@[i]).address == addr ==> final(self).tile_store.tiles@[i]
                    == (crate::tiles::TileRecord {
                    address: addr,
                    texture: old(self).tile_store.tiles@[i].texture,
                    loading: false,
                }),
            final(self).viewport == old(self).viewport,
            final(self).events == old(self).events,
            final(self).spatial == old(self).spatial,
    {
        self.tile_store.fail_load(addr)
    }

    /// Drain the recorded notifications.
    pub fn take_events(&mut self) -> (evs: Vec<EventRecord>)
        requires
            old(self).wf(),
        ensures
            final(self).wf(),
            evs@ == old(self).events@,
            final(self).events@.len() == 0,
            final(self).viewport == old(self).viewport,
    {
        let mut out: Vec<EventRecord> = Vec::new();
        out.append(&mut self.events);
        out
    }
}


/// Clamp a position into valid geographic ranges (latitude clamped,
/// longitude wrapped).
fn clamp_pos(p: LatLng) -> (r: LatLng)
    ensures
        pos_wf(r),
        -90000000 <= p.lat <= 90000000 && -180000000 <= p.lng <= 180000000 ==> r == p,
        r == clamp_pos_spec(p),
{
    let lat: i64 = if p.lat < -90000000 {
        -90000000
    } else if p.lat > 90000000 {
        90000000
    } else {
        p.lat
    };
    let lng: i64 = if -180000000 <= p.lng && p.lng <= 180000000 {
        p.lng
    } else {
        let xw: i64 = if p.lng > 4600000000000000000 {
            4600000000000000000
        } else if p.lng < -4600000000000000000 {
            -4600000000000000000
        } else {
            p.lng
        };
        let w: i64 = crate::geo::wrap_world_x(xw + 180000000, 360000000);
        w - 180000000
    };
    LatLng { lat, lng }
}

impl RustyleafMap {
    /// Append an empty, visible point layer.
    pub fn add_point_layer(&mut self) -> (idx: usize)
        requires
            old(self).wf(),
        ensures
            final(self).wf(),
            final(self).point_layers@.len() == old(self).point_layers@.len() + 1,
            idx == old(self).point_layers@.len(),
    {
        let idx = self.point_layers.len();
        self.point_layers.push(PointLayer { points: Vec::new(), visible: true });
        proof {
            assert forall|l: int, i: int|
                0 <= l < self.point_layers@.len() && 0 <= i < (
                #[trigger] self.point_layers@[l]).points@.len() implies pos_wf(
                (#[trigger] self.point_layers@[l].points@[i]).pos,
            ) by {
                if l < old(self).point_layers@.len() {
                    assert(self.point_layers@[l] == old(self).point_layers@[l]);
                }
            }
        }
        idx
    }

    /// Replace a point layer's features; every position is clamped
    /// into valid ranges on the way in. Rejects an out-of-range layer
    /// index without touching anything.
    pub fn add_points(&mut self, layer_index: usize, points: Vec<PointFeature>) -> (r:
        Result<(), MapError>)
        requires
            old(self).wf(),
        ensures
            final(self).wf(),
            r is Ok <==> layer_index < old(self).point_layers@.len(),
            r is Err ==> *final(self) == *old(self) && r->Err_0
                == MapError::LayerIndexOutOfBounds,
            r is Ok ==> {
                let lay = final(self).point_layers@[layer_index as int];
                &&& lay.points@.len() == points@.len()
                &&& forall|k: int|
                    0 <= k < points@.len() ==> (#[trigger] lay.points@[k]).pos
                        == clamp_pos_spec(points@[k].pos) && lay.points@[k].size_mpx
                        == points@[k].size_mpx && lay.points@[k].color == points@[k].color
                        && crate::geojson::jm(lay.points@[k].meta) == crate::geojson::jm(
                        points@[k].meta,
                    )
                &&& lay.visible == old(self).point_layers@[layer_index as int].visible
            },
            final(self).point_layers@.len() == old(self).point_layers@.len(),
            forall|l: int|
                0 <= l < final(self).point_layers@.len() && l != layer_index
                    ==> #[trigger] final(self).point_layers@[l] == old(self).point_layers@[l],
            final(self).line_layers == old(self).line_layers,
            final(self).polygon_layers == old(self).polygon_layers,
            final(self).geojson_layers == old(self).geojson_layers,
            final(self).viewport == old(self).viewport,
            final(self).events == old(self).events,
            final(self).spatial == old(self).spatial,
            final(self).tile_store == old(self).tile_store,
    {
        if layer_index >= self.point_layers.len() {
            return Err(MapError::LayerIndexOutOfBounds);
        }
        let mut cleaned: Vec<PointFeature> = Vec::new();
        let mut i: usize = 0;
        while i < points.len()
            invariant
                i <= points@.len(),
                cleaned@.len() == i,
                forall|k: int| 0 <= k < i ==> pos_wf((#[trigger] cleaned@[k]).pos),
                forall|k: int|
                    0 <= k < i ==> (#[trigger] cleaned@[k]).pos == clamp_pos_spec(
                        points@[k].pos,
                    ) && cleaned@[k].size_mpx == points@[k].size_mpx && cleaned@[k].color
                        == points@[k].color && crate::geojson::jm(cleaned@[k].meta)
                        == crate::geojson::jm(points@[k].meta),
            decreases points@.len() - i,
        {
            let p = vstd::std_specs::vec::vec_index(&points, i);
            cleaned.push(
                PointFeature {
                    pos: clamp_pos(p.pos),
                    size_mpx: p.size_mpx,
                    color: p.color,
                    meta: crate::geojson::clone_json(&p.meta),
                },
            );
            i = i + 1;
        }
        let lk = vstd::std_specs::vec::vec_index_mut(&mut self.point_layers, layer_index);
        lk.points = cleaned;
        proof {
            assert forall|l: int, i2: int|
                0 <= l < self.point_layers@.len() && 0 <= i2 < (
                #[trigger] self.point_layers@[l]).points@.len() implies pos_wf(
                (#[trigger] self.point_layers@[l].points@[i2]).pos,
            ) by {
                if l != layer_index {
                    assert(self.point_layers@[l] == old(self).point_layers@[l]);
                }
            }
        }
        Ok(())
    }

    /// Append an empty, visible line layer.
    pub fn add_line_layer(&mut self) -> (idx: usize)
        requires
            old(self).wf(),
        ensures
            final(self).wf(),
            final(self).line_layers@.len() == old(self).line_layers@.len() + 1,
            idx == old(self).line_layers@.len(),
    {
        let idx = self.line_layers.len();
        self.line_layers.push(LineLayer { lines: Vec::new(), visible: true });
        proof {
            assert forall|l: int, i: int|
                0 <= l < self.line_layers@.len() && 0 <= i < (
                #[trigger] self.line_layers@[l]).lines@.len() implies ring_wf(
                (#[trigger] self.line_layers@[l].lines@[i]).points@,
            ) by {
                if l < old(self).line_layers@.len() {
                    assert(self.line_layers@[l] == old(self).line_layers@[l]);
                }
            }
        }
        idx
    }

    /// Replace a line layer's features; every vertex is clamped into
    /// valid ranges on the way in.
    pub fn add_lines(&mut self, layer_index: usize, lines: Vec<LineFeature>) -> (r: Result<
        (),
        MapError,
    >)
        requires
            old(self).wf(),
        ensures
            final(self).wf(),
            r is Ok <==> layer_index < old(self).line_layers@.len(),
            r is Err ==> *final(self) == *old(self) && r->Err_0
                == MapError::LayerIndexOutOfBounds,
            r is Ok ==> {
                let lay = final(self).line_layers@[layer_index as int];
                &&& lay.lines@.len() == lines@.len()
                &&& forall|k: int|
                    0 <= k < lines@.len() ==> (#[trigger] lay.lines@[k]).points@
                        == lines@[k].points@.map_values(|p: LatLng| clamp_pos_spec(p))
                        && lay.lines@[k].color == lines@[k].color
                        && lay.lines@[k].width_mpx == lines@[k].width_mpx
                        && crate::geojson::jm(lay.lines@[k].meta) == crate::geojson::jm(
                        lines@[k].meta,
                    )
                &&& lay.visible == old(self).line_layers@[layer_index as int].visible
            },
            final(self).line_layers@.len() == old(self).line_layers@.len(),
            forall|l: int|
                0 <= l < final(self).line_layers@.len() && l != layer_index
                    ==> #[trigger] final(self).line_layers@[l] == old(self).line_layers@[l],
            final(self).point_layers == old(self).point_layers,
            final(self).polygon_layers == old(self).polygon_layers,
            final(self).geojson_layers == old(self).geojson_layers,
            final(self).viewport == old(self).viewport,
            final(self).events == old(self).events,
            final(self).spatial == old(self).spatial,
            final(self).tile_store == old(self).tile_store,
    {
        if layer_index >= self.line_layers.len() {
            return Err(MapError::LayerIndexOutOfBounds);
        }
        let mut cleaned: Vec<LineFeature> = Vec::new();
        let mut i: usize = 0;
        while i < lines.len()
            invariant
                i <= lines@.len(),
                cleaned@.len() == i,
                forall|k: int| 0 <= k < i ==> ring_wf((#[trigger] cleaned@[k]).points@),
                forall|k: int|
                    0 <= k < i ==> (#[trigger] cleaned@[k]).points@
                        == lines@[k].points@.map_values(|p: LatLng| clamp_pos_spec(p))
                        && cleaned@[k].color == lines@[k].color && cleaned@[k].width_mpx
                        == lines@[k].width_mpx && crate::geojson::jm(cleaned@[k].meta)
                        == crate::geojson::jm(lines@[k].meta),
            decreases lines@.len() - i,
        {
            let lf = vstd::std_specs::vec::vec_index(&lines, i);
            let mut pts: Vec<LatLng> = Vec::new();
            let mut j: usize = 0;
            while j < lf.points.len()
                invariant
                    j <= lf.points@.len(),
                    forall|k: int| 0 <= k < j ==> pos_wf(#[trigger] pts@[k]),
                    pts@ == lf.points@.take(j as int).map_values(
                        |p: LatLng| clamp_pos_spec(p),
                    ),
                    lf == lines@[i as int],
                    i < lines@.len(),
                decreases lf.points@.len() - j,
            {
                pts.push(clamp_pos(lf.points[j]));
                proof {
                    assert(pts@ =~= lf.points@.take(j as int + 1).map_values(
                        |p: LatLng| clamp_pos_spec(p),
                    ));
                }
                j = j + 1;
            }
            proof {
                assert(lf.points@.take(lf.points@.len() as int) =~= lf.points@);
            }
            cleaned.push(
                LineFeature {
                    points: pts,
                    color: lf.color,
                    width_mpx: lf.width_mpx,
                    meta: crate::geojson::clone_json(&lf.meta),
                },
            );
            i = i + 1;
        }
        let lk = vstd::std_specs::vec::vec_index_mut(&mut self.line_layers, layer_index);
        lk.lines = cleaned;
        proof {
            assert forall|l: int, i2: int|
                0 <= l < self.line_layers@.len() && 0 <= i2 < (
                #[trigger] self.line_layers@[l]).lines@.len() implies ring_wf(
                (#[trigger] self.line_layers@[l].lines@[i2]).points@,
            ) by {
                if l != layer_index {
                    assert(self.line_layers@[l] == old(self).line_layers@[l]);
                }
            }
        }
        Ok(())
    }

    /// Append an empty, visible polygon layer.
    pub fn add_polygon_layer(&mut self) -> (idx: usize)
        requires
            old(self).wf(),
        ensures
            final(self).wf(),
            final(self).polygon_layers@.len() == old(self).polygon_layers@.len() + 1,
            idx == old(self).polygon_layers@.len(),
    {
        let idx = self.polygon_layers.len();
        self.polygon_layers.push(PolygonLayer { polygons: Vec::new(), visible: true });
        proof {
            assert forall|l: int, i: int|
                0 <= l < self.polygon_layers@.len() && 0 <= i < (
                #[trigger] self.polygon_layers@[l]).polygons@.len() implies rings_wf(
                (#[trigger] self.polygon_layers@[l].polygons@[i]).rings@,
            ) by {
                if l < old(self).polygon_layers@.len() {
                    assert(self.polygon_layers@[l] == old(self).polygon_layers@[l]);
                }
            }
        }
        idx
    }

    /// Replace a polygon layer's features; every vertex is clamped
    /// into valid ranges, and rings of fewer than three points are
    /// dropped.
    pub fn add_polygons(&mut self, layer_index: usize, polygons: Vec<PolygonFeature>) -> (r:
        Result<(), MapError>)
        requires
            old(self).wf(),
        ensures
            final(self).wf(),
            r is Ok <==> layer_index < old(self).polygon_layers@.len(),
            r is Err ==> *final(self) == *old(self) && r->Err_0
                == MapError::LayerIndexOutOfBounds,
            r is Ok ==> {
                let lay = final(self).polygon_layers@[layer_index as int];
                &&& lay.polygons@.len() == polygons@.len()
                &&& forall|k: int|
                    0 <= k < polygons@.len() ==> (#[trigger] lay.polygons@[k]).rings@.map_values(
                        |v: Vec<LatLng>| v@,
                    ) == kept_rings_spec(polygons@[k].rings@) && lay.polygons@[k].color
                        == polygons@[k].color && crate::geojson::jm(lay.polygons@[k].meta)
                        == crate::geojson::jm(polygons@[k].meta)
                &&& lay.visible == old(self).polygon_layers@[layer_index as int].visible
            },
            final(self).polygon_layers@.len() == old(self).polygon_layers@.len(),
            forall|l: int|
                0 <= l < final(self).polygon_layers@.len() && l != layer_index
                    ==> #[trigger] final(self).polygon_layers@[l] == old(self).polygon_layers@[l],
            final(self).point_layers == old(self).point_layers,
            final(self).line_layers == old(self).line_layers,
            final(self).geojson_layers == old(self).geojson_layers,
            final(self).viewport == old(self).viewport,
            final(self).events == old(self).events,
            final(self).spatial == old(self).spatial,
            final(self).tile_store == old(self).tile_store,
    {
        if layer_index >= self.polygon_layers.len() {
            return Err(MapError::LayerIndexOutOfBounds);
        }
        let mut cleaned: Vec<PolygonFeature> = Vec::new();
        let mut i: usize = 0;
        while i < polygons.len()
            invariant
                i <= polygons@.len(),
                cleaned@.len() == i,
                forall|k: int| 0 <= k < i ==> rings_wf((#[trigger] cleaned@[k]).rings@),
                forall|k: int|
                    0 <= k < i ==> (#[trigger] cleaned@[k]).rings@.map_values(
                        |v: Vec<LatLng>| v@,
                    ) == kept_rings_spec(polygons@[k].rings@) && cleaned@[k].color
                        == polygons@[k].color && crate::geojson::jm(cleaned@[k].meta)
                        == crate::geojson::jm(polygons@[k].meta),
            decreases polygons@.len() - i,
        {
            let pf = vstd::std_specs::vec::vec_index(&polygons, i);
            let mut rings: Vec<Vec<LatLng>> = Vec::new();
            let mut j: usize = 0;
            while j < pf.rings.len()
                invariant
                    j <= pf.rings@.len(),
                    rings_wf(rings@),
                    rings@.map_values(|v: Vec<LatLng>| v@) == kept_rings_spec(
                        pf.rings@.take(j as int),
                    ),
                    pf == polygons@[i as int],
                    i < polygons@.len(),
                decreases pf.rings@.len() - j,
            {
                let ring = vstd::std_specs::vec::vec_index(&pf.rings, j);
                proof {
                    assert(pf.rings@.take(j as int + 1).drop_last() =~= pf.rings@.take(
                        j as int,
                    ));
                    assert(pf.rings@.take(j as int + 1).last() == pf.rings@[j as int]);
                }
                if ring.len() >= 3 {
                    let mut pts: Vec<LatLng> = Vec::new();
                    let mut k: usize = 0;
                    while k < ring.len()
                        invariant
                            k <= ring@.len(),
                            forall|m: int| 0 <= m < k ==> pos_wf(#[trigger] pts@[m]),
                            pts@ == ring@.take(k as int).map_values(
                                |p: LatLng| clamp_pos_spec(p),
                            ),
                            ring == pf.rings@[j as int],
                            j < pf.rings@.len(),
                        decreases ring@.len() - k,
                    {
                        pts.push(clamp_pos(ring[k]));
                        proof {
                            assert(pts@ =~= ring@.take(k as int + 1).map_values(
                                |p: LatLng| clamp_pos_spec(p),
                            ));
                        }
                        k = k + 1;
                    }
                    proof {
                        assert(ring@.take(ring@.len() as int) =~= ring@);
                    }
                    let ghost rb = rings@;
                    rings.push(pts);
                    proof {
                        assert forall|m: int|
                            0 <= m < rings@.len() implies ring_wf(
                            (#[trigger] rings@[m])@,
                        ) by {
                            if m < rb.len() {
                                assert(rings@[m] == rb[m]);
                            }
                        }
                        assert(rings@.map_values(|v: Vec<LatLng>| v@) =~= kept_rings_spec(
                            pf.rings@.take(j as int + 1),
                        ));
                    }
                } else {
                    proof {
                        assert(rings@.map_values(|v: Vec<LatLng>| v@) =~= kept_rings_spec(
                            pf.rings@.take(j as int + 1),
                        ));
                    }
                }
                j = j + 1;
            }
            proof {
                assert(pf.rings@.take(pf.rings@.len() as int) =~= pf.rings@);
            }
            cleaned.push(
                PolygonFeature {
                    rings,
                    color: pf.color,
                    meta: crate::geojson::clone_json(&pf.meta),
                },
            );
            i = i + 1;
        }
        let lk = vstd::std_specs::vec::vec_index_mut(&mut self.polygon_layers, layer_index);
        lk.polygons = cleaned;
        proof {
            assert forall|l: int, i2: int|
                0 <= l < self.polygon_layers@.len() && 0 <= i2 < (
                #[trigger] self.polygon_layers@[l]).polygons@.len() implies rings_wf(
                (#[trigger] self.polygon_layers@[l].polygons@[i2]).rings@,
            ) by {
                if l != layer_index {
                    assert(self.polygon_layers@[l] == old(self).polygon_layers@[l]);
                }
            }
        }
        Ok(())
    }

    /// Append an empty, visible raw-geometry layer with the default
    /// style and an empty cache.
    pub fn add_geojson_layer(&mut self) -> (idx: usize)
        requires
            old(self).wf(),
        ensures
            final(self).wf(),
            final(self).geojson_layers@.len() == old(self).geojson_layers@.len() + 1,
            idx == old(self).geojson_layers@.len(),
    {
        let idx = self.geojson_layers.len();
        self.geojson_layers.push(
            GeoJsonLayer {
                features: Vec::new(),
                visible: true,
                style: GeoJsonStyle::default_style(),
                cached_points: Vec::new(),
                cached_lines: Vec::new(),
                cached_triangles: Vec::new(),
                cache_complete: true,
            },
        );
        proof {
            assert forall|l: int, i: int|
                0 <= l < self.geojson_layers@.len() && 0 <= i < (
                #[trigger] self.geojson_layers@[l]).features@.len() implies (
            #[trigger] self.geojson_layers@[l].features@[i]).wf() by {
                if l < old(self).geojson_layers@.len() {
                    assert(self.geojson_layers@[l] == old(self).geojson_layers@[l]);
                }
            }
        }
        idx
    }
}


impl RustyleafMap {
    /// Rebuild one raw-geometry layer's render cache from its current
    /// features and style. The flattened points and lines equal the
    /// features' contributions exactly, and when triangulation
    /// completed, the triangle areas sum to the features' total ring
    /// area.
    fn rebuild_layer_cache(&mut self, layer_index: usize)
        requires
            old(self).wf(),
            layer_index < old(self).geojson_layers@.len(),
        ensures
            final(self).wf(),
            final(self).geojson_layers@.len() == old(self).geojson_layers@.len(),
            ({
                let lay = final(self).geojson_layers@[layer_index as int];
                let oldlay = old(self).geojson_layers@[layer_index as int];
                &&& lay.features == oldlay.features
                &&& lay.style == oldlay.style
                &&& lay.visible == oldlay.visible
                &&& lay.cached_points@.map_values(|p: PointFeature| pf_view(p))
                    == features_points_spec(oldlay.features@, oldlay.style)
                &&& lay.cached_lines@.map_values(|l: LineFeature| lf_view(l))
                    == features_lines_spec(oldlay.features@, oldlay.style)
                &&& (lay.cache_complete ==> tri_sum(lay.cached_triangles@)
                    == features_area(oldlay.features@))
            }),
            forall|l: int|
                0 <= l < final(self).geojson_layers@.len() && l != layer_index
                    ==> #[trigger] final(self).geojson_layers@[l] == old(self).geojson_layers@[l],
            final(self).viewport == old(self).viewport,
            final(self).events == old(self).events,
    {
        let lay = vstd::std_specs::vec::vec_index_mut(
            &mut self.geojson_layers,
            layer_index,
        );
        let style = lay.style;
        let (pts, lns, tris, complete) = rebuild_cache(&lay.features, style);
        lay.cached_points = pts;
        lay.cached_lines = lns;
        lay.cached_triangles = tris;
        lay.cache_complete = complete;
        proof {
            assert forall|l: int, i: int|
                0 <= l < self.geojson_layers@.len() && 0 <= i < (
                #[trigger] self.geojson_layers@[l]).features@.len() implies (
            #[trigger] self.geojson_layers@[l].features@[i]).wf() by {
                if l != layer_index {
                    assert(self.geojson_layers@[l] == old(self).geojson_layers@[l]);
                } else {
                    assert(self.geojson_layers@[l].features == old(self).geojson_layers@[l].features);
                }
            }
        }
    }

    /// Load a parsed geometry document into a layer, replacing its
    /// features: exactly the shapes the document denotes, or the
    /// document's rejection; then the cache is rebuilt synchronously.
    /// Returns how many features were loaded.
    pub fn load_geojson_value(&mut self, layer_index: usize, v: &crate::geojson::JsonValue)
        -> (r: Result<usize, MapError>)
        requires
            old(self).wf(),
        ensures
            final(self).wf(),
            layer_index >= old(self).geojson_layers@.len() ==> r == Err::<
                usize,
                MapError,
            >(MapError::LayerIndexOutOfBounds) && *final(self) == *old(self),
            layer_index < old(self).geojson_layers@.len() ==> {
                &&& (r is Ok <==> crate::geojson::doc_views_spec(*v) is Ok)
                &&& (r is Err ==> *final(self) == *old(self) && r->Err_0
                    == crate::geojson::doc_views_spec(*v)->Err_0)
                &&& (r is Ok ==> {
                    let lay = final(self).geojson_layers@[layer_index as int];
                    &&& lay.features@.map_values(|f: Feature| f.geometry@)
                        == crate::geojson::doc_views_spec(*v).unwrap()
                    &&& r->Ok_0 == lay.features@.len()
                    &&& lay.cached_points@.map_values(|p: PointFeature| pf_view(p))
                        == features_points_spec(lay.features@, lay.style)
                    &&& lay.cached_lines@.map_values(|l: LineFeature| lf_view(l))
                        == features_lines_spec(lay.features@, lay.style)
                    &&& (lay.cache_complete ==> tri_sum(lay.cached_triangles@)
                        == features_area(lay.features@))
                })
            },
    {
        if layer_index >= self.geojson_layers.len() {
            return Err(MapError::LayerIndexOutOfBounds);
        }
        match crate::geojson::features_of_document(v) {
            Ok(fs) => {
                let n = fs.len();
                let lay = vstd::std_specs::vec::vec_index_mut(
                    &mut self.geojson_layers,
                    layer_index,
                );
                lay.features = fs;
                proof {
                    assert forall|l: int, i: int|
                        0 <= l < self.geojson_layers@.len() && 0 <= i < (
                        #[trigger] self.geojson_layers@[l]).features@.len() implies (
                    #[trigger] self.geojson_layers@[l].features@[i]).wf() by {
                        if l != layer_index {
                            assert(self.geojson_layers@[l] == old(self).geojson_layers@[l]);
                        }
                    }
                }
                self.rebuild_layer_cache(layer_index);
                Ok(n)
            },
            Err(e) => Err(e),
        }
    }

    /// Load a textual geometry document into a layer: parse the text,
    /// then load the value it denotes. Text outside the textual
    /// grammar is rejected as unparseable - and nothing else is - so
    /// a well-formed document always reaches the feature extraction,
    /// whose own contract pins the outcome.
    pub fn load_geojson(&mut self, layer_index: usize, text: &str) -> (r: Result<
        usize,
        MapError,
    >)
        requires
            old(self).wf(),
        ensures
            final(self).wf(),
            layer_index >= old(self).geojson_layers@.len() ==> r == Err::<
                usize,
                MapError,
            >(MapError::LayerIndexOutOfBounds) && *final(self) == *old(self),
            layer_index < old(self).geojson_layers@.len() ==> ((r == Err::<
                usize,
                MapError,
            >(MapError::ParseFailed)) <==> !crate::geojson::json_accepts(text.spec_bytes())),
            layer_index < old(self).geojson_layers@.len() && crate::geojson::json_accepts(
                text.spec_bytes(),
            ) ==> ((r == Err::<usize, MapError>(MapError::NotAnObject))
                <==> text.spec_bytes()[crate::geojson::sp_ws(text.spec_bytes(), 0)] != 123),
            r is Err ==> *final(self) == *old(self),
            r is Ok ==> layer_index < old(self).geojson_layers@.len() && {
                let lay = final(self).geojson_layers@[layer_index as int];
                &&& r->Ok_0 == lay.features@.len()
                &&& lay.cached_points@.map_values(|p: PointFeature| pf_view(p))
                    == features_points_spec(lay.features@, lay.style)
                &&& lay.cached_lines@.map_values(|l: LineFeature| lf_view(l))
                    == features_lines_spec(lay.features@, lay.style)
                &&& (lay.cache_complete ==> tri_sum(lay.cached_triangles@)
                    == features_area(lay.features@))
            },
    {
        if layer_index >= self.geojson_layers.len() {
            return Err(MapError::LayerIndexOutOfBounds);
        }
        match crate::geojson::parse_json(text.as_bytes()) {
            Some(v) => {
                proof {
                    crate::geojson::lemma_doc_error_kinds(v);
                }
                self.load_geojson_value(layer_index, &v)
            },
            None => Err(MapError::ParseFailed),
        }
    }

    /// Append a parsed geometry document's features to a layer:
    /// exactly the shapes the document denotes join the end of the
    /// feature list, the earlier features stay, and the cache is
    /// rebuilt; a rejected document changes nothing.
    pub fn append_geojson_value(&mut self, layer_index: usize, v: &crate::geojson::JsonValue)
        -> (r: Result<usize, MapError>)
        requires
            old(self).wf(),
        ensures
            final(self).wf(),
            layer_index >= old(self).geojson_layers@.len() ==> r == Err::<
                usize,
                MapError,
            >(MapError::LayerIndexOutOfBounds) && *final(self) == *old(self),
            layer_index < old(self).geojson_layers@.len() ==> {
                &&& (r is Ok <==> crate::geojson::doc_views_spec(*v) is Ok)
                &&& (r is Err ==> *final(self) == *old(self) && r->Err_0
                    == crate::geojson::doc_views_spec(*v)->Err_0)
                &&& (r is Ok ==> {
                    let lay = final(self).geojson_layers@[layer_index as int];
                    let oldlay = old(self).geojson_layers@[layer_index as int];
                    &&& lay.features@.map_values(|f: Feature| f.geometry@)
                        == oldlay.features@.map_values(|f: Feature| f.geometry@)
                        + crate::geojson::doc_views_spec(*v).unwrap()
                    &&& lay.features@.len() == oldlay.features@.len() + r->Ok_0
                    &&& forall|i: int|
                        0 <= i < oldlay.features@.len() ==> #[trigger] lay.features@[i]
                            == oldlay.features@[i]
                    &&& lay.cached_points@.map_values(|p: PointFeature| pf_view(p))
                        == features_points_spec(lay.features@, lay.style)
                    &&& lay.cached_lines@.map_values(|l: LineFeature| lf_view(l))
                        == features_lines_spec(lay.features@, lay.style)
                    &&& (lay.cache_complete ==> tri_sum(lay.cached_triangles@)
                        == features_area(lay.features@))
                })
            },
    {
        if layer_index >= self.geojson_layers.len() {
            return Err(MapError::LayerIndexOutOfBounds);
        }
        match crate::geojson::features_of_document(v) {
            Ok(mut fs) => {
                let n = fs.len();
                let ghost fs_seq = fs@;
                let lay = vstd::std_specs::vec::vec_index_mut(
                    &mut self.geojson_layers,
                    layer_index,
                );
                let ghost old_features = lay.features@;
                lay.features.append(&mut fs);
                proof {
                    assert(self.geojson_layers@[layer_index as int].features@.map_values(
                        |f: Feature| f.geometry@,
                    ) =~= old_features.map_values(|f: Feature| f.geometry@)
                        + fs_seq.map_values(|f: Feature| f.geometry@));
                    assert forall|l: int, i: int|
                        0 <= l < self.geojson_layers@.len() && 0 <= i < (
                        #[trigger] self.geojson_layers@[l]).features@.len() implies (
                    #[trigger] self.geojson_layers@[l].features@[i]).wf() by {
                        if l != layer_index {
                            assert(self.geojson_layers@[l] == old(self).geojson_layers@[l]);
                        } else {
                            if i < old_features.len() {
                                assert(self.geojson_layers@[l].features@[i]
                                    == old_features[i]);
                            } else {
                                assert(self.geojson_layers@[l].features@[i] == fs_seq[i
                                    - old_features.len()]);
                            }
                        }
                    }
                }
                self.rebuild_layer_cache(layer_index);
                Ok(n)
            },
            Err(e) => Err(e),
        }
    }

    /// Ingest a textual fragment into a layer. A fragment that parses
    /// as a whole document is appended exactly as the document
    /// denotes - a parseable but structurally rejected document
    /// propagates its rejection and changes nothing. Otherwise every
    /// feature the best-effort recovery finds is appended and the
    /// cache rebuilt. Returns how many features this fragment added.
    pub fn load_geojson_chunk(&mut self, layer_index: usize, chunk: &str, is_final: bool)
        -> (r: Result<usize, MapError>)
        requires
            old(self).wf(),
        ensures
            final(self).wf(),
            layer_index >= old(self).geojson_layers@.len() ==> r == Err::<
                usize,
                MapError,
            >(MapError::LayerIndexOutOfBounds) && *final(self) == *old(self),
            layer_index < old(self).geojson_layers@.len()
                && !crate::geojson::json_accepts(chunk.spec_bytes()) ==> r is Ok,
            r is Err ==> *final(self) == *old(self),
            layer_index < old(self).geojson_layers@.len() && r is Err ==> r->Err_0
                != MapError::ParseFailed && r->Err_0 != MapError::LayerIndexOutOfBounds,
            r is Ok ==> {
                let lay = final(self).geojson_layers@[layer_index as int];
                let oldlay = old(self).geojson_layers@[layer_index as int];
                &&& lay.features@.len() == oldlay.features@.len() + r->Ok_0
                &&& forall|i: int|
                    0 <= i < oldlay.features@.len() ==> #[trigger] lay.features@[i]
                        == oldlay.features@[i]
                &&& lay.cached_points@.map_values(|p: PointFeature| pf_view(p))
                    == features_points_spec(lay.features@, lay.style)
                &&& lay.cached_lines@.map_values(|l: LineFeature| lf_view(l))
                    == features_lines_spec(lay.features@, lay.style)
                &&& (lay.cache_complete ==> tri_sum(lay.cached_triangles@)
                    == features_area(lay.features@))
            },
    {
        if layer_index >= self.geojson_layers.len() {
            return Err(MapError::LayerIndexOutOfBounds);
        }
        match crate::geojson::parse_json(chunk.as_bytes()) {
            Some(v) => {
                proof {
                    crate::geojson::lemma_doc_error_kinds(v);
                }
                return self.append_geojson_value(layer_index, &v);
            },
            None => {},
        }
        let mut recovered = crate::geojson::recover_chunk_features(chunk, is_final);
        let n = recovered.len();
        let lay = vstd::std_specs::vec::vec_index_mut(&mut self.geojson_layers, layer_index);
        lay.features.append(&mut recovered);
        proof {
            assert forall|l: int, i: int|
                0 <= l < self.geojson_layers@.len() && 0 <= i < (
                #[trigger] self.geojson_layers@[l]).features@.len() implies (
            #[trigger] self.geojson_layers@[l].features@[i]).wf() by {
                if l != layer_index {
                    assert(self.geojson_layers@[l] == old(self).geojson_layers@[l]);
                } else {
                    let oldlay = old(self).geojson_layers@[l];
                    if i < oldlay.features@.len() {
                        assert(self.geojson_layers@[l].features@[i] == oldlay.features@[i]);
                    }
                }
            }
        }
        self.rebuild_layer_cache(layer_index);
        Ok(n)
    }

    /// Clear a layer's features and its cache.
    pub fn clear_geojson_layer(&mut self, layer_index: usize) -> (r: Result<(), MapError>)
        requires
            old(self).wf(),
        ensures
            final(self).wf(),
            r is Ok <==> layer_index < old(self).geojson_layers@.len(),
            r is Err ==> *final(self) == *old(self) && r->Err_0
                == MapError::LayerIndexOutOfBounds,
            r is Ok ==> {
                let lay = final(self).geojson_layers@[layer_index as int];
                let oldlay = old(self).geojson_layers@[layer_index as int];
                &&& lay.features@.len() == 0
                &&& lay.cached_points@.len() == 0
                &&& lay.cached_lines@.len() == 0
                &&& lay.cached_triangles@.len() == 0
                &&& lay.cache_complete
                &&& lay.style == oldlay.style
                &&& lay.visible == oldlay.visible
            },
            final(self).geojson_layers@.len() == old(self).geojson_layers@.len(),
            forall|l: int|
                0 <= l < final(self).geojson_layers@.len() && l != layer_index ==> #[trigger] final(self).geojson_layers@[l] == old(self).geojson_layers@[l],
            final(self).viewport == old(self).viewport,
            final(self).events == old(self).events,
    {
        if layer_index >= self.geojson_layers.len() {
            return Err(MapError::LayerIndexOutOfBounds);
        }
        let lay = vstd::std_specs::vec::vec_index_mut(&mut self.geojson_layers, layer_index);
        lay.features = Vec::new();
        lay.cached_points = Vec::new();
        lay.cached_lines = Vec::new();
        lay.cached_triangles = Vec::new();
        lay.cache_complete = true;
        proof {
            assert forall|l: int, i: int|
                0 <= l < self.geojson_layers@.len() && 0 <= i < (
                #[trigger] self.geojson_layers@[l]).features@.len() implies (
            #[trigger] self.geojson_layers@[l].features@[i]).wf() by {
                if l != layer_index {
                    assert(self.geojson_layers@[l] == old(self).geojson_layers@[l]);
                }
            }
        }
        Ok(())
    }

    /// How many features a layer holds.
    pub fn get_geojson_feature_count(&self, layer_index: usize) -> (r: Result<usize, MapError>)
        ensures
            r is Ok <==> layer_index < self.geojson_layers@.len(),
            r is Ok ==> r->Ok_0 == self.geojson_layers@[layer_index as int].features@.len(),
            r is Err ==> r->Err_0 == MapError::LayerIndexOutOfBounds,
    {
        if layer_index >= self.geojson_layers.len() {
            return Err(MapError::LayerIndexOutOfBounds);
        }
        let lay = vstd::std_specs::vec::vec_index(&self.geojson_layers, layer_index);
        Ok(lay.features.len())
    }

    /// Restyle a layer and rebuild its cache under the new style.
    pub fn set_geojson_style(&mut self, layer_index: usize, style: GeoJsonStyle) -> (r:
        Result<(), MapError>)
        requires
            old(self).wf(),
        ensures
            final(self).wf(),
            r is Ok <==> layer_index < old(self).geojson_layers@.len(),
            r is Err ==> *final(self) == *old(self) && r->Err_0
                == MapError::LayerIndexOutOfBounds,
            r is Ok ==> {
                let lay = final(self).geojson_layers@[layer_index as int];
                let oldlay = old(self).geojson_layers@[layer_index as int];
                &&& lay.style == style
                &&& lay.features == oldlay.features
                &&& lay.visible == oldlay.visible
                &&& lay.cached_points@.map_values(|p: PointFeature| pf_view(p))
                    == features_points_spec(lay.features@, style)
                &&& lay.cached_lines@.map_values(|l: LineFeature| lf_view(l))
                    == features_lines_spec(lay.features@, style)
                &&& (lay.cache_complete ==> tri_sum(lay.cached_triangles@)
                    == features_area(lay.features@))
            },
            final(self).geojson_layers@.len() == old(self).geojson_layers@.len(),
            forall|l: int|
                0 <= l < final(self).geojson_layers@.len() && l != layer_index ==> #[trigger] final(self).geojson_layers@[l] == old(self).geojson_layers@[l],
            final(self).viewport == old(self).viewport,
            final(self).events == old(self).events,
    {
        if layer_index >= self.geojson_layers.len() {
            return Err(MapError::LayerIndexOutOfBounds);
        }
        let lay = vstd::std_specs::vec::vec_index_mut(&mut self.geojson_layers, layer_index);
        lay.style = style;
        proof {
            assert forall|l: int, i: int|
                0 <= l < self.geojson_layers@.len() && 0 <= i < (
                #[trigger] self.geojson_layers@[l]).features@.len() implies (
            #[trigger] self.geojson_layers@[l].features@[i]).wf() by {
                if l != layer_index {
                    assert(self.geojson_layers@[l] == old(self).geojson_layers@[l]);
                } else {
                    assert(self.geojson_layers@[l].features == old(self).geojson_layers@[l].features);
                }
            }
        }
        self.rebuild_layer_cache(layer_index);
        Ok(())
    }
}


/// A screen micropixel position converted to the spatial index's
/// millipixel coordinate, clamped into the index window (whose edge
/// lies hundreds of thousands of pixels off screen).
pub open spec fn index_coord_spec(x_upx: int) -> int {
    let c = if x_upx < -536000000000 {
        -536000000000int
    } else if x_upx > 536000000000 {
        536000000000int
    } else {
        x_upx
    };
    if c >= 0 {
        c / 1000
    } else {
        -((-c) / 1000)
    }
}

/// Convert a screen micropixel position to the index's millipixel
/// coordinate.
fn index_coord(x_upx: i64) -> (r: i64)
    ensures
        r as int == index_coord_spec(x_upx as int),
        -536000000 <= r <= 536000000,
{
    let c: i64 = if x_upx < -536000000000 {
        -536000000000
    } else if x_upx > 536000000000 {
        536000000000
    } else {
        x_upx
    };
    if c >= 0 {
        proof {
            vstd::arithmetic::div_mod::lemma_div_pos_is_pos(c as int, 1000);
            vstd::arithmetic::div_mod::lemma_div_is_ordered(c as int, 536000000000, 1000);
        }
        c / 1000
    } else {
        proof {
            vstd::arithmetic::div_mod::lemma_div_pos_is_pos(-(c as int), 1000);
            vstd::arithmetic::div_mod::lemma_div_is_ordered(-(c as int), 536000000000, 1000);
        }
        -((-c) / 1000)
    }
}

/// The view of a spatial entry: its box, layer reference and the deep
/// view of its metadata copy.
pub open spec fn se_view(e: crate::spatial::SpatialEntry) -> (
    i64,
    i64,
    i64,
    i64,
    crate::spatial::LayerKind,
    usize,
    usize,
    usize,
    crate::geojson::JsonModel,
) {
    (
        e.min_x,
        e.min_y,
        e.max_x,
        e.max_y,
        e.kind,
        e.layer_index,
        e.feature_index,
        e.segment_index,
        crate::geojson::jm(e.meta),
    )
}

/// The entry a point feature contributes: its screen position
/// expanded by the hit tolerance on each side.
pub open spec fn point_entry_spec(p: PointFeature, vp: Viewport, l: int, i: int) -> (
    i64,
    i64,
    i64,
    i64,
    crate::spatial::LayerKind,
    usize,
    usize,
    usize,
    crate::geojson::JsonModel,
) {
    let sx = index_coord_spec(screen_x_spec(vp, p.pos.lng as int));
    let sy = index_coord_spec(screen_y_spec(vp, p.pos.lat as int));
    (
        (sx - 3000) as i64,
        (sy - 3000) as i64,
        (sx + 3000) as i64,
        (sy + 3000) as i64,
        crate::spatial::LayerKind::Point,
        l as usize,
        i as usize,
        0usize,
        crate::geojson::jm(p.meta),
    )
}

/// The entries of one point layer.
pub open spec fn point_layer_entries_spec(pts: Seq<PointFeature>, vp: Viewport, l: int)
    -> Seq<(
    i64,
    i64,
    i64,
    i64,
    crate::spatial::LayerKind,
    usize,
    usize,
    usize,
    crate::geojson::JsonModel,
)>
    decreases pts.len(),
{
    if pts.len() == 0 {
        Seq::empty()
    } else {
        point_layer_entries_spec(pts.drop_last(), vp, l).push(
            point_entry_spec(pts.last(), vp, l, pts.len() - 1),
        )
    }
}

/// The entries of all visible point layers.
pub open spec fn point_layers_entries_spec(layers: Seq<PointLayer>, vp: Viewport) -> Seq<
    (
    i64,
    i64,
    i64,
    i64,
    crate::spatial::LayerKind,
    usize,
    usize,
    usize,
    crate::geojson::JsonModel,
)>
    decreases layers.len(),
{
    if layers.len() == 0 {
        Seq::empty()
    } else {
        point_layers_entries_spec(layers.drop_last(), vp) + (if layers.last().visible {
            point_layer_entries_spec(layers.last().points@, vp, layers.len() - 1)
        } else {
            Seq::empty()
        })
    }
}

/// The entry one line segment contributes: the box of its two screen
/// endpoints expanded by the hit tolerance.
pub open spec fn segment_entry_spec(
    a: LatLng,
    b: LatLng,
    vp: Viewport,
    l: int,
    f: int,
    s: int,
    m: crate::geojson::JsonModel,
) -> (
    i64,
    i64,
    i64,
    i64,
    crate::spatial::LayerKind,
    usize,
    usize,
    usize,
    crate::geojson::JsonModel,
) {
    let ax = index_coord_spec(screen_x_spec(vp, a.lng as int));
    let ay = index_coord_spec(screen_y_spec(vp, a.lat as int));
    let bx = index_coord_spec(screen_x_spec(vp, b.lng as int));
    let by = index_coord_spec(screen_y_spec(vp, b.lat as int));
    let mnx = if ax <= bx { ax } else { bx };
    let mxx = if ax <= bx { bx } else { ax };
    let mny = if ay <= by { ay } else { by };
    let mxy = if ay <= by { by } else { ay };
    (
        (mnx - 3000) as i64,
        (mny - 3000) as i64,
        (mxx + 3000) as i64,
        (mxy + 3000) as i64,
        crate::spatial::LayerKind::Line,
        l as usize,
        f as usize,
        s as usize,
        m,
    )
}

/// The entries of one line feature: one per consecutive segment.
pub open spec fn line_feature_entries_spec(
    ps: Seq<LatLng>,
    vp: Viewport,
    l: int,
    f: int,
    m: crate::geojson::JsonModel,
) -> Seq<(
    i64,
    i64,
    i64,
    i64,
    crate::spatial::LayerKind,
    usize,
    usize,
    usize,
    crate::geojson::JsonModel,
)>
    decreases ps.len(),
{
    if ps.len() < 2 {
        Seq::empty()
    } else {
        line_feature_entries_spec(ps.drop_last(), vp, l, f, m).push(
            segment_entry_spec(
                ps[ps.len() - 2],
                ps[ps.len() - 1],
                vp,
                l,
                f,
                ps.len() - 2,
                m,
            ),
        )
    }
}

/// The entries of one line layer.
pub open spec fn line_layer_entries_spec(lines: Seq<LineFeature>, vp: Viewport, l: int)
    -> Seq<(
    i64,
    i64,
    i64,
    i64,
    crate::spatial::LayerKind,
    usize,
    usize,
    usize,
    crate::geojson::JsonModel,
)>
    decreases lines.len(),
{
    if lines.len() == 0 {
        Seq::empty()
    } else {
        line_layer_entries_spec(lines.drop_last(), vp, l) + line_feature_entries_spec(
            lines.last().points@,
            vp,
            l,
            lines.len() - 1,
            crate::geojson::jm(lines.last().meta),
        )
    }
}

/// The entries of all visible line layers.
pub open spec fn line_layers_entries_spec(layers: Seq<LineLayer>, vp: Viewport) -> Seq<
    (
    i64,
    i64,
    i64,
    i64,
    crate::spatial::LayerKind,
    usize,
    usize,
    usize,
    crate::geojson::JsonModel,
)>
    decreases layers.len(),
{
    if layers.len() == 0 {
        Seq::empty()
    } else {
        line_layers_entries_spec(layers.drop_last(), vp) + (if layers.last().visible {
            line_layer_entries_spec(layers.last().lines@, vp, layers.len() - 1)
        } else {
            Seq::empty()
        })
    }
}

impl RustyleafMap {
    /// Rebuild the spatial index from the current viewport and the
    /// visible point and line layers: one tolerance box per point,
    /// one per line segment, point layers first, all in layer order.
    /// The index is rebuilt whole, never patched, since screen boxes
    /// are a function of the viewport.
    #[verifier::rlimit(100)]
    pub fn update_spatial_index(&mut self) -> (complete: bool)
        requires
            old(self).wf(),
        ensures
            final(self).wf(),
            complete ==> final(self).spatial.entries@.map_values(
                |e: crate::spatial::SpatialEntry| se_view(e),
            ) == point_layers_entries_spec(old(self).point_layers@, old(self).viewport)
                + line_layers_entries_spec(old(self).line_layers@, old(self).viewport),
            !complete ==> final(self).spatial.entries@.len() >= 4000000000,
            final(self).viewport == old(self).viewport,
            final(self).momentum == old(self).momentum,
            final(self).tile_store == old(self).tile_store,
            final(self).point_layers == old(self).point_layers,
            final(self).line_layers == old(self).line_layers,
            final(self).polygon_layers == old(self).polygon_layers,
            final(self).geojson_layers == old(self).geojson_layers,
            final(self).tile_layer == old(self).tile_layer,
            final(self).events == old(self).events,
    {
        let vp = self.viewport;
        let mut complete: bool = true;
        let mut idx = crate::spatial::SpatialIndex::new();
        proof {
            assert(idx.entries@.map_values(|e: crate::spatial::SpatialEntry| se_view(e))
                =~= Seq::<(
    i64,
    i64,
    i64,
    i64,
    crate::spatial::LayerKind,
    usize,
    usize,
    usize,
    crate::geojson::JsonModel,
)>::empty());
        }
        let mut l: usize = 0;
        while l < self.point_layers.len()
            invariant
                l <= self.point_layers@.len(),
                self == old(self),
                self.wf(),
                vp == self.viewport,
                idx.wf(),
                !complete ==> idx.entries@.len() >= 4000000000,
                complete ==> idx.entries@.map_values(
                    |e: crate::spatial::SpatialEntry| se_view(e),
                ) == point_layers_entries_spec(self.point_layers@.take(l as int), vp),
            decreases self.point_layers@.len() - l,
        {
            let ghost lt = self.point_layers@.take(l as int + 1);
            proof {
                assert(lt.drop_last() =~= self.point_layers@.take(l as int));
                assert(lt.last() == self.point_layers@[l as int]);
            }
            let lay = vstd::std_specs::vec::vec_index(&self.point_layers, l);
            if lay.visible {
                let mut i: usize = 0;
                while i < lay.points.len()
                    invariant
                        i <= lay.points@.len(),
                        self == old(self),
                        self.wf(),
                        vp == self.viewport,
                        l < self.point_layers@.len(),
                        *lay == self.point_layers@[l as int],
                        lay.visible,
                        idx.wf(),
                        !complete ==> idx.entries@.len() >= 4000000000,
                        complete ==> idx.entries@.map_values(
                            |e: crate::spatial::SpatialEntry| se_view(e),
                        ) == point_layers_entries_spec(
                            self.point_layers@.take(l as int),
                            vp,
                        ) + point_layer_entries_spec(lay.points@.take(i as int), vp, l as int),
                    decreases lay.points@.len() - i,
                {
                    let p = vstd::std_specs::vec::vec_index(&lay.points, i);
                    proof {
                        assert(pos_wf(self.point_layers@[l as int].points@[i as int].pos));
                        assert(lay.points@.take(i as int + 1).drop_last() =~= lay.points@.take(
                            i as int,
                        ));
                        assert(lay.points@.take(i as int + 1).last() == lay.points@[i as int]);
                    }
                    let (sxu, syu) = vp.project(p.pos.lat, p.pos.lng);
                    let sx = index_coord(sxu);
                    let sy = index_coord(syu);
                    let e = crate::spatial::SpatialEntry {
                        min_x: sx - 3000,
                        min_y: sy - 3000,
                        max_x: sx + 3000,
                        max_y: sy + 3000,
                        kind: crate::spatial::LayerKind::Point,
                        layer_index: l,
                        feature_index: i,
                        segment_index: 0,
                        meta: crate::geojson::clone_json(&p.meta),
                    };
                    if idx.entries.len() < 4000000000 {
                        let ghost before = idx.entries@;
                        idx.push_entry(e);
                        proof {
                            assert(idx.entries@.map_values(
                                |e2: crate::spatial::SpatialEntry| se_view(e2),
                            ) =~= before.map_values(
                                |e2: crate::spatial::SpatialEntry| se_view(e2),
                            ).push(se_view(idx.entries@.last())));
                            assert(se_view(idx.entries@.last()) == point_entry_spec(
                                lay.points@[i as int],
                                vp,
                                l as int,
                                i as int,
                            ));
                        }
                    } else {
                        complete = false;
                    }
                    i = i + 1;
                }
                proof {
                    assert(lay.points@.take(lay.points@.len() as int) =~= lay.points@);
                }
            }
            proof {
                if complete {
                    assert(idx.entries@.map_values(
                        |e: crate::spatial::SpatialEntry| se_view(e),
                    ) =~= point_layers_entries_spec(lt, vp));
                }
            }
            l = l + 1;
        }
        proof {
            assert(self.point_layers@.take(self.point_layers@.len() as int)
                =~= self.point_layers@);
        }
        let ghost pts_done = point_layers_entries_spec(self.point_layers@, vp);
        let mut l2: usize = 0;
        while l2 < self.line_layers.len()
            invariant
                l2 <= self.line_layers@.len(),
                self == old(self),
                self.wf(),
                vp == self.viewport,
                idx.wf(),
                !complete ==> idx.entries@.len() >= 4000000000,
                pts_done == point_layers_entries_spec(self.point_layers@, vp),
                complete ==> idx.entries@.map_values(
                    |e: crate::spatial::SpatialEntry| se_view(e),
                ) == pts_done + line_layers_entries_spec(
                    self.line_layers@.take(l2 as int),
                    vp,
                ),
            decreases self.line_layers@.len() - l2,
        {
            let ghost lt = self.line_layers@.take(l2 as int + 1);
            proof {
                assert(lt.drop_last() =~= self.line_layers@.take(l2 as int));
                assert(lt.last() == self.line_layers@[l2 as int]);
            }
            let lay = vstd::std_specs::vec::vec_index(&self.line_layers, l2);
            if lay.visible {
                let mut f: usize = 0;
                while f < lay.lines.len()
                    invariant
                        f <= lay.lines@.len(),
                        self == old(self),
                        self.wf(),
                        vp == self.viewport,
                        l2 < self.line_layers@.len(),
                        *lay == self.line_layers@[l2 as int],
                        lay.visible,
                        idx.wf(),
                        !complete ==> idx.entries@.len() >= 4000000000,
                        pts_done == point_layers_entries_spec(self.point_layers@, vp),
                        complete ==> idx.entries@.map_values(
                            |e: crate::spatial::SpatialEntry| se_view(e),
                        ) == pts_done + line_layers_entries_spec(
                            self.line_layers@.take(l2 as int),
                            vp,
                        ) + line_layer_entries_spec(lay.lines@.take(f as int), vp, l2 as int),
                    decreases lay.lines@.len() - f,
                {
                    let lf = vstd::std_specs::vec::vec_index(&lay.lines, f);
                    proof {
                        assert(ring_wf(self.line_layers@[l2 as int].lines@[f as int].points@));
                        assert(lay.lines@.take(f as int + 1).drop_last() =~= lay.lines@.take(
                            f as int,
                        ));
                        assert(lay.lines@.take(f as int + 1).last() == lay.lines@[f as int]);
                    }
                    if lf.points.len() >= 2 {
                        let mut s: usize = 0;
                        while s < lf.points.len() - 1
                            invariant
                                lf.points@.len() >= 2,
                                s <= lf.points@.len() - 1,
                                self == old(self),
                                vp == self.viewport,
                                self.wf(),
                                l2 < self.line_layers@.len(),
                                f < self.line_layers@[l2 as int].lines@.len(),
                                *lf == self.line_layers@[l2 as int].lines@[f as int],
                                ring_wf(lf.points@),
                                idx.wf(),
                                !complete ==> idx.entries@.len() >= 4000000000,
                                pts_done == point_layers_entries_spec(
                                    self.point_layers@,
                                    vp,
                                ),
                                complete ==> idx.entries@.map_values(
                                    |e: crate::spatial::SpatialEntry| se_view(e),
                                ) == pts_done + line_layers_entries_spec(
                                    self.line_layers@.take(l2 as int),
                                    vp,
                                ) + line_layer_entries_spec(
                                    lay.lines@.take(f as int),
                                    vp,
                                    l2 as int,
                                ) + line_feature_entries_spec(
                                    lf.points@.take(s as int + 1),
                                    vp,
                                    l2 as int,
                                    f as int,
                                    crate::geojson::jm(lf.meta),
                                ),
                            decreases lf.points@.len() - s,
                        {
                            let a = lf.points[s];
                            let b = lf.points[s + 1];
                            proof {
                                assert(pos_wf(lf.points@[s as int]));
                                assert(pos_wf(lf.points@[s + 1]));
                                assert(lf.points@.take(s as int + 2).drop_last()
                                    =~= lf.points@.take(s as int + 1));
                                assert(lf.points@.take(s as int + 2)[s as int] == lf.points@[s as int]);
                                assert(lf.points@.take(s as int + 2)[s + 1] == lf.points@[s + 1]);
                            }
                            let (axu, ayu) = vp.project(a.lat, a.lng);
                            let (bxu, byu) = vp.project(b.lat, b.lng);
                            let ax = index_coord(axu);
                            let ay = index_coord(ayu);
                            let bx = index_coord(bxu);
                            let by = index_coord(byu);
                            let mnx: i64 = if ax <= bx { ax } else { bx };
                            let mxx: i64 = if ax <= bx { bx } else { ax };
                            let mny: i64 = if ay <= by { ay } else { by };
                            let mxy: i64 = if ay <= by { by } else { ay };
                            let e = crate::spatial::SpatialEntry {
                                min_x: mnx - 3000,
                                min_y: mny - 3000,
                                max_x: mxx + 3000,
                                max_y: mxy + 3000,
                                kind: crate::spatial::LayerKind::Line,
                                layer_index: l2,
                                feature_index: f,
                                segment_index: s,
                                meta: crate::geojson::clone_json(&lf.meta),
                            };
                            if idx.entries.len() < 4000000000 {
                                let ghost before = idx.entries@;
                                idx.push_entry(e);
                                proof {
                                    assert(idx.entries@.map_values(
                                        |e2: crate::spatial::SpatialEntry| se_view(e2),
                                    ) =~= before.map_values(
                                        |e2: crate::spatial::SpatialEntry| se_view(e2),
                                    ).push(se_view(idx.entries@.last())));
                                    assert(se_view(idx.entries@.last())
                                        == segment_entry_spec(
                                        lf.points@[s as int],
                                        lf.points@[s + 1],
                                        vp,
                                        l2 as int,
                                        f as int,
                                        s as int,
                                        crate::geojson::jm(lf.meta),
                                    ));
                                }
                            } else {
                                complete = false;
                            }
                            s = s + 1;
                        }
                        proof {
                            assert(lf.points@.take(lf.points@.len() as int) =~= lf.points@);
                        }
                    } else {
                        proof {
                            assert(line_feature_entries_spec(lf.points@, vp, l2 as int,
                                f as int, crate::geojson::jm(lf.meta)) =~= Seq::<
                                (
    i64,
    i64,
    i64,
    i64,
    crate::spatial::LayerKind,
    usize,
    usize,
    usize,
    crate::geojson::JsonModel,
)>::empty());
                        }
                    }
                    f = f + 1;
                }
                proof {
                    assert(lay.lines@.take(lay.lines@.len() as int) =~= lay.lines@);
                }
            }
            proof {
                if complete {
                    assert(idx.entries@.map_values(
                        |e: crate::spatial::SpatialEntry| se_view(e),
                    ) =~= pts_done + line_layers_entries_spec(lt, vp));
                }
            }
            l2 = l2 + 1;
        }
        proof {
            assert(self.line_layers@.take(self.line_layers@.len() as int)
                =~= self.line_layers@);
        }
        self.spatial = idx;
        complete
    }

    /// Hit-test a screen position (micropixels): the first indexed
    /// entry, in insertion order, whose tolerance box intersects the
    /// tolerance box around the position (both in the index's
    /// window-clamped millipixel coordinates); None when nothing is
    /// there.
    pub fn hit_test(&self, x_upx: i64, y_upx: i64) -> (r: Option<usize>)
        requires
            self.wf(),
            -1000000000000000 <= x_upx <= 1000000000000000,
            -1000000000000000 <= y_upx <= 1000000000000000,
        ensures
            r is Some ==> {
                let i = r.unwrap() as int;
                &&& 0 <= i < self.spatial.entries@.len()
                &&& crate::spatial::entry_hits(
                    self.spatial.entries@[i],
                    index_coord_spec(x_upx as int) - 3000,
                    index_coord_spec(y_upx as int) - 3000,
                    index_coord_spec(x_upx as int) + 3000,
                    index_coord_spec(y_upx as int) + 3000,
                )
                &&& forall|j: int|
                    0 <= j < i ==> !crate::spatial::entry_hits(
                        #[trigger] self.spatial.entries@[j],
                        index_coord_spec(x_upx as int) - 3000,
                        index_coord_spec(y_upx as int) - 3000,
                        index_coord_spec(x_upx as int) + 3000,
                        index_coord_spec(y_upx as int) + 3000,
                    )
            },
            r is None ==> forall|j: int|
                0 <= j < self.spatial.entries@.len() ==> !crate::spatial::entry_hits(
                    #[trigger] self.spatial.entries@[j],
                    index_coord_spec(x_upx as int) - 3000,
                    index_coord_spec(y_upx as int) - 3000,
                    index_coord_spec(x_upx as int) + 3000,
                    index_coord_spec(y_upx as int) + 3000,
                ),
    {
        let qx = index_coord(x_upx);
        let qy = index_coord(y_upx);
        self.spatial.query_first(qx - 3000, qy - 3000, qx + 3000, qy + 3000)
    }

    /// Whether momentum panning is active.
    pub fn has_momentum(&self) -> (r: bool)
        ensures
            r == self.momentum.active,
    {
        self.momentum.active
    }

    /// Press at a screen position: starts drag tracking and cancels
    /// any running momentum.
    pub fn handle_mouse_down(&mut self, x_upx: i64, y_upx: i64, now_ms: u64)
        requires
            old(self).wf(),
            -10000000000 <= x_upx <= 10000000000,
            -10000000000 <= y_upx <= 10000000000,
        ensures
            final(self).wf(),
            final(self).momentum.button_down,
            !final(self).momentum.active,
            !final(self).momentum.dragging,
            final(self).momentum.vx_upps == 0,
            final(self).momentum.vy_upps == 0,
            final(self).momentum.last_x_upx == x_upx,
            final(self).momentum.last_y_upx == y_upx,
            final(self).momentum.last_time_ms == now_ms,
            final(self).viewport == old(self).viewport,
            final(self).events == old(self).events,
            final(self).tile_store == old(self).tile_store,
    {
        self.momentum.on_mouse_down(x_upx, y_upx, now_ms);
    }

    /// Pointer motion: while dragging, pans by the motion delta,
    /// resmooths the drag velocity, settles tiles and records a move
    /// notification. Returns the tile requests to issue.
    pub fn on_mouse_move(&mut self, x_upx: i64, y_upx: i64, now_ms: u64) -> (reqs: Vec<
        TileAddress>)
        requires
            old(self).wf(),
            -10000000000 <= x_upx <= 10000000000,
            -10000000000 <= y_upx <= 10000000000,
            old(self).momentum.last_time_ms <= now_ms,
        ensures
            final(self).wf(),
            !old(self).momentum.button_down ==> final(self).viewport == old(self).viewport
                && reqs@.len() == 0,
            old(self).momentum.button_down ==> {
                let dx = x_upx as int - old(self).momentum.last_x_upx as int;
                let dy = y_upx as int - old(self).momentum.last_y_upx as int;
                &&& final(self).viewport.center_lng as int == pan_lng_spec(
                    old(self).viewport,
                    dx,
                )
                &&& (dy == 0 ==> final(self).viewport.center_lat as int
                    == crate::geo::clamp_lat_spec(old(self).viewport.center_lat as int))
                &&& final(self).momentum.dragging
                &&& final(self).momentum.last_x_upx == x_upx
                &&& final(self).momentum.last_y_upx == y_upx
            },
    {
        let delta = self.momentum.on_mouse_move(x_upx, y_upx, now_ms);
        match delta {
            Some((dx, dy)) => {
                self.viewport.pan(dx, dy);
                let reqs = self.settle_tiles();
                self.push_event(EventKind::Move);
                reqs
            },
            None => Vec::new(),
        }
    }

    /// Release: ends the drag; if the release speed beats the start
    /// threshold, momentum becomes active immediately. A drag end
    /// records its notification. Returns whether momentum started.
    pub fn handle_mouse_up(&mut self) -> (started: bool)
        requires
            old(self).wf(),
        ensures
            final(self).wf(),
            old(self).momentum.button_down ==> started == (old(self).momentum.dragging && old(self).momentum.speed_sq() > crate::momentum::START_SQ as int),
            final(self).momentum.active == (started || (!old(self).momentum.button_down && old(self).momentum.active)),
            !old(self).momentum.button_down ==> final(self).momentum == old(self).momentum
                && !started,
            old(self).momentum.button_down ==> !final(self).momentum.button_down && !final(self).momentum.dragging,
            old(self).momentum.button_down && started ==> final(self).momentum.vx_upps
                == old(self).momentum.vx_upps && final(self).momentum.vy_upps == old(self).momentum.vy_upps,
            old(self).momentum.button_down && !started ==> final(self).momentum.vx_upps
                == 0 && final(self).momentum.vy_upps == 0,
            old(self).momentum.button_down && old(self).momentum.dragging ==> final(self).events@ == old(self).events@.push(
                EventRecord {
                    kind: EventKind::DragEnd,
                    center_lat: old(self).viewport.center_lat,
                    center_lng: old(self).viewport.center_lng,
                    zoom_milli: old(self).viewport.zoom_milli,
                    bounds: bounds_at_zoom_spec(
                        old(self).viewport.center_lat as int,
                        old(self).viewport.center_lng as int,
                        rounded_zoom_spec(old(self).viewport.zoom_milli as int),
                        old(self).viewport.width_px as int,
                        old(self).viewport.height_px as int,
                    ),
                },
            ),
            !(old(self).momentum.button_down && old(self).momentum.dragging) ==> final(self).events == old(self).events,
            final(self).viewport == old(self).viewport,
            final(self).tile_store == old(self).tile_store,
    {
        let was_dragging = self.momentum.dragging && self.momentum.button_down;
        let started = self.momentum.on_mouse_up();
        if was_dragging {
            self.push_event(EventKind::DragEnd);
        }
        started
    }

    /// One animation tick: while momentum is active, decay the
    /// velocity and pan by the tick's displacement (when it is at
    /// least a twentieth of a pixel, as a jitter cutoff), settle
    /// tiles, and rebuild the spatial index so that hit-testing and
    /// rendering observe a consistent snapshot. The momentum speed
    /// never grows, and momentum deactivates once it decays below
    /// the stop threshold.
    pub fn tick_frame(&mut self, dt_ms: u64) -> (reqs: Vec<TileAddress>)
        requires
            old(self).wf(),
        ensures
            final(self).wf(),
            final(self).momentum.speed_sq() <= old(self).momentum.speed_sq(),
            old(self).momentum.active ==> final(self).momentum.active == (final(self).momentum.speed_sq() >= crate::momentum::STOP_SQ as int),
            !old(self).momentum.active ==> final(self).momentum == old(self).momentum
                && final(self).viewport == old(self).viewport && final(self).events == old(self).events,
            old(self).momentum.active ==> {
                let dx = crate::momentum::tick_dx_spec(old(self).momentum, dt_ms as int);
                let dy = crate::momentum::tick_dy_spec(old(self).momentum, dt_ms as int);
                let moved = dx > 50000 || dx < -50000 || dy > 50000 || dy < -50000;
                &&& (moved ==> final(self).viewport.center_lng as int == pan_lng_spec(
                    old(self).viewport,
                    dx,
                ))
                &&& (moved && dy == 0 ==> final(self).viewport.center_lat as int
                    == crate::geo::clamp_lat_spec(old(self).viewport.center_lat as int))
                &&& (moved && dy != 0 ==> final(self).viewport.center_lat as int
                    == pan_lat_spec(old(self).viewport, dy))
                &&& (!moved ==> final(self).viewport == old(self).viewport && final(self).events == old(self).events)
            },
            final(self).viewport.zoom_milli == old(self).viewport.zoom_milli,
            final(self).point_layers == old(self).point_layers,
            final(self).line_layers == old(self).line_layers,
            final(self).tile_store.tiles@.len() <= final(self).tile_store.capacity,
            forall|i: int|
                0 <= i < final(self).tile_store.tiles@.len() ==> (#[trigger] final(self).tile_store.tiles@[i]).address.z as int == rounded_zoom_spec(
                    final(self).viewport.zoom_milli as int,
                ),
            final(self).spatial.entries@.len() < 4000000000 ==> final(self).spatial.entries@.map_values(
                |e: crate::spatial::SpatialEntry| se_view(e),
            ) == point_layers_entries_spec(final(self).point_layers@, final(self).viewport)
                + line_layers_entries_spec(final(self).line_layers@, final(self).viewport),
    {
        let mut reqs: Vec<TileAddress> = Vec::new();
        if self.momentum.active {
            let (dx, dy) = self.momentum.tick(dt_ms);
            if dx > 50000 || dx < -50000 || dy > 50000 || dy < -50000 {
                self.viewport.pan(dx, dy);
                let mut r2 = self.settle_tiles();
                reqs.append(&mut r2);
                self.push_event(EventKind::Move);
            } else {
                let zr = self.viewport.rounded_zoom();
                self.tile_store.evict(zr);
            }
        } else {
            let zr = self.viewport.rounded_zoom();
            self.tile_store.evict(zr);
        }
        let _ = self.update_spatial_index();
        reqs
    }
}


impl RustyleafMap {
    /// Raise or lower the minimum zoom (clamped to the supported
    /// range and at most the maximum); the current zoom is re-clamped.
    pub fn set_min_zoom(&mut self, min_zoom_milli: u32)
        requires
            old(self).wf(),
        ensures
            final(self).wf(),
            final(self).viewport.min_zoom_milli as int == (if min_zoom_milli < 1000 {
                1000int
            } else if min_zoom_milli > old(self).viewport.max_zoom_milli {
                old(self).viewport.max_zoom_milli as int
            } else {
                min_zoom_milli as int
            }),
            final(self).viewport.zoom_milli == (if old(self).viewport.zoom_milli < final(self).viewport.min_zoom_milli {
                final(self).viewport.min_zoom_milli
            } else {
                old(self).viewport.zoom_milli
            }),
            final(self).viewport.max_zoom_milli == old(self).viewport.max_zoom_milli,
            final(self).viewport.center_lat == old(self).viewport.center_lat,
            final(self).viewport.center_lng == old(self).viewport.center_lng,
            final(self).events == old(self).events,
    {
        let mz: u32 = if min_zoom_milli < 1000 {
            1000
        } else if min_zoom_milli > self.viewport.max_zoom_milli {
            self.viewport.max_zoom_milli
        } else {
            min_zoom_milli
        };
        self.viewport.min_zoom_milli = mz;
        if self.viewport.zoom_milli < mz {
            self.viewport.zoom_milli = mz;
        }
    }

    /// Raise or lower the maximum zoom (clamped to the supported
    /// range and at least the minimum); the current zoom is
    /// re-clamped.
    pub fn set_max_zoom(&mut self, max_zoom_milli: u32)
        requires
            old(self).wf(),
        ensures
            final(self).wf(),
            final(self).viewport.max_zoom_milli as int == (if max_zoom_milli > 18000 {
                18000int
            } else if max_zoom_milli < old(self).viewport.min_zoom_milli {
                old(self).viewport.min_zoom_milli as int
            } else {
                max_zoom_milli as int
            }),
            final(self).viewport.zoom_milli == (if old(self).viewport.zoom_milli > final(self).viewport.max_zoom_milli {
                final(self).viewport.max_zoom_milli
            } else {
                old(self).viewport.zoom_milli
            }),
            final(self).viewport.min_zoom_milli == old(self).viewport.min_zoom_milli,
            final(self).viewport.center_lat == old(self).viewport.center_lat,
            final(self).viewport.center_lng == old(self).viewport.center_lng,
            final(self).events == old(self).events,
    {
        let mz: u32 = if max_zoom_milli > 18000 {
            18000
        } else if max_zoom_milli < self.viewport.min_zoom_milli {
            self.viewport.min_zoom_milli
        } else {
            max_zoom_milli
        };
        self.viewport.max_zoom_milli = mz;
        if self.viewport.zoom_milli > mz {
            self.viewport.zoom_milli = mz;
        }
    }

    /// Wheel scrolling: away from the user zooms out, toward the user
    /// zooms in, one clamped level per notch.
    pub fn on_wheel(&mut self, delta_y_upx: i64) -> (reqs: Vec<TileAddress>)
        requires
            old(self).wf(),
        ensures
            final(self).wf(),
            delta_y_upx > 0 ==> final(self).viewport.zoom_milli as int == zoom_clamp_spec(
                old(self).viewport.zoom_milli as int - 1000,
                old(self).viewport.min_zoom_milli as int,
                old(self).viewport.max_zoom_milli as int,
            ),
            delta_y_upx <= 0 ==> final(self).viewport.zoom_milli as int == zoom_clamp_spec(
                old(self).viewport.zoom_milli as int + 1000,
                old(self).viewport.min_zoom_milli as int,
                old(self).viewport.max_zoom_milli as int,
            ),
            final(self).tile_store.tiles@.len() <= final(self).tile_store.capacity,
    {
        if delta_y_upx > 0 {
            self.zoom_out()
        } else {
            self.zoom_in()
        }
    }

    /// The screen position (micropixels) of a coordinate: an alias of
    /// `project` under the name host pages use.
    pub fn screen_xy(&self, lat: i64, lng: i64) -> (p: (i64, i64))
        requires
            self.wf(),
            -180000000 <= lng <= 180000000,
        ensures
            p.0 as int == screen_x_spec(self.viewport, lng as int),
            p.1 as int == screen_y_spec(self.viewport, lat as int),
    {
        self.viewport.project(lat, lng)
    }
}


/// A position clamped into valid ranges, as `clamp_pos` computes it.
pub open spec fn clamp_pos_spec(p: LatLng) -> LatLng {
    LatLng {
        lat: if p.lat < -90000000 {
            -90000000i64
        } else if p.lat > 90000000 {
            90000000i64
        } else {
            p.lat
        },
        lng: if -180000000 <= p.lng <= 180000000 {
            p.lng
        } else {
            (crate::geojson::wrapl_spec(crate::geojson::clamp_big_spec(p.lng as int))) as i64
        },
    }
}

/// The rings a polygon layer stores for a submitted polygon: rings
/// of fewer than three points are dropped, the rest keep their order
/// with every vertex clamped into valid ranges.
pub open spec fn kept_rings_spec(rs: Seq<Vec<LatLng>>) -> Seq<Seq<LatLng>>
    decreases rs.len(),
{
    if rs.len() == 0 {
        Seq::empty()
    } else {
        kept_rings_spec(rs.drop_last()) + (if rs.last()@.len() >= 3 {
            seq![rs.last()@.map_values(|p: LatLng| clamp_pos_spec(p))]
        } else {
            Seq::empty()
        })
    }
}

/// Whether a corner lands on screen, with the draw margin of fifty
/// pixels on every side.
pub open spec fn corner_on_screen_spec(p: LatLng, vp: Viewport) -> bool {
    let c = clamp_pos_spec(p);
    let sx = screen_x_spec(vp, c.lng as int);
    let sy = screen_y_spec(vp, c.lat as int);
    &&& -50000000 <= sx <= vp.width_px as int * 1000000 + 50000000
    &&& -50000000 <= sy <= vp.height_px as int * 1000000 + 50000000
}

/// Whether any corner of a triangle lands on screen (with margin).
pub open spec fn tri_on_screen_spec(t: crate::triangulate::Triangle, vp: Viewport) -> bool {
    corner_on_screen_spec(t.a, vp) || corner_on_screen_spec(t.b, vp) || corner_on_screen_spec(
        t.c,
        vp,
    )
}

/// The subsequence of triangles with a corner on screen.
pub open spec fn culled_spec(ts: Seq<crate::triangulate::Triangle>, vp: Viewport) -> Seq<
    crate::triangulate::Triangle,
>
    decreases ts.len(),
{
    if ts.len() == 0 {
        Seq::empty()
    } else {
        culled_spec(ts.drop_last(), vp) + (if tri_on_screen_spec(ts.last(), vp) {
            seq![ts.last()]
        } else {
            Seq::empty()
        })
    }
}

/// Whether a corner lands on screen, executably.
fn corner_on_screen(p: LatLng, vp: &Viewport) -> (r: bool)
    requires
        vp.wf(),
    ensures
        r == corner_on_screen_spec(p, *vp),
{
    let c = clamp_pos(p);
    let (sx, sy) = vp.project(c.lat, c.lng);
    let wmax: i64 = (vp.width_px as i64) * 1000000 + 50000000;
    let hmax: i64 = (vp.height_px as i64) * 1000000 + 50000000;
    -50000000 <= sx && sx <= wmax && -50000000 <= sy && sy <= hmax
}

impl RustyleafMap {
    /// Cull a cached triangle list to the current view: exactly the
    /// triangles with at least one corner on screen (within the draw
    /// margin) survive, in order. Screen positions are a function of
    /// the viewport, so this runs at draw time on the
    /// geographic-space cache.
    pub fn cull_triangles(&self, tris: &Vec<crate::triangulate::Triangle>) -> (r: Vec<
        crate::triangulate::Triangle>)
        requires
            self.wf(),
        ensures
            r@ == culled_spec(tris@, self.viewport),
    {
        let vp = self.viewport;
        let mut out: Vec<crate::triangulate::Triangle> = Vec::new();
        let mut i: usize = 0;
        while i < tris.len()
            invariant
                i <= tris@.len(),
                vp == self.viewport,
                self.wf(),
                out@ == culled_spec(tris@.take(i as int), vp),
            decreases tris@.len() - i,
        {
            let t = tris[i];
            proof {
                assert(tris@.take(i as int + 1).drop_last() =~= tris@.take(i as int));
                assert(tris@.take(i as int + 1).last() == tris@[i as int]);
            }
            if corner_on_screen(t.a, &vp) || corner_on_screen(t.b, &vp) || corner_on_screen(
                t.c,
                &vp,
            ) {
                out.push(t);
                proof {
                    assert(out@ =~= culled_spec(tris@.take(i as int + 1), vp));
                }
            }
            i = i + 1;
        }
        proof {
            assert(tris@.take(tris@.len() as int) =~= tris@);
        }
        out
    }
}

} // verus!





