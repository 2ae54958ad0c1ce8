//! Viewport state: center coordinate, fractional zoom and pixel size,
//! with pan / zoom / fit-bounds operations over the fixed-point
//! projection of `geo`.

use vstd::prelude::*;
use crate::geo::clamp_lat90;
use crate::geo::clamp_lat_spec;
use crate::geo::clamp_lat90_spec;
use crate::geo::wrap_lng;
use crate::geo::wrap_world_x;
use crate::geo::lng_to_world_x;
use crate::geo::lng_to_world_x_spec;
use crate::geo::world_x_to_lng;
use crate::geo::world_x_to_lng_spec;
use crate::geo::lat_to_world_y;
use crate::geo::lat_to_world_y_spec;
use crate::geo::world_y_to_lat;
use crate::geo::world_y_to_lat_spec;
use crate::geo::world_span_upx;
use crate::geo::world_span_spec;
use crate::error::MapError;
use crate::geo::world_px_spec;
use crate::geo::lemma_lng_round_trip;
use vstd::arithmetic::div_mod::lemma_div_is_ordered;
use vstd::arithmetic::div_mod::lemma_div_pos_is_pos;
use vstd::arithmetic::div_mod::lemma_small_mod;
use vstd::arithmetic::div_mod::lemma_mod_self_0;
use vstd::arithmetic::div_mod::lemma_basic_div;
use vstd::arithmetic::mul::lemma_mul_inequality;
use vstd::arithmetic::mul::lemma_mul_nonnegative;

verus! {

/// Geographic bounds: south-west and north-east corners in
/// microdegrees.
#[derive(Clone, Copy, Debug, PartialEq, Eq, Structural)]
pub struct Bounds {
    pub sw_lat: i64,
    pub sw_lng: i64,
    pub ne_lat: i64,
    pub ne_lng: i64,
}

/// The viewport: pixel size, center coordinate in microdegrees, and
/// zoom in thousandths of a zoom level.
#[derive(Clone, Copy, Debug, PartialEq, Eq, Structural)]
pub struct Viewport {
    pub width_px: u32,
    pub height_px: u32,
    pub center_lat: i64,
    pub center_lng: i64,
    pub zoom_milli: u32,
    pub min_zoom_milli: u32,
    pub max_zoom_milli: u32,
}

/// A zoom clamped into the configured bounds.
pub open spec fn zoom_clamp_spec(z: int, zmin: int, zmax: int) -> int {
    if z < zmin {
        zmin
    } else if z > zmax {
        zmax
    } else {
        z
    }
}

/// The integer zoom used for the tile grid: the milli-zoom rounded to
/// the nearest whole level.
pub open spec fn rounded_zoom_spec(zm: int) -> int {
    (zm + 500) / 1000
}

/// View bounds, as a function of center, integer zoom and pixel size:
/// the corners half a viewport away from the center, clamped to the
/// world edge.
pub open spec fn bounds_at_zoom_spec(lat: int, lng: int, zr: int, w: int, h: int) -> Bounds {
    let span = world_span_spec(zr);
    let cwx = lng_to_world_x_spec(lng, zr);
    let cwy = lat_to_world_y_spec(lat, zr);
    let x0 = clamp_to_span(cwx - w * 500000, span);
    let x1 = clamp_to_span(cwx + w * 500000, span);
    let y0 = clamp_to_span(cwy - h * 500000, span);
    let y1 = clamp_to_span(cwy + h * 500000, span);
    Bounds {
        sw_lat: world_y_to_lat_spec(y1, zr) as i64,
        sw_lng: world_x_to_lng_spec(x0, zr) as i64,
        ne_lat: world_y_to_lat_spec(y0, zr) as i64,
        ne_lng: world_x_to_lng_spec(x1, zr) as i64,
    }
}

/// A world position clamped into [0, span].
pub open spec fn clamp_to_span(x: int, span: int) -> int {
    if x < 0 {
        0
    } else if x > span {
        span
    } else {
        x
    }
}

/// Whether the view at the given center, integer zoom and pixel size
/// fully contains the target bounds.
pub open spec fn view_contains_spec(
    lat: int,
    lng: int,
    zr: int,
    w: int,
    h: int,
    target: Bounds,
) -> bool {
    let b = bounds_at_zoom_spec(lat, lng, zr, w, h);
    &&& b.sw_lat as int <= target.sw_lat as int
    &&& b.sw_lng as int <= target.sw_lng as int
    &&& b.ne_lat as int >= target.ne_lat as int
    &&& b.ne_lng as int >= target.ne_lng as int
}

/// The zoom chosen by the fit-bounds search: the highest integer zoom
/// in [zlo, z] whose view contains the target, or zlo if none does.
pub open spec fn fit_zoom_spec(
    lat: int,
    lng: int,
    w: int,
    h: int,
    target: Bounds,
    zlo: int,
    z: int,
) -> int
    decreases z - zlo,
{
    if z <= zlo {
        zlo
    } else if view_contains_spec(lat, lng, z, w, h, target) {
        z
    } else {
        fit_zoom_spec(lat, lng, w, h, target, zlo, z - 1)
    }
}

impl Viewport {
    /// Well-formedness: zoom within configured bounds, bounds within
    /// the supported range, center Mercator-valid, pixel size bounded.
    pub open spec fn wf(self) -> bool {
        &&& 1 <= self.width_px <= 8192
        &&& 1 <= self.height_px <= 8192
        &&& 1000 <= self.min_zoom_milli
        &&& self.min_zoom_milli <= self.zoom_milli <= self.max_zoom_milli
        &&& self.max_zoom_milli <= 18000
        &&& -90000000 <= self.center_lat <= 90000000
        &&& -180000000 <= self.center_lng <= 180000000
    }

    /// A fresh viewport over the default view; pixel dimensions are
    /// clamped into the supported range.
    pub fn new(width_px: u32, height_px: u32) -> (vp: Viewport)
        ensures
            vp.wf(),
            vp.center_lat == 48856600,
            vp.center_lng == 2352200,
            vp.zoom_milli == 2000,
            vp.min_zoom_milli == 1000,
            vp.max_zoom_milli == 18000,
            1 <= width_px <= 8192 ==> vp.width_px == width_px,
            1 <= height_px <= 8192 ==> vp.height_px == height_px,
    {
        let w: u32 = if width_px < 1 {
            1
        } else if width_px > 8192 {
            8192
        } else {
            width_px
        };
        let h: u32 = if height_px < 1 {
            1
        } else if height_px > 8192 {
            8192
        } else {
            height_px
        };
        Viewport {
            width_px: w,
            height_px: h,
            center_lat: 48856600,
            center_lng: 2352200,
            zoom_milli: 2000,
            min_zoom_milli: 1000,
            max_zoom_milli: 18000,
        }
    }

    /// The integer zoom of the tile grid.
    pub fn rounded_zoom(&self) -> (zr: u32)
        requires
            self.wf(),
        ensures
            zr as int == rounded_zoom_spec(self.zoom_milli as int),
            1 <= zr <= 18,
    {
        (self.zoom_milli + 500) / 1000
    }

    /// Move the view: the latitude is clamped into the coordinate
    /// domain [-90, 90] (the projection clamps to the Mercator range
    /// only when it projects), the longitude wrapped into
    /// [-180, 180], and the zoom clamped into the configured bounds.
    pub fn set_view(&mut self, lat: i64, lng: i64, zoom_milli: u32)
        requires
            old(self).wf(),
            -9000000000000000000 <= lng <= 9000000000000000000,
        ensures
            final(self).wf(),
            final(self).center_lat as int == clamp_lat90_spec(lat as int),
            -180000000 <= final(self).center_lng <= 180000000,
            exists|k: int|
                final(self).center_lng as int == lng as int + #[trigger] (360000000 * k),
            -180000000 <= lng <= 180000000 ==> final(self).center_lng == lng,
            final(self).zoom_milli as int == zoom_clamp_spec(
                zoom_milli as int,
                old(self).min_zoom_milli as int,
                old(self).max_zoom_milli as int,
            ),
            final(self).width_px == old(self).width_px,
            final(self).height_px == old(self).height_px,
            final(self).min_zoom_milli == old(self).min_zoom_milli,
            final(self).max_zoom_milli == old(self).max_zoom_milli,
    {
        self.center_lat = clamp_lat90(lat);
        self.center_lng = wrap_lng(lng);
        self.zoom_milli = if zoom_milli < self.min_zoom_milli {
            self.min_zoom_milli
        } else if zoom_milli > self.max_zoom_milli {
            self.max_zoom_milli
        } else {
            zoom_milli
        };
    }

    /// Zoom one level in, clamped to the configured maximum.
    pub fn zoom_in(&mut self)
        requires
            old(self).wf(),
        ensures
            final(self).wf(),
            final(self).zoom_milli as int == zoom_clamp_spec(
                old(self).zoom_milli as int + 1000,
                old(self).min_zoom_milli as int,
                old(self).max_zoom_milli as int,
            ),
            final(self).width_px == old(self).width_px,
            final(self).height_px == old(self).height_px,
            final(self).center_lat == old(self).center_lat,
            final(self).center_lng == old(self).center_lng,
            final(self).min_zoom_milli == old(self).min_zoom_milli,
            final(self).max_zoom_milli == old(self).max_zoom_milli,
    {
        let z: u32 = self.zoom_milli + 1000;
        self.zoom_milli = if z > self.max_zoom_milli {
            self.max_zoom_milli
        } else {
            z
        };
    }

    /// Zoom one level out, clamped to the configured minimum.
    pub fn zoom_out(&mut self)
        requires
            old(self).wf(),
        ensures
            final(self).wf(),
            final(self).zoom_milli as int == zoom_clamp_spec(
                old(self).zoom_milli as int - 1000,
                old(self).min_zoom_milli as int,
                old(self).max_zoom_milli as int,
            ),
            final(self).width_px == old(self).width_px,
            final(self).height_px == old(self).height_px,
            final(self).center_lat == old(self).center_lat,
            final(self).center_lng == old(self).center_lng,
            final(self).min_zoom_milli == old(self).min_zoom_milli,
            final(self).max_zoom_milli == old(self).max_zoom_milli,
    {
        let z: u32 = if self.zoom_milli >= 1000 {
            self.zoom_milli - 1000
        } else {
            0
        };
        self.zoom_milli = if z < self.min_zoom_milli {
            self.min_zoom_milli
        } else {
            z
        };
    }
}


/// The longitude after a horizontal pan of `dx` micropixels: the
/// center's world x moves by `-dx`, wrapped around the world.
pub open spec fn pan_lng_spec(vp: Viewport, dx: int) -> int {
    let zr = rounded_zoom_spec(vp.zoom_milli as int);
    let span = world_span_spec(zr);
    let wx = lng_to_world_x_spec(vp.center_lng as int, zr);
    let nx = (wx - dx) % span;
    world_x_to_lng_spec(nx, zr)
}

/// The latitude after a vertical pan of `dy` micropixels: the
/// center's world y moves by `-dy`, clamped to the world edge.
pub open spec fn pan_lat_spec(vp: Viewport, dy: int) -> int {
    let zr = rounded_zoom_spec(vp.zoom_milli as int);
    let span = world_span_spec(zr);
    let wy = lat_to_world_y_spec(vp.center_lat as int, zr);
    let ny = clamp_to_span(wy - dy, span);
    world_y_to_lat_spec(ny, zr)
}

/// A world position clamped into [0, span], executably.
fn clamp_span(x: i64, span: i64) -> (r: i64)
    requires
        0 < span,
    ensures
        r as int == clamp_to_span(x as int, span as int),
        0 <= r <= span,
{
    if x < 0 {
        0
    } else if x > span {
        span
    } else {
        x
    }
}

/// Whether the view at the given center, integer zoom and pixel size
/// fully contains the target bounds.
pub fn view_contains(
    lat: i64,
    lng: i64,
    zr: u32,
    width_px: u32,
    height_px: u32,
    target: Bounds,
) -> (c: bool)
    requires
        1 <= zr <= 18,
        -90000000 <= lat <= 90000000,
        -180000000 <= lng <= 180000000,
        1 <= width_px <= 8192,
        1 <= height_px <= 8192,
    ensures
        c == view_contains_spec(
            lat as int,
            lng as int,
            zr as int,
            width_px as int,
            height_px as int,
            target,
        ),
{
    let b = bounds_at_zoom(lat, lng, zr, width_px, height_px);
    b.sw_lat <= target.sw_lat && b.sw_lng <= target.sw_lng && b.ne_lat >= target.ne_lat
        && b.ne_lng >= target.ne_lng
}

/// The view bounds around a center at an integer zoom and pixel size.
pub fn bounds_at_zoom(lat: i64, lng: i64, zr: u32, width_px: u32, height_px: u32) -> (b:
    Bounds)
    requires
        1 <= zr <= 18,
        -90000000 <= lat <= 90000000,
        -180000000 <= lng <= 180000000,
        1 <= width_px <= 8192,
        1 <= height_px <= 8192,
    ensures
        b == bounds_at_zoom_spec(
            lat as int,
            lng as int,
            zr as int,
            width_px as int,
            height_px as int,
        ),
        -85051128 <= b.sw_lat <= 85051128,
        -85051128 <= b.ne_lat <= 85051128,
        -180000000 <= b.sw_lng <= 180000000,
        -180000000 <= b.ne_lng <= 180000000,
{
    let span: i64 = world_span_upx(zr);
    let cwx: i64 = lng_to_world_x(lng, zr);
    let cwy: i64 = lat_to_world_y(lat, zr);
    let half_w: i64 = (width_px as i64) * 500000;
    let half_h: i64 = (height_px as i64) * 500000;
    let x0: i64 = clamp_span(cwx - half_w, span);
    let x1: i64 = clamp_span(cwx + half_w, span);
    let y0: i64 = clamp_span(cwy - half_h, span);
    let y1: i64 = clamp_span(cwy + half_h, span);
    Bounds {
        sw_lat: world_y_to_lat(y1, zr),
        sw_lng: world_x_to_lng(x0, zr),
        ne_lat: world_y_to_lat(y0, zr),
        ne_lng: world_x_to_lng(x1, zr),
    }
}

/// Which error, if any, the fit-bounds validation raises, checked in
/// the same order as the operation itself.
pub open spec fn fit_bounds_check_spec(
    sw_lat: int,
    sw_lng: int,
    ne_lat: int,
    ne_lng: int,
) -> Result<(), MapError> {
    if !(-90000000 <= sw_lat <= 90000000) {
        Err(MapError::LatOutOfRange)
    } else if !(-180000000 <= sw_lng <= 180000000) {
        Err(MapError::LngOutOfRange)
    } else if !(-90000000 <= ne_lat <= 90000000) {
        Err(MapError::LatOutOfRange)
    } else if !(-180000000 <= ne_lng <= 180000000) {
        Err(MapError::LngOutOfRange)
    } else if ne_lat <= sw_lat || ne_lng <= sw_lng {
        Err(MapError::BoundsNotOrdered)
    } else {
        Ok(())
    }
}

impl Viewport {
    /// Pan by a screen-pixel delta in micropixels. Dragging right
    /// (positive `dx`) moves the center west; dragging down moves it
    /// north. Every pan re-clamps the latitude into the Mercator
    /// range, so a pan with no vertical component keeps the latitude
    /// of any Mercator-valid center exactly.
    pub fn pan(&mut self, dx_upx: i64, dy_upx: i64)
        requires
            old(self).wf(),
            -67108864000000 <= dx_upx <= 67108864000000,
            -67108864000000 <= dy_upx <= 67108864000000,
        ensures
            final(self).wf(),
            -85051128 <= final(self).center_lat <= 85051128,
            final(self).center_lng as int == pan_lng_spec(*old(self), dx_upx as int),
            dy_upx == 0 ==> final(self).center_lat as int == clamp_lat_spec(
                old(self).center_lat as int,
            ),
            dy_upx != 0 ==> final(self).center_lat as int == pan_lat_spec(
                *old(self),
                dy_upx as int,
            ),
            final(self).zoom_milli == old(self).zoom_milli,
            final(self).width_px == old(self).width_px,
            final(self).height_px == old(self).height_px,
            final(self).min_zoom_milli == old(self).min_zoom_milli,
            final(self).max_zoom_milli == old(self).max_zoom_milli,
    {
        let zr: u32 = self.rounded_zoom();
        let span: i64 = world_span_upx(zr);
        let wx: i64 = lng_to_world_x(self.center_lng, zr);
        let nx: i64 = wrap_world_x(wx - dx_upx, span);
        self.center_lng = world_x_to_lng(nx, zr);
        if dy_upx != 0 {
            let wy: i64 = lat_to_world_y(self.center_lat, zr);
            let ny: i64 = clamp_span(wy - dy_upx, span);
            self.center_lat = world_y_to_lat(ny, zr);
        } else {
            self.center_lat = crate::geo::clamp_lat(self.center_lat);
        }
    }

    /// The bounds of the current view.
    pub fn get_bounds(&self) -> (b: Bounds)
        requires
            self.wf(),
        ensures
            b == bounds_at_zoom_spec(
                self.center_lat as int,
                self.center_lng as int,
                rounded_zoom_spec(self.zoom_milli as int),
                self.width_px as int,
                self.height_px as int,
            ),
    {
        let zr: u32 = self.rounded_zoom();
        bounds_at_zoom(self.center_lat, self.center_lng, zr, self.width_px, self.height_px)
    }

    /// Fit the view to the given bounds: validate them, center on
    /// their midpoint, and pick the highest integer zoom whose view
    /// still contains them (the lowest zoom if none does). Rejected
    /// input leaves the viewport unchanged.
    pub fn fit_bounds(&mut self, sw_lat: i64, sw_lng: i64, ne_lat: i64, ne_lng: i64) -> (r:
        Result<(), MapError>)
        requires
            old(self).wf(),
        ensures
            final(self).wf(),
            r == fit_bounds_check_spec(sw_lat as int, sw_lng as int, ne_lat as int,
                ne_lng as int),
            r is Err ==> *final(self) == *old(self),
            r is Ok ==> {
                let clat = sw_lat as int + (ne_lat as int - sw_lat as int) / 2;
                let clng = sw_lng as int + (ne_lng as int - sw_lng as int) / 2;
                let zlo = (old(self).min_zoom_milli as int + 999) / 1000;
                let zhi = old(self).max_zoom_milli as int / 1000;
                let target = Bounds { sw_lat, sw_lng, ne_lat, ne_lng };
                let zfit = fit_zoom_spec(
                    clat,
                    clng,
                    old(self).width_px as int,
                    old(self).height_px as int,
                    target,
                    if zlo <= zhi { zlo } else { zhi },
                    zhi,
                );
                &&& final(self).center_lat as int == clat
                &&& final(self).center_lng as int == clng
                &&& final(self).zoom_milli as int == zoom_clamp_spec(
                    1000 * zfit,
                    old(self).min_zoom_milli as int,
                    old(self).max_zoom_milli as int,
                )
            },
            final(self).width_px == old(self).width_px,
            final(self).height_px == old(self).height_px,
            final(self).min_zoom_milli == old(self).min_zoom_milli,
            final(self).max_zoom_milli == old(self).max_zoom_milli,
    {
        if !(-90000000 <= sw_lat && sw_lat <= 90000000) {
            return Err(MapError::LatOutOfRange);
        }
        if !(-180000000 <= sw_lng && sw_lng <= 180000000) {
            return Err(MapError::LngOutOfRange);
        }
        if !(-90000000 <= ne_lat && ne_lat <= 90000000) {
            return Err(MapError::LatOutOfRange);
        }
        if !(-180000000 <= ne_lng && ne_lng <= 180000000) {
            return Err(MapError::LngOutOfRange);
        }
        if ne_lat <= sw_lat || ne_lng <= sw_lng {
            return Err(MapError::BoundsNotOrdered);
        }
        let clat: i64 = sw_lat + (ne_lat - sw_lat) / 2;
        let clng: i64 = sw_lng + (ne_lng - sw_lng) / 2;
        let target = Bounds { sw_lat, sw_lng, ne_lat, ne_lng };
        let zhi: u32 = self.max_zoom_milli / 1000;
        let zlo_raw: u32 = (self.min_zoom_milli + 999) / 1000;
        let zlo: u32 = if zlo_raw <= zhi {
            zlo_raw
        } else {
            zhi
        };
        let mut z: u32 = zhi;
        while z > zlo && !view_contains(clat, clng, z, self.width_px, self.height_px,
            target)
            invariant
                zlo <= z <= zhi,
                1 <= zlo,
                zhi <= 18,
                self.wf(),
                -90000000 <= clat <= 90000000,
                -180000000 <= clng <= 180000000,
                fit_zoom_spec(
                    clat as int,
                    clng as int,
                    self.width_px as int,
                    self.height_px as int,
                    target,
                    zlo as int,
                    z as int,
                ) == fit_zoom_spec(
                    clat as int,
                    clng as int,
                    self.width_px as int,
                    self.height_px as int,
                    target,
                    zlo as int,
                    zhi as int,
                ),
            decreases z,
        {
            z = z - 1;
        }
        self.set_view(clat, clng, z * 1000);
        Ok(())
    }

    /// Project a coordinate to screen micropixels: its world position
    /// relative to the view's top-left corner.
    pub fn project(&self, lat: i64, lng: i64) -> (p: (i64, i64))
        requires
            self.wf(),
            -180000000 <= lng <= 180000000,
        ensures
            ({
                let zr = rounded_zoom_spec(self.zoom_milli as int);
                &&& p.0 as int == lng_to_world_x_spec(lng as int, zr) - lng_to_world_x_spec(
                    self.center_lng as int,
                    zr,
                ) + self.width_px as int * 500000
                &&& p.1 as int == lat_to_world_y_spec(lat as int, zr) - lat_to_world_y_spec(
                    self.center_lat as int,
                    zr,
                ) + self.height_px as int * 500000
            }),
            -67200000000000 <= p.0 <= 67200000000000,
            -67200000000000 <= p.1 <= 67200000000000,
    {
        let zr: u32 = self.rounded_zoom();
        let wx: i64 = lng_to_world_x(lng, zr);
        let wy: i64 = lat_to_world_y(lat, zr);
        let cwx: i64 = lng_to_world_x(self.center_lng, zr);
        let cwy: i64 = lat_to_world_y(self.center_lat, zr);
        let half_w: i64 = (self.width_px as i64) * 500000;
        let half_h: i64 = (self.height_px as i64) * 500000;
        (wx - cwx + half_w, wy - cwy + half_h)
    }

    /// Unproject a screen position in micropixels back to a
    /// coordinate: the horizontal axis wraps around the world, the
    /// vertical axis clamps to the world edge.
    pub fn unproject(&self, sx: i64, sy: i64) -> (c: (i64, i64))
        requires
            self.wf(),
            -1000000000000000 <= sx <= 1000000000000000,
            -1000000000000000 <= sy <= 1000000000000000,
        ensures
            ({
                let zr = rounded_zoom_spec(self.zoom_milli as int);
                let span = world_span_spec(zr);
                let wx = (sx as int - self.width_px as int * 500000 + lng_to_world_x_spec(
                    self.center_lng as int,
                    zr,
                )) % span;
                let wy = clamp_to_span(
                    sy as int - self.height_px as int * 500000 + lat_to_world_y_spec(
                        self.center_lat as int,
                        zr,
                    ),
                    span,
                );
                &&& c.0 as int == world_y_to_lat_spec(wy, zr)
                &&& c.1 as int == world_x_to_lng_spec(wx, zr)
            }),
            -85051128 <= c.0 <= 85051128,
            -180000000 <= c.1 <= 180000000,
    {
        let zr: u32 = self.rounded_zoom();
        let span: i64 = world_span_upx(zr);
        let cwx: i64 = lng_to_world_x(self.center_lng, zr);
        let cwy: i64 = lat_to_world_y(self.center_lat, zr);
        let half_w: i64 = (self.width_px as i64) * 500000;
        let half_h: i64 = (self.height_px as i64) * 500000;
        let wx: i64 = wrap_world_x(sx - half_w + cwx, span);
        let wy: i64 = clamp_span(sy - half_h + cwy, span);
        let lat: i64 = world_y_to_lat(wy, zr);
        let lng: i64 = world_x_to_lng(wx, zr);
        (lat, lng)
    }
}


/// Panning rightward (a nonnegative horizontal delta) never increases
/// the center longitude, as long as the motion does not wrap past the
/// west edge of the world; the latitude is untouched by such a pan
/// (see `Viewport::pan`).
pub proof fn lemma_pan_west(vp: Viewport, dx: int)
    requires
        vp.wf(),
        0 <= dx,
        lng_to_world_x_spec(
            vp.center_lng as int,
            rounded_zoom_spec(vp.zoom_milli as int),
        ) - dx >= 0,
    ensures
        pan_lng_spec(vp, dx) <= vp.center_lng,
{
    let zr = rounded_zoom_spec(vp.zoom_milli as int);
    assert(1 <= zr <= 18);
    let span = world_span_spec(zr);
    let w = world_px_spec(zr);
    let wx = lng_to_world_x_spec(vp.center_lng as int, zr);
    lemma_mul_nonnegative((vp.center_lng as int) + 180000000, w);
    lemma_mul_inequality((vp.center_lng as int) + 180000000, 360000000, w);
    lemma_div_is_ordered(((vp.center_lng as int) + 180000000) * w, 360000000 * w, 360);
    lemma_div_pos_is_pos(((vp.center_lng as int) + 180000000) * w, 360);
    assert(360000000 * w / 360 == 1000000 * w) by (nonlinear_arith);
    assert(1000000 * w == span);
    assert(0 <= wx <= span);
    let nx = (wx - dx) % span;
    if wx - dx == span {
        lemma_mod_self_0(span);
        assert(nx == 0);
        lemma_div_pos_is_pos(nx * 360, w);
        assert(nx * 360 == 0);
        lemma_basic_div(0, w);
        assert(world_x_to_lng_spec(nx, zr) == -180000000);
    } else {
        lemma_small_mod((wx - dx) as nat, span as nat);
        assert(nx == wx - dx);
        lemma_mul_inequality(nx, wx, 360);
        lemma_div_is_ordered(nx * 360, wx * 360, w);
        lemma_lng_round_trip(vp.center_lng as int, zr);
    }
}

/// The fit-bounds zoom either sits at the search floor or its view
/// contains the target bounds.
pub proof fn lemma_fit_zoom_contains(
    lat: int,
    lng: int,
    w: int,
    h: int,
    target: Bounds,
    zlo: int,
    zhi: int,
)
    requires
        zlo <= zhi,
    ensures
        ({
            let zf = fit_zoom_spec(lat, lng, w, h, target, zlo, zhi);
            zf == zlo || view_contains_spec(lat, lng, zf, w, h, target)
        }),
    decreases zhi - zlo,
{
    if zhi <= zlo {
    } else if view_contains_spec(lat, lng, zhi, w, h, target) {
    } else {
        lemma_fit_zoom_contains(lat, lng, w, h, target, zlo, zhi - 1);
    }
}

/// No integer zoom above the fit-bounds zoom (and within the searched
/// range) has a view that contains the target bounds: the chosen zoom
/// is the highest that fits.
pub proof fn lemma_fit_zoom_is_highest(
    lat: int,
    lng: int,
    w: int,
    h: int,
    target: Bounds,
    zlo: int,
    zhi: int,
    z2: int,
)
    requires
        zlo <= zhi,
        fit_zoom_spec(lat, lng, w, h, target, zlo, zhi) < z2 <= zhi,
    ensures
        !view_contains_spec(lat, lng, z2, w, h, target),
    decreases zhi - zlo,
{
    if view_contains_spec(lat, lng, zhi, w, h, target) {
        assert(fit_zoom_spec(lat, lng, w, h, target, zlo, zhi) == if zhi <= zlo {
            zlo
        } else {
            zhi
        });
        assert(false);
    } else {
        if z2 == zhi {
        } else {
            assert(fit_zoom_spec(lat, lng, w, h, target, zlo, zhi) == fit_zoom_spec(
                lat,
                lng,
                w,
                h,
                target,
                zlo,
                zhi - 1,
            ));
            lemma_fit_zoom_is_highest(lat, lng, w, h, target, zlo, zhi - 1, z2);
        }
    }
}


/// The screen x position (micropixels) of a longitude under a
/// viewport: its world position relative to the view's left edge.
pub open spec fn screen_x_spec(vp: Viewport, lng: int) -> int {
    let zr = rounded_zoom_spec(vp.zoom_milli as int);
    lng_to_world_x_spec(lng, zr) - lng_to_world_x_spec(vp.center_lng as int, zr)
        + vp.width_px as int * 500000
}

/// The screen y position (micropixels) of a latitude under a
/// viewport.
pub open spec fn screen_y_spec(vp: Viewport, lat: int) -> int {
    let zr = rounded_zoom_spec(vp.zoom_milli as int);
    lat_to_world_y_spec(lat, zr) - lat_to_world_y_spec(vp.center_lat as int, zr)
        + vp.height_px as int * 500000
}


/// Projecting a longitude to the screen and unprojecting that screen
/// position loses at most one microdegree, wherever the longitude is
/// strictly inside the world (the east edge wraps to the west edge,
/// an equivalent angle).
pub proof fn lemma_screen_lng_round_trip(vp: Viewport, lng: int)
    requires
        vp.wf(),
        -180000000 <= lng < 180000000,
    ensures
        ({
            let zr = rounded_zoom_spec(vp.zoom_milli as int);
            let span = world_span_spec(zr);
            let sx = screen_x_spec(vp, lng);
            let wx = (sx - vp.width_px as int * 500000 + lng_to_world_x_spec(
                vp.center_lng as int,
                zr,
            )) % span;
            lng - 1 <= world_x_to_lng_spec(wx, zr) <= lng
        }),
{
    let zr = rounded_zoom_spec(vp.zoom_milli as int);
    let w = world_px_spec(zr);
    let span = world_span_spec(zr);
    let wx0 = lng_to_world_x_spec(lng, zr);
    lemma_mul_nonnegative(lng + 180000000, w);
    lemma_div_pos_is_pos((lng + 180000000) * w, 360);
    assert((lng + 180000000) * w < 360000000 * w) by (nonlinear_arith)
        requires
            lng < 180000000,
            w >= 512,
    ;
    lemma_div_is_ordered((lng + 180000000) * w, 360000000 * w - 1, 360);
    assert(360000000 * w - 1 == (1000000 * w - 1) * 360 + 359) by (nonlinear_arith);
    vstd::arithmetic::div_mod::lemma_fundamental_div_mod_converse(
        360000000 * w - 1,
        360,
        1000000 * w - 1,
        359,
    );
    assert(wx0 <= 1000000 * w - 1);
    assert(1000000 * w == span);
    vstd::arithmetic::div_mod::lemma_small_mod(wx0 as nat, span as nat);
    lemma_lng_round_trip(lng, zr);
}

} // verus!




