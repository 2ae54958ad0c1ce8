//! Tile addressing, the tile cache, and the visibility planner:
//! which tiles the current view needs, bounded request batching,
//! and the eviction policy that keeps the cache at the current zoom
//! and under its capacity.

use vstd::prelude::*;
use vstd::string::StringSliceAdditionalSpecFns;
use crate::geo::world_px;
use crate::geo::world_px_spec;
use crate::geo::lng_to_world_x;
use crate::geo::lat_to_world_y;
use crate::viewport::Viewport;
use crate::viewport::rounded_zoom_spec;

verus! {

/// A tile address: column, row and integer zoom. Valid when the
/// column and row lie inside the `2^z` by `2^z` grid.
#[derive(Clone, Copy, Debug, PartialEq, Eq, Hash, Structural)]
pub struct TileAddress {
    pub x: u32,
    pub y: u32,
    pub z: u32,
}

/// Number of tiles per world side at an integer zoom: `2^z`.
pub open spec fn grid_size_spec(z: int) -> int {
    world_px_spec(z) / 256
}

/// Number of tiles per world side at an integer zoom in [1, 18].
pub fn grid_size(z: u32) -> (g: u64)
    requires
        1 <= z <= 18,
    ensures
        g as int == grid_size_spec(z as int),
        2 <= g <= 262144,
{
    world_px(z) / 256
}

impl TileAddress {
    /// Inside the grid of its zoom level.
    pub open spec fn valid(self) -> bool {
        &&& 1 <= self.z <= 18
        &&& self.x < grid_size_spec(self.z as int)
        &&& self.y < grid_size_spec(self.z as int)
    }
}

/// A cached tile: its address, the renderer's texture handle once the
/// image arrived, and whether a fetch is outstanding.
#[derive(Clone, Copy, Debug, PartialEq, Eq, Structural)]
pub struct TileRecord {
    pub address: TileAddress,
    pub texture: Option<u64>,
    pub loading: bool,
}

/// The tile cache and request bookkeeping. `tiles` is ordered oldest
/// first; eviction drops from the front.
pub struct TileStore {
    pub tiles: Vec<TileRecord>,
    pub requested: Vec<TileAddress>,
    pub capacity: usize,
    pub max_per_frame: usize,
    pub prune_threshold: usize,
}

impl TileStore {
    /// All cached addresses are valid and pairwise distinct; the
    /// outstanding requests likewise, so no address is in flight
    /// twice.
    pub open spec fn wf(self) -> bool {
        &&& forall|i: int, j: int|
            0 <= i < j < self.tiles@.len() ==> (#[trigger] self.tiles@[i]).address != (
            #[trigger] self.tiles@[j]).address
        &&& forall|i: int| 0 <= i < self.tiles@.len() ==> (#[trigger] self.tiles@[i]).address.valid()
        &&& forall|i: int, j: int|
            0 <= i < j < self.requested@.len() ==> #[trigger] self.requested@[i] != #[trigger] self.requested@[j]
        &&& forall|i: int| 0 <= i < self.requested@.len() ==> (#[trigger] self.requested@[i]).valid()
        &&& 1 <= self.capacity
        &&& 1 <= self.max_per_frame
    }

    /// Whether an address is cached.
    pub open spec fn contains_tile_spec(self, a: TileAddress) -> bool {
        exists|i: int| 0 <= i < self.tiles@.len() && (#[trigger] self.tiles@[i]).address == a
    }

    /// Whether a fetch for an address is outstanding.
    pub open spec fn is_requested_spec(self, a: TileAddress) -> bool {
        exists|i: int| 0 <= i < self.requested@.len() && #[trigger] self.requested@[i] == a
    }

    /// An empty store with the fixed policy constants: twenty cached
    /// tiles, three new requests per planning pass, and request
    /// pruning past fifty outstanding entries.
    pub fn new() -> (s: TileStore)
        ensures
            s.wf(),
            s.tiles@.len() == 0,
            s.requested@.len() == 0,
            s.capacity == 20,
            s.max_per_frame == 3,
            s.prune_threshold == 50,
    {
        TileStore {
            tiles: Vec::new(),
            requested: Vec::new(),
            capacity: 20,
            max_per_frame: 3,
            prune_threshold: 50,
        }
    }

    /// Whether an address is cached (linear scan; the cache is small
    /// by policy).
    pub fn contains_tile(&self, a: TileAddress) -> (r: bool)
        ensures
            r == self.contains_tile_spec(a),
    {
        let mut i: usize = 0;
        while i < self.tiles.len()
            invariant
                i <= self.tiles@.len(),
                forall|j: int| 0 <= j < i ==> (#[trigger] self.tiles@[j]).address != a,
            decreases self.tiles@.len() - i,
        {
            if self.tiles[i].address == a {
                return true;
            }
            i = i + 1;
        }
        false
    }

    /// Whether a fetch for an address is outstanding.
    pub fn is_requested(&self, a: TileAddress) -> (r: bool)
        ensures
            r == self.is_requested_spec(a),
    {
        let mut i: usize = 0;
        while i < self.requested.len()
            invariant
                i <= self.requested@.len(),
                forall|j: int| 0 <= j < i ==> #[trigger] self.requested@[j] != a,
            decreases self.requested@.len() - i,
        {
            if self.requested[i] == a {
                return true;
            }
            i = i + 1;
        }
        false
    }
}


/// The visible tile-column range of a viewport at its rounded zoom:
/// from one tile before the left screen edge (clipped to the grid) to
/// one past the right edge.
pub open spec fn visible_x_range_spec(vp: Viewport) -> (int, int) {
    let zr = rounded_zoom_spec(vp.zoom_milli as int);
    let cwx = crate::geo::lng_to_world_x_spec(vp.center_lng as int, zr);
    let start = cwx - vp.width_px as int * 500000;
    let xb = if start <= 0 {
        0int
    } else {
        start / 256000000
    };
    let count = (vp.width_px as int + 255) / 256 + 2;
    let g = grid_size_spec(zr);
    let xe = if xb + count > g {
        g
    } else {
        xb + count
    };
    (xb, xe)
}

/// The visible tile-row range of a viewport at its rounded zoom.
pub open spec fn visible_y_range_spec(vp: Viewport) -> (int, int) {
    let zr = rounded_zoom_spec(vp.zoom_milli as int);
    let cwy = crate::geo::lat_to_world_y_spec(vp.center_lat as int, zr);
    let start = cwy - vp.height_px as int * 500000;
    let yb = if start <= 0 {
        0int
    } else {
        start / 256000000
    };
    let count = (vp.height_px as int + 255) / 256 + 2;
    let g = grid_size_spec(zr);
    let ye = if yb + count > g {
        g
    } else {
        yb + count
    };
    (yb, ye)
}


/// Whether a tile address lies in the visible (padded, clipped) grid
/// range of a viewport at its rounded zoom.
pub open spec fn in_visible_range(vp: Viewport, a: TileAddress) -> bool {
    let xr = visible_x_range_spec(vp);
    let yr = visible_y_range_spec(vp);
    &&& a.z as int == rounded_zoom_spec(vp.zoom_milli as int)
    &&& xr.0 <= a.x as int
    &&& (a.x as int) < xr.1
    &&& yr.0 <= a.y as int
    &&& (a.y as int) < yr.1
}

impl TileStore {
    /// Plan the tile loads for the current view: walk the visible
    /// grid at the rounded zoom and emit every tile that is neither
    /// cached nor already requested, up to the per-frame request cap.
    /// Emitted tiles are recorded as requested and enter the cache as
    /// loading records. Every emitted address is valid and at the
    /// view's rounded zoom, and no visible tile is left out unless
    /// the cap was reached.
    pub fn plan_requests(&mut self, vp: &Viewport) -> (reqs: Vec<TileAddress>)
        requires
            old(self).wf(),
            vp.wf(),
        ensures
            final(self).wf(),
            reqs@.len() <= old(self).max_per_frame,
            forall|i: int|
                0 <= i < reqs@.len() ==> (#[trigger] reqs@[i]).valid() && reqs@[i].z as int
                    == rounded_zoom_spec(vp.zoom_milli as int),
            forall|i: int|
                0 <= i < reqs@.len() ==> !old(self).contains_tile_spec(#[trigger] reqs@[i])
                    && !old(self).is_requested_spec(reqs@[i]),
            final(self).requested@ == old(self).requested@ + reqs@,
            final(self).tiles@.len() == old(self).tiles@.len() + reqs@.len(),
            forall|i: int|
                0 <= i < old(self).tiles@.len() ==> #[trigger] final(self).tiles@[i] == old(
                    self,
                ).tiles@[i],
            forall|i: int|
                0 <= i < reqs@.len() ==> #[trigger] final(self).tiles@[old(
                    self,
                ).tiles@.len() + i] == (TileRecord {
                    address: reqs@[i],
                    texture: None,
                    loading: true,
                }),
            reqs@.len() < old(self).max_per_frame ==> forall|a: TileAddress|
                in_visible_range(*vp, a) ==> #[trigger] old(self).contains_tile_spec(a)
                    || old(self).is_requested_spec(a) || reqs@.contains(a),
            final(self).capacity == old(self).capacity,
            final(self).max_per_frame == old(self).max_per_frame,
            final(self).prune_threshold == old(self).prune_threshold,
    {
        let zr: u32 = vp.rounded_zoom();
        let g: u64 = grid_size(zr);
        let cwx: i64 = lng_to_world_x(vp.center_lng, zr);
        let cwy: i64 = lat_to_world_y(vp.center_lat, zr);
        let start_x: i64 = cwx - (vp.width_px as i64) * 500000;
        let start_y: i64 = cwy - (vp.height_px as i64) * 500000;
        let xb: i64 = if start_x <= 0 {
            0
        } else {
            start_x / 256000000
        };
        let yb: i64 = if start_y <= 0 {
            0
        } else {
            start_y / 256000000
        };
        let xcount: i64 = ((vp.width_px as i64) + 255) / 256 + 2;
        let ycount: i64 = ((vp.height_px as i64) + 255) / 256 + 2;
        let xe: i64 = if xb + xcount > (g as i64) {
            g as i64
        } else {
            xb + xcount
        };
        let ye: i64 = if yb + ycount > (g as i64) {
            g as i64
        } else {
            yb + ycount
        };
        let ghost old_self = *old(self);
        let mut reqs: Vec<TileAddress> = Vec::new();
        let mut x: i64 = xb;
        while x < xe
            invariant
                self == old(self),
                self.wf(),
                xb <= x <= xe || x == xb,
                xe <= g as int,
                ye <= g as int,
                g as int == grid_size_spec(zr as int),
                1 <= zr <= 18,
                zr as int == rounded_zoom_spec(vp.zoom_milli as int),
                (xb as int, xe as int) == visible_x_range_spec(*vp),
                (yb as int, ye as int) == visible_y_range_spec(*vp),
                0 <= xb,
                0 <= yb,
                reqs@.len() <= self.max_per_frame,
                forall|i: int|
                    0 <= i < reqs@.len() ==> (#[trigger] reqs@[i]).valid() && reqs@[i].z
                        == zr,
                forall|i: int|
                    0 <= i < reqs@.len() ==> !self.contains_tile_spec(#[trigger] reqs@[i])
                        && !self.is_requested_spec(reqs@[i]),
                forall|i: int|
                    0 <= i < reqs@.len() ==> ((#[trigger] reqs@[i]).x as int) < x as int,
                forall|i: int, j: int|
                    0 <= i < j < reqs@.len() ==> #[trigger] reqs@[i] != #[trigger] reqs@[j],
                reqs@.len() < self.max_per_frame ==> forall|a: TileAddress|
                    a.z == zr && xb <= a.x as int && (a.x as int) < x as int && yb
                        <= a.y as int && (a.y as int) < ye as int
                        ==> #[trigger] self.contains_tile_spec(a)
                        || self.is_requested_spec(a) || reqs@.contains(a),
            decreases xe - x,
        {
            let mut y: i64 = yb;
            while y < ye
                invariant
                    self == old(self),
                    self.wf(),
                    xb <= x < xe,
                    yb <= y <= ye || y == yb,
                    xe <= g as int,
                    ye <= g as int,
                    g as int == grid_size_spec(zr as int),
                    1 <= zr <= 18,
                    zr as int == rounded_zoom_spec(vp.zoom_milli as int),
                    0 <= xb,
                    0 <= yb,
                    reqs@.len() <= self.max_per_frame,
                    forall|i: int|
                        0 <= i < reqs@.len() ==> (#[trigger] reqs@[i]).valid()
                            && reqs@[i].z == zr,
                    forall|i: int|
                        0 <= i < reqs@.len() ==> !self.contains_tile_spec(
                            #[trigger] reqs@[i],
                        ) && !self.is_requested_spec(reqs@[i]),
                    forall|i: int|
                        0 <= i < reqs@.len() ==> ((#[trigger] reqs@[i]).x as int)
                            < x as int || (reqs@[i].x as int == x as int && (
                        reqs@[i].y as int) < y as int),
                    forall|i: int, j: int|
                        0 <= i < j < reqs@.len() ==> #[trigger] reqs@[i] != #[trigger] reqs@[j],
                    reqs@.len() < self.max_per_frame ==> forall|a: TileAddress|
                        a.z == zr && ((xb <= a.x as int && (a.x as int) < x as int && yb
                            <= a.y as int && (a.y as int) < ye as int) || (a.x as int
                            == x as int && yb <= a.y as int && (a.y as int) < y as int))
                            ==> #[trigger] self.contains_tile_spec(a)
                            || self.is_requested_spec(a) || reqs@.contains(a),
                decreases ye - y,
            {
                let addr = TileAddress { x: x as u32, y: y as u32, z: zr };
                if reqs.len() < self.max_per_frame && !self.contains_tile(addr)
                    && !self.is_requested(addr) {
                    let ghost reqs_before = reqs@;
                    reqs.push(addr);
                    proof {
                        assert(reqs@[reqs@.len() - 1] == addr);
                        assert(reqs@.contains(addr));
                        assert forall|i: int|
                            0 <= i < reqs_before.len() implies #[trigger] reqs@[i]
                            == reqs_before[i] by {}
                        assert forall|a: TileAddress| reqs_before.contains(a) implies reqs@.contains(
                            a,
                        ) by {
                            let w = choose|w: int|
                                0 <= w < reqs_before.len() && reqs_before[w] == a;
                            assert(reqs@[w] == a);
                        }
                    }
                } else {
                    proof {
                        if reqs@.len() < self.max_per_frame {
                            assert(self.contains_tile_spec(addr) || self.is_requested_spec(
                                addr,
                            ));
                        }
                    }
                }
                y = y + 1;
            }
            x = x + 1;
        }
        let ghost planned = reqs@;
        let mut k: usize = 0;
        while k < reqs.len()
            invariant
                reqs@ == planned,
                k <= planned.len(),
                planned.len() <= old(self).max_per_frame,
                old(self).wf(),
                self.wf(),
                forall|i: int|
                    0 <= i < planned.len() ==> (#[trigger] planned[i]).valid()
                        && planned[i].z as int == rounded_zoom_spec(vp.zoom_milli as int),
                forall|i: int|
                    0 <= i < planned.len() ==> !old(self).contains_tile_spec(
                        #[trigger] planned[i],
                    ) && !old(self).is_requested_spec(planned[i]),
                forall|i: int, j: int|
                    0 <= i < j < planned.len() ==> #[trigger] planned[i] != #[trigger] planned[j],
                self.requested@ == old(self).requested@ + planned.take(k as int),
                self.tiles@.len() == old(self).tiles@.len() + k,
                forall|i: int|
                    0 <= i < old(self).tiles@.len() ==> #[trigger] self.tiles@[i] == old(
                        self,
                    ).tiles@[i],
                forall|i: int|
                    0 <= i < k ==> #[trigger] self.tiles@[old(self).tiles@.len() + i] == (
                    TileRecord { address: planned[i], texture: None, loading: true }),
                self.capacity == old(self).capacity,
                self.max_per_frame == old(self).max_per_frame,
                self.prune_threshold == old(self).prune_threshold,
            decreases reqs@.len() - k,
        {
            let addr = reqs[k];
            let ghost tiles_at_entry = self.tiles@;
            self.requested.push(addr);
            self.tiles.push(TileRecord { address: addr, texture: None, loading: true });
            proof {
                assert(planned.take(k as int + 1) == planned.take(k as int).push(addr));
                let rl = self.requested@.len();
                assert forall|i: int, j: int| 0 <= i < j < rl implies #[trigger] self.requested@[i] != #[trigger] self.requested@[j] by {
                    if j == rl - 1 {
                        assert(self.requested@[j] == addr);
                        if i < old(self).requested@.len() {
                            assert(self.requested@[i] == old(self).requested@[i]);
                            assert(old(self).is_requested_spec(addr) ==> false);
                        } else {
                            assert(self.requested@[i] == planned.take(k as int)[i - old(
                                self,
                            ).requested@.len()]);
                        }
                    }
                }
                let tl = self.tiles@.len();
                assert forall|i: int, j: int| 0 <= i < j < tl implies (#[trigger] self.tiles@[i]).address != (#[trigger] self.tiles@[j]).address by {
                    if j == tl - 1 {
                        assert(self.tiles@[j].address == addr);
                        if i < old(self).tiles@.len() {
                            assert(self.tiles@[i] == old(self).tiles@[i]);
                            assert(old(self).contains_tile_spec(addr) ==> false);
                        } else {
                            let i2 = i - old(self).tiles@.len();
                            assert(self.tiles@[i] == tiles_at_entry[i]);
                            assert(tiles_at_entry[old(self).tiles@.len() + i2] == (
                            TileRecord {
                                address: planned[i2],
                                texture: None,
                                loading: true,
                            }));
                            assert(planned[i2] != planned[k as int]);
                        }
                    }
                }
            }
            k = k + 1;
        }
        proof {
            assert(planned.take(planned.len() as int) == planned);
        }
        reqs
    }

}


/// The subsequence of records at a given zoom, in cache (age) order.
pub open spec fn tiles_at_zoom(s: Seq<TileRecord>, zr: u32) -> Seq<TileRecord>
    decreases s.len(),
{
    if s.len() == 0 {
        Seq::empty()
    } else {
        tiles_at_zoom(s.drop_last(), zr) + (if s.last().address.z == zr {
            seq![s.last()]
        } else {
            Seq::empty()
        })
    }
}

/// The zoom filter keeps only records of the source, all at the
/// requested zoom, and keeps distinct addresses distinct.
proof fn lemma_tiles_at_zoom_props(s: Seq<TileRecord>, zr: u32)
    ensures
        forall|p: int|
            0 <= p < tiles_at_zoom(s, zr).len() ==> s.contains(
                #[trigger] tiles_at_zoom(s, zr)[p],
            ) && tiles_at_zoom(s, zr)[p].address.z == zr,
        (forall|i: int, j: int|
            0 <= i < j < s.len() ==> (#[trigger] s[i]).address != (#[trigger] s[j]).address)
            ==> (forall|i: int, j: int|
            0 <= i < j < tiles_at_zoom(s, zr).len() ==> (#[trigger] tiles_at_zoom(s, zr)[i]).address
                != (#[trigger] tiles_at_zoom(s, zr)[j]).address),
    decreases s.len(),
{
    if s.len() == 0 {
    } else {
        lemma_tiles_at_zoom_props(s.drop_last(), zr);
        let tz = tiles_at_zoom(s, zr);
        let tzd = tiles_at_zoom(s.drop_last(), zr);
        assert forall|p: int| 0 <= p < tz.len() implies s.contains(#[trigger] tz[p])
            && tz[p].address.z == zr by {
            if p < tzd.len() {
                assert(s.drop_last().contains(tzd[p]));
                let q = choose|q: int| 0 <= q < s.drop_last().len() && s.drop_last()[q] == tzd[p];
                assert(s[q] == tz[p]);
            } else {
                assert(tz[p] == s.last());
                assert(s[s.len() - 1] == s.last());
            }
        }
        if forall|i: int, j: int|
            0 <= i < j < s.len() ==> (#[trigger] s[i]).address != (#[trigger] s[j]).address {
            assert forall|i: int, j: int|
                0 <= i < j < s.drop_last().len() implies (#[trigger] s.drop_last()[i]).address
                != (#[trigger] s.drop_last()[j]).address by {
                assert(s.drop_last()[i] == s[i]);
                assert(s.drop_last()[j] == s[j]);
            }
            assert forall|i: int, j: int|
                0 <= i < j < tz.len() implies (#[trigger] tz[i]).address != (
            #[trigger] tz[j]).address by {
                if j == tz.len() - 1 && s.last().address.z == zr {
                    assert(tz[j] == s.last());
                    assert(s.drop_last().contains(tzd[i]));
                    let q = choose|q: int|
                        0 <= q < s.drop_last().len() && s.drop_last()[q] == tzd[i];
                    assert(s[q] == tz[i]);
                    assert(s[q].address != s[s.len() - 1].address);
                } else {
                    assert(tz[i] == tzd[i] && tz[j] == tzd[j]);
                }
            }
        }
    }
}

impl TileStore {
    /// Run the eviction policy after a view change: drop every cached
    /// tile whose zoom differs from the current rounded zoom, then
    /// drop the oldest tiles (the front of the list) until the cache
    /// fits its capacity: exactly the newest surviving records
    /// remain, in age order. Once the outstanding-request list grows
    /// past its threshold, keep only current-zoom requests.
    pub fn evict(&mut self, zr: u32)
        requires
            old(self).wf(),
        ensures
            final(self).wf(),
            ({
                let tz = tiles_at_zoom(old(self).tiles@, zr);
                let excess = if tz.len() > old(self).capacity {
                    tz.len() - old(self).capacity
                } else {
                    0int
                };
                final(self).tiles@ == tz.skip(excess)
            }),
            final(self).tiles@.len() <= old(self).capacity,
            forall|i: int|
                0 <= i < final(self).tiles@.len() ==> (#[trigger] final(self).tiles@[i]).address.z == zr,
            forall|i: int|
                0 <= i < final(self).tiles@.len() ==> old(self).tiles@.contains(
                    #[trigger] final(self).tiles@[i],
                ),
            old(self).requested@.len() <= old(self).prune_threshold ==> final(self).requested@ == old(self).requested@,
            forall|i: int|
                0 <= i < final(self).requested@.len() ==> old(self).requested@.contains(
                    #[trigger] final(self).requested@[i],
                ),
            old(self).requested@.len() > old(self).prune_threshold ==> forall|i: int|
                0 <= i < final(self).requested@.len() ==> (#[trigger] final(self).requested@[i]).z == zr,
            final(self).capacity == old(self).capacity,
            final(self).max_per_frame == old(self).max_per_frame,
            final(self).prune_threshold == old(self).prune_threshold,
    {
        let mut kept: Vec<TileRecord> = Vec::new();
        let mut i: usize = 0;
        while i < self.tiles.len()
            invariant
                self == old(self),
                self.wf(),
                i <= self.tiles@.len(),
                kept@ == tiles_at_zoom(self.tiles@.take(i as int), zr),
            decreases self.tiles@.len() - i,
        {
            let t = self.tiles[i];
            proof {
                assert(self.tiles@.take(i as int + 1).drop_last() =~= self.tiles@.take(
                    i as int,
                ));
                assert(self.tiles@.take(i as int + 1).last() == self.tiles@[i as int]);
            }
            if t.address.z == zr {
                kept.push(t);
                proof {
                    assert(kept@ =~= tiles_at_zoom(self.tiles@.take(i as int + 1), zr));
                }
            } else {
                proof {
                    assert(kept@ =~= tiles_at_zoom(self.tiles@.take(i as int + 1), zr));
                }
            }
            i = i + 1;
        }
        proof {
            assert(self.tiles@.take(self.tiles@.len() as int) =~= self.tiles@);
            lemma_tiles_at_zoom_props(self.tiles@, zr);
            assert forall|p: int|
                0 <= p < kept@.len() implies (#[trigger] kept@[p]).address.z == zr
                && kept@[p].address.valid() && self.tiles@.contains(kept@[p]) by {
                assert(self.tiles@.contains(kept@[p]));
                let q = choose|q: int|
                    0 <= q < self.tiles@.len() && self.tiles@[q] == kept@[p];
                assert(self.tiles@[q].address.valid());
            }
        }
        let start: usize = if kept.len() > self.capacity {
            kept.len() - self.capacity
        } else {
            0
        };
        let mut trimmed: Vec<TileRecord> = Vec::new();
        let mut j: usize = start;
        while j < kept.len()
            invariant
                self == old(self),
                self.wf(),
                start <= j <= kept@.len(),
                kept@.len() - start <= self.capacity,
                trimmed@ == kept@.subrange(start as int, j as int),
                kept@ == tiles_at_zoom(self.tiles@, zr),
                forall|p: int|
                    0 <= p < kept@.len() ==> (#[trigger] kept@[p]).address.z == zr
                        && kept@[p].address.valid(),
                forall|p: int|
                    0 <= p < kept@.len() ==> self.tiles@.contains(#[trigger] kept@[p]),
            decreases kept@.len() - j,
        {
            trimmed.push(kept[j]);
            proof {
                assert(trimmed@ == kept@.subrange(start as int, j as int + 1));
            }
            j = j + 1;
        }
        self.tiles = trimmed;
        proof {
            lemma_tiles_at_zoom_props(old(self).tiles@, zr);
            assert forall|p: int|
                0 <= p < self.tiles@.len() implies old(self).tiles@.contains(
                #[trigger] self.tiles@[p]) by {
                assert(self.tiles@[p] == kept@[start as int + p]);
                assert(old(self).tiles@.contains(kept@[start as int + p]));
            }
            assert forall|p1: int, p2: int|
                0 <= p1 < p2 < self.tiles@.len() implies (#[trigger] self.tiles@[p1]).address
                != (#[trigger] self.tiles@[p2]).address by {
                assert(self.tiles@[p1] == kept@[start as int + p1]);
                assert(self.tiles@[p2] == kept@[start as int + p2]);
            }
            assert(self.tiles@ =~= kept@.skip(start as int));
        }
        if self.requested.len() > self.prune_threshold {
            let mut keep_req: Vec<TileAddress> = Vec::new();
            let mut m: usize = 0;
            while m < self.requested.len()
                invariant
                    self.requested@ == old(self).requested@,
                    old(self).wf(),
                    m <= self.requested@.len(),
                    forall|p: int|
                        0 <= p < keep_req@.len() ==> (#[trigger] keep_req@[p]).z == zr
                            && keep_req@[p].valid(),
                    forall|p: int|
                        0 <= p < keep_req@.len() ==> self.requested@.contains(
                            #[trigger] keep_req@[p],
                        ),
                    forall|p1: int, p2: int|
                        0 <= p1 < p2 < keep_req@.len() ==> #[trigger] keep_req@[p1]
                            != #[trigger] keep_req@[p2],
                decreases self.requested@.len() - m,
            {
                let a = self.requested[m];
                if a.z == zr && !addrs_contain(&keep_req, a) {
                    keep_req.push(a);
                    proof {
                        assert(self.requested@[m as int] == a);
                        assert(self.requested@.contains(a));
                    }
                }
                m = m + 1;
            }
            self.requested = keep_req;
        } else {
            proof {
                assert forall|p: int|
                    0 <= p < self.requested@.len() implies old(self).requested@.contains(
                    #[trigger] self.requested@[p]) by {
                    assert(self.requested@[p] == old(self).requested@[p]);
                }
            }
        }
    }

    /// Apply a finished tile fetch: if the address is still cached,
    /// store the texture handle, clear its loading flag and drop the
    /// outstanding request; a completion for an address that was
    /// evicted meanwhile is ignored.
    pub fn complete_load(&mut self, addr: TileAddress, texture: u64) -> (applied: bool)
        requires
            old(self).wf(),
        ensures
            final(self).wf(),
            applied == old(self).contains_tile_spec(addr),
            final(self).tiles@.len() == old(self).tiles@.len(),
            forall|i: int|
                0 <= i < final(self).tiles@.len() && (#[trigger] old(
                    self,
                ).tiles@[i]).address != addr ==> final(self).tiles@[i] == old(self).tiles@[i],
            forall|i: int|
                0 <= i < final(self).tiles@.len() && (#[trigger] old(
                    self,
                ).tiles@[i]).address == addr ==> final(self).tiles@[i] == (TileRecord {
                    address: addr,
                    texture: Some(texture),
                    loading: false,
                }),
            !applied ==> final(self).requested@ == old(self).requested@,
            applied ==> !final(self).is_requested_spec(addr),
            forall|i: int|
                0 <= i < final(self).requested@.len() ==> old(self).requested@.contains(
                    #[trigger] final(self).requested@[i],
                ),
            final(self).capacity == old(self).capacity,
            final(self).max_per_frame == old(self).max_per_frame,
            final(self).prune_threshold == old(self).prune_threshold,
    {
        let mut found: bool = false;
        let mut i: usize = 0;
        while i < self.tiles.len()
            invariant
                self.wf(),
                i <= self.tiles@.len(),
                self.tiles@.len() == old(self).tiles@.len(),
                self.requested@ == old(self).requested@,
                self.capacity == old(self).capacity,
                self.max_per_frame == old(self).max_per_frame,
                self.prune_threshold == old(self).prune_threshold,
                !found ==> self.tiles@ == old(self).tiles@,
                !found ==> forall|j: int|
                    0 <= j < i ==> (#[trigger] old(self).tiles@[j]).address != addr,
                found ==> old(self).contains_tile_spec(addr),
                found ==> forall|j: int|
                    0 <= j < self.tiles@.len() && (#[trigger] old(self).tiles@[j]).address
                        != addr ==> self.tiles@[j] == old(self).tiles@[j],
                found ==> forall|j: int|
                    0 <= j < self.tiles@.len() && (#[trigger] old(self).tiles@[j]).address
                        == addr ==> self.tiles@[j] == (TileRecord {
                        address: addr,
                        texture: Some(texture),
                        loading: false,
                    }),
            decreases self.tiles@.len() - i,
        {
            if !found && self.tiles[i].address == addr {
                let rec = TileRecord { address: addr, texture: Some(texture), loading: false };
                self.tiles.set(i, rec);
                found = true;
                proof {
                    assert(self.tiles@[i as int] == rec);
                    assert forall|j: int|
                        0 <= j < self.tiles@.len() && (#[trigger] old(
                            self,
                        ).tiles@[j]).address == addr implies self.tiles@[j] == rec by {
                        if j != i as int {
                            assert(old(self).tiles@[j].address == old(
                                self,
                            ).tiles@[i as int].address);
                            assert(false);
                        }
                    }
                }
            }
            i = i + 1;
        }
        if found {
            self.remove_request(addr);
        } else {
            proof {
                assert forall|p: int|
                    0 <= p < self.requested@.len() implies old(self).requested@.contains(
                    #[trigger] self.requested@[p]) by {
                    assert(self.requested@[p] == old(self).requested@[p]);
                }
            }
        }
        found
    }

    /// Apply a failed tile fetch: the outstanding request is dropped
    /// and the cached record, if any, stops loading with no texture,
    /// so a later visibility pass may request the tile again.
    pub fn fail_load(&mut self, addr: TileAddress)
        requires
            old(self).wf(),
        ensures
            final(self).wf(),
            !final(self).is_requested_spec(addr),
            forall|i: int|
                0 <= i < final(self).requested@.len() ==> old(self).requested@.contains(
                    #[trigger] final(self).requested@[i],
                ),
            final(self).tiles@.len() == old(self).tiles@.len(),
            forall|i: int|
                0 <= i < final(self).tiles@.len() && (#[trigger] old(
                    self,
                ).tiles@[i]).address != addr ==> final(self).tiles@[i] == old(self).tiles@[i],
            forall|i: int|
                0 <= i < final(self).tiles@.len() && (#[trigger] old(
                    self,
                ).tiles@[i]).address == addr ==> final(self).tiles@[i] == (TileRecord {
                    address: addr,
                    texture: old(self).tiles@[i].texture,
                    loading: false,
                }),
            final(self).capacity == old(self).capacity,
            final(self).max_per_frame == old(self).max_per_frame,
            final(self).prune_threshold == old(self).prune_threshold,
    {
        let mut i: usize = 0;
        while i < self.tiles.len()
            invariant
                self.wf(),
                i <= self.tiles@.len(),
                self.tiles@.len() == old(self).tiles@.len(),
                self.requested@ == old(self).requested@,
                self.capacity == old(self).capacity,
                self.max_per_frame == old(self).max_per_frame,
                self.prune_threshold == old(self).prune_threshold,
                forall|j: int|
                    i <= j < self.tiles@.len() ==> #[trigger] self.tiles@[j] == old(
                        self,
                    ).tiles@[j],
                forall|j: int|
                    0 <= j < i && (#[trigger] old(self).tiles@[j]).address != addr
                        ==> self.tiles@[j] == old(self).tiles@[j],
                forall|j: int|
                    0 <= j < i && (#[trigger] old(self).tiles@[j]).address == addr
                        ==> self.tiles@[j] == (TileRecord {
                        address: addr,
                        texture: old(self).tiles@[j].texture,
                        loading: false,
                    }),
            decreases self.tiles@.len() - i,
        {
            if self.tiles[i].address == addr {
                let t = self.tiles[i];
                self.tiles.set(
                    i,
                    TileRecord { address: addr, texture: t.texture, loading: false },
                );
            }
            i = i + 1;
        }
        self.remove_request(addr);
    }

    /// Drop an address from the outstanding-request list, if present.
    fn remove_request(&mut self, addr: TileAddress)
        requires
            old(self).wf(),
        ensures
            final(self).wf(),
            !final(self).is_requested_spec(addr),
            forall|i: int|
                0 <= i < final(self).requested@.len() ==> old(self).requested@.contains(
                    #[trigger] final(self).requested@[i],
                ),
            final(self).tiles@ == old(self).tiles@,
            final(self).capacity == old(self).capacity,
            final(self).max_per_frame == old(self).max_per_frame,
            final(self).prune_threshold == old(self).prune_threshold,
    {
        let mut kept: Vec<TileAddress> = Vec::new();
        let mut i: usize = 0;
        while i < self.requested.len()
            invariant
                self == old(self),
                self.wf(),
                i <= self.requested@.len(),
                forall|p: int|
                    0 <= p < kept@.len() ==> #[trigger] kept@[p] != addr && kept@[p].valid(),
                forall|p: int|
                    0 <= p < kept@.len() ==> self.requested@.contains(#[trigger] kept@[p]),
                forall|p1: int, p2: int|
                    0 <= p1 < p2 < kept@.len() ==> #[trigger] kept@[p1] != #[trigger] kept@[p2],
            decreases self.requested@.len() - i,
        {
            let a = self.requested[i];
            if !(a == addr) && !addrs_contain(&kept, a) {
                kept.push(a);
                proof {
                    assert(self.requested@[i as int] == a);
                    assert(self.requested@.contains(a));
                }
            }
            i = i + 1;
        }
        self.requested = kept;
    }
}

/// Whether an address list holds the given address.
fn addrs_contain(v: &Vec<TileAddress>, a: TileAddress) -> (r: bool)
    ensures
        r == exists|j: int| 0 <= j < v@.len() && #[trigger] v@[j] == a,
{
    let mut i: usize = 0;
    while i < v.len()
        invariant
            i <= v@.len(),
            forall|j: int| 0 <= j < i ==> #[trigger] v@[j] != a,
        decreases v@.len() - i,
    {
        if v[i] == a {
            return true;
        }
        i = i + 1;
    }
    false
}

/// The subdomain chosen for a tile URL: round-robin by `(x + y)`
/// over the configured subdomain count.
pub fn subdomain_index(addr: TileAddress, n_subdomains: usize) -> (idx: usize)
    requires
        1 <= n_subdomains,
    ensures
        idx as int == (addr.x as int + addr.y as int) % (n_subdomains as int),
        idx < n_subdomains,
{
    (((addr.x as u64) + (addr.y as u64)) % (n_subdomains as u64)) as usize
}


/// The screen rectangle of a tile under a viewport, in micropixels:
/// its world position relative to the view's top-left corner.
pub open spec fn tile_screen_rect_spec(vp: Viewport, a: TileAddress) -> (int, int) {
    let zr = rounded_zoom_spec(vp.zoom_milli as int);
    let cwx = crate::geo::lng_to_world_x_spec(vp.center_lng as int, zr);
    let cwy = crate::geo::lat_to_world_y_spec(vp.center_lat as int, zr);
    (
        a.x as int * 256000000 - cwx + vp.width_px as int * 500000,
        a.y as int * 256000000 - cwy + vp.height_px as int * 500000,
    )
}

/// Compute the screen position of a tile's top-left corner under a
/// viewport; the tile is one standard tile side (256 pixels) square.
pub fn tile_screen_rect(vp: &Viewport, a: TileAddress) -> (r: (i64, i64))
    requires
        vp.wf(),
        a.valid(),
        a.z as int == rounded_zoom_spec(vp.zoom_milli as int),
    ensures
        r.0 as int == tile_screen_rect_spec(*vp, a).0,
        r.1 as int == tile_screen_rect_spec(*vp, a).1,
        -67200000000000 <= r.0 <= 67200000000000,
        -67200000000000 <= r.1 <= 67200000000000,
{
    let zr: u32 = vp.rounded_zoom();
    let cwx: i64 = lng_to_world_x(vp.center_lng, zr);
    let cwy: i64 = lat_to_world_y(vp.center_lat, zr);
    let half_w: i64 = (vp.width_px as i64) * 500000;
    let half_h: i64 = (vp.height_px as i64) * 500000;
    proof {
        assert(a.x as int * 256000000 <= 262143 * 256000000) by (nonlinear_arith)
            requires
                a.x < 262144,
        ;
        assert(a.y as int * 256000000 <= 262143 * 256000000) by (nonlinear_arith)
            requires
                a.y < 262144,
        ;
        vstd::arithmetic::mul::lemma_mul_nonnegative(a.x as int, 256000000);
        vstd::arithmetic::mul::lemma_mul_nonnegative(a.y as int, 256000000);
    }
    let tx: i64 = (a.x as i64) * 256000000;
    let ty: i64 = (a.y as i64) * 256000000;
    (tx - cwx + half_w, ty - cwy + half_h)
}

/// One tile ready to draw: its address, screen position of its
/// top-left corner, and its texture handle.
#[derive(Clone, Copy, Debug, PartialEq, Eq, Structural)]
pub struct TileQuad {
    pub address: TileAddress,
    pub x_upx: i64,
    pub y_upx: i64,
    pub texture: u64,
}

impl TileStore {
    /// The draw list for the current frame: every cached tile at the
    /// view's rounded zoom whose texture has arrived, with its screen
    /// position. Tiles still loading are simply absent, so a missing
    /// tile degrades to a blank square rather than an error.
    pub fn tile_quads(&self, vp: &Viewport) -> (quads: Vec<TileQuad>)
        requires
            self.wf(),
            vp.wf(),
        ensures
            forall|k: int|
                0 <= k < quads@.len() ==> {
                    let q = #[trigger] quads@[k];
                    &&& q.address.z as int == rounded_zoom_spec(vp.zoom_milli as int)
                    &&& q.x_upx as int == tile_screen_rect_spec(*vp, q.address).0
                    &&& q.y_upx as int == tile_screen_rect_spec(*vp, q.address).1
                    &&& exists|i: int|
                        0 <= i < self.tiles@.len() && (#[trigger] self.tiles@[i]).address
                            == q.address && self.tiles@[i].texture == Some(q.texture)
                },
            forall|i: int|
                0 <= i < self.tiles@.len() && (#[trigger] self.tiles@[i]).address.z as int
                    == rounded_zoom_spec(vp.zoom_milli as int) && self.tiles@[i].texture
                    is Some ==> exists|k: int|
                    0 <= k < quads@.len() && (#[trigger] quads@[k]).address
                        == self.tiles@[i].address,
    {
        let zr: u32 = vp.rounded_zoom();
        let mut quads: Vec<TileQuad> = Vec::new();
        let mut i: usize = 0;
        while i < self.tiles.len()
            invariant
                i <= self.tiles@.len(),
                self.wf(),
                vp.wf(),
                zr as int == rounded_zoom_spec(vp.zoom_milli as int),
                forall|k: int|
                    0 <= k < quads@.len() ==> {
                        let q = #[trigger] quads@[k];
                        &&& q.address.z == zr
                        &&& q.x_upx as int == tile_screen_rect_spec(*vp, q.address).0
                        &&& q.y_upx as int == tile_screen_rect_spec(*vp, q.address).1
                        &&& exists|m: int|
                            0 <= m < self.tiles@.len() && (
                            #[trigger] self.tiles@[m]).address == q.address
                                && self.tiles@[m].texture == Some(q.texture)
                    },
                forall|m: int|
                    0 <= m < i && (#[trigger] self.tiles@[m]).address.z == zr
                        && self.tiles@[m].texture is Some ==> exists|k: int|
                        0 <= k < quads@.len() && (#[trigger] quads@[k]).address
                            == self.tiles@[m].address,
            decreases self.tiles@.len() - i,
        {
            let rec = self.tiles[i];
            if rec.address.z == zr {
                match rec.texture {
                    Some(tex) => {
                        let (x, y) = tile_screen_rect(vp, rec.address);
                        let ghost before = quads@;
                        quads.push(
                            TileQuad { address: rec.address, x_upx: x, y_upx: y, texture: tex },
                        );
                        proof {
                            assert(quads@[quads@.len() - 1].address
                                == self.tiles@[i as int].address);
                            assert forall|m: int|
                                0 <= m < i + 1 && (#[trigger] self.tiles@[m]).address.z
                                    == zr && self.tiles@[m].texture is Some implies exists|
                                k: int,
                            |
                                0 <= k < quads@.len() && (#[trigger] quads@[k]).address
                                    == self.tiles@[m].address by {
                                if m < i {
                                    let k = choose|k: int|
                                        0 <= k < before.len() && (
                                        #[trigger] before[k]).address
                                            == self.tiles@[m].address;
                                    assert(quads@[k].address == self.tiles@[m].address);
                                } else {
                                    assert(quads@[quads@.len() - 1].address
                                        == self.tiles@[m].address);
                                }
                            }
                        }
                    },
                    None => {},
                }
            }
            i = i + 1;
        }
        quads
    }
}


/// The decimal digits of a nonnegative number.
pub open spec fn dec_of(n: int) -> Seq<u8>
    decreases n,
{
    if n < 10 {
        seq![(48 + n) as u8]
    } else {
        dec_of(n / 10).push((48 + n % 10) as u8)
    }
}

/// Format a number as decimal digit bytes.
fn u32_dec(n: u32) -> (r: Vec<u8>)
    ensures
        r@ == dec_of(n as int),
    decreases n,
{
    if n < 10 {
        let mut v: Vec<u8> = Vec::new();
        v.push(48 + (n as u8));
        proof {
            assert(v@ =~= dec_of(n as int));
        }
        v
    } else {
        let mut v = u32_dec(n / 10);
        v.push(48 + ((n % 10) as u8));
        v
    }
}

/// A tile URL template with `{s}`, `{z}`, `{x}`, `{y}` substituted:
/// the subdomain bytes and the address's decimal components replace
/// each placeholder; every other byte is kept.
pub open spec fn url_subst_spec(t: Seq<u8>, sub: Seq<u8>, z: int, x: int, y: int) -> Seq<u8>
    decreases t.len(),
{
    if t.len() == 0 {
        Seq::empty()
    } else if t.len() >= 3 && t[0] == 123 && t[2] == 125 && (t[1] == 115 || t[1] == 122
        || t[1] == 120 || t[1] == 121) {
        (if t[1] == 115 {
            sub
        } else if t[1] == 122 {
            dec_of(z)
        } else if t[1] == 120 {
            dec_of(x)
        } else {
            dec_of(y)
        }) + url_subst_spec(t.skip(3), sub, z, x, y)
    } else {
        seq![t[0]] + url_subst_spec(t.skip(1), sub, z, x, y)
    }
}

/// Append a byte slice to a buffer.
fn append_bytes(out: &mut Vec<u8>, s: &[u8])
    ensures
        final(out)@ == old(out)@ + s@,
{
    let mut i: usize = 0;
    while i < s.len()
        invariant
            i <= s@.len(),
            out@ == old(out)@ + s@.take(i as int),
        decreases s@.len() - i,
    {
        out.push(s[i]);
        proof {
            assert(out@ =~= old(out)@ + s@.take(i as int + 1));
        }
        i = i + 1;
    }
    proof {
        assert(out@ =~= old(out)@ + s@);
    }
}

/// Build the fetch URL for a tile, as bytes: the template with its
/// `{s}`, `{z}`, `{x}`, `{y}` placeholders substituted by the chosen
/// subdomain and the address's decimal components.
pub fn tile_url_bytes(template: &str, subdomain: &str, addr: TileAddress) -> (r: Vec<u8>)
    ensures
        r@ == url_subst_spec(
            template.spec_bytes(),
            subdomain.spec_bytes(),
            addr.z as int,
            addr.x as int,
            addr.y as int,
        ),
{
    let t: &[u8] = template.as_bytes();
    let sub: &[u8] = subdomain.as_bytes();
    let n = t.len();
    let mut out: Vec<u8> = Vec::new();
    proof {
        assert(t@.skip(0) =~= t@);
    }
    let mut i: usize = 0;
    while i < n
        invariant
            i <= n == t@.len(),
            sub@ == subdomain.spec_bytes(),
            url_subst_spec(t@, sub@, addr.z as int, addr.x as int, addr.y as int) == out@
                + url_subst_spec(
                t@.skip(i as int),
                sub@,
                addr.z as int,
                addr.x as int,
                addr.y as int,
            ),
        decreases n - i,
    {
        let c = t[i];
        proof {
            assert(t@.skip(i as int)[0] == t@[i as int]);
            assert(t@.skip(i as int).skip(1) =~= t@.skip(i as int + 1));
            if n - i > 2 {
                assert(t@.skip(i as int)[1] == t@[i + 1]);
                assert(t@.skip(i as int)[2] == t@[i + 2]);
                assert(t@.skip(i as int).skip(3) =~= t@.skip(i as int + 3));
            }
        }
        if c == 123 && n - i > 2 && t[i + 2] == 125 && (t[i + 1] == 115 || t[i + 1] == 122
            || t[i + 1] == 120 || t[i + 1] == 121) {
            let tag = t[i + 1];
            if tag == 115 {
                append_bytes(&mut out, sub);
            } else if tag == 122 {
                let d = u32_dec(addr.z);
                append_bytes(&mut out, d.as_slice());
            } else if tag == 120 {
                let d = u32_dec(addr.x);
                append_bytes(&mut out, d.as_slice());
            } else {
                let d = u32_dec(addr.y);
                append_bytes(&mut out, d.as_slice());
            }
            i = i + 3;
        } else {
            out.push(c);
            i = i + 1;
        }
    }
    proof {
        assert(t@.skip(n as int).len() == 0);
    }
    out
}

} // verus!




