//! Vector layers: typed point / line / polygon features, raw
//! geometry features with a per-layer style, and the derived geometry
//! cache: flattened points and lines plus a triangle list for
//! polygons, rebuilt synchronously on every data or style change.

use vstd::prelude::*;
use crate::geo::LatLng;
use crate::color::Rgba;
use crate::geojson::JsonValue;
use crate::geojson::JsonModel;
use crate::geojson::jm;
use crate::triangulate::Triangle;
use crate::triangulate::tri_sum;
use crate::triangulate::rings_area;
use crate::triangulate::shoelace2;
use crate::triangulate::triangulate_rings;

verus! {

/// A point feature: position, marker size in millipixels, color and
/// free-form metadata.
pub struct PointFeature {
    pub pos: LatLng,
    pub size_mpx: u32,
    pub color: Rgba,
    pub meta: JsonValue,
}

/// A line feature: ordered vertices, color, width in millipixels and
/// metadata.
pub struct LineFeature {
    pub points: Vec<LatLng>,
    pub color: Rgba,
    pub width_mpx: u32,
    pub meta: JsonValue,
}

/// A polygon feature: an outer ring plus hole rings, fill color and
/// metadata.
pub struct PolygonFeature {
    pub rings: Vec<Vec<LatLng>>,
    pub color: Rgba,
    pub meta: JsonValue,
}

/// A layer of point features.
pub struct PointLayer {
    pub points: Vec<PointFeature>,
    pub visible: bool,
}

/// A layer of line features.
pub struct LineLayer {
    pub lines: Vec<LineFeature>,
    pub visible: bool,
}

/// A layer of polygon features.
pub struct PolygonLayer {
    pub polygons: Vec<PolygonFeature>,
    pub visible: bool,
}

/// Style applied to raw geometry features when the cache is built.
#[derive(Clone, Copy, Debug)]
pub struct GeoJsonStyle {
    pub point_color: Rgba,
    pub point_size_mpx: u32,
    pub line_color: Rgba,
    pub line_width_mpx: u32,
    pub polygon_color: Rgba,
}

impl GeoJsonStyle {
    /// The default style: blue points of five pixels, red lines of
    /// two pixels, half-transparent green fills.
    pub fn default_style() -> (s: GeoJsonStyle)
        ensures
            s.point_color == (Rgba { r: 0, g: 128, b: 255, a: 255 }),
            s.point_size_mpx == 5000,
            s.line_color == (Rgba { r: 255, g: 0, b: 0, a: 255 }),
            s.line_width_mpx == 2000,
            s.polygon_color == (Rgba { r: 0, g: 255, b: 0, a: 128 }),
    {
        GeoJsonStyle {
            point_color: Rgba { r: 0, g: 128, b: 255, a: 255 },
            point_size_mpx: 5000,
            line_color: Rgba { r: 255, g: 0, b: 0, a: 255 },
            line_width_mpx: 2000,
            polygon_color: Rgba { r: 0, g: 255, b: 0, a: 128 },
        }
    }
}

/// One geometry of the standard geographic object model, with
/// coordinates already normalized to latitude/longitude order and
/// clamped into valid ranges.
pub enum Geometry {
    Point(LatLng),
    MultiPoint(Vec<LatLng>),
    LineString(Vec<LatLng>),
    MultiLineString(Vec<Vec<LatLng>>),
    Polygon(Vec<Vec<LatLng>>),
    MultiPolygon(Vec<Vec<Vec<LatLng>>>),
}

/// A raw geometry feature: geometry, properties and optional id.
pub struct Feature {
    pub geometry: Geometry,
    pub properties: JsonValue,
    pub id: Option<JsonValue>,
}

/// A position within valid geographic ranges.
pub open spec fn pos_wf(p: LatLng) -> bool {
    &&& -90000000 <= p.lat <= 90000000
    &&& -180000000 <= p.lng <= 180000000
}

/// All positions of a vertex list within valid ranges.
pub open spec fn ring_wf(r: Seq<LatLng>) -> bool {
    forall|i: int| 0 <= i < r.len() ==> pos_wf(#[trigger] r[i])
}

/// All rings of a ring list well-formed.
pub open spec fn rings_wf(rs: Seq<Vec<LatLng>>) -> bool {
    forall|i: int| 0 <= i < rs.len() ==> ring_wf((#[trigger] rs[i])@)
}

impl Geometry {
    /// Every coordinate within valid geographic ranges.
    pub open spec fn wf(self) -> bool {
        match self {
            Geometry::Point(p) => pos_wf(p),
            Geometry::MultiPoint(ps) => ring_wf(ps@),
            Geometry::LineString(ps) => ring_wf(ps@),
            Geometry::MultiLineString(ls) => rings_wf(ls@),
            Geometry::Polygon(rs) => rings_wf(rs@),
            Geometry::MultiPolygon(polys) => forall|i: int|
                0 <= i < polys@.len() ==> rings_wf((#[trigger] polys@[i])@),
        }
    }
}

impl Feature {
    /// The geometry is well-formed.
    pub open spec fn wf(self) -> bool {
        self.geometry.wf()
    }
}

/// A layer of raw geometry features together with its render cache:
/// flattened points and lines, and one triangle list for all polygon
/// interiors. `cache_complete` records that triangulation consumed
/// every usable ring and stayed under the vertex ceiling, in which
/// case the triangles' signed areas sum exactly to the features'
/// total ring area - each outer ring's signed area plus its holes',
/// with every hole's winding resolved to oppose its outer ring so
/// hole magnitudes subtract.
pub struct GeoJsonLayer {
    pub features: Vec<Feature>,
    pub visible: bool,
    pub style: GeoJsonStyle,
    pub cached_points: Vec<PointFeature>,
    pub cached_lines: Vec<LineFeature>,
    pub cached_triangles: Vec<Triangle>,
    pub cache_complete: bool,
}

/// A ring is usable for triangulation when it has at least three
/// vertices and no more than the complexity cutoff.
pub open spec fn ring_usable(r: Seq<LatLng>) -> bool {
    3 <= r.len() <= 1000
}

/// Whether two signed areas wind the same way.
pub open spec fn same_orientation(a: int, b: int) -> bool {
    (a > 0 && b > 0) || (a < 0 && b < 0)
}

/// A hole ring with its winding resolved against the outer ring: a
/// hole wound the same way is reversed, so that every kept hole
/// opposes the outer ring and its signed area subtracts.
pub open spec fn oriented_hole(h: Seq<LatLng>, outer: Seq<LatLng>) -> Seq<LatLng> {
    if same_orientation(shoelace2(outer), shoelace2(h)) {
        crate::triangulate::rev_spec(h)
    } else {
        h
    }
}

/// A resolved hole never winds with the outer ring.
pub proof fn lemma_oriented_hole_opposes(h: Seq<LatLng>, outer: Seq<LatLng>)
    ensures
        !same_orientation(shoelace2(outer), shoelace2(oriented_hole(h, outer))),
{
    if same_orientation(shoelace2(outer), shoelace2(h)) {
        crate::triangulate::lemma_shoelace_reverse(h);
    }
}

/// The usable subsequence of a hole list, each hole's winding
/// resolved against the outer ring.
pub open spec fn filter_usable(rs: Seq<Seq<LatLng>>, outer: Seq<LatLng>) -> Seq<Seq<LatLng>>
    decreases rs.len(),
{
    if rs.len() == 0 {
        Seq::empty()
    } else {
        filter_usable(rs.drop_last(), outer) + (if ring_usable(rs.last()) {
            seq![oriented_hole(rs.last(), outer)]
        } else {
            Seq::empty()
        })
    }
}

/// The usable rings of one polygon: the outer ring gates the whole
/// polygon; usable holes follow, wound against it.
pub open spec fn usable_rings(rs: Seq<Seq<LatLng>>) -> Seq<Seq<LatLng>> {
    if rs.len() >= 1 && ring_usable(rs[0]) {
        seq![rs[0]] + filter_usable(rs.drop_first(), rs[0])
    } else {
        Seq::empty()
    }
}

/// The total signed ring area a polygon contributes to the cache.
pub open spec fn polygon_area(rs: Seq<Seq<LatLng>>) -> int {
    rings_area(usable_rings(rs))
}

/// The total signed ring area of one feature's polygons.
pub open spec fn feature_area(f: Feature) -> int {
    match f.geometry {
        Geometry::Polygon(rs) => polygon_area(rs@.map_values(|v: Vec<LatLng>| v@)),
        Geometry::MultiPolygon(polys) => multi_polygon_area(
            polys@.map_values(|rs: Vec<Vec<LatLng>>| rs@.map_values(|v: Vec<LatLng>| v@)),
        ),
        _ => 0,
    }
}

/// The total signed ring area of a list of polygons.
pub open spec fn multi_polygon_area(polys: Seq<Seq<Seq<LatLng>>>) -> int
    decreases polys.len(),
{
    if polys.len() == 0 {
        0
    } else {
        multi_polygon_area(polys.drop_last()) + polygon_area(polys.last())
    }
}

/// The total signed ring area of a feature list.
pub open spec fn features_area(fs: Seq<Feature>) -> int
    decreases fs.len(),
{
    if fs.len() == 0 {
        0
    } else {
        features_area(fs.drop_last()) + feature_area(fs.last())
    }
}


/// The mathematical shape of a geometry: its coordinates as
/// sequences.
pub enum GeoView {
    Point(LatLng),
    MultiPoint(Seq<LatLng>),
    LineString(Seq<LatLng>),
    MultiLineString(Seq<Seq<LatLng>>),
    Polygon(Seq<Seq<LatLng>>),
    MultiPolygon(Seq<Seq<Seq<LatLng>>>),
}

impl View for Geometry {
    type V = GeoView;

    open spec fn view(&self) -> GeoView {
        match *self {
            Geometry::Point(p) => GeoView::Point(p),
            Geometry::MultiPoint(ps) => GeoView::MultiPoint(ps@),
            Geometry::LineString(ps) => GeoView::LineString(ps@),
            Geometry::MultiLineString(ls) => GeoView::MultiLineString(
                ls@.map_values(|v: Vec<LatLng>| v@),
            ),
            Geometry::Polygon(rs) => GeoView::Polygon(rs@.map_values(|v: Vec<LatLng>| v@)),
            Geometry::MultiPolygon(polys) => GeoView::MultiPolygon(
                polys@.map_values(|rs: Vec<Vec<LatLng>>| rs@.map_values(|v: Vec<LatLng>| v@)),
            ),
        }
    }
}


/// The cache-relevant part of a point feature: position, size, color
/// and the deep view of its metadata.
pub open spec fn pf_view(p: PointFeature) -> (LatLng, u32, Rgba, JsonModel) {
    (p.pos, p.size_mpx, p.color, jm(p.meta))
}

/// The cache-relevant part of a line feature: vertices, color, width
/// and the deep view of its metadata.
pub open spec fn lf_view(l: LineFeature) -> (Seq<LatLng>, Rgba, u32, JsonModel) {
    (l.points@, l.color, l.width_mpx, jm(l.meta))
}

/// The cached points one feature contributes under a style.
pub open spec fn feature_points_spec(f: Feature, st: GeoJsonStyle) -> Seq<
    (LatLng, u32, Rgba, JsonModel),
> {
    match f.geometry@ {
        GeoView::Point(p) => seq![(p, st.point_size_mpx, st.point_color, jm(f.properties))],
        GeoView::MultiPoint(ps) => ps.map_values(
            |p: LatLng| (p, st.point_size_mpx, st.point_color, jm(f.properties)),
        ),
        _ => Seq::empty(),
    }
}

/// The cached lines one feature contributes under a style: line
/// strings of at least two points, and the outer-ring outline of
/// each polygon whose outer ring has at least three points.
pub open spec fn feature_lines_spec(f: Feature, st: GeoJsonStyle) -> Seq<
    (Seq<LatLng>, Rgba, u32, JsonModel),
> {
    match f.geometry@ {
        GeoView::LineString(ps) => if ps.len() >= 2 {
            seq![(ps, st.line_color, st.line_width_mpx, jm(f.properties))]
        } else {
            Seq::empty()
        },
        GeoView::MultiLineString(ls) => lines_entries_spec(ls, st, jm(f.properties)),
        GeoView::Polygon(rs) => if rs.len() >= 1 && rs[0].len() >= 3 {
            seq![(rs[0], st.line_color, st.line_width_mpx, jm(f.properties))]
        } else {
            Seq::empty()
        },
        GeoView::MultiPolygon(polys) => outlines_spec(polys, st, jm(f.properties)),
        _ => Seq::empty(),
    }
}

/// The line entries of a multi-line-string: members of at least two
/// points.
pub open spec fn lines_entries_spec(ls: Seq<Seq<LatLng>>, st: GeoJsonStyle, m: JsonModel)
    -> Seq<(Seq<LatLng>, Rgba, u32, JsonModel)>
    decreases ls.len(),
{
    if ls.len() == 0 {
        Seq::empty()
    } else {
        lines_entries_spec(ls.drop_last(), st, m) + (if ls.last().len() >= 2 {
            seq![(ls.last(), st.line_color, st.line_width_mpx, m)]
        } else {
            Seq::empty()
        })
    }
}

/// The outline entries of a multi-polygon: each member's outer ring
/// when it has at least three points.
pub open spec fn outlines_spec(polys: Seq<Seq<Seq<LatLng>>>, st: GeoJsonStyle, m: JsonModel)
    -> Seq<(Seq<LatLng>, Rgba, u32, JsonModel)>
    decreases polys.len(),
{
    if polys.len() == 0 {
        Seq::empty()
    } else {
        outlines_spec(polys.drop_last(), st, m) + (if polys.last().len() >= 1
            && polys.last()[0].len() >= 3 {
            seq![(polys.last()[0], st.line_color, st.line_width_mpx, m)]
        } else {
            Seq::empty()
        })
    }
}

/// The cached points of a feature list.
pub open spec fn features_points_spec(fs: Seq<Feature>, st: GeoJsonStyle) -> Seq<
    (LatLng, u32, Rgba, JsonModel),
>
    decreases fs.len(),
{
    if fs.len() == 0 {
        Seq::empty()
    } else {
        features_points_spec(fs.drop_last(), st) + feature_points_spec(fs.last(), st)
    }
}

/// The cached lines of a feature list.
pub open spec fn features_lines_spec(fs: Seq<Feature>, st: GeoJsonStyle) -> Seq<
    (Seq<LatLng>, Rgba, u32, JsonModel),
>
    decreases fs.len(),
{
    if fs.len() == 0 {
        Seq::empty()
    } else {
        features_lines_spec(fs.drop_last(), st) + feature_lines_spec(fs.last(), st)
    }
}


/// Copy a vertex list.
fn clone_ring(v: &Vec<LatLng>) -> (r: Vec<LatLng>)
    ensures
        r@ == v@,
{
    let mut out: Vec<LatLng> = Vec::new();
    let mut i: usize = 0;
    while i < v.len()
        invariant
            i <= v@.len(),
            out@ == v@.take(i as int),
        decreases v@.len() - i,
    {
        out.push(v[i]);
        proof {
            assert(out@ =~= v@.take(i as int + 1));
        }
        i = i + 1;
    }
    proof {
        assert(out@ =~= v@);
    }
    out
}

/// Triangulate one polygon's rings: the outer ring gates the whole
/// polygon, over-complex rings are skipped, each hole's winding is
/// resolved against the outer ring, and when clipping consumes
/// everything the triangle areas sum to the polygon's usable ring
/// area - the outer ring's signed area plus hole areas that all
/// oppose it, so hole magnitudes subtract.
pub fn triangulate_polygon_rings(rings: &Vec<Vec<LatLng>>) -> (res: (Vec<Triangle>, bool))
    requires
        rings_wf(rings@),
    ensures
        res.1 ==> tri_sum(res.0@) == polygon_area(rings@.map_values(|v: Vec<LatLng>| v@)),
        forall|k: int| 0 <= k < res.0@.len() ==> (#[trigger] res.0@[k]).bounded(),
        rings@.len() == 0 || (rings@[0])@.len() < 3 || (rings@[0])@.len() > 1000
            ==> res.0@.len() == 0,
        rings@.len() == 1 && 3 <= (rings@[0])@.len() <= 1000 ==> res.0@.len() <= (
        rings@[0])@.len() - 2,
        rings@.len() == 1 && 3 <= (rings@[0])@.len() <= 1000 && res.1 ==> res.0@.len()
            == (rings@[0])@.len() - 2,
{
    let ghost rviews = rings@.map_values(|v: Vec<LatLng>| v@);
    if rings.len() == 0 || rings[0].len() < 3 || rings[0].len() > 1000 {
        proof {
            if rviews.len() >= 1 {
                assert(rviews[0] == rings@[0]@);
            }
            assert(rings_area(Seq::<Seq<LatLng>>::empty()) == 0);
        }
        return (Vec::new(), rings.len() == 0 || !(rings[0].len() > 1000));
    }
    proof {
        assert(ring_wf(rings@[0]@));
        assert forall|k: int| 0 <= k < rings@[0]@.len() implies (
        #[trigger] rings@[0]@[k]).bounded() by {
            assert(pos_wf(rings@[0]@[k]));
        }
    }
    let outer_area: i128 = crate::triangulate::ring_area2(&rings[0]);
    let mut filtered: Vec<Vec<LatLng>> = Vec::new();
    filtered.push(clone_ring(&rings[0]));
    proof {
        assert(filtered@.map_values(|v: Vec<LatLng>| v@) =~= seq![rviews[0]] + filter_usable(
            rviews.drop_first().take(0),
            rviews[0],
        ));
    }
    let mut h: usize = 1;
    while h < rings.len()
        invariant
            1 <= h <= rings@.len(),
            rviews == rings@.map_values(|v: Vec<LatLng>| v@),
            rviews.len() == rings@.len(),
            rings@.len() == 1 ==> filtered@.len() == 1 && filtered@[0]@ == rings@[0]@,
            outer_area == shoelace2(rviews[0]),
            filtered@.map_values(|v: Vec<LatLng>| v@) == seq![rviews[0]] + filter_usable(
                rviews.drop_first().take(h as int - 1),
                rviews[0],
            ),
            rings_wf(rings@),
            rings_wf(filtered@),
        decreases rings@.len() - h,
    {
        let hole = &rings[h];
        proof {
            assert(rviews.drop_first().take(h as int).drop_last() =~= rviews.drop_first().take(
                h as int - 1,
            ));
            assert(rviews.drop_first().take(h as int).last() == rviews[h as int]);
            assert(rviews[h as int] == rings@[h as int]@);
        }
        if hole.len() >= 3 && hole.len() <= 1000 {
            proof {
                assert(ring_wf(rings@[h as int]@));
                assert forall|k: int| 0 <= k < hole@.len() implies (
                #[trigger] hole@[k]).bounded() by {
                    assert(pos_wf(hole@[k]));
                }
            }
            let hole_area: i128 = crate::triangulate::ring_area2(hole);
            let oriented: Vec<LatLng> = if (outer_area > 0 && hole_area > 0) || (outer_area
                < 0 && hole_area < 0) {
                crate::triangulate::reverse_ring(hole)
            } else {
                clone_ring(hole)
            };
            proof {
                assert(oriented@ == oriented_hole(rings@[h as int]@, rviews[0]));
                assert forall|k: int| 0 <= k < oriented@.len() implies pos_wf(
                    #[trigger] oriented@[k],
                ) by {
                    if same_orientation(shoelace2(rviews[0]), shoelace2(rings@[h as int]@)) {
                        assert(oriented@[k] == rings@[h as int]@[oriented@.len() - 1 - k]);
                    } else {
                        assert(oriented@[k] == rings@[h as int]@[k]);
                    }
                }
            }
            let ghost before = filtered@;
            filtered.push(oriented);
            proof {
                assert(filtered@.map_values(|v: Vec<LatLng>| v@) =~= before.map_values(
                    |v: Vec<LatLng>| v@,
                ).push(oriented_hole(rings@[h as int]@, rviews[0])));
            }
        }
        h = h + 1;
    }
    proof {
        assert(rviews.drop_first().take(rviews.drop_first().len() as int) =~= rviews.drop_first());
        assert(filtered@.map_values(|v: Vec<LatLng>| v@) == usable_rings(rviews));
        assert forall|r: int, k: int|
            0 <= r < filtered@.len() && 0 <= k < (#[trigger] filtered@[r])@.len() implies (
        #[trigger] filtered@[r]@[k]).bounded() by {
            assert(ring_wf(filtered@[r]@));
            assert(pos_wf(filtered@[r]@[k]));
        }
    }
    let res = triangulate_rings(&filtered);
    res
}

/// Rebuild the render cache for a feature list under a style: the
/// flattened points and lines are exactly the features'
/// contributions, and when the triangulation completed under the
/// vertex ceiling the triangle areas sum to the features' total ring
/// area.
pub fn rebuild_cache(features: &Vec<Feature>, style: GeoJsonStyle) -> (r: (
    Vec<PointFeature>,
    Vec<LineFeature>,
    Vec<Triangle>,
    bool,
))
    requires
        forall|i: int| 0 <= i < features@.len() ==> (#[trigger] features@[i]).wf(),
    ensures
        r.0@.map_values(|p: PointFeature| pf_view(p)) == features_points_spec(
            features@,
            style,
        ),
        r.1@.map_values(|l: LineFeature| lf_view(l)) == features_lines_spec(
            features@,
            style,
        ),
        r.3 ==> tri_sum(r.2@) == features_area(features@),
        forall|k: int| 0 <= k < r.2@.len() ==> (#[trigger] r.2@[k]).bounded(),
{
    let mut pts: Vec<PointFeature> = Vec::new();
    let mut lns: Vec<LineFeature> = Vec::new();
    let mut tris: Vec<Triangle> = Vec::new();
    let mut complete: bool = true;
    let mut i: usize = 0;
    while i < features.len()
        invariant
            i <= features@.len(),
            forall|k: int| 0 <= k < features@.len() ==> (#[trigger] features@[k]).wf(),
            pts@.map_values(|p: PointFeature| pf_view(p)) == features_points_spec(
                features@.take(i as int),
                style,
            ),
            lns@.map_values(|l: LineFeature| lf_view(l)) == features_lines_spec(
                features@.take(i as int),
                style,
            ),
            complete ==> tri_sum(tris@) == features_area(features@.take(i as int)),
            forall|k: int| 0 <= k < tris@.len() ==> (#[trigger] tris@[k]).bounded(),
        decreases features@.len() - i,
    {
        let f = vstd::std_specs::vec::vec_index(features, i);
        let ghost fts = features@.take(i as int + 1);
        proof {
            assert(fts.drop_last() =~= features@.take(i as int));
            assert(fts.last() == features@[i as int]);
        }
        let ghost pts_before = pts@;
        let ghost lns_before = lns@;
        let ghost tris_before = tris@;
        let ghost complete_before = complete;
        match &f.geometry {
            Geometry::Point(p) => {
                pts.push(
                    PointFeature {
                        pos: *p,
                        size_mpx: style.point_size_mpx,
                        color: style.point_color,
                        meta: crate::geojson::clone_json(&f.properties),
                    },
                );
                proof {
                    assert(pts@.map_values(|q: PointFeature| pf_view(q)) =~= pts_before.map_values(
                        |q: PointFeature| pf_view(q),
                    ) + feature_points_spec(features@[i as int], style));
                }
            },
            Geometry::MultiPoint(ps) => {
                let mut k: usize = 0;
                while k < ps.len()
                    invariant
                        k <= ps@.len(),
                        i < features@.len(),
                        *f == features@[i as int],
                        features@[i as int].geometry == Geometry::MultiPoint(*ps),
                        pts@.map_values(|q: PointFeature| pf_view(q)) == pts_before.map_values(
                            |q: PointFeature| pf_view(q),
                        ) + ps@.take(k as int).map_values(
                            |p: LatLng| (p, style.point_size_mpx, style.point_color, jm(
                                features@[i as int].properties,
                            )),
                        ),
                    decreases ps@.len() - k,
                {
                    let ghost pts_mid = pts@;
                    pts.push(
                        PointFeature {
                            pos: ps[k],
                            size_mpx: style.point_size_mpx,
                            color: style.point_color,
                            meta: crate::geojson::clone_json(&f.properties),
                        },
                    );
                    proof {
                        assert(pts@ =~= pts_mid.push(pts@.last()));
                        assert(pts@.map_values(|q: PointFeature| pf_view(q))
                            =~= pts_mid.map_values(|q: PointFeature| pf_view(q)).push(
                            pf_view(pts@.last()),
                        ));
                        assert(pts@.map_values(|q: PointFeature| pf_view(q))
                            =~= pts_before.map_values(|q: PointFeature| pf_view(q))
                            + ps@.take(k as int + 1).map_values(
                            |p: LatLng| (p, style.point_size_mpx, style.point_color, jm(
                                features@[i as int].properties,
                            )),
                        ));
                    }
                    k = k + 1;
                }
                proof {
                    assert(ps@.take(ps@.len() as int) =~= ps@);
                }
            },
            Geometry::LineString(ps) => {
                if ps.len() >= 2 {
                    lns.push(
                        LineFeature {
                            points: clone_ring(ps),
                            color: style.line_color,
                            width_mpx: style.line_width_mpx,
                            meta: crate::geojson::clone_json(&f.properties),
                        },
                    );
                    proof {
                        assert(lns@.map_values(|l: LineFeature| lf_view(l))
                            =~= lns_before.map_values(|l: LineFeature| lf_view(l))
                            + feature_lines_spec(features@[i as int], style));
                    }
                }
            },
            Geometry::MultiLineString(ls) => {
                let mut k: usize = 0;
                while k < ls.len()
                    invariant
                        k <= ls@.len(),
                        i < features@.len(),
                        *f == features@[i as int],
                        features@[i as int].geometry == Geometry::MultiLineString(*ls),
                        lns@.map_values(|l: LineFeature| lf_view(l)) == lns_before.map_values(
                            |l: LineFeature| lf_view(l),
                        ) + lines_entries_spec(
                            ls@.map_values(|v: Vec<LatLng>| v@).take(k as int),
                            style,
                            jm(features@[i as int].properties),
                        ),
                    decreases ls@.len() - k,
                {
                    let ghost lviews = ls@.map_values(|v: Vec<LatLng>| v@);
                    proof {
                        assert(lviews.take(k as int + 1).drop_last() =~= lviews.take(
                            k as int,
                        ));
                        assert(lviews.take(k as int + 1).last() == ls@[k as int]@);
                    }
                    let line = &ls[k];
                    if line.len() >= 2 {
                        let ghost lb = lns@;
                        lns.push(
                            LineFeature {
                                points: clone_ring(line),
                                color: style.line_color,
                                width_mpx: style.line_width_mpx,
                                meta: crate::geojson::clone_json(&f.properties),
                            },
                        );
                        proof {
                            assert(lns@.map_values(|l: LineFeature| lf_view(l))
                                =~= lb.map_values(|l: LineFeature| lf_view(l)).push(
                                (
                                    ls@[k as int]@,
                                    style.line_color,
                                    style.line_width_mpx,
                                    jm(features@[i as int].properties),
                                ),
                            ));
                        }
                    }
                    k = k + 1;
                }
                proof {
                    let lviews = ls@.map_values(|v: Vec<LatLng>| v@);
                    assert(lviews.take(lviews.len() as int) =~= lviews);
                }
            },
            Geometry::Polygon(rs) => {
                if tris.len() >= 333334 {
                    complete = false;
                } else {
                    let (mut newt, ok) = triangulate_polygon_rings(rs);
                    proof {
                        crate::triangulate::lemma_tri_sum_append(tris@, newt@);
                    }
                    if !ok {
                        complete = false;
                    }
                    tris.append(&mut newt);
                }
                if rs.len() >= 1 && rs[0].len() >= 3 {
                    lns.push(
                        LineFeature {
                            points: clone_ring(&rs[0]),
                            color: style.line_color,
                            width_mpx: style.line_width_mpx,
                            meta: crate::geojson::clone_json(&f.properties),
                        },
                    );
                    proof {
                        assert(lns@.map_values(|l: LineFeature| lf_view(l))
                            =~= lns_before.map_values(|l: LineFeature| lf_view(l))
                            + feature_lines_spec(features@[i as int], style));
                    }
                } else {
                    proof {
                        assert(lns@.map_values(|l: LineFeature| lf_view(l))
                            =~= lns_before.map_values(|l: LineFeature| lf_view(l))
                            + feature_lines_spec(features@[i as int], style));
                    }
                }
            },
            Geometry::MultiPolygon(polys) => {
                let ghost pviews = polys@.map_values(
                    |rs: Vec<Vec<LatLng>>| rs@.map_values(|v: Vec<LatLng>| v@),
                );
                proof {
                    assert(f.wf());
                    assert(f.geometry == Geometry::MultiPolygon(*polys));
                    assert forall|m: int|
                        0 <= m < polys@.len() implies rings_wf((#[trigger] polys@[m])@) by {
                        assert(f.geometry.wf());
                    }
                }
                let mut k: usize = 0;
                while k < polys.len()
                    invariant
                        k <= polys@.len(),
                        i < features@.len(),
                        *f == features@[i as int],
                        features@[i as int].geometry == Geometry::MultiPolygon(*polys),
                        features@[i as int].wf(),
                        forall|m: int|
                            0 <= m < polys@.len() ==> rings_wf((#[trigger] polys@[m])@),
                        pviews == polys@.map_values(
                            |rs: Vec<Vec<LatLng>>| rs@.map_values(|v: Vec<LatLng>| v@),
                        ),
                        complete ==> tri_sum(tris@) == features_area(
                            features@.take(i as int),
                        ) + multi_polygon_area(pviews.take(k as int)),
                        forall|m: int| 0 <= m < tris@.len() ==> (#[trigger] tris@[m]).bounded(),
                        lns@.map_values(|l: LineFeature| lf_view(l)) == lns_before.map_values(
                            |l: LineFeature| lf_view(l),
                        ) + outlines_spec(pviews.take(k as int), style,
                            jm(features@[i as int].properties)),
                        complete ==> complete_before,
                        complete_before ==> tri_sum(tris_before) == features_area(
                            features@.take(i as int),
                        ),
                    decreases polys@.len() - k,
                {
                    proof {
                        assert(pviews.take(k as int + 1).drop_last() =~= pviews.take(
                            k as int,
                        ));
                        assert(pviews.take(k as int + 1).last() == pviews[k as int]);
                        assert(pviews[k as int] == polys@[k as int]@.map_values(
                            |v: Vec<LatLng>| v@,
                        ));
                    }
                    let rs = &polys[k];
                    proof {
                        assert(rings_wf((polys@[k as int])@));
                    }
                    if tris.len() >= 333334 {
                        complete = false;
                    } else {
                        let (mut newt, ok) = triangulate_polygon_rings(rs);
                        proof {
                            crate::triangulate::lemma_tri_sum_append(tris@, newt@);
                        }
                        if !ok {
                            complete = false;
                        }
                        tris.append(&mut newt);
                    }
                    if rs.len() >= 1 && rs[0].len() >= 3 {
                        let ghost lb = lns@;
                        lns.push(
                            LineFeature {
                                points: clone_ring(&rs[0]),
                                color: style.line_color,
                                width_mpx: style.line_width_mpx,
                                meta: crate::geojson::clone_json(&f.properties),
                            },
                        );
                        proof {
                            assert(lns@.map_values(|l: LineFeature| lf_view(l))
                                =~= lb.map_values(|l: LineFeature| lf_view(l)).push(
                                (
                                    pviews[k as int][0],
                                    style.line_color,
                                    style.line_width_mpx,
                                    jm(features@[i as int].properties),
                                ),
                            ));
                        }
                    }
                    k = k + 1;
                }
                proof {
                    assert(pviews.take(pviews.len() as int) =~= pviews);
                }
            },
        }
        proof {
            assert(pts@.map_values(|q: PointFeature| pf_view(q)) =~= features_points_spec(
                fts,
                style,
            ));
            assert(lns@.map_values(|l: LineFeature| lf_view(l)) =~= features_lines_spec(
                fts,
                style,
            ));
        }
        i = i + 1;
    }
    proof {
        assert(features@.take(features@.len() as int) =~= features@);
    }
    (pts, lns, tris, complete)
}

} // verus!



