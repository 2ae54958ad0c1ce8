//! Polygon triangulation by ear clipping over exact integer
//! coordinates, with hole support by splicing each hole ring into the
//! outer ring along a bridge edge. The central law: when clipping
//! consumes the whole ring, the signed areas of the produced
//! triangles sum exactly to the ring's shoelace area, and a spliced
//! ring's area is the sum of its parts' areas (the bridge edges
//! cancel), so a polygon with holes triangulates to outer minus
//! holes.

use vstd::prelude::*;
use vstd::seq_lib::*;
use crate::geo::LatLng;

verus! {

/// One shoelace term of the directed edge from `a` to `b`:
/// `x_a * y_b - x_b * y_a` with longitude as x and latitude as y.
pub open spec fn edge_cross(a: LatLng, b: LatLng) -> int {
    a.lng * b.lat - b.lng * a.lat
}

/// The open-chain shoelace sum of consecutive vertices.
pub open spec fn chain(s: Seq<LatLng>) -> int
    decreases s.len(),
{
    if s.len() < 2 {
        0
    } else {
        chain(s.drop_last()) + edge_cross(s[s.len() - 2], s[s.len() - 1])
    }
}

/// Twice the signed area of the closed ring through the vertices:
/// the open chain plus the closing edge.
pub open spec fn shoelace2(s: Seq<LatLng>) -> int {
    if s.len() < 2 {
        0
    } else {
        chain(s) + edge_cross(s[s.len() - 1], s[0])
    }
}

/// Twice the signed area of a triangle.
pub open spec fn tri2(a: LatLng, b: LatLng, c: LatLng) -> int {
    edge_cross(a, b) + edge_cross(b, c) + edge_cross(c, a)
}

/// A triangle of geographic vertices.
#[derive(Clone, Copy, Debug, PartialEq, Eq, Structural)]
pub struct Triangle {
    pub a: LatLng,
    pub b: LatLng,
    pub c: LatLng,
}

impl Triangle {
    /// All three corners bounded.
    pub open spec fn bounded(self) -> bool {
        self.a.bounded() && self.b.bounded() && self.c.bounded()
    }
}

/// The sum of twice-signed areas over a triangle list.
pub open spec fn tri_sum(s: Seq<Triangle>) -> int
    decreases s.len(),
{
    if s.len() == 0 {
        0
    } else {
        tri_sum(s.drop_last()) + tri2(s.last().a, s.last().b, s.last().c)
    }
}

/// Concatenating vertex chains adds one connecting edge.
proof fn lemma_chain_append(s1: Seq<LatLng>, s2: Seq<LatLng>)
    requires
        s1.len() >= 1,
        s2.len() >= 1,
    ensures
        chain(s1 + s2) == chain(s1) + edge_cross(s1.last(), s2.first()) + chain(s2),
    decreases s2.len(),
{
    if s2.len() == 1 {
        assert((s1 + s2).drop_last() =~= s1);
        assert((s1 + s2).len() >= 2);
        assert((s1 + s2)[(s1 + s2).len() - 2] == s1.last());
        assert((s1 + s2)[(s1 + s2).len() - 1] == s2.first());
    } else {
        assert((s1 + s2).drop_last() =~= s1 + s2.drop_last());
        lemma_chain_append(s1, s2.drop_last());
        assert((s1 + s2)[(s1 + s2).len() - 2] == s2[s2.len() - 2]);
        assert((s1 + s2)[(s1 + s2).len() - 1] == s2[s2.len() - 1]);
        assert(s2.drop_last().first() == s2.first());
    }
}

/// Removing an interior vertex from a chain replaces its two edges by
/// one shortcut edge.
proof fn lemma_chain_remove(s: Seq<LatLng>, i: int)
    requires
        s.len() >= 3,
        1 <= i <= s.len() - 2,
    ensures
        chain(s.remove(i)) == chain(s) - edge_cross(s[i - 1], s[i]) - edge_cross(
            s[i],
            s[i + 1],
        ) + edge_cross(s[i - 1], s[i + 1]),
    decreases s.len(),
{
    if i == s.len() - 2 {
        assert(s.remove(i).drop_last() =~= s.drop_last().drop_last());
        assert(s.remove(i)[s.remove(i).len() - 2] == s[i - 1]);
        assert(s.remove(i)[s.remove(i).len() - 1] == s[i + 1]);
        assert(chain(s.remove(i)) == chain(s.drop_last().drop_last()) + edge_cross(
            s[i - 1],
            s[i + 1],
        ));
        assert(chain(s) == chain(s.drop_last()) + edge_cross(s[i], s[i + 1]));
        if s.len() == 3 {
            assert(s.drop_last().drop_last() =~= seq![s[0]]);
            assert(chain(s.drop_last()) == chain(s.drop_last().drop_last()) + edge_cross(
                s[i - 1],
                s[i],
            ));
        } else {
            assert(s.drop_last()[s.drop_last().len() - 2] == s[i - 1]);
            assert(s.drop_last()[s.drop_last().len() - 1] == s[i]);
            assert(chain(s.drop_last()) == chain(s.drop_last().drop_last()) + edge_cross(
                s[i - 1],
                s[i],
            ));
        }
    } else {
        assert(s.remove(i).drop_last() =~= s.drop_last().remove(i));
        lemma_chain_remove(s.drop_last(), i);
        assert(s.remove(i)[s.remove(i).len() - 2] == s[s.len() - 2]);
        assert(s.remove(i)[s.remove(i).len() - 1] == s[s.len() - 1]);
        assert(chain(s.remove(i)) == chain(s.drop_last().remove(i)) + edge_cross(
            s[s.len() - 2],
            s[s.len() - 1],
        ));
        assert(chain(s) == chain(s.drop_last()) + edge_cross(s[s.len() - 2], s[s.len() - 1]));
        assert(s.drop_last()[i - 1] == s[i - 1]);
        assert(s.drop_last()[i] == s[i]);
        assert(s.drop_last()[i + 1] == s[i + 1]);
    }
}

/// Clipping the ear at an interior vertex takes exactly the ear's
/// signed area out of the ring.
proof fn lemma_shoelace_remove(s: Seq<LatLng>, i: int)
    requires
        s.len() >= 3,
        1 <= i <= s.len() - 2,
    ensures
        shoelace2(s.remove(i)) == shoelace2(s) - tri2(s[i - 1], s[i], s[i + 1]),
{
    lemma_chain_remove(s, i);
    assert(s.remove(i)[0] == s[0]);
    assert(s.remove(i)[s.remove(i).len() - 1] == s[s.len() - 1]);
}

/// Splicing a second ring into a ring along a bridge through both
/// first vertices keeps the total signed area: the two bridge edges
/// cancel each other.
pub proof fn lemma_splice_area(outer: Seq<LatLng>, hole: Seq<LatLng>)
    requires
        outer.len() >= 3,
        hole.len() >= 3,
    ensures
        shoelace2(splice(outer, hole)) == shoelace2(outer) + shoelace2(hole),
{
    let a = seq![outer[0]] + hole + seq![hole[0]];
    let comb = a + outer;
    lemma_chain_append(seq![outer[0]] + hole, seq![hole[0]]);
    assert((seq![outer[0]] + hole + seq![hole[0]]) =~= (seq![outer[0]] + hole)
        + seq![hole[0]]);
    lemma_chain_append(seq![outer[0]], hole);
    lemma_chain_append(a, outer);
    assert(comb[comb.len() - 1] == outer[outer.len() - 1]);
    assert(comb[0] == outer[0]);
    assert((seq![outer[0]] + hole).last() == hole[hole.len() - 1]);
    assert((seq![outer[0]] + hole).first() == outer[0]);
    assert(a.last() == hole[0]);
    assert(a.first() == outer[0]);
    assert(chain(seq![outer[0]]) == 0);
    assert(chain(seq![hole[0]]) == 0);
}

/// The ring that results from splicing `hole` into `outer` with a
/// bridge between their first vertices.
pub open spec fn splice(outer: Seq<LatLng>, hole: Seq<LatLng>) -> Seq<LatLng> {
    (seq![outer[0]] + hole + seq![hole[0]]) + outer
}


/// Twice the signed turn at corner `c` of the path `p -> c -> n`.
pub open spec fn turn2(p: LatLng, c: LatLng, n: LatLng) -> int {
    (c.lng - p.lng) * (n.lat - c.lat) - (c.lat - p.lat) * (n.lng - c.lng)
}

/// Product of two bounded coordinates.
fn mul_coord(a: i128, b: i128) -> (r: i128)
    requires
        -1000000000 <= a <= 1000000000,
        -1000000000 <= b <= 1000000000,
    ensures
        r == a * b,
        -1000000000000000000 <= r <= 1000000000000000000,
{
    proof {
        assert(-1000000000000000000 <= a * b <= 1000000000000000000) by (nonlinear_arith)
            requires
                -1000000000 <= a <= 1000000000,
                -1000000000 <= b <= 1000000000,
        ;
    }
    a * b
}

/// Whether the corner at `c` turns counterclockwise (a convex corner
/// of a counterclockwise ring).
fn is_convex(p: LatLng, c: LatLng, n: LatLng) -> (r: bool)
    requires
        p.bounded(),
        c.bounded(),
        n.bounded(),
    ensures
        r == (turn2(p, c, n) > 0),
{
    let dx1: i128 = (c.lng - p.lng) as i128;
    let dy1: i128 = (c.lat - p.lat) as i128;
    let dx2: i128 = (n.lng - c.lng) as i128;
    let dy2: i128 = (n.lat - c.lat) as i128;
    mul_coord(dx1, dy2) - mul_coord(dy1, dx2) > 0
}

/// Whether `pt` lies inside or on the triangle `a b c`, by sign
/// tests against the three directed edges.
fn point_in_triangle(pt: LatLng, a: LatLng, b: LatLng, c: LatLng) -> (r: bool)
    requires
        pt.bounded(),
        a.bounded(),
        b.bounded(),
        c.bounded(),
    ensures
        r == {
            let d1 = turn2(a, b, pt);
            let d2 = turn2(b, c, pt);
            let d3 = turn2(c, a, pt);
            !((d1 < 0 || d2 < 0 || d3 < 0) && (d1 > 0 || d2 > 0 || d3 > 0))
        },
{
    let d1: i128 = mul_coord((b.lng - a.lng) as i128, (pt.lat - b.lat) as i128) - mul_coord(
        (b.lat - a.lat) as i128,
        (pt.lng - b.lng) as i128,
    );
    let d2: i128 = mul_coord((c.lng - b.lng) as i128, (pt.lat - c.lat) as i128) - mul_coord(
        (c.lat - b.lat) as i128,
        (pt.lng - c.lng) as i128,
    );
    let d3: i128 = mul_coord((a.lng - c.lng) as i128, (pt.lat - a.lat) as i128) - mul_coord(
        (a.lat - c.lat) as i128,
        (pt.lng - a.lng) as i128,
    );
    let has_neg: bool = d1 < 0 || d2 < 0 || d3 < 0;
    let has_pos: bool = d1 > 0 || d2 > 0 || d3 > 0;
    !(has_neg && has_pos)
}

/// Whether any ring vertex other than the ear's three corners lies
/// inside the candidate ear triangle.
fn any_vertex_inside(verts: &Vec<LatLng>, i: usize) -> (r: bool)
    requires
        1 <= i,
        i + 1 < verts@.len(),
        forall|k: int| 0 <= k < verts@.len() ==> (#[trigger] verts@[k]).bounded(),
{
    let n = verts.len();
    let a = verts[i - 1];
    let b = verts[i];
    let c = verts[i + 1];
    let mut j: usize = 0;
    let mut hit: bool = false;
    while j < verts.len()
        invariant
            j <= verts@.len(),
            1 <= i,
            i + 1 < verts@.len(),
            forall|k: int| 0 <= k < verts@.len() ==> (#[trigger] verts@[k]).bounded(),
            a == verts@[i - 1],
            b == verts@[i as int],
            c == verts@[i + 1],
        decreases verts@.len() - j,
    {
        let v = verts[j];
        if !(v == a) && !(v == b) && !(v == c) {
            if point_in_triangle(v, a, b, c) {
                hit = true;
            }
        }
        j = j + 1;
    }
    hit
}

/// Triangulate a single ring by ear clipping at interior vertices.
/// When the second result is true the clip consumed the whole ring
/// and the signed areas of the triangles sum exactly to the ring's
/// shoelace area; a ring of fewer than three vertices yields nothing.
pub fn triangulate_ring(ring: &Vec<LatLng>) -> (res: (Vec<Triangle>, bool))
    requires
        forall|k: int| 0 <= k < ring@.len() ==> (#[trigger] ring@[k]).bounded(),
    ensures
        res.1 ==> tri_sum(res.0@) == shoelace2(ring@),
        forall|k: int| 0 <= k < res.0@.len() ==> (#[trigger] res.0@[k]).bounded(),
        ring@.len() < 3 ==> res.0@.len() == 0 && !res.1,
        ring@.len() >= 3 ==> res.0@.len() <= ring@.len() - 2,
        res.1 && ring@.len() >= 3 ==> res.0@.len() == ring@.len() - 2,
        ring@.len() == 3 ==> res.1,
        forall|k: int|
            0 <= k < res.0@.len() ==> ring@.contains((#[trigger] res.0@[k]).a)
                && ring@.contains(res.0@[k].b) && ring@.contains(res.0@[k].c),
{
    if ring.len() < 3 {
        return (Vec::new(), false);
    }
    let mut verts: Vec<LatLng> = Vec::new();
    let mut i: usize = 0;
    while i < ring.len()
        invariant
            i <= ring@.len(),
            verts@ == ring@.take(i as int),
            forall|k: int| 0 <= k < ring@.len() ==> (#[trigger] ring@[k]).bounded(),
        decreases ring@.len() - i,
    {
        verts.push(ring[i]);
        proof {
            assert(verts@ =~= ring@.take(i as int + 1));
        }
        i = i + 1;
    }
    proof {
        assert(verts@ =~= ring@);
        assert forall|k: int| 0 <= k < verts@.len() implies ring@.contains(
            #[trigger] verts@[k],
        ) by {
            assert(ring@[k] == verts@[k]);
        }
    }
    let mut tris: Vec<Triangle> = Vec::new();
    let mut complete: bool = true;
    while verts.len() > 3 && complete
        invariant
            verts@.len() >= 3,
            ring@.len() >= 3,
            tris@.len() + verts@.len() == ring@.len(),
            ring@.len() == 3 ==> complete,
            tri_sum(tris@) + shoelace2(verts@) == shoelace2(ring@),
            forall|k: int| 0 <= k < verts@.len() ==> (#[trigger] verts@[k]).bounded(),
            forall|k: int| 0 <= k < tris@.len() ==> (#[trigger] tris@[k]).bounded(),
            forall|k: int| 0 <= k < verts@.len() ==> ring@.contains(#[trigger] verts@[k]),
            forall|k: int|
                0 <= k < tris@.len() ==> ring@.contains((#[trigger] tris@[k]).a)
                    && ring@.contains(tris@[k].b) && ring@.contains(tris@[k].c),
        decreases verts@.len(), (if complete { 1int } else { 0int }),
    {
        let mut ear: usize = 0;
        let mut found: bool = false;
        let mut j: usize = 1;
        while j < verts.len() - 1
            invariant
                1 <= j <= verts@.len(),
                verts@.len() >= 3,
                found ==> 1 <= ear && ear + 1 < verts@.len(),
                forall|k: int| 0 <= k < verts@.len() ==> (#[trigger] verts@[k]).bounded(),
            decreases verts@.len() - j,
        {
            if !found && is_convex(verts[j - 1], verts[j], verts[j + 1]) && !any_vertex_inside(
                &verts,
                j,
            ) {
                ear = j;
                found = true;
            }
            j = j + 1;
        }
        if found {
            let p = verts[ear - 1];
            let c = verts[ear];
            let n = verts[ear + 1];
            let ghost verts_before = verts@;
            let ghost tris_before = tris@;
            tris.push(Triangle { a: p, b: c, c: n });
            verts.remove(ear);
            proof {
                assert(tris@.drop_last() =~= tris_before);
                assert(tris@.last() == (Triangle { a: p, b: c, c: n }));
                assert(tri_sum(tris@) == tri_sum(tris_before) + tri2(p, c, n));
                lemma_shoelace_remove(verts_before, ear as int);
                assert forall|k: int| 0 <= k < verts@.len() implies ring@.contains(
                    #[trigger] verts@[k],
                ) by {
                    assert(verts@[k] == verts_before.remove(ear as int)[k]);
                    if k < ear as int {
                        assert(verts@[k] == verts_before[k]);
                    } else {
                        assert(verts@[k] == verts_before[k + 1]);
                    }
                }
            }
        } else {
            complete = false;
        }
    }
    if complete {
        proof {
            assert(verts@.len() == 3);
        }
        let v0 = verts[0];
        let v1 = verts[1];
        let v2 = verts[2];
        let ghost tris_before = tris@;
        tris.push(Triangle { a: v0, b: v1, c: v2 });
        proof {
            assert(tris@.drop_last() =~= tris_before);
            assert(tri_sum(tris@) == tri_sum(tris_before) + tri2(v0, v1, v2));
            let vs = verts@;
            assert(vs.len() == 3);
            assert(chain(vs.drop_last()) == chain(vs.drop_last().drop_last()) + edge_cross(
                vs[0],
                vs[1],
            ));
            assert(vs.drop_last().drop_last().len() < 2);
            assert(chain(vs) == chain(vs.drop_last()) + edge_cross(vs[1], vs[2]));
            assert(shoelace2(vs) == tri2(v0, v1, v2));
        }
    }
    (tris, complete)
}

/// The total shoelace area of the rings of a polygon, counting every
/// ring with at least three vertices.
pub open spec fn rings_area(rs: Seq<Seq<LatLng>>) -> int
    decreases rs.len(),
{
    if rs.len() == 0 {
        0
    } else {
        rings_area(rs.drop_last()) + (if rs.last().len() >= 3 {
            shoelace2(rs.last())
        } else {
            0
        })
    }
}

/// Triangulate a polygon given as an outer ring plus hole rings:
/// every usable hole is spliced into the outer ring along a bridge,
/// and the combined ring is ear-clipped. When the second result is
/// true, the signed triangle areas sum to the signed area of the
/// outer ring plus those of the holes - a hole wound opposite to the
/// outer ring subtracts its area.
pub fn triangulate_rings(rings: &Vec<Vec<LatLng>>) -> (res: (Vec<Triangle>, bool))
    requires
        forall|r: int, k: int|
            0 <= r < rings@.len() && 0 <= k < (#[trigger] rings@[r])@.len() ==> (
            #[trigger] rings@[r]@[k]).bounded(),
    ensures
        res.1 ==> tri_sum(res.0@) == rings_area(rings@.map_values(|v: Vec<LatLng>| v@)),
        forall|k: int| 0 <= k < res.0@.len() ==> (#[trigger] res.0@[k]).bounded(),
        rings@.len() == 0 || (rings@[0])@.len() < 3 ==> res.0@.len() == 0,
        rings@.len() == 1 && (rings@[0])@.len() >= 3 ==> res.0@.len() <= (rings@[0])@.len()
            - 2,
        rings@.len() == 1 && (rings@[0])@.len() >= 3 && res.1 ==> res.0@.len() == (
        rings@[0])@.len() - 2,
        rings@.len() == 1 && (rings@[0])@.len() == 3 ==> res.1,
{
    let ghost rseq = rings@.map_values(|v: Vec<LatLng>| v@);
    if rings.len() == 0 || rings[0].len() < 3 {
        if rings.len() == 0 {
            proof {
                assert(rseq.len() == 0);
            }
            return (Vec::new(), true);
        }
        return (Vec::new(), false);
    }
    let mut combined: Vec<LatLng> = Vec::new();
    let mut i: usize = 0;
    while i < rings[0].len()
        invariant
            i <= rings@[0]@.len(),
            combined@ == rings@[0]@.take(i as int),
            rings@.len() >= 1,
            forall|r: int, k: int|
                0 <= r < rings@.len() && 0 <= k < (#[trigger] rings@[r])@.len() ==> (
                #[trigger] rings@[r]@[k]).bounded(),
        decreases rings@[0]@.len() - i,
    {
        combined.push(rings[0][i]);
        proof {
            assert(combined@ =~= rings@[0]@.take(i as int + 1));
        }
        i = i + 1;
    }
    proof {
        assert(combined@ =~= rings@[0]@);
    }
    proof {
        assert(rseq.take(1).drop_last() =~= Seq::<Seq<LatLng>>::empty());
        assert(rings_area(Seq::<Seq<LatLng>>::empty()) == 0);
        assert(rseq.take(1).last() == rseq[0]);
        assert(rseq[0] == rings@[0]@);
        assert(rings_area(rseq.take(1)) == shoelace2(rings@[0]@));
    }
    let mut h: usize = 1;
    while h < rings.len()
        invariant
            1 <= h <= rings@.len(),
            rings@.len() >= 1,
            rings@[0]@.len() >= 3,
            rings@.len() == 1 ==> combined@ == rings@[0]@,
            combined@.len() >= 3,
            shoelace2(combined@) == rings_area(rseq.take(h as int)),
            rseq == rings@.map_values(|v: Vec<LatLng>| v@),
            forall|k: int| 0 <= k < combined@.len() ==> (#[trigger] combined@[k]).bounded(),
            forall|r: int, k: int|
                0 <= r < rings@.len() && 0 <= k < (#[trigger] rings@[r])@.len() ==> (
                #[trigger] rings@[r]@[k]).bounded(),
        decreases rings@.len() - h,
    {
        let hole = &rings[h];
        if hole.len() >= 3 {
            let ghost comb_before = combined@;
            let mut next: Vec<LatLng> = Vec::new();
            next.push(combined[0]);
            let mut k: usize = 0;
            while k < hole.len()
                invariant
                    k <= hole@.len(),
                    next@ == seq![comb_before[0]] + hole@.take(k as int),
                    comb_before == combined@,
                    combined@.len() >= 3,
                    hole@ == rings@[h as int]@,
                    h < rings@.len(),
                    forall|r: int, k2: int|
                        0 <= r < rings@.len() && 0 <= k2 < (#[trigger] rings@[r])@.len()
                            ==> (#[trigger] rings@[r]@[k2]).bounded(),
                    forall|k2: int|
                        0 <= k2 < combined@.len() ==> (#[trigger] combined@[k2]).bounded(),
                decreases hole@.len() - k,
            {
                next.push(hole[k]);
                proof {
                    assert(next@ =~= seq![comb_before[0]] + hole@.take(k as int + 1));
                }
                k = k + 1;
            }
            next.push(hole[0]);
            proof {
                assert(hole@.take(hole@.len() as int) =~= hole@);
                assert(next@ =~= seq![comb_before[0]] + rings@[h as int]@ + seq![rings@[h as int]@[0]]);
            }
            let mut k2: usize = 0;
            let ghost mid = next@;
            while k2 < combined.len()
                invariant
                    k2 <= combined@.len(),
                    next@ == mid + combined@.take(k2 as int),
                    mid == seq![comb_before[0]] + rings@[h as int]@ + seq![rings@[h as int]@[0]],
                    comb_before == combined@,
                    combined@.len() >= 3,
                    h < rings@.len(),
                    forall|r: int, k3: int|
                        0 <= r < rings@.len() && 0 <= k3 < (#[trigger] rings@[r])@.len()
                            ==> (#[trigger] rings@[r]@[k3]).bounded(),
                    forall|k3: int|
                        0 <= k3 < combined@.len() ==> (#[trigger] combined@[k3]).bounded(),
                decreases combined@.len() - k2,
            {
                next.push(combined[k2]);
                proof {
                    assert(next@ =~= mid + combined@.take(k2 as int + 1));
                }
                k2 = k2 + 1;
            }
            proof {
                assert(next@ =~= splice(comb_before, rings@[h as int]@));
                lemma_splice_area(comb_before, rings@[h as int]@);
                assert(rseq.take(h as int + 1).drop_last() =~= rseq.take(h as int));
                assert(rseq.take(h as int + 1).last() == rseq[h as int]);
            }
            combined = next;
            proof {
                assert forall|k3: int|
                    0 <= k3 < combined@.len() implies (#[trigger] combined@[k3]).bounded() by {
                    let sp = splice(comb_before, rings@[h as int]@);
                    assert(combined@[k3] == sp[k3]);
                }
            }
        } else {
            proof {
                assert(rseq.take(h as int + 1).drop_last() =~= rseq.take(h as int));
                assert(rseq.take(h as int + 1).last() == rseq[h as int]);
            }
        }
        h = h + 1;
    }
    proof {
        assert(rseq.take(rseq.len() as int) =~= rseq);
    }
    triangulate_ring(&combined)
}


/// Triangle-area sums add over concatenation.
pub proof fn lemma_tri_sum_append(s1: Seq<Triangle>, s2: Seq<Triangle>)
    ensures
        tri_sum(s1 + s2) == tri_sum(s1) + tri_sum(s2),
    decreases s2.len(),
{
    if s2.len() == 0 {
        assert(s1 + s2 =~= s1);
    } else {
        assert((s1 + s2).drop_last() =~= s1 + s2.drop_last());
        lemma_tri_sum_append(s1, s2.drop_last());
        assert((s1 + s2).last() == s2.last());
    }
}


/// A ring traversed backwards.
pub open spec fn rev_spec(s: Seq<LatLng>) -> Seq<LatLng> {
    Seq::new(s.len(), |i: int| s[s.len() - 1 - i])
}

/// Reversal negates the open chain.
proof fn lemma_chain_reverse(s: Seq<LatLng>)
    ensures
        chain(rev_spec(s)) == -chain(s),
    decreases s.len(),
{
    if s.len() < 2 {
        assert(rev_spec(s).len() == s.len());
    } else {
        let r = rev_spec(s);
        let df = s.drop_first();
        assert(r.drop_last() =~= rev_spec(df));
        lemma_chain_reverse(df);
        assert(r[r.len() - 2] == s[1]);
        assert(r[r.len() - 1] == s[0]);
        assert(chain(r) == chain(rev_spec(df)) + edge_cross(s[1], s[0]));
        assert(seq![s[0]] + df =~= s);
        lemma_chain_append(seq![s[0]], df);
        assert(chain(seq![s[0]]) == 0);
        assert((seq![s[0]] + df).first() == s[0]);
        assert(df.first() == s[1]);
        assert(chain(s) == edge_cross(s[0], s[1]) + chain(df));
    }
}

/// Reversing a ring negates its signed area: the winding flips.
pub proof fn lemma_shoelace_reverse(s: Seq<LatLng>)
    ensures
        shoelace2(rev_spec(s)) == -shoelace2(s),
{
    lemma_chain_reverse(s);
    if s.len() >= 2 {
        let r = rev_spec(s);
        assert(r[r.len() - 1] == s[0]);
        assert(r[0] == s[s.len() - 1]);
    }
}

/// Twice the signed area of a ring, executably.
pub fn ring_area2(ring: &Vec<LatLng>) -> (a: i128)
    requires
        forall|k: int| 0 <= k < ring@.len() ==> (#[trigger] ring@[k]).bounded(),
    ensures
        a == shoelace2(ring@),
{
    let n = ring.len();
    if n < 2 {
        return 0;
    }
    proof {
        assert(chain(ring@.take(1int)) == 0);
    }
    let mut prev_chain: i128 = 0;
    let mut k: usize = 1;
    while k < n
        invariant
            1 <= k <= n,
            n == ring@.len(),
            n >= 2,
            forall|m: int| 0 <= m < ring@.len() ==> (#[trigger] ring@[m]).bounded(),
            prev_chain == chain(ring@.take(k as int)),
            -320000000000000000 * (k as int) <= prev_chain <= 320000000000000000 * (
            k as int),
        decreases n - k,
    {
        let a1 = ring[k - 1];
        let b1 = ring[k];
        proof {
            assert(a1.lng as i128 * (b1.lat as i128) <= 160000000000000000
                && a1.lng as i128 * (b1.lat as i128) >= -160000000000000000)
                by (nonlinear_arith)
                requires
                    -400000000 <= a1.lng <= 400000000,
                    -400000000 <= b1.lat <= 400000000,
            ;
            assert(b1.lng as i128 * (a1.lat as i128) <= 160000000000000000
                && b1.lng as i128 * (a1.lat as i128) >= -160000000000000000)
                by (nonlinear_arith)
                requires
                    -400000000 <= b1.lng <= 400000000,
                    -400000000 <= a1.lat <= 400000000,
            ;
        }
        let e: i128 = mul_coord(a1.lng as i128, b1.lat as i128) - mul_coord(
            b1.lng as i128,
            a1.lat as i128,
        );
        proof {
            assert(ring@.take(k as int + 1).drop_last() =~= ring@.take(k as int));
            assert(ring@.take(k as int + 1)[k - 1] == ring@[k - 1]);
            assert(ring@.take(k as int + 1)[k as int] == ring@[k as int]);
            assert(chain(ring@.take(k as int + 1)) == chain(ring@.take(k as int))
                + edge_cross(ring@[k - 1], ring@[k as int]));
            assert(320000000000000000int * (k as int) + 320000000000000000
                == 320000000000000000int * (k as int + 1));
            assert(-320000000000000000int * (k as int) - 320000000000000000 == (
            -320000000000000000int) * (k as int + 1)) by (nonlinear_arith);
        }
        prev_chain = prev_chain + e;
        k = k + 1;
    }
    proof {
        assert(ring@.take(n as int) =~= ring@);
    }
    let last = ring[n - 1];
    let first = ring[0];
    let closing: i128 = mul_coord(last.lng as i128, first.lat as i128) - mul_coord(
        first.lng as i128,
        last.lat as i128,
    );
    prev_chain + closing
}

/// Reverse a ring's vertex order.
pub fn reverse_ring(v: &Vec<LatLng>) -> (r: Vec<LatLng>)
    ensures
        r@ == rev_spec(v@),
{
    let n = v.len();
    let mut out: Vec<LatLng> = Vec::new();
    let mut i: usize = 0;
    while i < n
        invariant
            i <= n,
            n == v@.len(),
            out@.len() == i,
            forall|k: int| 0 <= k < i ==> #[trigger] out@[k] == v@[v@.len() - 1 - k],
        decreases n - i,
    {
        out.push(v[n - 1 - i]);
        i = i + 1;
    }
    proof {
        assert(out@ =~= rev_spec(v@));
    }
    out
}

} // verus!



