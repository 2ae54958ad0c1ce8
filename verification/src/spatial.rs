//! The spatial index for hit-testing: screen-space boxes of rendered
//! point and line features, held in an R-tree and queried with a
//! tolerance envelope. The index is rebuilt whole every frame, since
//! screen boxes are a function of the viewport. Hit-testing returns
//! the first inserted entry whose box intersects the query box, so
//! ties resolve by insertion order.
//!
//! Box corners are millipixels, clamped into a window far beyond any
//! screen: the backing tree's insertion heuristics multiply and sum
//! box sides in its scalar type, so the corners handed to it must be
//! small enough that those products cannot overflow.

use vstd::prelude::*;
use vstd::multiset::Multiset;
use crate::geojson::JsonValue;

verus! {

broadcast use vstd::multiset::group_multiset_axioms;

/// Which kind of layer a spatial entry points into.
#[derive(Clone, Copy, Debug, PartialEq, Eq, Structural)]
pub enum LayerKind {
    Point,
    Line,
}

/// One indexed box: screen bounds in millipixels (window-clamped)
/// and the reference back into the layer store, with a copy of the
/// feature's metadata.
pub struct SpatialEntry {
    pub min_x: i64,
    pub min_y: i64,
    pub max_x: i64,
    pub max_y: i64,
    pub kind: LayerKind,
    pub layer_index: usize,
    pub feature_index: usize,
    pub segment_index: usize,
    pub meta: JsonValue,
}

/// Whether two closed boxes intersect.
pub open spec fn boxes_intersect(
    ax0: int,
    ay0: int,
    ax1: int,
    ay1: int,
    bx0: int,
    by0: int,
    bx1: int,
    by1: int,
) -> bool {
    ax0 <= bx1 && ax1 >= bx0 && ay0 <= by1 && ay1 >= by0
}

/// Whether an entry's box intersects a query box.
pub open spec fn entry_hits(e: SpatialEntry, qx0: int, qy0: int, qx1: int, qy1: int) -> bool {
    boxes_intersect(
        e.min_x as int,
        e.min_y as int,
        e.max_x as int,
        e.max_y as int,
        qx0,
        qy0,
        qx1,
        qy1,
    )
}

/// The backing R-tree of boxes, each carrying its entry's index.
#[verifier::external_body]
pub struct RectIndex {
    tree: rstar::RTree<
        rstar::primitives::GeomWithData<rstar::primitives::Rectangle<[i64; 2]>, u32>,
    >,
}

/// What the R-tree holds: each element as its box corners and its
/// carried index.
pub uninterp spec fn rect_entries(t: RectIndex) -> Multiset<(i64, i64, i64, i64, u32)>;

/// Relies on rstar::RTree::new: a fresh tree holds nothing.
#[verifier::external_body]
fn rect_index_new() -> (t: RectIndex)
    ensures
        rect_entries(t) == Multiset::<(i64, i64, i64, i64, u32)>::empty(),
{
    RectIndex { tree: rstar::RTree::new() }
}

/// Relies on rstar::RTree::insert: the element joins the tree's
/// contents (alongside any duplicates). The corners must be ordered,
/// since the tree would silently normalize an inverted box, and small
/// enough that the insertion heuristics' area and distance products
/// (box sides multiplied pairwise, up to seven such products summed)
/// stay within the scalar type.
#[verifier::external_body]
fn rect_index_insert(t: &mut RectIndex, x0: i64, y0: i64, x1: i64, y1: i64, id: u32)
    requires
        x0 <= x1,
        y0 <= y1,
        -536870912 <= x0 && x1 <= 536870912,
        -536870912 <= y0 && y1 <= 536870912,
    ensures
        rect_entries(*final(t)) == rect_entries(*old(t)).insert((x0, y0, x1, y1, id)),
{
    t.tree.insert(
        rstar::primitives::GeomWithData::new(
            rstar::primitives::Rectangle::from_corners([x0, y0], [x1, y1]),
            id,
        ),
    );
}

/// Whether some element of the tree carries this index and a box
/// intersecting the query box.
pub open spec fn id_hits(t: RectIndex, id: u32, qx0: int, qy0: int, qx1: int, qy1: int) -> bool {
    exists|e: (i64, i64, i64, i64, u32)|
        #[trigger] rect_entries(t).count(e) > 0 && e.4 == id && boxes_intersect(
            e.0 as int,
            e.1 as int,
            e.2 as int,
            e.3 as int,
            qx0,
            qy0,
            qx1,
            qy1,
        )
}

/// Relies on rstar::RTree::locate_in_envelope_intersecting: it yields
/// exactly the elements whose box intersects the query box (closed
/// bounds on both sides); each yielded element's index is reported.
#[verifier::external_body]
fn rect_index_query(t: &RectIndex, qx0: i64, qy0: i64, qx1: i64, qy1: i64) -> (r: Vec<u32>)
    requires
        qx0 <= qx1,
        qy0 <= qy1,
    ensures
        forall|k: int|
            0 <= k < r@.len() ==> id_hits(*t, #[trigger] r@[k], qx0 as int, qy0 as int,
                qx1 as int, qy1 as int),
        forall|e: (i64, i64, i64, i64, u32)|
            #[trigger] rect_entries(*t).count(e) > 0 && boxes_intersect(
                e.0 as int,
                e.1 as int,
                e.2 as int,
                e.3 as int,
                qx0 as int,
                qy0 as int,
                qx1 as int,
                qy1 as int,
            ) ==> r@.contains(e.4),
{
    let env = rstar::AABB::from_corners([qx0, qy0], [qx1, qy1]);
    t.tree.locate_in_envelope_intersecting(env).map(|g| g.data).collect()
}

/// The box-and-index tuple of the entry at a position.
pub open spec fn entry_tuple(e: SpatialEntry, i: int) -> (i64, i64, i64, i64, u32) {
    (e.min_x, e.min_y, e.max_x, e.max_y, i as u32)
}

/// The multiset of box-and-index tuples of an entry list.
pub open spec fn entries_ms(s: Seq<SpatialEntry>) -> Multiset<(i64, i64, i64, i64, u32)>
    decreases s.len(),
{
    if s.len() == 0 {
        Multiset::empty()
    } else {
        entries_ms(s.drop_last()).insert(entry_tuple(s.last(), s.len() - 1))
    }
}

/// A tuple is in the multiset exactly when it is some entry's tuple.
proof fn lemma_entries_ms(s: Seq<SpatialEntry>, e: (i64, i64, i64, i64, u32))
    ensures
        entries_ms(s).count(e) > 0 <==> exists|i: int|
            0 <= i < s.len() && e == #[trigger] entry_tuple(s[i], i),
    decreases s.len(),
{
    if s.len() == 0 {
    } else {
        lemma_entries_ms(s.drop_last(), e);
        if e == entry_tuple(s.last(), s.len() - 1) {
            assert(entries_ms(s).count(e) > 0);
            assert(e == entry_tuple(s[s.len() - 1], s.len() - 1));
        } else {
            if entries_ms(s).count(e) > 0 {
                let i = choose|i: int|
                    0 <= i < s.drop_last().len() && e == #[trigger] entry_tuple(
                        s.drop_last()[i],
                        i,
                    );
                assert(s.drop_last()[i] == s[i]);
                assert(e == entry_tuple(s[i], i));
            }
            if exists|i: int| 0 <= i < s.len() && e == #[trigger] entry_tuple(s[i], i) {
                let i = choose|i: int| 0 <= i < s.len() && e == #[trigger] entry_tuple(s[i], i);
                if i < s.len() - 1 {
                    assert(s.drop_last()[i] == s[i]);
                    assert(entries_ms(s.drop_last()).count(e) > 0);
                }
            }
        }
    }
}

/// The spatial index: the entry list in insertion order plus the
/// backing R-tree, which holds exactly the entries' boxes keyed by
/// their positions.
pub struct SpatialIndex {
    pub entries: Vec<SpatialEntry>,
    pub tree: RectIndex,
}

impl SpatialIndex {
    /// The tree mirrors the entry list.
    pub open spec fn wf(self) -> bool {
        &&& rect_entries(self.tree) == entries_ms(self.entries@)
        &&& self.entries@.len() <= 4294967295
    }

    /// An empty index.
    pub fn new() -> (s: SpatialIndex)
        ensures
            s.wf(),
            s.entries@.len() == 0,
    {
        let s = SpatialIndex { entries: Vec::new(), tree: rect_index_new() };
        proof {
            assert(entries_ms(s.entries@) =~= Multiset::<(i64, i64, i64, i64, u32)>::empty());
        }
        s
    }

    /// Insert one entry; it takes the next position in insertion
    /// order.
    pub fn push_entry(&mut self, e: SpatialEntry)
        requires
            old(self).wf(),
            old(self).entries@.len() < 4294967295,
            e.min_x <= e.max_x,
            e.min_y <= e.max_y,
            -536870912 <= e.min_x && e.max_x <= 536870912,
            -536870912 <= e.min_y && e.max_y <= 536870912,
        ensures
            final(self).wf(),
            final(self).entries@.len() == old(self).entries@.len() + 1,
            forall|i: int|
                0 <= i < old(self).entries@.len() ==> #[trigger] final(self).entries@[i]
                    == old(self).entries@[i],
            final(self).entries@.last() == e,
    {
        let id: u32 = self.entries.len() as u32;
        rect_index_insert(&mut self.tree, e.min_x, e.min_y, e.max_x, e.max_y, id);
        self.entries.push(e);
        proof {
            assert(self.entries@.drop_last() =~= old(self).entries@);
            assert(entries_ms(self.entries@) == entries_ms(old(self).entries@).insert(
                entry_tuple(e, old(self).entries@.len() as int),
            ));
        }
    }

    /// The first entry, in insertion order, whose box intersects the
    /// query box; None when no entry does.
    pub fn query_first(&self, qx0: i64, qy0: i64, qx1: i64, qy1: i64) -> (r: Option<usize>)
        requires
            self.wf(),
            qx0 <= qx1,
            qy0 <= qy1,
        ensures
            r is Some ==> {
                let i = r.unwrap() as int;
                &&& 0 <= i < self.entries@.len()
                &&& entry_hits(self.entries@[i], qx0 as int, qy0 as int, qx1 as int, qy1 as int)
                &&& forall|j: int|
                    0 <= j < i ==> !entry_hits(
                        #[trigger] self.entries@[j],
                        qx0 as int,
                        qy0 as int,
                        qx1 as int,
                        qy1 as int,
                    )
            },
            r is None ==> forall|j: int|
                0 <= j < self.entries@.len() ==> !entry_hits(
                    #[trigger] self.entries@[j],
                    qx0 as int,
                    qy0 as int,
                    qx1 as int,
                    qy1 as int,
                ),
    {
        let ids = rect_index_query(&self.tree, qx0, qy0, qx1, qy1);
        let mut best: u64 = 4294967296;
        let mut m: usize = 0;
        while m < ids.len()
            invariant
                m <= ids@.len(),
                best == 4294967296 || (best < 4294967296 && ids@.contains(best as u32)),
                forall|n: int| 0 <= n < m ==> #[trigger] ids@[n] as int >= best as int,
            decreases ids@.len() - m,
        {
            let id = ids[m];
            if (id as u64) < best {
                best = id as u64;
                proof {
                    assert(ids@[m as int] == id);
                    assert(ids@.contains(id));
                }
            }
            m = m + 1;
        }
        if best == 4294967296 {
            proof {
                assert forall|j: int|
                    0 <= j < self.entries@.len() implies !entry_hits(
                    #[trigger] self.entries@[j],
                    qx0 as int,
                    qy0 as int,
                    qx1 as int,
                    qy1 as int,
                ) by {
                    if entry_hits(self.entries@[j], qx0 as int, qy0 as int, qx1 as int,
                        qy1 as int) {
                        let e = entry_tuple(self.entries@[j], j);
                        lemma_entries_ms(self.entries@, e);
                        assert(rect_entries(self.tree).count(e) > 0);
                        assert(ids@.contains(e.4));
                        let n = choose|n: int| 0 <= n < ids@.len() && ids@[n] == e.4;
                        assert(false);
                    }
                }
            }
            return None;
        }
        let bi: usize = best as usize;
        proof {
            let n = choose|n: int| 0 <= n < ids@.len() && ids@[n] == best as u32;
            assert(id_hits(self.tree, ids@[n], qx0 as int, qy0 as int, qx1 as int,
                qy1 as int));
            let e = choose|e: (i64, i64, i64, i64, u32)|
                #[trigger] rect_entries(self.tree).count(e) > 0 && e.4 == ids@[n]
                    && boxes_intersect(
                    e.0 as int,
                    e.1 as int,
                    e.2 as int,
                    e.3 as int,
                    qx0 as int,
                    qy0 as int,
                    qx1 as int,
                    qy1 as int,
                );
            lemma_entries_ms(self.entries@, e);
            let i = choose|i: int|
                0 <= i < self.entries@.len() && e == #[trigger] entry_tuple(
                    self.entries@[i],
                    i,
                );
            assert(i as u32 == e.4);
            assert(i < 4294967295);
            assert(i == bi as int);
            assert(entry_hits(self.entries@[bi as int], qx0 as int, qy0 as int, qx1 as int,
                qy1 as int));
            assert forall|j: int|
                0 <= j < bi as int implies !entry_hits(
                #[trigger] self.entries@[j],
                qx0 as int,
                qy0 as int,
                qx1 as int,
                qy1 as int,
            ) by {
                if entry_hits(self.entries@[j], qx0 as int, qy0 as int, qx1 as int,
                    qy1 as int) {
                    let e2 = entry_tuple(self.entries@[j], j);
                    lemma_entries_ms(self.entries@, e2);
                    assert(rect_entries(self.tree).count(e2) > 0);
                    assert(ids@.contains(e2.4));
                    let n2 = choose|n2: int| 0 <= n2 < ids@.len() && ids@[n2] == e2.4;
                    assert(ids@[n2] as int >= best as int);
                    assert(e2.4 as int == j);
                    assert(false);
                }
            }
        }
        Some(bi)
    }
}

} // verus!
