//! Ordered vertex store: an [`OrderedSlotMap`] specialised to 2D points,
//! with winding-order detection over the current traversal order.

use vstd::prelude::*;

use crate::ordered_sm::{
    contains_id, id_index, ids_of, remove_ids, removed_values, values_of, OrderedSlotMap, SlotId,
};

verus! {

/// Identifier of a vertex in a [`Vertices`] store.
pub type VertexId = SlotId;

/// A 2D point on the drawing plane, in integer grid coordinates.
#[derive(Clone, Copy, PartialEq, Eq, Structural, Hash, Debug)]
pub struct Vertex {
    pub x: i32,
    pub y: i32,
}

/// `v` lies within `2^30` in magnitude in both coordinates.
pub open spec fn coord_ok(v: Vertex) -> bool {
    &&& -0x4000_0000 <= v.x <= 0x4000_0000
    &&& -0x4000_0000 <= v.y <= 0x4000_0000
}

/// All points of `vals` lie within `2^30` in magnitude in both coordinates,
/// which keeps every winding and orientation computation inside `i128`.
pub open spec fn coords_bounded(vals: Seq<Vertex>) -> bool {
    forall|i: int| 0 <= i < vals.len() ==> coord_ok(#[trigger] vals[i])
}

/// Contribution of the directed edge `a -> b` to the winding sum:
/// `(x2 - x1) * (y2 + y1)`.
pub open spec fn edge_term(a: Vertex, b: Vertex) -> int {
    (b.x - a.x) * (b.y + a.y)
}

/// Sum of `edge_term` over the first `k` consecutive pairs of `vals`,
/// i.e. over the edges `vals[0]->vals[1], ..., vals[k-1]->vals[k]`.
pub open spec fn pair_sum(vals: Seq<Vertex>, k: int) -> int
    decreases k,
{
    if k <= 0 {
        0
    } else {
        pair_sum(vals, k - 1) + edge_term(vals[k - 1], vals[k])
    }
}

/// Shoelace-style winding sum of the ring `vals`: every consecutive pair
/// plus the wrap-around pair from the last point back to the first.
pub open spec fn winding_sum(vals: Seq<Vertex>) -> int {
    if vals.len() == 0 {
        0
    } else {
        pair_sum(vals, vals.len() - 1) + edge_term(vals.last(), vals[0])
    }
}

/// The ring `vals` is in clockwise order: the winding sum is strictly
/// positive. A sum of exactly zero (degenerate or collinear ring) is
/// deliberately classified as counter-clockwise.
pub open spec fn is_cw(vals: Seq<Vertex>) -> bool {
    winding_sum(vals) > 0
}

/// Ordered set of 2D vertices keyed by stable ids.
pub struct Vertices(pub OrderedSlotMap<Vertex>);

impl View for Vertices {
    type V = Seq<(VertexId, Vertex)>;

    open spec fn view(&self) -> Seq<(VertexId, Vertex)> {
        self.0@
    }
}

impl Vertices {
    /// Well-formedness of the underlying store.
    pub open spec fn wf(&self) -> bool {
        self.0.wf()
    }

    /// Value of the underlying id allocator.
    pub open spec fn allocator(&self) -> int {
        self.0.allocator()
    }

    /// The stored points in traversal order.
    pub open spec fn points(&self) -> Seq<Vertex> {
        values_of(self@)
    }

    /// Create a new empty set of vertices.
    pub fn new() -> (r: Self)
        ensures
            r@ == Seq::<(VertexId, Vertex)>::empty(),
            r.wf(),
            r.allocator() == 0,
    {
        Vertices(OrderedSlotMap::new())
    }

    /// Whether the stored points, read in traversal order and closed with the
    /// wrap-around edge, wind clockwise. Evaluated against the current order
    /// whether or not the polygon is logically closed; a winding sum of
    /// exactly zero counts as counter-clockwise.
    pub fn is_order_cw(&self) -> (r: bool)
        requires
            self.wf(),
            coords_bounded(self.points()),
        ensures
            r == is_cw(self.points()),
    {
        let vals = self.0.get_all_owned();
        let ghost pts = self.points();
        let n = vals.len();
        if n == 0 {
            return false;
        }
        let mut sum: i128 = 0;
        let mut i: usize = 1;
        while i < n
            invariant
                vals@ == pts,
                coords_bounded(pts),
                n == pts.len(),
                1 <= i <= n,
                sum == pair_sum(pts, i - 1),
                -0x4000_0000_0000_0000 * (i - 1) <= sum <= 0x4000_0000_0000_0000 * (i - 1),
            decreases n - i,
        {
            let a = vals[i - 1];
            let b = vals[i];
            let dx: i128 = b.x as i128 - a.x as i128;
            let sy: i128 = b.y as i128 + a.y as i128;
            proof {
                assert(-0x4000_0000_0000_0000 <= dx * sy <= 0x4000_0000_0000_0000)
                    by (nonlinear_arith)
                    requires
                        -0x8000_0000 <= dx <= 0x8000_0000,
                        -0x8000_0000 <= sy <= 0x8000_0000,
                ;
            }
            let term: i128 = dx * sy;
            sum = sum + term;
            i = i + 1;
        }
        let a = vals[n - 1];
        let b = vals[0];
        let dx: i128 = b.x as i128 - a.x as i128;
        let sy: i128 = b.y as i128 + a.y as i128;
        proof {
            assert(-0x4000_0000_0000_0000 <= dx * sy <= 0x4000_0000_0000_0000)
                by (nonlinear_arith)
                requires
                    -0x8000_0000 <= dx <= 0x8000_0000,
                    -0x8000_0000 <= sy <= 0x8000_0000,
            ;
        }
        let term: i128 = dx * sy;
        sum = sum + term;
        sum > 0
    }

    /// The vertex ids in traversal order.
    pub fn ids(&self) -> (r: Vec<VertexId>)
        ensures
            r@ == ids_of(self@),
    {
        self.0.ids()
    }

    /// Reverse the traversal order of the vertices.
    pub fn reverse(&mut self)
        requires
            old(self).wf(),
        ensures
            final(self).wf(),
            final(self)@ == old(self)@.reverse(),
            final(self).allocator() == old(self).allocator(),
    {
        self.0.reverse();
    }

    /// Number of stored vertices.
    pub fn len(&self) -> (r: usize)
        ensures
            r == self@.len(),
    {
        self.0.len()
    }

    /// Whether no vertex is stored.
    pub fn is_empty(&self) -> (r: bool)
        ensures
            r == (self@.len() == 0),
    {
        self.0.is_empty()
    }

    /// Append a vertex at the order tail; returns its fresh id.
    pub fn push(&mut self, vertex: Vertex) -> (id: VertexId)
        requires
            old(self).wf(),
            old(self).allocator() < u64::MAX,
        ensures
            final(self).wf(),
            id.0 == old(self).allocator(),
            !contains_id(old(self)@, id),
            final(self)@ == old(self)@.push((id, vertex)),
            final(self).allocator() == old(self).allocator() + 1,
    {
        self.0.push(vertex)
    }

    /// Append each vertex in turn at the order tail; returns the fresh ids
    /// in point order.
    pub fn push_many(&mut self, vertices_vec: Vec<Vertex>) -> (r: Vec<VertexId>)
        requires
            old(self).wf(),
            old(self).allocator() + vertices_vec@.len() <= u64::MAX,
        ensures
            final(self).wf(),
            r@.len() == vertices_vec@.len(),
            final(self)@.len() == old(self)@.len() + vertices_vec@.len(),
            forall|j: int| 0 <= j < old(self)@.len() ==> final(self)@[j] == old(self)@[j],
            forall|j: int| 0 <= j < vertices_vec@.len()
                ==> final(self)@[old(self)@.len() + j] == ((#[trigger] r@[j]), vertices_vec@[j]),
            forall|j: int| 0 <= j < vertices_vec@.len()
                ==> (#[trigger] r@[j]).0 == old(self).allocator() + j,
            final(self).allocator() == old(self).allocator() + vertices_vec@.len(),
    {
        self.0.push_many(vertices_vec)
    }

    /// Insert a vertex at order position `index` (`index == len` appends);
    /// returns its fresh id.
    pub fn insert(&mut self, index: usize, vertex: Vertex) -> (id: VertexId)
        requires
            old(self).wf(),
            old(self).allocator() < u64::MAX,
            index <= old(self)@.len(),
        ensures
            final(self).wf(),
            id.0 == old(self).allocator(),
            !contains_id(old(self)@, id),
            final(self)@ == old(self)@.insert(index as int, (id, vertex)),
            final(self).allocator() == old(self).allocator() + 1,
    {
        self.0.insert(index, vertex)
    }

    /// Insert each vertex in turn starting at order position `index`;
    /// returns the fresh ids in point order.
    pub fn insert_many(&mut self, index: usize, vertices_vec: Vec<Vertex>) -> (r: Vec<VertexId>)
        requires
            old(self).wf(),
            old(self).allocator() + vertices_vec@.len() <= u64::MAX,
            index <= old(self)@.len(),
        ensures
            final(self).wf(),
            r@.len() == vertices_vec@.len(),
            final(self)@.len() == old(self)@.len() + vertices_vec@.len(),
            forall|j: int| 0 <= j < index ==> final(self)@[j] == old(self)@[j],
            forall|j: int| 0 <= j < vertices_vec@.len()
                ==> final(self)@[index + j] == ((#[trigger] r@[j]), vertices_vec@[j]),
            forall|j: int| index <= j < old(self)@.len()
                ==> final(self)@[j + vertices_vec@.len()] == old(self)@[j],
            final(self).allocator() == old(self).allocator() + vertices_vec@.len(),
    {
        self.0.insert_many(index, vertices_vec)
    }

    /// Remove the vertex with id `id`; returns its point, or `None` for a
    /// stale or foreign id.
    pub fn remove(&mut self, id: VertexId) -> (r: Option<Vertex>)
        requires
            old(self).wf(),
        ensures
            final(self).wf(),
            final(self).allocator() == old(self).allocator(),
            contains_id(old(self)@, id) ==> {
                &&& final(self)@ == old(self)@.remove(id_index(old(self)@, id))
                &&& r == Some(old(self)@[id_index(old(self)@, id)].1)
            },
            !contains_id(old(self)@, id) ==> final(self)@ == old(self)@ && r is None,
            !contains_id(final(self)@, id),
    {
        self.0.remove(id)
    }

    /// Remove the vertices named by `ids`, in order; returns the points of
    /// those that were live.
    pub fn remove_many(&mut self, ids: Vec<VertexId>) -> (r: Vec<Vertex>)
        requires
            old(self).wf(),
        ensures
            final(self).wf(),
            final(self).allocator() == old(self).allocator(),
            final(self)@ == remove_ids(old(self)@, ids@),
            r@ == removed_values(old(self)@, ids@),
    {
        self.0.remove_many(ids)
    }

    /// Remove all vertices, keeping the id allocator; returns the count.
    pub fn clear(&mut self) -> (r: usize)
        ensures
            final(self)@ == Seq::<(VertexId, Vertex)>::empty(),
            final(self).allocator() == old(self).allocator(),
            final(self).wf(),
            r == old(self)@.len(),
    {
        self.0.clear()
    }

    /// Remove all vertices and reset the id allocator; returns the count.
    pub fn clear_with_reset(&mut self) -> (r: usize)
        ensures
            final(self)@ == Seq::<(VertexId, Vertex)>::empty(),
            final(self).allocator() == 0,
            final(self).wf(),
            r == old(self)@.len(),
    {
        self.0.clear_with_reset()
    }

    /// Look up a vertex by id; `None` for a stale or foreign id.
    pub fn get(&self, id: VertexId) -> (r: Option<&Vertex>)
        requires
            self.wf(),
        ensures
            match r {
                Some(v) => contains_id(self@, id) && *v == self@[id_index(self@, id)].1,
                None => !contains_id(self@, id),
            },
    {
        self.0.get(id)
    }

    /// Look up a vertex by id, returning it by value.
    pub fn get_owned(&self, id: VertexId) -> (r: Option<Vertex>)
        requires
            self.wf(),
        ensures
            match r {
                Some(v) => contains_id(self@, id) && v == self@[id_index(self@, id)].1,
                None => !contains_id(self@, id),
            },
    {
        self.0.get_owned(id)
    }

    /// Replace the point stored under `id`; returns whether the id was live.
    pub fn set(&mut self, id: VertexId, vertex: Vertex) -> (r: bool)
        requires
            old(self).wf(),
        ensures
            final(self).wf(),
            final(self).allocator() == old(self).allocator(),
            r == contains_id(old(self)@, id),
            r ==> final(self)@ == old(self)@.update(id_index(old(self)@, id), (id, vertex)),
            !r ==> final(self)@ == old(self)@,
    {
        self.0.set(id, vertex)
    }

    /// All points in traversal order.
    pub fn get_all_owned(&self) -> (r: Vec<Vertex>)
        ensures
            r@ == self.points(),
    {
        self.0.get_all_owned()
    }

    /// All `(id, point)` entries in traversal order.
    pub fn enumerate(&self) -> (r: Vec<(VertexId, Vertex)>)
        ensures
            r@ == self@,
    {
        self.0.enumerate()
    }

    /// The first point in traversal order, if any.
    pub fn first(&self) -> (r: Option<&Vertex>)
        ensures
            match r {
                Some(v) => self@.len() > 0 && *v == self@[0].1,
                None => self@.len() == 0,
            },
    {
        self.0.first()
    }

    /// The last point in traversal order, if any.
    pub fn last(&self) -> (r: Option<&Vertex>)
        ensures
            match r {
                Some(v) => self@.len() > 0 && *v == self@[self@.len() - 1].1,
                None => self@.len() == 0,
            },
    {
        self.0.last()
    }

    /// Whether the stored points wind counter-clockwise: the exact negation
    /// of [`Vertices::is_order_cw`].
    pub fn is_order_ccw(&self) -> (r: bool)
        requires
            self.wf(),
            coords_bounded(self.points()),
        ensures
            r == !is_cw(self.points()),
    {
        !self.is_order_cw()
    }
}

impl Vertices {
    /// Build a vertex set from a vector of points, pushed in order.
    pub fn from_vec(vertices_vec: Vec<Vertex>) -> (r: Self)
        requires
            vertices_vec@.len() <= u64::MAX,
        ensures
            r.wf(),
            r.points() == vertices_vec@,
            r.allocator() == vertices_vec@.len(),
            forall|j: int| 0 <= j < r@.len() ==> ((#[trigger] r@[j]).0).0 == j,
    {
        Vertices(OrderedSlotMap::from_vec(vertices_vec))
    }
}

impl Default for Vertices {
    /// An empty vertex set, as [`Vertices::new`] builds it.
    fn default() -> (r: Self)
        ensures
            r@ == Seq::<(VertexId, Vertex)>::empty(),
            r.wf(),
            r.allocator() == 0,
    {
        Vertices::new()
    }
}

/// The winding term is antisymmetric: traversing an edge backwards negates
/// its contribution.
pub proof fn lemma_edge_term_antisymmetric(a: Vertex, b: Vertex)
    ensures
        edge_term(b, a) == -edge_term(a, b),
{
    assert((a.x - b.x) * (a.y + b.y) == -((b.x - a.x) * (b.y + a.y))) by (nonlinear_arith);
}

/// The first `k` consecutive winding terms of the reversed ring are the
/// negation of the last `k` consecutive terms of the unreversed ring.
proof fn lemma_rev_pair_sum(vals: Seq<Vertex>, k: int)
    requires
        vals.len() > 0,
        0 <= k <= vals.len() - 1,
    ensures
        pair_sum(vals.reverse(), k) == -(pair_sum(vals, vals.len() - 1) - pair_sum(
            vals,
            vals.len() - 1 - k,
        )),
    decreases k,
{
    let n = vals.len() as int;
    let rev = vals.reverse();
    if k == 0 {
    } else {
        lemma_rev_pair_sum(vals, k - 1);
        assert(rev[k - 1] == vals[n - k]);
        assert(rev[k] == vals[n - 1 - k]);
        lemma_edge_term_antisymmetric(vals[n - 1 - k], vals[n - k]);
        assert(pair_sum(vals, n - k) == pair_sum(vals, n - 1 - k) + edge_term(
            vals[n - 1 - k],
            vals[n - k],
        ));
    }
}

/// Reversing the stored order negates the winding sum, so a strictly
/// clockwise ring reads as counter-clockwise after a reversal and the
/// other way round; only a degenerate ring (sum zero) classifies as
/// counter-clockwise both ways.
pub proof fn lemma_reverse_flips_winding(vals: Seq<Vertex>)
    ensures
        winding_sum(vals.reverse()) == -winding_sum(vals),
        is_cw(vals) ==> !is_cw(vals.reverse()),
{
    if vals.len() == 0 {
    } else {
        let n = vals.len() as int;
        let rev = vals.reverse();
        lemma_rev_pair_sum(vals, n - 1);
        assert(pair_sum(rev, n - 1) == -(pair_sum(vals, n - 1) - pair_sum(vals, 0)));
        assert(rev.last() == vals[0]);
        assert(rev[0] == vals[n - 1]);
        lemma_edge_term_antisymmetric(vals.last(), vals[0]);
    }
}

/// The winding classification reads the stored points alone, never the ids:
/// two vertex sets holding the same points in the same order — for example
/// a polygon re-populated after a clear, whose ids are all fresh — always
/// classify the same way.
pub proof fn lemma_winding_ignores_ids(a: Seq<(VertexId, Vertex)>, b: Seq<(VertexId, Vertex)>)
    requires
        values_of(a) == values_of(b),
    ensures
        is_cw(values_of(a)) == is_cw(values_of(b)),
{
}

} // verus!
