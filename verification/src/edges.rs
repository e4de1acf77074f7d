//! Edge set: an unordered set of directed `(from, to)` vertex-id pairs with
//! vertex-filtered lookup. An edge `(a, b)` and its reversal `(b, a)` are
//! distinct entries unless explicitly reversed.

use vstd::prelude::*;

use crate::vertices::VertexId;

verus! {

/// Edge of a polygon, connecting the vertex with id `from` to the vertex
/// with id `to`. Direction is significant.
#[derive(Clone, Copy, PartialEq, Eq, Structural, Hash, Debug)]
pub struct Edge {
    pub from: VertexId,
    pub to: VertexId,
}

impl Edge {
    /// Create a new edge from the given vertex ids.
    pub fn new(from: VertexId, to: VertexId) -> (r: Self)
        ensures
            r == (Edge { from, to }),
    {
        Edge { from, to }
    }
}

/// The edge `e` with its direction flipped.
pub open spec fn rev_edge(e: Edge) -> Edge {
    Edge { from: e.to, to: e.from }
}

/// `e` touches the vertex `id` at either endpoint.
pub open spec fn touches(e: Edge, id: VertexId) -> bool {
    e.from == id || e.to == id
}

/// The edge sequence `s` after a deduplicating insert of `e`, mirroring
/// [`Edges::insert`].
pub open spec fn insert_edge(s: Seq<Edge>, e: Edge) -> Seq<Edge> {
    if s.contains(e) {
        s
    } else {
        s.push(e)
    }
}

/// The edge sequence `s` after removing `e` if present, mirroring
/// [`Edges::remove`].
pub open spec fn remove_edge(s: Seq<Edge>, e: Edge) -> Seq<Edge> {
    if s.contains(e) {
        s.remove(edge_index(s, e))
    } else {
        s
    }
}

/// The edge sequence `s` after deduplicating inserts of each edge of
/// `more`, in order.
pub open spec fn insert_edges(s: Seq<Edge>, more: Seq<Edge>) -> Seq<Edge>
    decreases more.len(),
{
    if more.len() == 0 {
        s
    } else {
        insert_edge(insert_edges(s, more.drop_last()), more.last())
    }
}

/// No edge occurs twice in `s`.
pub open spec fn unique_edges(s: Seq<Edge>) -> bool {
    forall|i: int, j: int| 0 <= i < j < s.len() ==> s[i] != s[j]
}

/// The position of `e` in `s` (meaningful only when `s.contains(e)`;
/// unique when `unique_edges(s)` holds).
pub open spec fn edge_index(s: Seq<Edge>, e: Edge) -> int {
    choose|i: int| 0 <= i < s.len() && s[i] == e
}

/// The subsequence of `s` whose edges touch the vertex `id`.
pub open spec fn edges_touching(s: Seq<Edge>, id: VertexId) -> Seq<Edge>
    decreases s.len(),
{
    if s.len() == 0 {
        Seq::empty()
    } else {
        let p = edges_touching(s.drop_last(), id);
        if touches(s.last(), id) {
            p.push(s.last())
        } else {
            p
        }
    }
}

/// The subsequence of `s` whose edges do not touch the vertex `id`.
pub open spec fn edges_avoiding(s: Seq<Edge>, id: VertexId) -> Seq<Edge>
    decreases s.len(),
{
    if s.len() == 0 {
        Seq::empty()
    } else {
        let p = edges_avoiding(s.drop_last(), id);
        if touches(s.last(), id) {
            p
        } else {
            p.push(s.last())
        }
    }
}

/// Flipping every edge preserves freedom from duplicates, so a reversed
/// polygon's edge list is as much a set as the one it came from.
pub proof fn lemma_rev_map_preserves_unique(s: Seq<Edge>)
    requires
        unique_edges(s),
    ensures
        unique_edges(s.map_values(|e: Edge| rev_edge(e))),
{
    let m = s.map_values(|e: Edge| rev_edge(e));
    assert forall|i: int, j: int| 0 <= i < j < m.len() implies m[i] != m[j] by {
        assert(m[i] == rev_edge(s[i]));
        assert(m[j] == rev_edge(s[j]));
        if rev_edge(s[i]) == rev_edge(s[j]) {
            assert(s[i] == s[j]);
        }
    }
}

/// When no edge of `s` touches `id`, filtering is the identity.
pub proof fn lemma_filter_none(s: Seq<Edge>, id: VertexId)
    requires
        forall|t: int| 0 <= t < s.len() ==> !touches(#[trigger] s[t], id),
    ensures
        edges_touching(s, id) == Seq::<Edge>::empty(),
        edges_avoiding(s, id) == s,
    decreases s.len(),
{
    if s.len() == 0 {
        assert(edges_avoiding(s, id) =~= s);
    } else {
        lemma_filter_none(s.drop_last(), id);
        assert(edges_avoiding(s, id) =~= s);
    }
}

/// When exactly the edge at position `p` of `s` touches `id`, filtering
/// extracts it and leaves the rest in place.
pub proof fn lemma_filter_one(s: Seq<Edge>, id: VertexId, p: int)
    requires
        0 <= p < s.len(),
        touches(s[p], id),
        forall|t: int| 0 <= t < s.len() && t != p ==> !touches(#[trigger] s[t], id),
    ensures
        edges_touching(s, id) == seq![s[p]],
        edges_avoiding(s, id) == s.remove(p),
    decreases s.len(),
{
    let prefix = s.drop_last();
    if p == s.len() - 1 {
        lemma_filter_none(prefix, id);
        assert(edges_touching(s, id) =~= seq![s[p]]);
        assert(edges_avoiding(s, id) =~= s.remove(p));
    } else {
        lemma_filter_one(prefix, id, p);
        assert(prefix[p] == s[p]);
        assert(edges_touching(s, id) =~= seq![s[p]]);
        assert(edges_avoiding(s, id) =~= prefix.remove(p).push(s.last()));
        assert(prefix.remove(p).push(s.last()) =~= s.remove(p));
    }
}

/// When exactly the edges at positions `p < q` of `s` touch `id`, filtering
/// extracts the two, in order, and leaves the rest in place.
pub proof fn lemma_filter_two(s: Seq<Edge>, id: VertexId, p: int, q: int)
    requires
        0 <= p < q < s.len(),
        touches(s[p], id),
        touches(s[q], id),
        forall|t: int| 0 <= t < s.len() && t != p && t != q ==> !touches(#[trigger] s[t], id),
    ensures
        edges_touching(s, id) == seq![s[p], s[q]],
        edges_avoiding(s, id) == s.remove(q).remove(p),
    decreases s.len(),
{
    let prefix = s.drop_last();
    if q == s.len() - 1 {
        lemma_filter_one(prefix, id, p);
        assert(prefix[p] == s[p]);
        assert(edges_touching(s, id) =~= seq![s[p], s[q]]);
        assert(s.remove(q) =~= prefix);
        assert(edges_avoiding(s, id) =~= s.remove(q).remove(p));
    } else {
        lemma_filter_two(prefix, id, p, q);
        assert(prefix[p] == s[p]);
        assert(prefix[q] == s[q]);
        assert(edges_touching(s, id) =~= seq![s[p], s[q]]);
        assert(edges_avoiding(s, id) =~= prefix.remove(q).remove(p).push(s.last()));
        assert(prefix.remove(q) =~= s.remove(q).drop_last());
        assert(prefix.remove(q).remove(p).push(s.last()) =~= s.remove(q).remove(p));
    }
}

/// Every edge of `edges_avoiding(s, id)` comes from `s` and does not touch
/// `id`; removing the touching edges also preserves freedom from duplicates.
pub proof fn lemma_avoiding_is_subset(s: Seq<Edge>, id: VertexId)
    ensures
        forall|e: Edge| #[trigger] edges_avoiding(s, id).contains(e) ==> s.contains(e) && !touches(e, id),
        unique_edges(s) ==> unique_edges(edges_avoiding(s, id)),
    decreases s.len(),
{
    if s.len() == 0 {
    } else {
        let prefix = s.drop_last();
        lemma_avoiding_is_subset(prefix, id);
        let p = edges_avoiding(prefix, id);
        assert(forall|e: Edge| #[trigger] prefix.contains(e) ==> s.contains(e));
        if !touches(s.last(), id) {
            assert(edges_avoiding(s, id) == p.push(s.last()));
            assert(forall|e: Edge| #[trigger] p.push(s.last()).contains(e)
                ==> p.contains(e) || e == s.last());
            assert(s.contains(s.last()));
            if unique_edges(s) {
                assert(unique_edges(prefix));
                assert(!prefix.contains(s.last()));
                assert(!p.contains(s.last()));
                assert(forall|i: int, j: int|
                    0 <= i < j < p.push(s.last()).len() ==> p.push(s.last())[i] != p.push(
                        s.last(),
                    )[j]);
            }
        } else {
            if unique_edges(s) {
                assert(unique_edges(prefix));
            }
        }
    }
}

/// Unordered set of directed edges.
///
/// The view is the stored sequence; storage order carries no meaning for
/// callers, but keeping it in the view makes every operation deterministic.
/// Well-formedness says the sequence holds no duplicate, so it faithfully
/// represents a set.
pub struct Edges {
    items: Vec<Edge>,
}

impl View for Edges {
    type V = Seq<Edge>;

    closed spec fn view(&self) -> Seq<Edge> {
        self.items@
    }
}

impl Edges {
    /// Well-formedness: no edge is stored twice.
    pub open spec fn wf(&self) -> bool {
        unique_edges(self@)
    }

    /// Create a new empty set of edges.
    pub fn new() -> (r: Self)
        ensures
            r@ == Seq::<Edge>::empty(),
            r.wf(),
    {
        Edges { items: Vec::new() }
    }

    /// Number of stored edges.
    pub fn len(&self) -> (r: usize)
        ensures
            r == self@.len(),
    {
        self.items.len()
    }

    /// Whether no edge is stored.
    pub fn is_empty(&self) -> (r: bool)
        ensures
            r == (self@.len() == 0),
    {
        self.items.len() == 0
    }

    /// Remove all edges.
    pub fn clear(&mut self)
        ensures
            final(self)@ == Seq::<Edge>::empty(),
            final(self).wf(),
    {
        self.items.clear();
    }

    /// Whether the set contains `edge`.
    pub fn contains(&self, edge: &Edge) -> (r: bool)
        ensures
            r == self@.contains(*edge),
    {
        let n = self.items.len();
        let mut i: usize = 0;
        while i < n
            invariant
                n == self@.len(),
                i <= n,
                forall|j: int| 0 <= j < i ==> self@[j] != *edge,
            decreases n - i,
        {
            if self.items[i] == *edge {
                return true;
            }
            i = i + 1;
        }
        false
    }

    /// Get the stored edge equal to `edge`, if present.
    pub fn get<'a>(&self, edge: &'a Edge) -> (r: Option<&'a Edge>)
        ensures
            match r {
                Some(v) => self@.contains(*edge) && *v == *edge,
                None => !self@.contains(*edge),
            },
    {
        if self.contains(edge) {
            Some(edge)
        } else {
            None
        }
    }

    /// Insert `edge`. Returns `true` if it was newly added, `false` if an
    /// equal edge was already present (the set silently dedupes).
    pub fn insert(&mut self, edge: Edge) -> (r: bool)
        requires
            old(self).wf(),
        ensures
            final(self).wf(),
            r == !old(self)@.contains(edge),
            final(self)@ == (if old(self)@.contains(edge) {
                old(self)@
            } else {
                old(self)@.push(edge)
            }),
            final(self)@.contains(edge),
    {
        if self.contains(&edge) {
            false
        } else {
            self.items.push(edge);
            proof {
                assert(self@[self@.len() - 1] == edge);
            }
            true
        }
    }

    /// Remove `edge` if present; returns whether it was present.
    pub fn remove(&mut self, edge: &Edge) -> (r: bool)
        requires
            old(self).wf(),
        ensures
            final(self).wf(),
            r == old(self)@.contains(*edge),
            r ==> final(self)@ == old(self)@.remove(edge_index(old(self)@, *edge)),
            !r ==> final(self)@ == old(self)@,
            !final(self)@.contains(*edge),
    {
        let n = self.items.len();
        let mut i: usize = 0;
        while i < n
            invariant
                self@ == old(self)@,
                self.wf(),
                n == self@.len(),
                i <= n,
                forall|j: int| 0 <= j < i ==> self@[j] != *edge,
            decreases n - i,
        {
            if self.items[i] == *edge {
                self.items.remove(i);
                proof {
                    let s = old(self)@;
                    assert(s.contains(*edge));
                    let k = edge_index(s, *edge);
                    assert(s[k] == *edge);
                    assert(k == i) by {
                        assert(unique_edges(s));
                    }
                    assert(forall|j: int| 0 <= j < self@.len() ==> self@[j] != *edge);
                    assert(!self@.contains(*edge));
                }
                return true;
            }
            i = i + 1;
        }
        proof {
            assert(!self@.contains(*edge));
        }
        false
    }

    /// Remove `edge` and hand it back, or `None` if it was absent.
    pub fn take(&mut self, edge: &Edge) -> (r: Option<Edge>)
        requires
            old(self).wf(),
        ensures
            final(self).wf(),
            r == (if old(self)@.contains(*edge) {
                Some(*edge)
            } else {
                Option::<Edge>::None
            }),
            old(self)@.contains(*edge) ==> final(self)@ == old(self)@.remove(
                edge_index(old(self)@, *edge),
            ),
            !old(self)@.contains(*edge) ==> final(self)@ == old(self)@,
            !final(self)@.contains(*edge),
    {
        if self.remove(edge) {
            Some(*edge)
        } else {
            None
        }
    }

    /// All edges, owned. No ordering guarantee.
    pub fn get_all_owned(&self) -> (r: Vec<Edge>)
        ensures
            r@ == self@,
    {
        let n = self.items.len();
        let mut out: Vec<Edge> = Vec::new();
        let mut i: usize = 0;
        while i < n
            invariant
                n == self@.len(),
                i <= n,
                out@ == self@.subrange(0, i as int),
            decreases n - i,
        {
            out.push(self.items[i]);
            proof {
                assert(out@ =~= self@.subrange(0, i + 1));
            }
            i = i + 1;
        }
        proof {
            assert(out@ =~= self@);
        }
        out
    }

    /// Remove every edge touching the vertex `vertex_id`; returns the
    /// removed edges in storage order.
    pub fn remove_by_vertex(&mut self, vertex_id: VertexId) -> (r: Vec<Edge>)
        requires
            old(self).wf(),
        ensures
            final(self).wf(),
            final(self)@ == edges_avoiding(old(self)@, vertex_id),
            r@ == edges_touching(old(self)@, vertex_id),
    {
        let removed = self.filter_by_vertex(vertex_id);
        let n = self.items.len();
        let mut kept: Vec<Edge> = Vec::new();
        let mut i: usize = 0;
        while i < n
            invariant
                self@ == old(self)@,
                self.wf(),
                n == self@.len(),
                i <= n,
                kept@ == edges_avoiding(self@.subrange(0, i as int), vertex_id),
            decreases n - i,
        {
            proof {
                assert(self@.subrange(0, i + 1).drop_last() =~= self@.subrange(0, i as int));
                assert(self@.subrange(0, i + 1).last() == self@[i as int]);
            }
            let e = self.items[i];
            if !(e.from == vertex_id || e.to == vertex_id) {
                kept.push(e);
            }
            i = i + 1;
        }
        proof {
            assert(self@.subrange(0, n as int) =~= self@);
            lemma_avoiding_is_subset(old(self)@, vertex_id);
        }
        self.items = kept;
        removed
    }

    /// The edges that touch the vertex `id` at either endpoint.
    pub fn filter_by_vertex(&self, vertex_id: VertexId) -> (r: Vec<Edge>)
        ensures
            r@ == edges_touching(self@, vertex_id),
    {
        let n = self.items.len();
        let mut out: Vec<Edge> = Vec::new();
        let mut i: usize = 0;
        while i < n
            invariant
                n == self@.len(),
                i <= n,
                out@ == edges_touching(self@.subrange(0, i as int), vertex_id),
            decreases n - i,
        {
            proof {
                assert(self@.subrange(0, i + 1).drop_last() =~= self@.subrange(0, i as int));
                assert(self@.subrange(0, i + 1).last() == self@[i as int]);
            }
            let e = self.items[i];
            if e.from == vertex_id || e.to == vertex_id {
                out.push(e);
            }
            i = i + 1;
        }
        proof {
            assert(self@.subrange(0, n as int) =~= self@);
        }
        out
    }
}

impl Edges {
    /// Build an edge set from a vector of edges, inserted — and therefore
    /// deduplicated — in order.
    pub fn from_vec(edges_vec: Vec<Edge>) -> (r: Self)
        ensures
            r.wf(),
            r@ == insert_edges(Seq::<Edge>::empty(), edges_vec@),
    {
        let mut edges = Edges::new();
        let n = edges_vec.len();
        let mut i: usize = 0;
        while i < n
            invariant
                edges.wf(),
                n == edges_vec@.len(),
                i <= n,
                edges@ == insert_edges(Seq::<Edge>::empty(), edges_vec@.subrange(0, i as int)),
            decreases n - i,
        {
            proof {
                assert(edges_vec@.subrange(0, i + 1).drop_last() =~= edges_vec@.subrange(
                    0,
                    i as int,
                ));
                assert(edges_vec@.subrange(0, i + 1).last() == edges_vec@[i as int]);
            }
            edges.insert(edges_vec[i]);
            i = i + 1;
        }
        proof {
            assert(edges_vec@.subrange(0, n as int) =~= edges_vec@);
        }
        edges
    }
}

impl Default for Edges {
    /// An empty edge set, as [`Edges::new`] builds it.
    fn default() -> (r: Self)
        ensures
            r@ == Seq::<Edge>::empty(),
            r.wf(),
    {
        Edges::new()
    }
}

} // verus!
