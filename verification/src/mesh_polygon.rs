//! Polygon data structure used to create a mesh: an ordered vertex set plus
//! the derived edge set, with the full mutation protocol (append, close,
//! insert-on-edge, remove-with-restitch, reverse).
//!
//! While open, the edges form a simple path along the insertion order; while
//! closed, they form a single cycle. Closedness is a derived property (the
//! wrap-around edge exists), not an explicit state field.

use vstd::prelude::*;

use crate::edges::{
    edges_avoiding, edges_touching, insert_edge, remove_edge, rev_edge, touches, unique_edges,
    Edge, Edges,
};
use crate::mesh_builder::{generate_extruded_mesh, is_extruded_mesh, MeshData};
use crate::ordered_sm::{contains_id, id_index, ids_of, unique_ids, values_of};
use crate::triangulate::ring_triangulation;
use crate::vertices::{coords_bounded, Vertex, VertexId, Vertices};

verus! {

/// Source vertex of the re-stitch edge after deleting vertex `id`: the
/// `from` endpoint of the last edge of `s` that runs into `id`.
pub open spec fn stitch_from(s: Seq<Edge>, id: VertexId) -> Option<VertexId>
    decreases s.len(),
{
    if s.len() == 0 {
        None
    } else if s.last().to == id {
        Some(s.last().from)
    } else {
        stitch_from(s.drop_last(), id)
    }
}

/// Target vertex of the re-stitch edge after deleting vertex `id`: the `to`
/// endpoint of the last edge of `s` that leaves `id` (an edge running into
/// `id` is claimed by [`stitch_from`] first, as a self-loop shows).
pub open spec fn stitch_to(s: Seq<Edge>, id: VertexId) -> Option<VertexId>
    decreases s.len(),
{
    if s.len() == 0 {
        None
    } else if s.last().to != id && s.last().from == id {
        Some(s.last().to)
    } else {
        stitch_to(s.drop_last(), id)
    }
}

/// The stitch endpoints of `s` are already determined by the subsequence of
/// edges touching `id`: edges that avoid `id` contribute nothing.
pub proof fn lemma_stitch_on_touching(s: Seq<Edge>, id: VertexId)
    ensures
        stitch_from(s, id) == stitch_from(edges_touching(s, id), id),
        stitch_to(s, id) == stitch_to(edges_touching(s, id), id),
    decreases s.len(),
{
    if s.len() == 0 {
    } else {
        let prefix = s.drop_last();
        lemma_stitch_on_touching(prefix, id);
        let t = edges_touching(s, id);
        let tp = edges_touching(prefix, id);
        if touches(s.last(), id) {
            assert(t == tp.push(s.last()));
            assert(t.drop_last() =~= tp);
            assert(t.last() == s.last());
        } else {
            assert(t == tp);
        }
    }
}

/// The edges of an open polygon over the vertex order `vs`: one edge from
/// each vertex to its successor, and none from the last back to the first.
pub open spec fn path_edges(vs: Seq<(VertexId, Vertex)>) -> Seq<Edge> {
    Seq::new(
        if vs.len() == 0 {
            0
        } else {
            (vs.len() - 1) as nat
        },
        |i: int| (Edge { from: vs[i].0, to: vs[i + 1].0 }),
    )
}

/// The edges of a closed polygon over the vertex order `vs`: one edge from
/// each vertex to its cyclic successor, wrap-around included.
pub open spec fn cycle_edges(vs: Seq<(VertexId, Vertex)>) -> Seq<Edge> {
    Seq::new(
        vs.len(),
        |i: int| (Edge {
            from: vs[i].0,
            to: vs[crate::triangulate::next_ix(vs.len() as int, i)].0,
        }),
    )
}

/// Appending a fresh vertex keeps the polygon an open chain: starting from
/// a chain (`es` are exactly the consecutive-pair edges of `vs`), the edge
/// inserted by a vertex push is new, and the result is the chain of the
/// extended order. Chained over a whole push sequence and combined with
/// [`lemma_close_makes_ring`], this gives: `k` pushes on an empty polygon
/// followed by a successful close leave exactly `k` vertices and `k` edges.
pub proof fn lemma_push_extends_chain(
    vs: Seq<(VertexId, Vertex)>,
    es: Seq<Edge>,
    id: VertexId,
    v: Vertex,
)
    requires
        es == path_edges(vs),
        unique_ids(vs),
        !contains_id(vs, id),
    ensures
        vs.len() == 0 ==> es == path_edges(vs.push((id, v))),
        vs.len() > 0 ==> insert_edge(es, Edge { from: vs.last().0, to: id }) == path_edges(
            vs.push((id, v)),
        ),
        path_edges(vs.push((id, v))).len() == vs.len(),
{
    let vs2 = vs.push((id, v));
    if vs.len() == 0 {
        assert(es =~= path_edges(vs2));
    } else {
        let e = Edge { from: vs.last().0, to: id };
        assert forall|t: int| 0 <= t < es.len() implies es[t] != e by {
            assert(es[t].to == vs[t + 1].0);
        }
        assert(!es.contains(e));
        assert(es.push(e) =~= path_edges(vs2));
    }
}

/// Closing a chain of more than two vertices adds the wrap-around edge as a
/// genuinely new edge, and the result is exactly the cycle over the order:
/// the closed polygon has as many edges as vertices.
pub proof fn lemma_close_makes_ring(vs: Seq<(VertexId, Vertex)>, es: Seq<Edge>)
    requires
        es == path_edges(vs),
        unique_ids(vs),
        vs.len() > 2,
    ensures
        insert_edge(es, Edge { from: vs.last().0, to: vs[0].0 }) == cycle_edges(vs),
        cycle_edges(vs).len() == vs.len(),
{
    let e = Edge { from: vs.last().0, to: vs[0].0 };
    assert forall|t: int| 0 <= t < es.len() implies es[t] != e by {
        assert(es[t].from == vs[t].0);
        assert(vs.last() == vs[vs.len() - 1]);
    }
    assert(!es.contains(e));
    assert(es.push(e) =~= cycle_edges(vs));
}

/// When exactly the edge at position `j` of `s` runs into `id`, the stitch
/// source is that edge's `from` endpoint.
pub proof fn lemma_stitch_from_unique(s: Seq<Edge>, id: VertexId, j: int)
    requires
        0 <= j < s.len(),
        s[j].to == id,
        forall|t: int| 0 <= t < s.len() && t != j ==> (#[trigger] s[t]).to != id,
    ensures
        stitch_from(s, id) == Some(s[j].from),
    decreases s.len(),
{
    if j == s.len() - 1 {
    } else {
        assert(s.last().to != id);
        lemma_stitch_from_unique(s.drop_last(), id, j);
        assert(s.drop_last()[j] == s[j]);
    }
}

/// When exactly the edge at position `j` of `s` leaves `id` without also
/// running into it, the stitch target is that edge's `to` endpoint.
pub proof fn lemma_stitch_to_unique(s: Seq<Edge>, id: VertexId, j: int)
    requires
        0 <= j < s.len(),
        s[j].from == id,
        s[j].to != id,
        forall|t: int|
            0 <= t < s.len() && t != j ==> !((#[trigger] s[t]).from == id && s[t].to != id),
    ensures
        stitch_to(s, id) == Some(s[j].to),
    decreases s.len(),
{
    if j == s.len() - 1 {
    } else {
        assert(!(s.last().from == id && s.last().to != id));
        lemma_stitch_to_unique(s.drop_last(), id, j);
        assert(s.drop_last()[j] == s[j]);
    }
}

/// Inserting an element anywhere gives the same element set as pushing it
/// at the tail.
pub proof fn lemma_insert_like_push_to_set(s: Seq<Edge>, k: int, x: Edge)
    requires
        0 <= k <= s.len(),
    ensures
        s.insert(k, x).to_set() == s.push(x).to_set(),
{
    let a = s.insert(k, x);
    let b = s.push(x);
    assert forall|e: Edge| a.to_set().contains(e) implies b.to_set().contains(e) by {
        let t = choose|t: int| 0 <= t < a.len() && a[t] == e;
        if t == k {
            assert(b[s.len() as int] == e);
        } else if t < k {
            assert(b[t] == e);
        } else {
            assert(b[t - 1] == e);
        }
        assert(b.to_set().contains(e));
    }
    assert forall|e: Edge| b.to_set().contains(e) implies a.to_set().contains(e) by {
        let t = choose|t: int| 0 <= t < b.len() && b[t] == e;
        if t == s.len() {
            assert(a[k] == e);
        } else if t < k {
            assert(a[t] == e);
        } else {
            assert(a[t + 1] == e);
        }
        assert(a.to_set().contains(e));
    }
    assert(a.to_set() =~= b.to_set());
}

/// Removing any vertex of a closed ring of at least four vertices
/// re-stitches it into a closed ring over the remaining order, whatever
/// storage order the ring's edges are in (a prior reversal permutes them):
/// exactly the two edges touching the vertex disappear, exactly one new
/// edge connects its former neighbours directly, and the resulting edges
/// are — as a set — the cycle over the shortened vertex order, one edge
/// per vertex.
#[verifier::rlimit(60)]
pub proof fn lemma_remove_restitches_ring(
    vs: Seq<(VertexId, Vertex)>,
    es: Seq<Edge>,
    id: VertexId,
)
    requires
        unique_ids(vs),
        vs.len() >= 4,
        contains_id(vs, id),
        unique_edges(es),
        es.to_set() == cycle_edges(vs).to_set(),
    ensures
        ({
            let i = id_index(vs, id);
            let vs2 = vs.remove(i);
            let f = stitch_from(es, id);
            let t = stitch_to(es, id);
            &&& f == Some(vs[crate::triangulate::prev_ix(vs.len() as int, i)].0)
            &&& t == Some(vs[crate::triangulate::next_ix(vs.len() as int, i)].0)
            &&& ({
                let res = insert_edge(
                    edges_avoiding(es, id),
                    Edge { from: f.unwrap(), to: t.unwrap() },
                );
                &&& res.len() == es.len() - 1
                &&& unique_edges(res)
                &&& res.to_set() == cycle_edges(vs2).to_set()
            })
        }),
{
    let n = vs.len() as int;
    let cyc = cycle_edges(vs);
    let i = id_index(vs, id);
    assert(0 <= i < n && vs[i].0 == id);
    let prev = crate::triangulate::prev_ix(n, i);
    let next = crate::triangulate::next_ix(n, i);
    assert(crate::triangulate::next_ix(n, prev) == i);
    let e_in = Edge { from: vs[prev].0, to: id };
    let e_out = Edge { from: id, to: vs[next].0 };
    assert(cyc[prev] == e_in);
    assert(cyc[i] == e_out);
    assert(vs[next].0 != id);
    assert(vs[prev].0 != id);
    assert(e_in != e_out);
    // Within the cycle, only the two neighbouring edges touch the id.
    assert forall|t: int| 0 <= t < n && t != prev && t != i implies !touches(
        #[trigger] cyc[t],
        id,
    ) by {
        assert(cyc[t].from == vs[t].0);
        assert(cyc[t].to == vs[crate::triangulate::next_ix(n, t)].0);
        assert(crate::triangulate::next_ix(n, t) != i);
    }
    // Every stored edge is a cycle edge, so the same holds of the storage
    // order: there is exactly one position running into the id and exactly
    // one leaving it.
    assert forall|t: int| 0 <= t < es.len() implies cyc.to_set().contains(#[trigger] es[t]) by {
        assert(es.to_set().contains(es[t]));
    }
    assert(es.to_set().contains(e_in)) by {
        assert(cyc.to_set().contains(cyc[prev]));
    }
    assert(es.to_set().contains(e_out)) by {
        assert(cyc.to_set().contains(cyc[i]));
    }
    let j_in = choose|j: int| 0 <= j < es.len() && es[j] == e_in;
    let j_out = choose|j: int| 0 <= j < es.len() && es[j] == e_out;
    assert(es[j_in] == e_in && es[j_out] == e_out && j_in != j_out);
    assert forall|t: int| 0 <= t < es.len() && t != j_in implies (#[trigger] es[t]).to != id by {
        let w = choose|w: int| 0 <= w < cyc.len() && cyc[w] == es[t];
        if es[t].to == id {
            assert(w == prev);
            assert(es[t] == e_in);
        }
    }
    assert forall|t: int| 0 <= t < es.len() && t != j_out implies !((#[trigger] es[t]).from == id
        && es[t].to != id) by {
        let w = choose|w: int| 0 <= w < cyc.len() && cyc[w] == es[t];
        if es[t].from == id && es[t].to != id {
            assert(w == i);
            assert(es[t] == e_out);
        }
    }
    lemma_stitch_from_unique(es, id, j_in);
    lemma_stitch_to_unique(es, id, j_out);
    let st = Edge { from: vs[prev].0, to: vs[next].0 };
    let vs2 = vs.remove(i);
    let cyc2 = cycle_edges(vs2);
    let p = if j_in < j_out { j_in } else { j_out };
    let q = if j_in < j_out { j_out } else { j_in };
    assert(touches(es[p], id) && touches(es[q], id));
    assert forall|t: int| 0 <= t < es.len() && t != p && t != q implies !touches(
        #[trigger] es[t],
        id,
    ) by {
        assert(es[t].to != id);
    }
    crate::edges::lemma_filter_two(es, id, p, q);
    let avoiding = es.remove(q).remove(p);
    assert(edges_avoiding(es, id) == avoiding);
    // The stitch edge leaves the same vertex as the removed incoming
    // edge's source, so it equals no cycle edge and no kept edge.
    assert(!cyc.to_set().contains(st)) by {
        if cyc.to_set().contains(st) {
            let w = choose|w: int| 0 <= w < cyc.len() && cyc[w] == st;
            assert(cyc[w].from == vs[w].0);
            assert(w == prev);
            assert(cyc[prev].to == id);
        }
    }
    assert forall|u: int| 0 <= u < avoiding.len() implies avoiding[u] != st by {
        let v = if u < p { u } else { u + 1 };
        let w = if v < q { v } else { v + 1 };
        assert(avoiding[u] == es.remove(q)[v]);
        assert(es.remove(q)[v] == es[w]);
        assert(cyc.to_set().contains(es[w]));
    }
    assert(!avoiding.contains(st));
    let res = avoiding.push(st);
    assert(insert_edge(edges_avoiding(es, id), st) == res);
    assert(res.len() == es.len() - 1);
    // No duplicates: the kept edges were pairwise distinct already and the
    // stitch edge is new.
    assert forall|u1: int, u2: int| 0 <= u1 < u2 < res.len() implies res[u1] != res[u2] by {
        if u2 < avoiding.len() {
            let v1 = if u1 < p { u1 } else { u1 + 1 };
            let w1 = if v1 < q { v1 } else { v1 + 1 };
            let v2 = if u2 < p { u2 } else { u2 + 1 };
            let w2 = if v2 < q { v2 } else { v2 + 1 };
            assert(avoiding[u1] == es.remove(q)[v1]);
            assert(es.remove(q)[v1] == es[w1]);
            assert(avoiding[u2] == es.remove(q)[v2]);
            assert(es.remove(q)[v2] == es[w2]);
        } else {
            assert(res[u2] == st);
            assert(res[u1] == avoiding[u1]);
        }
    }
    // Set equality with the shortened cycle: the kept edges are exactly
    // the cycle edges not touching the id, which are exactly the edges of
    // the shortened cycle other than the stitch edge.
    assert forall|e: Edge| res.to_set().contains(e) implies cyc2.to_set().contains(e) by {
        let u = choose|u: int| 0 <= u < res.len() && res[u] == e;
        if u < avoiding.len() {
            let v = if u < p { u } else { u + 1 };
            let w0 = if v < q { v } else { v + 1 };
            assert(avoiding[u] == es.remove(q)[v]);
            assert(es.remove(q)[v] == es[w0]);
            let w = choose|w: int| 0 <= w < cyc.len() && cyc[w] == es[w0];
            assert(!touches(cyc[w], id));
            assert(w != prev && w != i);
            // Map the surviving cycle position onto the shortened cycle.
            if i == 0 {
                assert(1 <= w <= n - 2);
                assert(cyc2[w - 1] == cyc[w]) by {
                    assert(vs2[w - 1] == vs[w]);
                    assert(crate::triangulate::next_ix(n - 1, w - 1) == w);
                    assert(vs2[w] == vs[w + 1]);
                    assert(crate::triangulate::next_ix(n, w) == w + 1);
                }
                assert(cyc2.to_set().contains(cyc2[w - 1]));
            } else if w < i - 1 {
                assert(cyc2[w] == cyc[w]) by {
                    assert(vs2[w] == vs[w]);
                    assert(vs2[w + 1] == vs[w + 1]);
                }
                assert(cyc2.to_set().contains(cyc2[w]));
            } else {
                assert(i + 1 <= w <= n - 1);
                assert(cyc2[w - 1] == cyc[w]) by {
                    assert(vs2[w - 1] == vs[w]);
                    if w < n - 1 {
                        assert(vs2[w] == vs[w + 1]);
                    } else {
                        assert(crate::triangulate::next_ix(n - 1, w - 1) == 0);
                        assert(vs2[0] == vs[0]);
                        assert(crate::triangulate::next_ix(n, w) == 0);
                    }
                }
                assert(cyc2.to_set().contains(cyc2[w - 1]));
            }
        } else {
            assert(e == st);
            let slot = if i == 0 { n - 2 } else { i - 1 };
            assert(cyc2[slot] == st) by {
                if i == 0 {
                    assert(vs2[n - 2] == vs[n - 1]);
                    assert(crate::triangulate::next_ix(n - 1, n - 2) == 0);
                    assert(vs2[0] == vs[1]);
                } else {
                    assert(vs2[i - 1] == vs[i - 1]);
                    if i < n - 1 {
                        assert(crate::triangulate::next_ix(n - 1, i - 1) == i);
                        assert(vs2[i] == vs[i + 1]);
                    } else {
                        assert(crate::triangulate::next_ix(n - 1, i - 1) == 0);
                        assert(vs2[0] == vs[0]);
                    }
                }
            }
            assert(cyc2.to_set().contains(cyc2[slot]));
        }
    }
    assert forall|e: Edge| cyc2.to_set().contains(e) implies res.to_set().contains(e) by {
        let u = choose|u: int| 0 <= u < cyc2.len() && cyc2[u] == e;
        let slot = if i == 0 { n - 2 } else { i - 1 };
        if u == slot {
            assert(cyc2[slot] == st) by {
                if i == 0 {
                    assert(vs2[n - 2] == vs[n - 1]);
                    assert(crate::triangulate::next_ix(n - 1, n - 2) == 0);
                    assert(vs2[0] == vs[1]);
                } else {
                    assert(vs2[i - 1] == vs[i - 1]);
                    if i < n - 1 {
                        assert(crate::triangulate::next_ix(n - 1, i - 1) == i);
                        assert(vs2[i] == vs[i + 1]);
                    } else {
                        assert(crate::triangulate::next_ix(n - 1, i - 1) == 0);
                        assert(vs2[0] == vs[0]);
                    }
                }
            }
            assert(res[res.len() - 1] == st);
            assert(res.to_set().contains(res[res.len() - 1]));
        } else {
            // Map the shortened-cycle position back onto a surviving
            // position of the full cycle, then into the storage order.
            let w = if i == 0 {
                u + 1
            } else if u < i - 1 {
                u
            } else {
                u + 1
            };
            assert(cyc[w] == e) by {
                if i == 0 {
                    assert(0 <= u < n - 2);
                    assert(vs2[u] == vs[u + 1]);
                    assert(vs2[u + 1] == vs[u + 2]);
                } else if u < i - 1 {
                    assert(vs2[u] == vs[u]);
                    assert(vs2[u + 1] == vs[u + 1]);
                } else {
                    assert(i <= u <= n - 2);
                    assert(vs2[u] == vs[u + 1]);
                    if u < n - 2 {
                        assert(vs2[u + 1] == vs[u + 2]);
                    } else {
                        assert(crate::triangulate::next_ix(n - 1, u) == 0);
                        assert(vs2[0] == vs[0]);
                        assert(crate::triangulate::next_ix(n, u + 1) == 0);
                    }
                }
            }
            assert(w != prev && w != i) by {
                assert(!touches(e, id)) by {
                    assert(cyc2[u].from == vs2[u].0);
                    assert(cyc2[u].to == vs2[crate::triangulate::next_ix(n - 1, u)].0);
                    assert(forall|z: int| 0 <= z < vs2.len() ==> (#[trigger] vs2[z]).0 != id);
                }
            }
            assert(es.to_set().contains(e)) by {
                assert(cyc.to_set().contains(cyc[w]));
            }
            let t = choose|t: int| 0 <= t < es.len() && es[t] == e;
            assert(t != p && t != q) by {
                assert(!touches(es[t], id));
            }
            let v = if t < q { t } else { t - 1 };
            let u0 = if v < p {
                v
            } else {
                v - 1
            };
            assert(0 <= u0 < avoiding.len());
            assert(avoiding[u0] == es.remove(q)[if u0 < p { u0 } else { u0 + 1 }]);
            assert(avoiding[u0] == es[t]);
            assert(res[u0] == e);
            assert(res.to_set().contains(res[u0]));
        }
    }
    assert(res.to_set() =~= cyc2.to_set());
}

/// The cycle over a duplicate-free vertex order holds no duplicate edge,
/// and the canonical storage order is trivially set-equal to itself: the
/// re-stitch law specialised to a ring whose edges were never permuted.
pub proof fn lemma_remove_on_ring(vs: Seq<(VertexId, Vertex)>, id: VertexId)
    requires
        unique_ids(vs),
        vs.len() >= 4,
        contains_id(vs, id),
    ensures
        ({
            let es = cycle_edges(vs);
            let i = id_index(vs, id);
            let vs2 = vs.remove(i);
            let f = stitch_from(es, id);
            let t = stitch_to(es, id);
            &&& f is Some
            &&& t is Some
            &&& ({
                let res = insert_edge(
                    edges_avoiding(es, id),
                    Edge { from: f.unwrap(), to: t.unwrap() },
                );
                &&& res.len() == vs.len() - 1
                &&& unique_edges(res)
                &&& res.to_set() == cycle_edges(vs2).to_set()
            })
        }),
{
    let n = vs.len() as int;
    let es = cycle_edges(vs);
    assert forall|a: int, b: int| 0 <= a < b < es.len() implies es[a] != es[b] by {
        assert(es[a].from == vs[a].0);
        assert(es[b].from == vs[b].0);
    }
    lemma_remove_restitches_ring(vs, es, id);
}

/// Reversing a polygon twice restores both the vertex order and the edge
/// list exactly.
pub proof fn lemma_reverse_involution(vs: Seq<(VertexId, Vertex)>, es: Seq<Edge>)
    ensures
        vs.reverse().reverse() == vs,
        es.map_values(|e: Edge| rev_edge(e)).map_values(|e: Edge| rev_edge(e)) == es,
{
    assert(vs.reverse().reverse() =~= vs);
    assert(es.map_values(|e: Edge| rev_edge(e)).map_values(|e: Edge| rev_edge(e)) =~= es);
}

/// Reversing a polygon turns the cycle over an order into the cycle over
/// the reversed order, up to edge identity: each wrap-around pair flips
/// direction. Stated as set equality because reversal re-inserts the edges
/// in snapshot order.
pub proof fn lemma_reverse_of_ring(vs: Seq<(VertexId, Vertex)>)
    requires
        vs.len() >= 3,
    ensures
        cycle_edges(vs).map_values(|e: Edge| rev_edge(e)).to_set() == cycle_edges(
            vs.reverse(),
        ).to_set(),
{
    let n = vs.len() as int;
    let lhs = cycle_edges(vs).map_values(|e: Edge| rev_edge(e));
    let rhs = cycle_edges(vs.reverse());
    assert forall|e: Edge| lhs.to_set().contains(e) implies rhs.to_set().contains(e) by {
        let t = choose|t: int| 0 <= t < lhs.len() && lhs[t] == e;
        let s = if t == n - 1 {
            n - 1
        } else {
            n - 2 - t
        };
        assert(rhs[s] == e);
        assert(rhs.to_set().contains(rhs[s]));
    }
    assert forall|e: Edge| rhs.to_set().contains(e) implies lhs.to_set().contains(e) by {
        let s = choose|s: int| 0 <= s < rhs.len() && rhs[s] == e;
        let t = if s == n - 1 {
            n - 1
        } else {
            n - 2 - s
        };
        assert(lhs[t] == e);
        assert(lhs.to_set().contains(lhs[t]));
    }
    assert(lhs.to_set() =~= rhs.to_set());
}

/// Editable polygon: ordered 2D vertices plus the connecting edges.
///
/// Every structural mutation updates both sets before returning, so a vertex
/// is never present without its neighbouring edges being consistent with the
/// current vertex order.
pub struct MeshPolygon {
    /// Vertices of the polygon.
    pub vertices: Vertices,
    /// Edges of the polygon.
    pub edges: Edges,
}

impl MeshPolygon {
    /// Well-formedness of both sets.
    pub open spec fn wf(&self) -> bool {
        self.vertices.wf() && self.edges.wf()
    }

    /// Create a new empty polygon.
    pub fn new() -> (r: Self)
        ensures
            r.wf(),
            r.vertices@ == Seq::<(VertexId, Vertex)>::empty(),
            r.edges@ == Seq::<Edge>::empty(),
            r.vertices.allocator() == 0,
    {
        MeshPolygon { vertices: Vertices::new(), edges: Edges::new() }
    }

    /// Clear and reset the polygon: drop all vertices and edges and reset
    /// the id allocator, so ids may be reused afterwards.
    pub fn clear_with_reset(&mut self)
        ensures
            final(self).wf(),
            final(self).vertices@ == Seq::<(VertexId, Vertex)>::empty(),
            final(self).edges@ == Seq::<Edge>::empty(),
            final(self).vertices.allocator() == 0,
    {
        self.vertices.clear_with_reset();
        self.edges.clear();
    }

    /// Push a new vertex at the order tail and return its id. If this is
    /// not the first vertex, also insert the edge from the previous order
    /// tail to the new vertex.
    pub fn push_vertex(&mut self, vertex: Vertex) -> (id: VertexId)
        requires
            old(self).wf(),
            old(self).vertices.allocator() < u64::MAX,
        ensures
            final(self).wf(),
            id.0 == old(self).vertices.allocator(),
            !contains_id(old(self).vertices@, id),
            final(self).vertices@ == old(self).vertices@.push((id, vertex)),
            final(self).vertices.allocator() == old(self).vertices.allocator() + 1,
            old(self).vertices@.len() == 0 ==> final(self).edges@ == old(self).edges@,
            old(self).vertices@.len() > 0 ==> final(self).edges@ == insert_edge(
                old(self).edges@,
                Edge { from: old(self).vertices@.last().0, to: id },
            ),
    {
        let id = self.vertices.push(vertex);
        let vertices_len = self.vertices.len();
        if vertices_len > 1 {
            let ids = self.vertices.ids();
            let prev_vertex = ids[vertices_len - 2];
            proof {
                assert(prev_vertex == old(self).vertices@.last().0);
            }
            self.edges.insert(Edge::new(prev_vertex, id));
        }
        id
    }

    /// Close the polygon by connecting the order tail back to the head.
    /// Possible only with more than 2 vertices; returns whether it closed.
    /// Closing an already-closed polygon re-inserts an equal edge, which the
    /// edge set silently dedupes.
    pub fn close(&mut self) -> (r: bool)
        requires
            old(self).wf(),
        ensures
            final(self).wf(),
            final(self).vertices == old(self).vertices,
            r == (old(self).vertices@.len() > 2),
            r ==> final(self).edges@ == insert_edge(
                old(self).edges@,
                Edge { from: old(self).vertices@.last().0, to: old(self).vertices@[0].0 },
            ),
            !r ==> final(self).edges@ == old(self).edges@,
    {
        if self.vertices.len() > 2 {
            let ids = self.vertices.ids();
            let last = ids[ids.len() - 1];
            let first = ids[0];
            self.edges.insert(Edge::new(last, first));
            true
        } else {
            false
        }
    }

    /// Reverse the polygon: the vertex order is reversed and every edge
    /// `(from, to)` is replaced by `(to, from)`.
    pub fn reverse(&mut self)
        requires
            old(self).wf(),
        ensures
            final(self).wf(),
            final(self).vertices@ == old(self).vertices@.reverse(),
            final(self).vertices.allocator() == old(self).vertices.allocator(),
            final(self).edges@ == old(self).edges@.map_values(|e: Edge| rev_edge(e)),
    {
        self.vertices.reverse();
        // Snapshot all edges, clear, then reinsert reversed: never in place.
        let snapshot = self.edges.get_all_owned();
        self.edges.clear();
        let n = snapshot.len();
        let ghost orig = snapshot@;
        let mut i: usize = 0;
        while i < n
            invariant
                orig == old(self).edges@,
                unique_edges(orig),
                n == orig.len(),
                i <= n,
                self.edges.wf(),
                self.vertices.wf(),
                self.vertices@ == old(self).vertices@.reverse(),
                self.vertices.allocator() == old(self).vertices.allocator(),
                self.edges@ == orig.subrange(0, i as int).map_values(|e: Edge| rev_edge(e)),
                snapshot@ == orig,
            decreases n - i,
        {
            let e = snapshot[i];
            proof {
                let mapped = self.edges@;
                assert forall|j: int| 0 <= j < mapped.len() implies mapped[j] != rev_edge(
                    orig[i as int],
                ) by {
                    assert(mapped[j] == rev_edge(orig.subrange(0, i as int)[j]));
                    assert(orig.subrange(0, i as int)[j] == orig[j]);
                    if rev_edge(orig[j]) == rev_edge(orig[i as int]) {
                        assert(orig[j] == orig[i as int]);
                    }
                }
                assert(!self.edges@.contains(rev_edge(orig[i as int])));
            }
            self.edges.insert(Edge::new(e.to, e.from));
            proof {
                assert(self.edges@ =~= orig.subrange(0, i + 1).map_values(
                    |e: Edge| rev_edge(e),
                ));
            }
            i = i + 1;
        }
        proof {
            assert(orig.subrange(0, n as int) =~= orig);
        }
    }

    /// Extrude the polygon into a 3D mesh buffer. First tries to close the
    /// polygon; with fewer than 3 vertices nothing is generated. A ring the
    /// triangulation rejects (degenerate or self-intersecting) also yields
    /// `None`; the polygon itself is never corrupted — the implicit close is
    /// the only mutation either way.
    pub fn extrude(&mut self, extrude_amount: i64) -> (r: Option<MeshData>)
        requires
            old(self).wf(),
            0 < extrude_amount,
            coords_bounded(values_of(old(self).vertices@)),
            old(self).vertices@.len() <= 0x2AAA_AAAA,
        ensures
            final(self).wf(),
            final(self).vertices == old(self).vertices,
            old(self).vertices@.len() > 2 ==> final(self).edges@ == insert_edge(
                old(self).edges@,
                Edge { from: old(self).vertices@.last().0, to: old(self).vertices@[0].0 },
            ),
            old(self).vertices@.len() <= 2 ==> final(self).edges@ == old(self).edges@,
            match r {
                Some(mesh) => {
                    &&& old(self).vertices@.len() > 2
                    &&& mesh.wf()
                    &&& is_extruded_mesh(values_of(old(self).vertices@), extrude_amount, mesh)
                },
                None => old(self).vertices@.len() <= 2 || ring_triangulation(
                    values_of(old(self).vertices@),
                ) is None,
            },
    {
        if self.close() {
            let pts = self.vertices.get_all_owned();
            generate_extruded_mesh(&pts, extrude_amount)
        } else {
            None
        }
    }

    /// Remove a vertex by id, removing every edge touching it. If among the
    /// removed edges there was exactly one running into the vertex and one
    /// leaving it, a new edge connecting those two neighbours directly is
    /// added (re-stitching the cycle or path); otherwise no edge is added.
    ///
    /// Returns the removed point (or `None` for a stale id) and the list of
    /// added edges.
    pub fn remove_vertex(&mut self, vertex_id: VertexId) -> (r: (Option<Vertex>, Vec<Edge>))
        requires
            old(self).wf(),
        ensures
            final(self).wf(),
            final(self).vertices.allocator() == old(self).vertices.allocator(),
            contains_id(old(self).vertices@, vertex_id) ==> {
                &&& final(self).vertices@ == old(self).vertices@.remove(
                    id_index(old(self).vertices@, vertex_id),
                )
                &&& r.0 == Some(old(self).vertices@[id_index(old(self).vertices@, vertex_id)].1)
            },
            !contains_id(old(self).vertices@, vertex_id) ==> {
                &&& final(self).vertices@ == old(self).vertices@
                &&& r.0 is None
            },
            match (stitch_from(old(self).edges@, vertex_id), stitch_to(old(self).edges@, vertex_id)) {
                (Some(f), Some(t)) => {
                    &&& final(self).edges@ == insert_edge(
                        edges_avoiding(old(self).edges@, vertex_id),
                        Edge { from: f, to: t },
                    )
                    &&& r.1@ == seq![Edge { from: f, to: t }]
                },
                _ => {
                    &&& final(self).edges@ == edges_avoiding(old(self).edges@, vertex_id)
                    &&& r.1@.len() == 0
                },
            },
    {
        let vertex = self.vertices.remove(vertex_id);
        let orphan_edges = self.edges.remove_by_vertex(vertex_id);
        let ghost orig_edges = old(self).edges@;
        proof {
            lemma_stitch_on_touching(orig_edges, vertex_id);
        }
        let mut new_edge_from: Option<VertexId> = None;
        let mut new_edge_to: Option<VertexId> = None;
        let n = orphan_edges.len();
        let mut i: usize = 0;
        while i < n
            invariant
                orphan_edges@ == edges_touching(orig_edges, vertex_id),
                n == orphan_edges@.len(),
                i <= n,
                new_edge_from == stitch_from(orphan_edges@.subrange(0, i as int), vertex_id),
                new_edge_to == stitch_to(orphan_edges@.subrange(0, i as int), vertex_id),
            decreases n - i,
        {
            proof {
                assert(orphan_edges@.subrange(0, i + 1).drop_last() =~= orphan_edges@.subrange(
                    0,
                    i as int,
                ));
                assert(orphan_edges@.subrange(0, i + 1).last() == orphan_edges@[i as int]);
            }
            let edge = orphan_edges[i];
            if edge.to == vertex_id {
                new_edge_from = Some(edge.from);
            } else if edge.from == vertex_id {
                new_edge_to = Some(edge.to);
            }
            i = i + 1;
        }
        proof {
            assert(orphan_edges@.subrange(0, n as int) =~= orphan_edges@);
        }
        let mut added_edges: Vec<Edge> = Vec::new();
        if let (Some(from), Some(to)) = (new_edge_from, new_edge_to) {
            // Add the edge connecting the neighbouring vertices.
            let edge = Edge::new(from, to);
            self.edges.insert(edge);
            added_edges.push(edge);
        }
        (vertex, added_edges)
    }

    /// Insert a new vertex on the given edge. Fails (`None`, no change) if
    /// either endpoint is not currently a live vertex. Otherwise the vertex
    /// is placed at the order position that keeps the ring order: at the
    /// tail for the wrap-around edge, else right after the earlier-indexed
    /// endpoint; the edge is replaced by the two edges through the new
    /// vertex.
    pub fn insert_vertex_on_edge(&mut self, vertex: Vertex, edge: Edge) -> (r: Option<VertexId>)
        requires
            old(self).wf(),
            old(self).vertices.allocator() < u64::MAX,
        ensures
            final(self).wf(),
            match r {
                Some(id) => {
                    let vs = old(self).vertices@;
                    let fi = id_index(vs, edge.from);
                    let ti = id_index(vs, edge.to);
                    let at = if (fi == 0 && ti == vs.len() - 1) || (fi == vs.len() - 1 && ti == 0) {
                        vs.len() as int
                    } else if fi < ti {
                        fi + 1
                    } else {
                        ti + 1
                    };
                    &&& contains_id(vs, edge.from)
                    &&& contains_id(vs, edge.to)
                    &&& id.0 == old(self).vertices.allocator()
                    &&& !contains_id(vs, id)
                    &&& final(self).vertices@ == vs.insert(at, (id, vertex))
                    &&& final(self).vertices.allocator() == old(self).vertices.allocator() + 1
                    &&& final(self).edges@ == insert_edge(
                        insert_edge(
                            remove_edge(old(self).edges@, edge),
                            Edge { from: edge.from, to: id },
                        ),
                        Edge { from: id, to: edge.to },
                    )
                },
                None => {
                    &&& !contains_id(old(self).vertices@, edge.from) || !contains_id(
                        old(self).vertices@,
                        edge.to,
                    )
                    &&& *final(self) == *old(self)
                },
            },
    {
        let ids = self.vertices.ids();
        let ghost vs = self.vertices@;
        let length = ids.len();
        // Locate both endpoints in the current vertex order.
        let mut from_idx: usize = 0;
        let mut found_from = false;
        let mut i: usize = 0;
        while i < length
            invariant
                ids@ == ids_of(vs),
                length == vs.len(),
                i <= length,
                !found_from ==> forall|j: int| 0 <= j < i ==> ids_of(vs)[j] != edge.from,
                found_from ==> from_idx < i && ids_of(vs)[from_idx as int] == edge.from,
            decreases length - i,
        {
            if !found_from && ids[i] == edge.from {
                from_idx = i;
                found_from = true;
            }
            i = i + 1;
        }
        if !found_from {
            proof {
                assert(forall|j: int|
                    0 <= j < vs.len() ==> (#[trigger] vs[j]).0 == ids_of(vs)[j]);
                assert(!contains_id(vs, edge.from));
            }
            return None;
        }
        let mut to_idx: usize = 0;
        let mut found_to = false;
        i = 0;
        while i < length
            invariant
                ids@ == ids_of(vs),
                length == vs.len(),
                i <= length,
                !found_to ==> forall|j: int| 0 <= j < i ==> ids_of(vs)[j] != edge.to,
                found_to ==> to_idx < i && ids_of(vs)[to_idx as int] == edge.to,
            decreases length - i,
        {
            if !found_to && ids[i] == edge.to {
                to_idx = i;
                found_to = true;
            }
            i = i + 1;
        }
        if !found_to {
            proof {
                assert(forall|j: int|
                    0 <= j < vs.len() ==> (#[trigger] vs[j]).0 == ids_of(vs)[j]);
                assert(!contains_id(vs, edge.to));
            }
            return None;
        }
        proof {
            assert(forall|j: int| 0 <= j < vs.len() ==> (#[trigger] vs[j]).0 == ids_of(vs)[j]);
            assert(vs[from_idx as int].0 == edge.from);
            assert(vs[to_idx as int].0 == edge.to);
            assert(contains_id(vs, edge.from));
            assert(contains_id(vs, edge.to));
            assert(id_index(vs, edge.from) == from_idx) by {
                let k = id_index(vs, edge.from);
                assert(vs[k].0 == edge.from);
                assert(unique_ids(vs));
            }
            assert(id_index(vs, edge.to) == to_idx) by {
                let k = id_index(vs, edge.to);
                assert(vs[k].0 == edge.to);
                assert(unique_ids(vs));
            }
        }
        // The wrap-around edge must land at the tail, or the new vertex
        // would corrupt the ring order; otherwise insert right after the
        // earlier-indexed endpoint.
        let insert_idx = if (from_idx == 0 && to_idx == length - 1) || (from_idx == length - 1
            && to_idx == 0) {
            length
        } else if from_idx < to_idx {
            from_idx + 1
        } else {
            to_idx + 1
        };
        let id = self.vertices.insert(insert_idx, vertex);
        self.edges.remove(&edge);
        self.edges.insert(Edge { from: edge.from, to: id });
        self.edges.insert(Edge { from: id, to: edge.to });
        Some(id)
    }
}

impl MeshPolygon {
    /// Build a polygon from a vector of points: push each in order, then
    /// close if possible. With more than two points the result is a closed
    /// ring holding one edge per vertex; with fewer it stays an open chain.
    pub fn from_vec(vertices_vec: Vec<Vertex>) -> (r: Self)
        requires
            vertices_vec@.len() <= u64::MAX,
        ensures
            r.wf(),
            values_of(r.vertices@) == vertices_vec@,
            r.vertices.allocator() == vertices_vec@.len(),
            forall|j: int|
                0 <= j < r.vertices@.len() ==> ((#[trigger] r.vertices@[j]).0).0 == j,
            vertices_vec@.len() > 2 ==> r.edges@ == cycle_edges(r.vertices@),
            vertices_vec@.len() <= 2 ==> r.edges@ == path_edges(r.vertices@),
    {
        let mut polygon = MeshPolygon::new();
        let n = vertices_vec.len();
        let mut i: usize = 0;
        while i < n
            invariant
                polygon.wf(),
                n == vertices_vec@.len(),
                n <= u64::MAX,
                i <= n,
                polygon.vertices.allocator() == i,
                polygon.vertices@.len() == i,
                forall|j: int|
                    0 <= j < polygon.vertices@.len()
                        ==> ((#[trigger] polygon.vertices@[j]).0).0 == j,
                values_of(polygon.vertices@) == vertices_vec@.subrange(0, i as int),
                polygon.edges@ == path_edges(polygon.vertices@),
            decreases n - i,
        {
            let ghost vs0 = polygon.vertices@;
            let ghost es0 = polygon.edges@;
            let id = polygon.push_vertex(vertices_vec[i]);
            proof {
                lemma_push_extends_chain(vs0, es0, id, vertices_vec@[i as int]);
                assert(values_of(polygon.vertices@) =~= vertices_vec@.subrange(0, i + 1));
            }
            i = i + 1;
        }
        proof {
            assert(vertices_vec@.subrange(0, n as int) =~= vertices_vec@);
        }
        let ghost vs1 = polygon.vertices@;
        let ghost es1 = polygon.edges@;
        let closed = polygon.close();
        proof {
            if closed {
                lemma_close_makes_ring(vs1, es1);
            }
        }
        polygon
    }
}

impl Default for MeshPolygon {
    /// An empty polygon, as [`MeshPolygon::new`] builds it.
    fn default() -> (r: Self)
        ensures
            r.wf(),
            r.vertices@ == Seq::<(VertexId, Vertex)>::empty(),
            r.edges@ == Seq::<Edge>::empty(),
            r.vertices.allocator() == 0,
    {
        MeshPolygon::new()
    }
}

} // verus!
