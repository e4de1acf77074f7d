//! Ear-clipping triangulation of a simple polygon ring.
//!
//! The triangulation is specified by a greedy mathematical mirror of the
//! algorithm: repeatedly cut the first "ear" (three consecutive ring
//! positions whose triangle turns the ring's way and contains no other ring
//! point) until only one triangle remains. A ring on which no ear can be
//! found — a degenerate or self-intersecting input — yields `None`; callers
//! treat that as "nothing generated", never as a panic.

use vstd::prelude::*;

use crate::vertices::{coord_ok, coords_bounded, Vertex};

verus! {

/// Twice the signed area of the triangle `(o, a, b)`: positive when the
/// three points turn counter-clockwise.
pub open spec fn cross(o: Vertex, a: Vertex, b: Vertex) -> int {
    (a.x - o.x) * (b.y - o.y) - (a.y - o.y) * (b.x - o.x)
}

/// Contribution of the directed edge `a -> b` to twice the ring area.
pub open spec fn area_term(a: Vertex, b: Vertex) -> int {
    a.x * b.y - b.x * a.y
}

/// Sum of `area_term` over the first `k` consecutive pairs of `vals`.
pub open spec fn area_pair_sum(vals: Seq<Vertex>, k: int) -> int
    decreases k,
{
    if k <= 0 {
        0
    } else {
        area_pair_sum(vals, k - 1) + area_term(vals[k - 1], vals[k])
    }
}

/// Twice the signed area of the ring `vals` (consecutive pairs plus the
/// wrap-around pair): positive for a counter-clockwise ring, negative for a
/// clockwise one, zero for a degenerate one.
pub open spec fn area2(vals: Seq<Vertex>) -> int {
    if vals.len() == 0 {
        0
    } else {
        area_pair_sum(vals, vals.len() - 1) + area_term(vals.last(), vals[0])
    }
}

/// Ring position before `k` in a ring of `n` positions.
pub open spec fn prev_ix(n: int, k: int) -> int {
    if k == 0 {
        n - 1
    } else {
        k - 1
    }
}

/// Ring position after `k` in a ring of `n` positions.
pub open spec fn next_ix(n: int, k: int) -> int {
    if k == n - 1 {
        0
    } else {
        k + 1
    }
}

/// `p` lies in the closed triangle `(a, b, c)`, where `o` (`1` or `-1`) is
/// the turning sense in which the triangle is wound.
pub open spec fn in_closed_tri(p: Vertex, a: Vertex, b: Vertex, c: Vertex, o: int) -> bool {
    &&& cross(a, b, p) * o >= 0
    &&& cross(b, c, p) * o >= 0
    &&& cross(c, a, p) * o >= 0
}

/// Position `k` of the index ring `idxs` (into the point list `vals`) is an
/// ear for turning sense `o`: its triangle turns the ring's way and no other
/// ring point lies inside or on that triangle.
pub open spec fn ear_at(vals: Seq<Vertex>, idxs: Seq<u32>, k: int, o: int) -> bool {
    let n = idxs.len() as int;
    let a = vals[idxs[prev_ix(n, k)] as int];
    let b = vals[idxs[k] as int];
    let c = vals[idxs[next_ix(n, k)] as int];
    &&& cross(a, b, c) * o > 0
    &&& forall|j: int|
        0 <= j < n && j != k && j != prev_ix(n, k) && j != next_ix(n, k) ==> !in_closed_tri(
            vals[(#[trigger] idxs[j]) as int],
            a,
            b,
            c,
            o,
        )
}

/// The least ear position of `idxs` at or after `k`, if any.
pub open spec fn find_ear_from(vals: Seq<Vertex>, idxs: Seq<u32>, k: int, o: int) -> Option<int>
    decreases idxs.len() - k,
{
    if k < 0 || k >= idxs.len() {
        None
    } else if ear_at(vals, idxs, k, o) {
        Some(k)
    } else {
        find_ear_from(vals, idxs, k + 1, o)
    }
}

/// Greedy ear clipping of the index ring `idxs`: cut the first ear and
/// recurse until one triangle remains. The result is the flat index list of
/// the emitted triangles, three entries per triangle, or `None` if at some
/// step no ear exists.
pub open spec fn clip(vals: Seq<Vertex>, idxs: Seq<u32>, o: int) -> Option<Seq<u32>>
    decreases idxs.len(),
{
    if idxs.len() < 3 {
        None
    } else if idxs.len() == 3 {
        Some(seq![idxs[0], idxs[1], idxs[2]])
    } else {
        match find_ear_from(vals, idxs, 0, o) {
            None => None,
            Some(k) => {
                if 0 <= k < idxs.len() {
                    let n = idxs.len() as int;
                    let tri = seq![idxs[prev_ix(n, k)], idxs[k], idxs[next_ix(n, k)]];
                    match clip(vals, idxs.remove(k), o) {
                        None => None,
                        Some(rest) => Some(tri + rest),
                    }
                } else {
                    None
                }
            },
        }
    }
}

/// The triangulation of the ring `vals`: `None` for fewer than 3 points,
/// for more points than a `u32` index can address, for a ring of zero
/// signed area, and for a ring on which greedy ear clipping gets stuck;
/// otherwise the flat triangle index list of the clipping.
pub open spec fn ring_triangulation(vals: Seq<Vertex>) -> Option<Seq<u32>> {
    if vals.len() < 3 || vals.len() > 0xFFFF_FFFF {
        None
    } else if area2(vals) == 0 {
        None
    } else {
        let o: int = if area2(vals) > 0 {
            1
        } else {
            -1
        };
        clip(vals, Seq::new(vals.len(), |i: int| i as u32), o)
    }
}

/// A found ear position lies within the index ring, at or after the start
/// of the search.
pub proof fn lemma_find_ear_range(vals: Seq<Vertex>, idxs: Seq<u32>, k0: int, o: int)
    requires
        find_ear_from(vals, idxs, k0, o) is Some,
    ensures
        k0 <= find_ear_from(vals, idxs, k0, o).unwrap() < idxs.len(),
    decreases idxs.len() - k0,
{
    if k0 < 0 || k0 >= idxs.len() {
    } else if ear_at(vals, idxs, k0, o) {
    } else {
        lemma_find_ear_range(vals, idxs, k0 + 1, o);
    }
}

/// A successful clipping of `m` ring positions emits exactly `m - 2`
/// triangles, i.e. `3 * (m - 2)` flat indices.
pub proof fn lemma_clip_len(vals: Seq<Vertex>, idxs: Seq<u32>, o: int)
    requires
        idxs.len() >= 3,
        clip(vals, idxs, o) is Some,
    ensures
        clip(vals, idxs, o).unwrap().len() == 3 * (idxs.len() - 2),
    decreases idxs.len(),
{
    if idxs.len() == 3 {
    } else {
        let k = find_ear_from(vals, idxs, 0, o).unwrap();
        lemma_find_ear_range(vals, idxs, 0, o);
        lemma_clip_len(vals, idxs.remove(k), o);
    }
}

/// Every index a successful clipping emits comes from the index ring, so it
/// respects any bound the ring respects.
pub proof fn lemma_clip_bounds(vals: Seq<Vertex>, idxs: Seq<u32>, o: int, bound: int)
    requires
        clip(vals, idxs, o) is Some,
        forall|j: int| 0 <= j < idxs.len() ==> (#[trigger] idxs[j]) < bound,
    ensures
        forall|j: int|
            0 <= j < clip(vals, idxs, o).unwrap().len() ==> (#[trigger] clip(
                vals,
                idxs,
                o,
            ).unwrap()[j]) < bound,
    decreases idxs.len(),
{
    if idxs.len() < 3 {
    } else if idxs.len() == 3 {
    } else {
        let k = find_ear_from(vals, idxs, 0, o).unwrap();
        lemma_find_ear_range(vals, idxs, 0, o);
        let smaller = idxs.remove(k);
        assert forall|j: int| 0 <= j < smaller.len() implies (#[trigger] smaller[j]) < bound by {
            if j < k {
                assert(smaller[j] == idxs[j]);
            } else {
                assert(smaller[j] == idxs[j + 1]);
            }
        }
        lemma_clip_bounds(vals, smaller, o, bound);
        let n = idxs.len() as int;
        let tri = seq![idxs[prev_ix(n, k)], idxs[k], idxs[next_ix(n, k)]];
        let rest = clip(vals, smaller, o).unwrap();
        assert(clip(vals, idxs, o).unwrap() == tri + rest);
        assert(forall|j: int|
            0 <= j < tri.len() + rest.len() ==> ((tri + rest)[j] == if j < 3 {
                tri[j]
            } else {
                rest[j - 3]
            }));
    }
}

/// Shape of a successful ring triangulation: the ring had at least 3
/// points, exactly `3 * (len - 2)` indices are emitted, and each one
/// addresses a ring point.
pub proof fn lemma_ring_triangulation_shape(vals: Seq<Vertex>)
    requires
        ring_triangulation(vals) is Some,
    ensures
        vals.len() >= 3,
        ring_triangulation(vals).unwrap().len() == 3 * (vals.len() - 2),
        forall|j: int|
            0 <= j < ring_triangulation(vals).unwrap().len() ==> (#[trigger] ring_triangulation(
                vals,
            ).unwrap()[j]) < vals.len(),
{
    let idxs = Seq::new(vals.len(), |i: int| i as u32);
    let o: int = if area2(vals) > 0 {
        1
    } else {
        -1
    };
    assert(forall|j: int| 0 <= j < idxs.len() ==> (#[trigger] idxs[j]) < vals.len());
    lemma_clip_len(vals, idxs, o);
    lemma_clip_bounds(vals, idxs, o, vals.len() as int);
}

/// Compute `cross(o, a, b)` exactly, in `i128` arithmetic.
fn cross_exec(o: Vertex, a: Vertex, b: Vertex) -> (r: i128)
    requires
        coord_ok(o),
        coord_ok(a),
        coord_ok(b),
    ensures
        r == cross(o, a, b),
{
    let dx1: i128 = a.x as i128 - o.x as i128;
    let dy1: i128 = a.y as i128 - o.y as i128;
    let dx2: i128 = b.x as i128 - o.x as i128;
    let dy2: i128 = b.y as i128 - o.y as i128;
    proof {
        assert(-0x4000_0000_0000_0000 <= dx1 * dy2 <= 0x4000_0000_0000_0000) by (nonlinear_arith)
            requires
                -0x8000_0000 <= dx1 <= 0x8000_0000,
                -0x8000_0000 <= dy2 <= 0x8000_0000,
        ;
        assert(-0x4000_0000_0000_0000 <= dy1 * dx2 <= 0x4000_0000_0000_0000) by (nonlinear_arith)
            requires
                -0x8000_0000 <= dy1 <= 0x8000_0000,
                -0x8000_0000 <= dx2 <= 0x8000_0000,
        ;
    }
    dx1 * dy2 - dy1 * dx2
}

/// Compute twice the signed area of the ring, exactly.
fn area2_exec(vals: &Vec<Vertex>) -> (r: i128)
    requires
        coords_bounded(vals@),
    ensures
        r == area2(vals@),
{
    let n = vals.len();
    if n == 0 {
        return 0;
    }
    let mut sum: i128 = 0;
    let mut i: usize = 1;
    while i < n
        invariant
            coords_bounded(vals@),
            n == vals@.len(),
            1 <= i <= n,
            sum == area_pair_sum(vals@, i - 1),
            -0x2000_0000_0000_0000 * (i - 1) <= sum <= 0x2000_0000_0000_0000 * (i - 1),
        decreases n - i,
    {
        let a = vals[i - 1];
        let b = vals[i];
        proof {
            assert(-0x1000_0000_0000_0000 <= (a.x as i128) * (b.y as i128)
                <= 0x1000_0000_0000_0000) by (nonlinear_arith)
                requires
                    -0x4000_0000 <= a.x as i128 <= 0x4000_0000,
                    -0x4000_0000 <= b.y as i128 <= 0x4000_0000,
            ;
            assert(-0x1000_0000_0000_0000 <= (b.x as i128) * (a.y as i128)
                <= 0x1000_0000_0000_0000) by (nonlinear_arith)
                requires
                    -0x4000_0000 <= b.x as i128 <= 0x4000_0000,
                    -0x4000_0000 <= a.y as i128 <= 0x4000_0000,
            ;
        }
        let xy: i128 = a.x as i128 * b.y as i128;
        let yx: i128 = b.x as i128 * a.y as i128;
        sum = sum + (xy - yx);
        i = i + 1;
    }
    let a = vals[n - 1];
    let b = vals[0];
    proof {
        assert(-0x1000_0000_0000_0000 <= (a.x as i128) * (b.y as i128) <= 0x1000_0000_0000_0000)
            by (nonlinear_arith)
            requires
                -0x4000_0000 <= a.x as i128 <= 0x4000_0000,
                -0x4000_0000 <= b.y as i128 <= 0x4000_0000,
        ;
        assert(-0x1000_0000_0000_0000 <= (b.x as i128) * (a.y as i128) <= 0x1000_0000_0000_0000)
            by (nonlinear_arith)
            requires
                -0x4000_0000 <= b.x as i128 <= 0x4000_0000,
                -0x4000_0000 <= a.y as i128 <= 0x4000_0000,
        ;
    }
    let xy: i128 = a.x as i128 * b.y as i128;
    let yx: i128 = b.x as i128 * a.y as i128;
    sum + (xy - yx)
}

/// Decide whether position `k` of the live index ring is an ear.
fn is_ear_exec(vals: &Vec<Vertex>, live: &Vec<u32>, k: usize, o_pos: bool) -> (r: bool)
    requires
        coords_bounded(vals@),
        live@.len() >= 3,
        k < live@.len(),
        forall|j: int| 0 <= j < live@.len() ==> ((#[trigger] live@[j]) as int) < vals@.len(),
    ensures
        r == ear_at(vals@, live@, k as int, if o_pos { 1int } else { -1int }),
{
    let ghost o: int = if o_pos { 1int } else { -1int };
    let n = live.len();
    let kp = if k == 0 { n - 1 } else { k - 1 };
    let kn = if k == n - 1 { 0 } else { k + 1 };
    let a = vals[live[kp] as usize];
    let b = vals[live[k] as usize];
    let c = vals[live[kn] as usize];
    let turn = cross_exec(a, b, c);
    let convex = if o_pos { turn > 0 } else { turn < 0 };
    if !convex {
        return false;
    }
    let mut j: usize = 0;
    while j < n
        invariant
            coords_bounded(vals@),
            n == live@.len(),
            3 <= n,
            k < n,
            j <= n,
            forall|t: int| 0 <= t < live@.len() ==> ((#[trigger] live@[t]) as int) < vals@.len(),
            kp == prev_ix(n as int, k as int),
            kn == next_ix(n as int, k as int),
            a == vals@[live@[kp as int] as int],
            b == vals@[live@[k as int] as int],
            c == vals@[live@[kn as int] as int],
            cross(a, b, c) * o > 0,
            o == (if o_pos { 1int } else { -1int }),
            forall|t: int|
                0 <= t < j && t != k && t != kp && t != kn ==> !in_closed_tri(
                    vals@[(#[trigger] live@[t]) as int],
                    a,
                    b,
                    c,
                    o,
                ),
        decreases n - j,
    {
        if j != k && j != kp && j != kn {
            let p = vals[live[j] as usize];
            let c1 = cross_exec(a, b, p);
            let c2 = cross_exec(b, c, p);
            let c3 = cross_exec(c, a, p);
            let inside = if o_pos {
                c1 >= 0 && c2 >= 0 && c3 >= 0
            } else {
                c1 <= 0 && c2 <= 0 && c3 <= 0
            };
            if inside {
                return false;
            }
        }
        j = j + 1;
    }
    true
}

/// Triangulate the ring `vals` by ear clipping. Returns the flat triangle
/// index list, or `None` exactly when the specification-level triangulation
/// is undefined (too few points, zero area, or no ear at some step).
pub fn triangulate(vals: &Vec<Vertex>) -> (r: Option<Vec<u32>>)
    requires
        coords_bounded(vals@),
    ensures
        match r {
            Some(tris) => ring_triangulation(vals@) == Some(tris@),
            None => ring_triangulation(vals@) is None,
        },
{
    let n = vals.len();
    if n < 3 {
        return None;
    }
    if (n as u64) > 0xFFFF_FFFFu64 {
        return None;
    }
    let area = area2_exec(vals);
    if area == 0 {
        return None;
    }
    let o_pos = area > 0;
    let ghost o: int = if o_pos { 1int } else { -1int };
    let mut live: Vec<u32> = Vec::new();
    let mut i: usize = 0;
    while i < n
        invariant
            i <= n,
            n <= 0xFFFF_FFFF,
            live@.len() == i,
            forall|j: int| 0 <= j < i ==> (#[trigger] live@[j]) == j as u32,
        decreases n - i,
    {
        live.push(i as u32);
        i = i + 1;
    }
    proof {
        assert(live@ =~= Seq::new(vals@.len(), |t: int| t as u32));
        assert(ring_triangulation(vals@) == clip(vals@, live@, o));
    }
    let mut out: Vec<u32> = Vec::new();
    while live.len() > 3
        invariant
            coords_bounded(vals@),
            n == vals@.len(),
            3 <= live@.len(),
            forall|j: int| 0 <= j < live@.len() ==> ((#[trigger] live@[j]) as int) < n,
            o == (if o_pos { 1int } else { -1int }),
            match clip(vals@, live@, o) {
                Some(rest) => ring_triangulation(vals@) == Some(out@ + rest),
                None => ring_triangulation(vals@) is None,
            },
        decreases live@.len(),
    {
        let m = live.len();
        let mut k: usize = 0;
        let mut found = false;
        while k < m && !found
            invariant
                coords_bounded(vals@),
                n == vals@.len(),
                m == live@.len(),
                3 <= m,
                k <= m,
                forall|j: int| 0 <= j < live@.len() ==> ((#[trigger] live@[j]) as int) < n,
                o == (if o_pos { 1int } else { -1int }),
                !found ==> find_ear_from(vals@, live@, 0, o) == find_ear_from(
                    vals@,
                    live@,
                    k as int,
                    o,
                ),
                found ==> k < m && find_ear_from(vals@, live@, 0, o) == Some(k as int),
            decreases m - k, (if found { 0int } else { 1int }),
        {
            if is_ear_exec(vals, &live, k, o_pos) {
                found = true;
            } else {
                k = k + 1;
            }
        }
        if !found {
            proof {
                assert(find_ear_from(vals@, live@, 0, o) is None);
                assert(clip(vals@, live@, o) is None);
            }
            return None;
        }
        let kp = if k == 0 { m - 1 } else { k - 1 };
        let kn = if k == m - 1 { 0 } else { k + 1 };
        let ghost prev_live = live@;
        let ghost prev_out = out@;
        out.push(live[kp]);
        out.push(live[k]);
        out.push(live[kn]);
        live.remove(k);
        proof {
            let tri = seq![
                prev_live[prev_ix(prev_live.len() as int, k as int)],
                prev_live[k as int],
                prev_live[next_ix(prev_live.len() as int, k as int)],
            ];
            assert(out@ =~= prev_out + tri);
            assert(live@ == prev_live.remove(k as int));
            match clip(vals@, live@, o) {
                Some(rest) => {
                    assert(clip(vals@, prev_live, o) == Some(tri + rest));
                    assert(prev_out + (tri + rest) =~= out@ + rest);
                },
                None => {
                    assert(clip(vals@, prev_live, o) is None);
                },
            }
        }
    }
    proof {
        assert(live@.len() == 3);
        assert(clip(vals@, live@, o) == Some(seq![live@[0], live@[1], live@[2]]));
    }
    let ghost prev_out = out@;
    out.push(live[0]);
    out.push(live[1]);
    out.push(live[2]);
    proof {
        assert(out@ =~= prev_out + seq![live@[0], live@[1], live@[2]]);
    }
    Some(out)
}

} // verus!
