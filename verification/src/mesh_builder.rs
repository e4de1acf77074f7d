//! Indexed triangle-mesh assembly: extrusion of a closed 2D ring into a
//! watertight solid with a floor face, a ceiling face and one rectangular
//! wall per boundary edge.
//!
//! The drawing plane is horizontal: a 2D point `(x, y)` extrudes to the 3D
//! points `(x, elevation, y)`. Normals are emitted as unnormalised integer
//! directions; a renderer normalises them when it converts the buffers to
//! floating point.

use vstd::prelude::*;

use crate::triangulate::{
    lemma_ring_triangulation_shape, next_ix, ring_triangulation, triangulate,
};
use crate::vertices::coords_bounded;

verus! {

/// The 3D position of the 2D plane point `p` lifted to height `elevation`:
/// the drawing plane is horizontal, so `(x, y)` becomes `(x, elevation, y)`.
pub open spec fn extruded_point(p: crate::vertices::Vertex, elevation: i64) -> Point3 {
    Point3 { x: p.x as i64, y: elevation, z: p.y as i64 }
}

/// Outward normal direction of the wall over the boundary edge `a -> b`:
/// the cross product of the bottom edge vector with the upward rise,
/// unnormalised (the extrusion height scales out of the direction).
pub open spec fn wall_normal(a: crate::vertices::Vertex, b: crate::vertices::Vertex) -> Point3 {
    Point3 {
        x: ((a.y as int) - (b.y as int)) as i64,
        y: 0i64,
        z: ((b.x as int) - (a.x as int)) as i64,
    }
}

/// Position-buffer slot of corner `k` of the wall quad over boundary edge
/// `i`, in a mesh whose ring has `n` points.
pub open spec fn wall_vertex_slot(n: int, i: int, k: int) -> int {
    2 * n + 4 * i + k
}

/// Index-buffer slot `k` of the wall quad over boundary edge `i`, in a mesh
/// whose ring has `n` points (`m` is the flat length of one face's triangle
/// list, `3 * (n - 2)`).
pub open spec fn wall_index_slot(m: int, i: int, k: int) -> int {
    2 * m + 6 * i + k
}

/// Corner `k` (0 to 3) of the wall quad over the boundary edge `a -> b`:
/// bottom start, bottom end, top end, top start.
pub open spec fn wall_corner(
    a: crate::vertices::Vertex,
    b: crate::vertices::Vertex,
    h: i64,
    k: int,
) -> Point3 {
    if k == 0 {
        extruded_point(a, 0)
    } else if k == 1 {
        extruded_point(b, 0)
    } else if k == 2 {
        extruded_point(b, h)
    } else {
        extruded_point(a, h)
    }
}

/// Offset (0 to 3, among the quad's four corners) of entry `k` of the six
/// triangle indices of one quad: the triangles `(0, 1, 2)` and `(2, 3, 0)`.
pub open spec fn quad_corner(k: int) -> int {
    if k == 0 {
        0
    } else if k == 1 {
        1
    } else if k == 2 {
        2
    } else if k == 3 {
        2
    } else if k == 4 {
        3
    } else {
        0
    }
}

/// `mesh` is exactly the extrusion of the ring `path` to height `h`.
///
/// Layout: positions `[0, n)` are the floor ring (height 0, normal down),
/// `[n, 2n)` the ceiling ring (height `h`, normal up), and `[2n, 6n)` four
/// corners per boundary edge with the outward wall normal. The index list
/// holds the ceiling triangles (the ear-clipping output, reversed), then
/// the floor triangles, then two triangles per wall quad.
pub open spec fn is_extruded_mesh(
    path: Seq<crate::vertices::Vertex>,
    h: i64,
    mesh: MeshData,
) -> bool {
    let n = path.len() as int;
    let tris = ring_triangulation(path).unwrap();
    let m = 3 * (n - 2);
    &&& ring_triangulation(path) is Some
    &&& mesh.positions@.len() == 6 * n
    &&& mesh.normals@.len() == 6 * n
    &&& mesh.indices@.len() == 2 * m + 6 * n
    &&& forall|i: int|
        0 <= i < n ==> (#[trigger] mesh.positions@[i]) == extruded_point(path[i], 0)
    &&& forall|i: int|
        0 <= i < n ==> (#[trigger] mesh.normals@[i]) == (Point3 { x: 0i64, y: -1i64, z: 0i64 })
    &&& forall|t: int|
        n <= t < 2 * n ==> (#[trigger] mesh.positions@[t]) == extruded_point(path[t - n], h)
    &&& forall|t: int|
        n <= t < 2 * n ==> (#[trigger] mesh.normals@[t]) == (Point3 { x: 0i64, y: 1i64, z: 0i64 })
    &&& forall|i: int, k: int|
        0 <= i < n && 0 <= k < 4 ==> mesh.positions@[#[trigger] wall_vertex_slot(n, i, k)]
            == wall_corner(path[i], path[next_ix(n, i)], h, k)
    &&& forall|i: int, k: int|
        0 <= i < n && 0 <= k < 4 ==> mesh.normals@[#[trigger] wall_vertex_slot(n, i, k)]
            == wall_normal(path[i], path[next_ix(n, i)])
    &&& forall|t: int|
        0 <= t < m ==> ((#[trigger] mesh.indices@[t]) as int) == n + tris[m - 1 - t]
    &&& forall|t: int|
        m <= t < 2 * m ==> ((#[trigger] mesh.indices@[t]) as int) == tris[t - m]
    &&& forall|i: int, k: int|
        0 <= i < n && 0 <= k < 6 ==> (mesh.indices@[#[trigger] wall_index_slot(m, i, k)] as int)
            == wall_vertex_slot(n, i, quad_corner(k))
}

/// A 3D point or direction in integer coordinates.
#[derive(Clone, Copy, PartialEq, Eq, Structural, Hash, Debug)]
pub struct Point3 {
    pub x: i64,
    pub y: i64,
    pub z: i64,
}

/// A mesh vertex: a position together with the normal of the face it
/// belongs to.
#[derive(Clone, Copy, PartialEq, Eq, Structural, Debug)]
pub struct Vertex {
    pub pos: Point3,
    pub normal: Point3,
}

/// Finished mesh buffer: parallel position and normal lists plus a flat
/// triangle index list. Ownership passes to the caller; nothing here keeps
/// a reference after emission.
pub struct MeshData {
    pub positions: Vec<Point3>,
    pub normals: Vec<Point3>,
    pub indices: Vec<u32>,
}

impl MeshData {
    /// Well-formedness: one normal per position, whole triangles only, and
    /// every index addresses a position.
    pub open spec fn wf(&self) -> bool {
        &&& self.normals@.len() == self.positions@.len()
        &&& self.indices@.len() % 3 == 0
        &&& forall|i: int|
            0 <= i < self.indices@.len() ==> ((#[trigger] self.indices@[i]) as int)
                < self.positions@.len()
    }
}

/// Generic generated-mesh holder: optional vertex and index buffers, for
/// collaborators that fill the two sides independently.
#[derive(Debug, Default)]
pub struct GeneratedMesh<V> {
    pub vertices: Option<Vec<V>>,
    pub indices: Option<Vec<usize>>,
}

/// Incremental mesh builder accumulating vertices and triangle indices.
pub struct MeshBuilder {
    vertices: Vec<Vertex>,
    indices: Vec<u32>,
}

impl MeshBuilder {
    /// The accumulated mesh vertices.
    pub closed spec fn verts(&self) -> Seq<Vertex> {
        self.vertices@
    }

    /// The accumulated flat triangle index list.
    pub closed spec fn idxs(&self) -> Seq<u32> {
        self.indices@
    }

    /// Well-formedness: the vertex count stays addressable by `u32` indices,
    /// indices come in whole triangles, and every index addresses a vertex.
    pub open spec fn wf(&self) -> bool {
        &&& self.verts().len() <= 0xFFFF_FFFF
        &&& self.idxs().len() % 3 == 0
        &&& forall|i: int|
            0 <= i < self.idxs().len() ==> ((#[trigger] self.idxs()[i]) as int)
                < self.verts().len()
    }

    /// Create an empty builder.
    pub fn new() -> (r: Self)
        ensures
            r.wf(),
            r.verts() == Seq::<Vertex>::empty(),
            r.idxs() == Seq::<u32>::empty(),
    {
        MeshBuilder { vertices: Vec::new(), indices: Vec::new() }
    }

    /// Append one vertex; returns its index.
    pub fn add_vertex(&mut self, vert: Vertex) -> (r: u32)
        requires
            old(self).wf(),
            old(self).verts().len() < 0xFFFF_FFFF,
        ensures
            final(self).wf(),
            final(self).verts() == old(self).verts().push(vert),
            final(self).idxs() == old(self).idxs(),
            r == old(self).verts().len(),
    {
        self.vertices.push(vert);
        (self.vertices.len() - 1) as u32
    }

    /// Append one triangle by vertex indices.
    pub fn add_triangle(&mut self, i1: u32, i2: u32, i3: u32)
        requires
            old(self).wf(),
            (i1 as int) < old(self).verts().len(),
            (i2 as int) < old(self).verts().len(),
            (i3 as int) < old(self).verts().len(),
        ensures
            final(self).wf(),
            final(self).verts() == old(self).verts(),
            final(self).idxs() == old(self).idxs() + seq![i1, i2, i3],
    {
        self.indices.push(i1);
        self.indices.push(i2);
        self.indices.push(i3);
        proof {
            assert(self.idxs() =~= old(self).idxs() + seq![i1, i2, i3]);
        }
    }

    /// Append one rectangular face: four vertices sharing `normal`, split
    /// into the two triangles `(c1, c2, c3)` and `(c3, c4, c1)`.
    pub fn add_quad(&mut self, positions: [Point3; 4], normal: Point3)
        requires
            old(self).wf(),
            old(self).verts().len() + 4 <= 0xFFFF_FFFF,
        ensures
            final(self).wf(),
            final(self).verts() == old(self).verts() + Seq::new(
                4,
                |i: int| (Vertex { pos: positions@[i], normal }),
            ),
            ({
                let c = old(self).verts().len() as int;
                final(self).idxs() == old(self).idxs() + seq![
                    c as u32,
                    (c + 1) as u32,
                    (c + 2) as u32,
                    (c + 2) as u32,
                    (c + 3) as u32,
                    c as u32,
                ]
            }),
    {
        let c1 = self.add_vertex(Vertex { pos: positions[0], normal });
        let c2 = self.add_vertex(Vertex { pos: positions[1], normal });
        let c3 = self.add_vertex(Vertex { pos: positions[2], normal });
        let c4 = self.add_vertex(Vertex { pos: positions[3], normal });
        self.add_triangle(c1, c2, c3);
        self.add_triangle(c3, c4, c1);
        proof {
            assert(self.verts() =~= old(self).verts() + Seq::new(
                4,
                |i: int| (Vertex { pos: positions@[i], normal }),
            ));
            let c = old(self).verts().len() as int;
            assert(self.idxs() =~= old(self).idxs() + seq![
                c as u32,
                (c + 1) as u32,
                (c + 2) as u32,
                (c + 2) as u32,
                (c + 3) as u32,
                c as u32,
            ]);
        }
    }

    /// Triangulate the ring as a horizontal face at height `elevation` with
    /// the given face normal, appending its vertices and triangles.
    ///
    /// On success the whole accumulated index list is reversed afterwards
    /// (downstream consumers rely on that winding flip). On triangulation
    /// failure — exactly when [`ring_triangulation`] is undefined for the
    /// ring — the builder is left unchanged and `false` is returned.
    pub fn triangulate_polygon(
        &mut self,
        ring: &Vec<crate::vertices::Vertex>,
        elevation: i64,
        normal: Point3,
    ) -> (r: bool)
        requires
            old(self).wf(),
            coords_bounded(ring@),
            old(self).verts().len() + ring@.len() <= 0xFFFF_FFFF,
        ensures
            final(self).wf(),
            r == (ring_triangulation(ring@) is Some),
            !r ==> *final(self) == *old(self),
            r ==> final(self).verts() == old(self).verts() + Seq::new(
                ring@.len(),
                |i: int| (Vertex {
                    pos: Point3 { x: ring@[i].x as i64, y: elevation, z: ring@[i].y as i64 },
                    normal,
                }),
            ),
            r ==> ({
                let tris = ring_triangulation(ring@).unwrap();
                let offset = old(self).verts().len() as int;
                let shifted = Seq::new(tris.len(), |i: int| (offset + tris[i]) as u32);
                final(self).idxs() == (old(self).idxs() + shifted).reverse()
            }),
    {
        let tris = match triangulate(ring) {
            None => {
                return false;
            },
            Some(t) => t,
        };
        proof {
            lemma_ring_triangulation_shape(ring@);
        }
        let offset = self.vertices.len();
        let n = ring.len();
        let mut i: usize = 0;
        while i < n
            invariant
                self.idxs() == old(self).idxs(),
                self.verts().len() == old(self).verts().len() + i,
                old(self).wf(),
                offset == old(self).verts().len(),
                coords_bounded(ring@),
                n == ring@.len(),
                i <= n,
                old(self).verts().len() + n <= 0xFFFF_FFFF,
                forall|j: int| 0 <= j < offset ==> self.verts()[j] == old(self).verts()[j],
                forall|j: int|
                    0 <= j < i ==> self.verts()[offset + j] == (Vertex {
                        pos: Point3 {
                            x: (#[trigger] ring@[j]).x as i64,
                            y: elevation,
                            z: ring@[j].y as i64,
                        },
                        normal,
                    }),
            decreases n - i,
        {
            let p = ring[i];
            self.vertices.push(Vertex {
                pos: Point3 { x: p.x as i64, y: elevation, z: p.y as i64 },
                normal,
            });
            i = i + 1;
        }
        proof {
            assert(self.verts() =~= old(self).verts() + Seq::new(
                ring@.len(),
                |j: int| (Vertex {
                    pos: Point3 { x: ring@[j].x as i64, y: elevation, z: ring@[j].y as i64 },
                    normal,
                }),
            ));
        }
        let ghost tris_seq = tris@;
        let ghost mid_verts = self.verts();
        let m = tris.len();
        let mut j: usize = 0;
        while j < m
            invariant
                self.verts() == mid_verts,
                mid_verts.len() == offset + ring@.len(),
                mid_verts.len() <= 0xFFFF_FFFF,
                m == tris_seq.len(),
                j <= m,
                offset == old(self).verts().len(),
                tris@ == tris_seq,
                forall|t: int| 0 <= t < m ==> ((#[trigger] tris_seq[t]) as int) < ring@.len(),
                self.idxs().len() == old(self).idxs().len() + j,
                forall|t: int| 0 <= t < old(self).idxs().len()
                    ==> self.idxs()[t] == old(self).idxs()[t],
                forall|t: int| 0 <= t < j
                    ==> (#[trigger] self.idxs()[old(self).idxs().len() + t]) as int == offset
                        + tris_seq[t],
            decreases m - j,
        {
            let idx = tris[j];
            self.indices.push((offset as u32) + idx);
            j = j + 1;
        }
        proof {
            let shifted = Seq::new(tris_seq.len(), |t: int| (offset + tris_seq[t]) as u32);
            assert forall|t: int| 0 <= t < shifted.len() implies shifted[t] == self.idxs()[old(
                self,
            ).idxs().len() + t] by {
                assert((self.idxs()[old(self).idxs().len() + t] as int) == offset + tris_seq[t]);
            }
            assert(self.idxs() =~= old(self).idxs() + shifted);
        }
        // Reverse the whole accumulated index list; the emitted winding
        // otherwise faces the wrong way for downstream culling.
        let ghost before_rev = self.idxs();
        let total = self.indices.len();
        let mut rev: Vec<u32> = Vec::new();
        let mut t: usize = total;
        while t > 0
            invariant
                self.verts() == mid_verts,
                self.idxs() == before_rev,
                total == before_rev.len(),
                t <= total,
                rev@.len() == total - t,
                forall|s: int| 0 <= s < rev@.len() ==> rev@[s] == before_rev[total - 1 - s],
            decreases t,
        {
            t = t - 1;
            rev.push(self.indices[t]);
        }
        self.indices = rev;
        proof {
            assert(self.idxs() =~= before_rev.reverse());
            let tris2 = ring_triangulation(ring@).unwrap();
            let shifted = Seq::new(tris2.len(), |s: int| (offset + tris2[s]) as u32);
            assert(before_rev =~= old(self).idxs() + shifted);
            assert forall|s: int| 0 <= s < self.idxs().len() implies ((#[trigger] self.idxs()[s])
                as int) < self.verts().len() by {
                assert(self.idxs()[s] == before_rev[before_rev.len() - 1 - s]);
            }
            assert(self.idxs().len() % 3 == 0) by {
                assert(tris2.len() == 3 * (ring@.len() - 2));
            }
        }
        true
    }

    /// Finish the mesh: split the accumulated vertices into the parallel
    /// position and normal buffers and hand everything over.
    pub fn build(self) -> (r: MeshData)
        requires
            self.wf(),
        ensures
            r.wf(),
            r.positions@ == Seq::new(self.verts().len(), |i: int| self.verts()[i].pos),
            r.normals@ == Seq::new(self.verts().len(), |i: int| self.verts()[i].normal),
            r.indices@ == self.idxs(),
    {
        let n = self.vertices.len();
        let mut position: Vec<Point3> = Vec::new();
        let mut normal: Vec<Point3> = Vec::new();
        let mut i: usize = 0;
        while i < n
            invariant
                n == self.verts().len(),
                i <= n,
                position@.len() == i,
                normal@.len() == i,
                forall|j: int| 0 <= j < i ==> position@[j] == (#[trigger] self.verts()[j]).pos,
                forall|j: int| 0 <= j < i ==> normal@[j] == (#[trigger] self.verts()[j]).normal,
            decreases n - i,
        {
            position.push(self.vertices[i].pos);
            normal.push(self.vertices[i].normal);
            i = i + 1;
        }
        proof {
            assert(position@ =~= Seq::new(self.verts().len(), |i: int| self.verts()[i].pos));
            assert(normal@ =~= Seq::new(self.verts().len(), |i: int| self.verts()[i].normal));
        }
        MeshData { positions: position, normals: normal, indices: self.indices }
    }
}

/// Shape of an extruded mesh: `6n` positions and normals, `n - 2`
/// triangles each for floor and ceiling plus two triangles for each of the
/// `n` wall quads, and every index in bounds of the position list.
pub proof fn lemma_extrusion_counts(path: Seq<crate::vertices::Vertex>, h: i64, mesh: MeshData)
    requires
        is_extruded_mesh(path, h, mesh),
        mesh.wf(),
    ensures
        path.len() >= 3,
        mesh.positions@.len() == 6 * path.len(),
        mesh.normals@.len() == 6 * path.len(),
        mesh.indices@.len() == 3 * (2 * path.len() + 2 * (path.len() - 2)),
        forall|i: int|
            0 <= i < mesh.indices@.len() ==> ((#[trigger] mesh.indices@[i]) as int)
                < mesh.positions@.len(),
{
    lemma_ring_triangulation_shape(path);
}

/// Generate the extruded 3D mesh of the closed 2D ring `path_2d`: a floor
/// face at height 0 with its normal pointing down, a ceiling face at height
/// `extrude_amount` with its normal pointing up, and one outward-facing
/// rectangular wall per boundary edge. Returns `None` exactly when the ring
/// cannot be triangulated.
pub fn generate_extruded_mesh(
    path_2d: &Vec<crate::vertices::Vertex>,
    extrude_amount: i64,
) -> (r: Option<MeshData>)
    requires
        coords_bounded(path_2d@),
        path_2d@.len() <= 0x2AAA_AAAA,
        0 < extrude_amount,
    ensures
        match r {
            Some(mesh) => mesh.wf() && is_extruded_mesh(path_2d@, extrude_amount, mesh),
            None => ring_triangulation(path_2d@) is None,
        },
{
    let down = Point3 { x: 0, y: -1, z: 0 };
    let up = Point3 { x: 0, y: 1, z: 0 };
    let y1: i64 = 0;
    let y2: i64 = extrude_amount;
    let ghost path = path_2d@;
    let ghost n = path.len() as int;

    let mut builder = MeshBuilder::new();
    // Floor.
    if !builder.triangulate_polygon(path_2d, y1, down) {
        return None;
    }
    let ghost tris = ring_triangulation(path).unwrap();
    let ghost m = tris.len() as int;
    proof {
        lemma_ring_triangulation_shape(path);
        assert(m == 3 * (n - 2));
        let shifted0 = Seq::new(tris.len(), |i: int| (0 + tris[i]) as u32);
        assert(shifted0 =~= tris);
        assert(Seq::<u32>::empty() + shifted0 =~= tris);
        assert(builder.idxs() == tris.reverse());
        assert(builder.verts() =~= Seq::new(
            path.len(),
            |i: int| (Vertex { pos: extruded_point(path[i], 0), normal: down }),
        ));
    }
    let ghost floor_verts = builder.verts();
    // Ceiling.
    if !builder.triangulate_polygon(path_2d, y2, up) {
        return None;
    }
    let ghost verts1 = builder.verts();
    let ghost idxs1 = builder.idxs();
    proof {
        let shifted = Seq::new(tris.len(), |i: int| (n + tris[i]) as u32);
        let before = tris.reverse() + shifted;
        assert(idxs1 == before.reverse());
        assert(idxs1.len() == 2 * m);
        assert forall|t: int| 0 <= t < m implies ((#[trigger] idxs1[t]) as int) == n + tris[m - 1 - t] by {
            assert(idxs1[t] == before[2 * m - 1 - t]);
            assert(before[2 * m - 1 - t] == shifted[m - 1 - t]);
        }
        assert forall|t: int| m <= t < 2 * m implies ((#[trigger] idxs1[t]) as int) == tris[t - m] by {
            assert(idxs1[t] == before[2 * m - 1 - t]);
            assert(before[2 * m - 1 - t] == tris.reverse()[2 * m - 1 - t]);
            assert(tris.reverse()[2 * m - 1 - t] == tris[m - 1 - (2 * m - 1 - t)]);
        }
        assert(verts1.len() == 2 * n);
        assert forall|t: int| 0 <= t < n implies (#[trigger] verts1[t]) == (Vertex {
            pos: extruded_point(path[t], 0),
            normal: down,
        }) by {
            assert(verts1[t] == floor_verts[t]);
        }
        assert forall|t: int| n <= t < 2 * n implies (#[trigger] verts1[t]) == (Vertex {
            pos: extruded_point(path[t - n], y2),
            normal: up,
        }) by {
            assert(verts1[t] == Seq::new(
                path.len(),
                |i: int| (Vertex { pos: extruded_point(path[i], y2), normal: up }),
            )[t - n]);
        }
    }
    // One rectangular wall along every boundary edge of the ring.
    let count = path_2d.len();
    let mut i: usize = 0;
    while i < count
        invariant
            coords_bounded(path),
            path_2d@ == path,
            n == path.len() as int,
            3 <= n <= 0x2AAA_AAAA,
            m == 3 * (n - 2),
            count == n,
            i <= count,
            y1 == 0,
            builder.wf(),
            builder.verts().len() == 2 * n + 4 * i,
            builder.idxs().len() == 2 * m + 6 * i,
            forall|t: int| 0 <= t < 2 * n ==> (#[trigger] builder.verts()[t]) == verts1[t],
            forall|t: int| 0 <= t < 2 * m ==> (#[trigger] builder.idxs()[t]) == idxs1[t],
            forall|q: int, k: int|
                0 <= q < i && 0 <= k < 4 ==> builder.verts()[#[trigger] wall_vertex_slot(
                    n,
                    q,
                    k,
                )] == (Vertex {
                    pos: wall_corner(path[q], path[next_ix(n, q)], y2, k),
                    normal: wall_normal(path[q], path[next_ix(n, q)]),
                }),
            forall|q: int, k: int|
                0 <= q < i && 0 <= k < 6 ==> (builder.idxs()[#[trigger] wall_index_slot(
                    m,
                    q,
                    k,
                )] as int) == wall_vertex_slot(n, q, quad_corner(k)),
        decreases count - i,
    {
        let a = path_2d[i];
        let b = path_2d[if i == count - 1 { 0 } else { i + 1 }];
        let ax = a.x as i64;
        let ay = a.y as i64;
        let bx = b.x as i64;
        let by = b.y as i64;
        let corner1 = Point3 { x: ax, y: y1, z: ay };
        let corner2 = Point3 { x: bx, y: y1, z: by };
        let corner3 = Point3 { x: bx, y: y2, z: by };
        let corner4 = Point3 { x: ax, y: y2, z: ay };
        // Cross product of the bottom edge with the rise, as a direction.
        let normal = Point3 { x: ay - by, y: 0, z: bx - ax };
        let ghost prev_builder = builder;
        builder.add_quad([corner1, corner2, corner3, corner4], normal);
        proof {
            assert(b == path[next_ix(n, i as int)]);
            assert(normal == wall_normal(path[i as int], path[next_ix(n, i as int)]));
            let corners = [corner1, corner2, corner3, corner4];
            assert(corners@[0] == corner1 && corners@[1] == corner2 && corners@[2] == corner3
                && corners@[3] == corner4);
            assert forall|k: int| 0 <= k < 4 implies builder.verts()[wall_vertex_slot(
                n,
                i as int,
                k,
            )] == (Vertex {
                pos: wall_corner(path[i as int], path[next_ix(n, i as int)], y2, k),
                normal: wall_normal(path[i as int], path[next_ix(n, i as int)]),
            }) by {
                assert(builder.verts()[2 * n + 4 * (i as int) + k] == (Vertex {
                    pos: corners@[k],
                    normal,
                }));
                assert(corners@[k] == wall_corner(path[i as int], path[next_ix(n, i as int)], y2, k));
            }
            assert forall|k: int| 0 <= k < 6 implies (builder.idxs()[wall_index_slot(
                m,
                i as int,
                k,
            )] as int) == wall_vertex_slot(n, i as int, quad_corner(k)) by {
                let c = prev_builder.verts().len() as int;
                assert(c == 2 * n + 4 * i);
                let full = prev_builder.idxs() + seq![
                    c as u32,
                    (c + 1) as u32,
                    (c + 2) as u32,
                    (c + 2) as u32,
                    (c + 3) as u32,
                    c as u32,
                ];
                assert(builder.idxs() == full);
                assert(builder.idxs()[2 * m + 6 * (i as int) + k] == full[2 * m + 6 * (i as int)
                    + k]);
            }
        }
        i = i + 1;
    }
    let md = builder.build();
    proof {
        assert(md.positions@.len() == 6 * n);
        assert forall|t: int| 0 <= t < n implies (#[trigger] md.positions@[t]) == extruded_point(
            path[t],
            0,
        ) by {
            assert(md.positions@[t] == builder.verts()[t].pos);
            assert(builder.verts()[t] == verts1[t]);
        }
        assert forall|t: int| 0 <= t < n implies (#[trigger] md.normals@[t]) == (Point3 {
            x: 0i64,
            y: -1i64,
            z: 0i64,
        }) by {
            assert(md.normals@[t] == builder.verts()[t].normal);
            assert(builder.verts()[t] == verts1[t]);
        }
        assert forall|t: int| n <= t < 2 * n implies (#[trigger] md.positions@[t])
            == extruded_point(path[t - n], extrude_amount) by {
            assert(md.positions@[t] == builder.verts()[t].pos);
            assert(builder.verts()[t] == verts1[t]);
        }
        assert forall|t: int| n <= t < 2 * n implies (#[trigger] md.normals@[t]) == (Point3 {
            x: 0i64,
            y: 1i64,
            z: 0i64,
        }) by {
            assert(md.normals@[t] == builder.verts()[t].normal);
            assert(builder.verts()[t] == verts1[t]);
        }
        assert forall|q: int, k: int| 0 <= q < n && 0 <= k < 4 implies md.positions@[
            #[trigger] wall_vertex_slot(n, q, k)
        ] == wall_corner(path[q], path[next_ix(n, q)], extrude_amount, k) by {
            assert(md.positions@[wall_vertex_slot(n, q, k)] == builder.verts()[wall_vertex_slot(
                n,
                q,
                k,
            )].pos);
        }
        assert forall|q: int, k: int| 0 <= q < n && 0 <= k < 4 implies md.normals@[
            #[trigger] wall_vertex_slot(n, q, k)
        ] == wall_normal(path[q], path[next_ix(n, q)]) by {
            assert(md.normals@[wall_vertex_slot(n, q, k)] == builder.verts()[wall_vertex_slot(
                n,
                q,
                k,
            )].normal);
        }
        assert forall|t: int| 0 <= t < m implies ((#[trigger] md.indices@[t]) as int) == n + tris[m - 1 - t] by {
            assert(md.indices@[t] == builder.idxs()[t]);
            assert(builder.idxs()[t] == idxs1[t]);
        }
        assert forall|t: int| m <= t < 2 * m implies ((#[trigger] md.indices@[t]) as int) == tris[t - m] by {
            assert(md.indices@[t] == builder.idxs()[t]);
            assert(builder.idxs()[t] == idxs1[t]);
        }
        assert forall|q: int, k: int| 0 <= q < n && 0 <= k < 6 implies (md.indices@[
            #[trigger] wall_index_slot(m, q, k)
        ] as int) == wall_vertex_slot(n, q, quad_corner(k)) by {
            assert(md.indices@[wall_index_slot(m, q, k)] == builder.idxs()[wall_index_slot(
                m,
                q,
                k,
            )]);
        }
        assert(is_extruded_mesh(path, extrude_amount, md));
    }
    Some(md)
}

} // verus!
