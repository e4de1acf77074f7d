//! Topologically consistent, incrementally editable 2D polygons with stable
//! vertex identities, and extrusion of a closed polygon into a watertight 3D
//! triangle mesh.
//!
//! The crate is layered leaf-first:
//!
//! - [`ordered_sm`]: a container mapping opaque, never-reissued ids to values,
//!   augmented with an explicit traversal order.
//! - [`vertices`]: the container specialised to 2D points, with winding-order
//!   detection.
//! - [`edges`]: an unordered set of directed vertex-id pairs.
//! - [`mesh_polygon`]: the polygon mutation protocol (append, close,
//!   insert-on-edge, remove-with-restitch, reverse) over the two sets.
//! - [`triangulate`]: ear-clipping triangulation of a simple ring.
//! - [`mesh_builder`]: extrusion of a closed ring into floor, ceiling and
//!   wall quads of an indexed triangle mesh.
//!
//! All coordinates are integers; a host application that works in floating
//! point scales its points onto the integer grid before handing them in and
//! converts the emitted mesh buffers back.

pub mod edges;
pub mod mesh_builder;
pub mod mesh_polygon;
pub mod ordered_sm;
pub mod triangulate;
pub mod vertices;
