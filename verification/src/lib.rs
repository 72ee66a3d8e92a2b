//! Splits a triangulated surface mesh in two at a horizontal plane.
//!
//! A mesh file is decoded into a flat triangle list, its axis-aligned
//! bounding box is computed, and every triangle is classified against a
//! cutting height: triangles entirely at or above the plane form the upper
//! part, the rest of those entirely at or below it the lower part, and
//! triangles spanning the plane are dropped.  Each part can be written back
//! out as a binary STL byte stream.
//!
//! Coordinates are carried throughout as the raw bit patterns of the
//! single-precision values found in mesh files; all comparisons go through
//! the order-preserving key of [`order`], so the classification and the
//! bounding box agree with the numeric order of the encoded values.

pub mod codec;
pub mod error;
pub mod mesh;
pub mod order;
pub mod picker;
pub mod split;
