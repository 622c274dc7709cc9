//! Integer rasterization of 2-D geometric primitives onto a pixel canvas.
//!
//! The shapes (points, line segments, rectangles, triangles, circles,
//! pentagons) enumerate their pixels with exact integer arithmetic:
//! error-accumulation (Bresenham) stepping for lines, midpoint stepping with
//! octant mirroring for circles, and analytic vertex derivation for
//! pentagons. Every shape draws through a single bounds-checked pixel write
//! that silently discards out-of-range coordinates.

pub mod canvas;
pub mod circle;
pub mod color;
pub mod line;
pub mod pentagon;
pub mod point;
pub mod rectangle;
pub mod rng;
pub mod shape;
pub mod triangle;
