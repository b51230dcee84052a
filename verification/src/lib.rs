//! Foundational primitives for an immediate-mode GUI renderer: geometry
//! (sizes, rectangle predicates), RGBA colors with clamped channels, and
//! visual attributes (padding, borders).
//!
//! Every scalar that the surrounding renderer treats as a single-precision
//! IEEE 754 number is carried here as its raw `u32` bit pattern, so that
//! classification, ordering, clamping, quantization and parsing are ordinary
//! integer code with proved contracts.  The thin shell that performs the
//! actual floating-point arithmetic (sums of edges, products of extents)
//! lives outside this crate and converts at the boundary with `to_bits` /
//! `from_bits`.

pub mod color;
pub mod fbits;
pub mod math;
pub mod quantize;
pub mod style;
