//! Arbitrary-precision integers for a sandboxed guest: the two shapes in which an integer
//! crosses the boundary, the codec between them and a host integer, and the arithmetic the
//! guest imports.
pub mod arith;
pub mod digits;
pub mod guest;
pub mod integer;
pub mod magnitude;
pub mod ops;
pub mod laws;
