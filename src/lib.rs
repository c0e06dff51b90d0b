//! A feed-forward neural network engine over dense matrices.
//!
//! The element type is generic: the arithmetic on elements and the
//! activation functions come in as closures, and every operation is
//! specified over a mathematical model of the matrices it reads and builds.
pub mod matrix;
pub mod network;
