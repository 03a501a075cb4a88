//! Dense matrices of fixed-width integers, stored in row-major order, with
//! shape queries, element access, transposition, a textual form and its
//! parser, and elementwise and algebraic arithmetic.
//!
//! Every function states what it returns over the mathematical content of
//! its arguments: a [`Grid`] of cells for the shape and the layout, and the
//! integers that the cells stand for wherever numbers are computed, written
//! or read.

pub mod arith;
pub mod chars;
pub mod checks;
pub mod decimal;
pub mod element;
pub mod format;
pub mod grid;
pub mod matrix;
pub mod owned;
pub mod parse;
pub mod roundtrip;

pub use crate::element::Element;
pub use crate::grid::Grid;
pub use crate::matrix::Matrix;
pub use crate::matrix::MatrixError;
pub use crate::parse::tokenize;
pub use crate::parse::ParseMatrixError;
