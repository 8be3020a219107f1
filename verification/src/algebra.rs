//! Expression trees and the operations on them.

pub mod args;
pub mod assoc;
pub mod bits;
pub mod coeff;
pub mod diff;
pub mod eval;
pub mod laws;
pub mod ops;
pub mod render;
pub mod simplify;
pub mod text;
