//! A small symbolic-expression kernel: expression trees with rendering,
//! evaluation, differentiation, constant folding and coefficient extraction.
//!
//! Numbers are carried as IEEE 754 binary64 bit patterns, and the library
//! never computes with them itself. The arithmetic, the printing and the
//! reading of numbers are handed in by the caller as closures. A contract
//! speaks of such a closure through the relation between its arguments and
//! what it may return, so every contract holds for whatever arithmetic the
//! caller brings, and says exactly which calls are made on which numbers.
//!
//! Every operation walks the tree recursively and builds a new tree where it
//! builds one; the depth of the recursion is the depth of the tree.

pub mod algebra;
pub mod parser;
