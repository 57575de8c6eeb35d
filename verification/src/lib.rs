//! Time-domain-reflectometry bounce (lattice) diagram solver.
//!
//! Given per-lane transmission-line parameters, the library derives the
//! reflection coefficients and propagation delays of each lane and computes,
//! for each lane and each reflection cycle, the accumulated voltage seen at
//! the sending and the receiving end of the line.
//!
//! All physical quantities are carried as signed fixed-point numbers:
//! an `i64` counts units of one billionth (`fixed::SCALE` units make 1.0).
//! Every arithmetic step is specified exactly over mathematical integers,
//! so the series each solver returns is pinned, value by value, by its
//! contract.

pub mod fixed;
pub mod config;
pub mod lattice;
