//! DIgSILENT PowerFactory DGS: an ASCII export of class tables, read into
//! conductor coordinates.
//!
//! [`laws`] proves that every element of a network that is read sits on
//! terminals of its buses, [`called`] and [`coded`] that elements and line codes
//! have names of their own, and [`scan_laws`] that quoting keeps a cell whole.
//! [`whole`] proves that a network holds what the rows of its document say: an
//! element for each row in service with the numbers of its columns, which
//! [`values`] gives for transformers, loads, machines, grids and shunts, [`spans`]
//! for lines and their sections, and [`entries`] for matrices.

pub mod called;
pub mod coded;
pub mod entries;
pub mod impedance;
pub mod injections;
pub mod laws;
pub mod lines;
pub mod matrix;
pub mod network;
pub mod read;
pub mod scan;
pub mod scan_laws;
pub mod spans;
pub mod state;
pub mod topology;
pub mod transformers;
pub mod values;
pub mod whole;

pub use crate::dgs::read::{parse_dgs_bytes, parse_dgs_str};
