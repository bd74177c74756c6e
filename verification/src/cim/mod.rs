//! Distribution CIM (CIM100): instance documents and the networks they
//! describe.
//!
//! `SinglePhaseKind` codes name the wire-coordinate terminals: `A` is `1`, `B`
//! is `2`, `C` is `3`, `N` is `4`, and the split-phase `s1` and `s2` are `1`
//! and `2`.
//!
//! [`inverse`] proves that a written document parses to the objects that were
//! written, [`present`] that no element is lost, [`round_trip`] that it reads as
//! the network it was written of, [`stable`] that writing that network gives the
//! same text again, and [`whole`] that nothing is dropped without a warning.
//! [`values`] proves that every element that is read has the numbers of its
//! objects, and [`mapped`] that it has their terminals, ends and wires.

pub mod alike;
pub mod apparatus;
pub mod blocks;
pub mod codes;
pub mod elements;
pub mod ends;
pub mod inverse;
pub mod laws;
pub mod losses;
pub mod mapped;
pub mod phase;
pub mod present;
pub mod read;
pub mod recall;
pub mod round_trip;
pub mod shown;
pub mod stable;
pub mod store;
pub mod values;
pub mod whole;
pub mod wires;
pub mod wiring;
pub mod write;
pub mod xml;

pub use crate::cim::read::{looks_like_cim, parse_cim_set, parse_cim_str};
pub use crate::cim::write::write_cim_xml;
