//! MG-RAVENS JSON: one document of name-keyed tables nested under the CIM class
//! hierarchy, where `Ravens.cimObjectType` names each object's concrete class
//! and `Class::'name'` strings point between tables. Values are SI units and
//! radians.
//!
//! [`laws`] proves that objects without a typed mapping keep their places,
//! [`keeps`] that reading takes nothing back, [`accept`] that what is written is
//! accepted, [`legible`] that its text is read as the document, [`survive`] and its
//! neighbours that no element is lost on the way,
//! and [`second`] that a network that is read and written again gives the text it
//! was read of. [`rewrite`] and [`stable`] show that of line codes, lines and
//! switches, [`feeds`], [`draws`], [`banks`], [`engines`], [`inverters`] and
//! [`wound`] of the elements at a bus, [`limited`], [`rated`] and [`housed`] of
//! limits, ratings and buses, and [`restore`] and [`stowed`] of objects without a
//! typed mapping. [`values`] and [`taps`] prove that every element that is read has
//! the numbers that the properties of its object say.

pub mod accept;
pub mod banks;
pub mod bases;
pub mod coiled;
pub mod doc;
pub mod draws;
pub mod emit;
pub mod engines;
pub mod feeds;
pub mod found;
pub mod housed;
pub mod inverters;
pub mod keeps;
pub mod kinds;
pub mod laws;
pub mod legible;
pub mod limited;
pub mod limits;
pub mod lines;
pub mod lists;
pub mod loads;
pub mod losses;
pub mod machines;
pub mod name;
pub mod only;
pub mod plain;
pub mod rated;
pub mod read;
pub mod restore;
pub mod rewrite;
pub mod scale;
pub mod second;
pub mod stable;
pub mod state;
pub mod stowed;
pub mod survive;
pub mod survive_bounds;
pub mod survive_codes;
pub mod survive_limits;
pub mod survive_loads;
pub mod survive_models;
pub mod survive_places;
pub mod survive_sites;
pub mod survive_tanks;
pub mod survive_windings;
pub mod tanks;
pub mod taps;
pub mod values;
pub mod walks;
pub mod wound;
pub mod write;
pub mod write_lines;
pub mod write_loads;
pub mod write_machines;
pub mod write_tanks;

pub use crate::ravens::read::parse_ravens_str;
pub use crate::ravens::write::write_ravens_json;
