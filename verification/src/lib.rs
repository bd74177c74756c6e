//! Distribution network exchange formats.

pub mod cim;
pub mod dgs;
pub mod error;
pub mod json;
pub mod math;
pub mod matrix;
pub mod model;
pub mod mrid;
pub mod numeral;
pub mod order;
pub mod ravens;
pub mod terminals;
pub mod text;
pub mod web;
