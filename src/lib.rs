//! A pretty-printer for line-oriented JSON logs.
//!
//! Each input line is decoded as a flat JSON object ([`record::Record`]); its fields are
//! put in a fixed, readable order ([`fields::get_fields`]) and coloured after the
//! severity the record carries ([`level::get_level`], [`colors::get_colors`]).
//! Lines that are not JSON objects pass through unchanged ([`render::display`]).

pub mod colors;
pub mod fields;
pub mod json;
pub mod level;
pub mod record;
pub mod render;

