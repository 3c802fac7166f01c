use vstd::prelude::*;

pub mod text;
pub mod astrometrics;
pub mod like;
pub mod route;
pub mod searchlang;
pub mod dto;
pub mod world_util;
pub mod xml;
pub mod parse;
pub mod metadata;
pub mod sector_writer;
pub mod route_sheet;
pub mod system_gen;
pub mod compat;
pub mod search_index;
pub mod search_entries;
pub mod requests;
pub mod sec_header;
pub mod endpoints;
pub mod svg_canvas;
pub mod world_index;
pub mod styles;
pub mod borders;
pub mod sector_layers;
pub mod code_tables;
pub mod universe;
pub mod calendar;
pub mod vectors;

verus! {
} // verus!
