//! Verified core of a text-notebook converter: parsing and rendering helpers
//! for notebooks stored as scripts or markdown documents.

pub mod text;
pub mod languages;
pub mod pattern;
pub mod string_parser;
pub mod pep8;
pub mod magics;
pub mod metadata_filter;
pub mod format_map;
pub mod formats;
pub mod format_check;
pub mod format_version;
pub mod paired_paths;
pub mod compare;
pub mod combine;
pub mod cli;
pub mod myst;
pub mod notebook;
pub mod json;
pub mod cell_reader;
pub mod cell_to_text;
pub mod cell_metadata;
pub mod header;
pub mod jupytext;
pub mod notebook_io;
pub mod notebook_writer;
pub mod guess;
pub mod cell_export;
pub mod cell_content;
pub mod config;
