//! Luhmann-style hierarchical note identifiers: parsing, relationships,
//! generation of new identifiers and extraction from file names.

pub mod alpha;
pub mod component;
pub mod config;
pub mod error;
pub mod id;
pub mod manager;
pub mod note;
pub mod pattern;
pub mod roundtrip;
pub mod scan;
pub mod template;
pub mod text;
