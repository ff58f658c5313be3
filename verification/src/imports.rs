//! Imports: edges between modules, their resolution and their extraction.

pub mod base;
pub mod classification;
pub mod collection;
pub mod import_line;
