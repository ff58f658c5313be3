//! Architectural-dependency linting for module-based source trees.
//!
//! The library extracts the import edges between the modules of a project,
//! tells local modules from external ones, and holds every edge against
//! structural rules such as a layered order.
//!
//! - [`modpath`]: dotted module paths and their place on disk.
//! - [`imports`]: import edges, the resolver, and the extraction of edges
//!   from source text.
//! - [`rules`]: the rule interface and the layered-order rule.
//! - [`file_processor`]: one file from content to issues, with the decisions
//!   of the extraction cache.
//! - [`walker`]: the decisions of a walk over the tree.
//! - [`configs`], [`results`]: what goes in and what comes out.
//! - [`text`], [`paths`]: strings and path texts.

pub mod configs;
mod disk;
pub mod file_processor;
pub mod imports;
pub mod modpath;
pub mod paths;
pub mod results;
pub mod rules;
pub mod text;
pub mod walker;
