//! Core of a static site generator: a scanner arena for source files, a page
//! hierarchy with two reconstruction algorithms, a taxonomy classifier, and
//! the planning half of a render-and-reconcile pipeline.
//!
//! Everything here is pure computation over plain values; reading directories,
//! parsing front matter, expanding templates and writing files are left to the
//! binary built around this crate.

pub mod hierarchy;
pub mod ledger;
pub mod md;
pub mod page;
pub mod paginate;
pub mod render;
pub mod sources;
pub mod site;
pub mod strutil;
pub mod taxonomies;
pub mod types;
