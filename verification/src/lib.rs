//! Apollo: a declarative plotting engine built on the grammar of graphics.
//!
//! This crate holds the verified core: diagnostics, columnar data, graph and
//! tree data with their invariants, plot specifications and their validation,
//! the integer parts of layout, and pixel-level rasterisation.

pub mod types;
pub mod column;
pub mod table;
pub mod assoc;
pub mod graph;
pub mod tree;
pub mod grid;
pub mod layout;
pub mod mapping;
pub mod plot;
pub mod validate;
pub mod raster;
pub mod markup;
pub mod facet;
pub mod scene;
pub mod glyph;

pub use types::{Diagnostic, DiagnosticCode};
