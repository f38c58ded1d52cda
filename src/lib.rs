//! Format-preserving rendering of a TOML document tree.
//!
//! A parsed document keeps the whitespace and comments around each node; rendering it gives
//! back its text exactly, and an edited document changes only where it was edited.

pub mod decor;
pub mod tree;
pub mod display;
pub mod tables;
pub mod order;
pub mod laws;

pub use decor::{Decor, Formatted, Repr};
pub use tree::{Array, ArrayOfTables, DateTime, Document, InlineTable, Item, Table, TableKeyValue, Value};
pub use tables::{visit_table, RenderedTable};
