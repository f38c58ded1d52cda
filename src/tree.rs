//! The document tree that rendering reads.

use vstd::prelude::*;
use crate::decor::{Decor, Formatted, Repr};

verus! {

/// A date/time value in one of its four shapes, each holding its standard textual form.
pub enum DateTime {
    OffsetDateTime(String),
    LocalDateTime(String),
    LocalDate(String),
    LocalTime(String),
}

/// A value: a scalar kept with its text, or a structured array or inline table.
pub enum Value {
    Integer(Formatted<i64>),
    String(Formatted<String>),
    /// The number is kept as its IEEE-754 bit pattern.
    Float(Formatted<u64>),
    Boolean(Formatted<bool>),
    DateTime(Formatted<DateTime>),
    Array(Array),
    InlineTable(InlineTable),
}

/// An array of values with its own formatting.
pub struct Array {
    pub values: Vec<Value>,
    pub decor: Decor,
    /// Text placed just before the closing bracket.
    pub trailing: String,
    pub trailing_comma: bool,
    /// One element per line.
    pub newlines: bool,
}

/// A `{ ... }` table written inside a value.
pub struct InlineTable {
    pub items: Vec<TableKeyValue>,
    pub decor: Decor,
    /// Text placed just after the opening brace.
    pub preamble: String,
}

/// One entry of a table: the key as written, and its item.
pub struct TableKeyValue {
    pub key: Repr,
    pub value: Item,
}

/// What a key of a table holds; `Empty` is a placeholder left while editing.
pub enum Item {
    Empty,
    Value(Value),
    Table(Table),
    ArrayOfTables(ArrayOfTables),
}

/// One section of a document, with its entries in their current order.
pub struct Table {
    pub items: Vec<TableKeyValue>,
    pub decor: Decor,
    /// Present only because a deeper dotted key implied it.
    pub implicit: bool,
    /// Ordinal of the table's first appearance in the source, if recorded.
    pub position: Option<usize>,
}

/// A repeatable table under one key.
pub struct ArrayOfTables {
    pub values: Vec<Table>,
}

/// A whole document: the root table and the text after all content.
pub struct Document {
    pub root: Table,
    pub trailing: String,
}

impl Document {
    pub fn as_table(&self) -> (r: &Table)
        ensures
            *r == self.root,
    {
        &self.root
    }
}

} // verus!
