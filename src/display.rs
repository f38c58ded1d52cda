//! Rendering of the tree back into text.

use vstd::prelude::*;
use vstd::string::StringExecFns;
use crate::decor::{repr_text, Decor};
use crate::tree::{Array, DateTime, InlineTable, Item, TableKeyValue, Value};

verus! {

broadcast use vstd::std_specs::vec::axiom_vec_decreases_to_view;

/// The decor around a value.
pub open spec fn value_decor(v: Value) -> Decor {
    match v {
        Value::Integer(f) => f.repr.decor,
        Value::String(f) => f.repr.decor,
        Value::Float(f) => f.repr.decor,
        Value::Boolean(f) => f.repr.decor,
        Value::DateTime(f) => f.repr.decor,
        Value::Array(a) => a.decor,
        Value::InlineTable(t) => t.decor,
    }
}

/// A value's text between its decor prefix and suffix.
pub open spec fn value_body(v: Value) -> Seq<char>
    decreases v,
{
    match v {
        Value::Integer(f) => f.repr.raw_value@,
        Value::String(f) => f.repr.raw_value@,
        Value::Float(f) => f.repr.raw_value@,
        Value::Boolean(f) => f.repr.raw_value@,
        Value::DateTime(f) => f.repr.raw_value@,
        Value::Array(a) => array_body(a),
        Value::InlineTable(t) => inline_body(t),
    }
}

/// An array's text between its decor prefix and suffix.
pub open spec fn array_body(a: Array) -> Seq<char>
    decreases a,
{
    seq!['['] + array_elements(a.values@, a.trailing_comma && a.newlines)
        + (if a.trailing_comma && !a.newlines { seq![','] } else { Seq::empty() })
        + a.trailing@ + seq![']']
}

/// An array's full text.
pub open spec fn array_text(a: Array) -> Seq<char> {
    a.decor.prefix@ + array_body(a) + a.decor.suffix@
}

/// An inline table's text between its decor prefix and suffix.
pub open spec fn inline_body(t: InlineTable) -> Seq<char>
    decreases t,
{
    seq!['{'] + t.preamble@ + inline_entries(t.items@) + seq!['}']
}

/// An inline table's full text.
pub open spec fn inline_text(t: InlineTable) -> Seq<char> {
    t.decor.prefix@ + inline_body(t) + t.decor.suffix@
}

/// The standard textual form of a date/time.
pub open spec fn datetime_text(d: DateTime) -> Seq<char> {
    match d {
        DateTime::OffsetDateTime(s) => s@,
        DateTime::LocalDateTime(s) => s@,
        DateTime::LocalDate(s) => s@,
        DateTime::LocalTime(s) => s@,
    }
}

/// A value rendered with a comma placed just before its decor suffix, or without one.
pub open spec fn value_text_with(v: Value, comma: bool) -> Seq<char>
    decreases v, 1nat,
{
    value_decor(v).prefix@ + value_body(v) + (if comma { seq![','] } else { Seq::empty() })
        + value_decor(v).suffix@
}

/// A value's full text.
pub open spec fn value_text(v: Value) -> Seq<char> {
    value_text_with(v, false)
}

/// The elements of an array, comma separated; with `splice` the comma after the last element
/// goes just before that element's decor suffix.
pub open spec fn array_elements(vals: Seq<Value>, splice: bool) -> Seq<char>
    decreases vals,
{
    if vals.len() == 0 {
        Seq::empty()
    } else {
        array_elements(vals.drop_last(), false) + (if vals.len() > 1 { seq![','] } else { Seq::empty() })
            + value_decor(vals.last()).prefix@ + value_body(vals.last())
            + (if splice { seq![','] } else { Seq::empty() }) + value_decor(vals.last()).suffix@
    }
}

/// Number of entries that hold a value.
pub open spec fn value_count(items: Seq<TableKeyValue>) -> nat
    decreases items.len(),
{
    if items.len() == 0 {
        0
    } else {
        value_count(items.drop_last()) + (if items.last().value is Value { 1nat } else { 0nat })
    }
}

/// The value entries of an inline table as `key=value`, comma separated; other entries are skipped.
pub open spec fn inline_entries(items: Seq<TableKeyValue>) -> Seq<char>
    decreases items,
{
    if items.len() == 0 {
        Seq::empty()
    } else {
        let prev = inline_entries(items.drop_last());
        match items.last().value {
            Item::Value(v) => prev + (if value_count(items.drop_last()) > 0 { seq![','] } else { Seq::empty() })
                + repr_text(items.last().key) + seq!['='] + value_decor(v).prefix@ + value_body(v)
                + value_decor(v).suffix@,
            _ => prev,
        }
    }
}

impl DateTime {
    /// Appends the date/time's standard textual form to `out`.
    pub fn fmt(&self, out: &mut String)
        ensures
            final(out)@ == old(out)@ + datetime_text(*self),
    {
        match self {
            DateTime::OffsetDateTime(s) => out.append(s.as_str()),
            DateTime::LocalDateTime(s) => out.append(s.as_str()),
            DateTime::LocalDate(s) => out.append(s.as_str()),
            DateTime::LocalTime(s) => out.append(s.as_str()),
        }
    }
}

fn append_char_comma(out: &mut String)
    ensures
        final(out)@ == old(out)@ + seq![','],
{
    out.append(",");
    proof {
        reveal_strlit(",");
    }
}

impl Value {
    /// The decor around the value.
    pub fn decor(&self) -> (r: &Decor)
        ensures
            *r == value_decor(*self),
    {
        match self {
            Value::Integer(f) => &f.repr.decor,
            Value::String(f) => &f.repr.decor,
            Value::Float(f) => &f.repr.decor,
            Value::Boolean(f) => &f.repr.decor,
            Value::DateTime(f) => &f.repr.decor,
            Value::Array(a) => &a.decor,
            Value::InlineTable(t) => &t.decor,
        }
    }

    fn fmt_body(&self, out: &mut String)
        ensures
            final(out)@ == old(out)@ + value_body(*self),
        decreases self, 0nat,
    {
        match self {
            Value::Integer(f) => out.append(f.repr.raw_value.as_str()),
            Value::String(f) => out.append(f.repr.raw_value.as_str()),
            Value::Float(f) => out.append(f.repr.raw_value.as_str()),
            Value::Boolean(f) => out.append(f.repr.raw_value.as_str()),
            Value::DateTime(f) => out.append(f.repr.raw_value.as_str()),
            Value::Array(a) => a.fmt_body(out),
            Value::InlineTable(t) => t.fmt_body(out),
        }
    }

    /// Appends the value's text to `out`; with `comma`, a comma goes just before the decor suffix.
    fn fmt_with(&self, out: &mut String, comma: bool)
        ensures
            final(out)@ == old(out)@ + value_text_with(*self, comma),
        decreases self, 1nat,
    {
        let decor = self.decor();
        out.append(decor.prefix.as_str());
        self.fmt_body(out);
        if comma {
            append_char_comma(out);
        }
        out.append(decor.suffix.as_str());
    }

    /// Appends the value's text to `out`.
    pub fn fmt(&self, out: &mut String)
        ensures
            final(out)@ == old(out)@ + value_text(*self),
    {
        self.fmt_with(out, false);
    }
}

impl Array {
    fn fmt_body(&self, out: &mut String)
        ensures
            final(out)@ == old(out)@ + array_body(*self),
        decreases self, 0nat,
    {
        let ghost start = out@;
        out.append("[");
        proof {
            reveal_strlit("[");
        }
        let n = self.values.len();
        let splice = self.trailing_comma && self.newlines;
        let mut i: usize = 0;
        while i < n
            invariant
                i <= n,
                n == self.values@.len(),
                splice == (self.trailing_comma && self.newlines),
                out@ == start + seq!['['] + array_elements(self.values@.take(i as int), splice && i == n),
            decreases n - i,
        {
            if i > 0 {
                append_char_comma(out);
            }
            let last = i + 1 == n;
            proof {
                vstd::std_specs::vec::axiom_vec_index_decreases(self.values, i as int);
            }
            self.values[i].fmt_with(out, last && splice);
            proof {
                let t = self.values@.take(i as int + 1);
                assert(t.drop_last() =~= self.values@.take(i as int));
                assert(t.last() == self.values@[i as int]);
                assert(array_elements(self.values@.take(i as int), splice && i == n)
                    == array_elements(self.values@.take(i as int), false));
            }
            i += 1;
        }
        assert(self.values@.take(n as int) =~= self.values@);
        if self.trailing_comma && !self.newlines {
            append_char_comma(out);
        }
        out.append(self.trailing.as_str());
        out.append("]");
        proof {
            reveal_strlit("]");
        }
    }

    /// Appends the array's text to `out`.
    pub fn fmt(&self, out: &mut String)
        ensures
            final(out)@ == old(out)@ + array_text(*self),
    {
        out.append(self.decor.prefix.as_str());
        self.fmt_body(out);
        out.append(self.decor.suffix.as_str());
    }
}

impl InlineTable {
    fn fmt_body(&self, out: &mut String)
        ensures
            final(out)@ == old(out)@ + inline_body(*self),
        decreases self, 0nat,
    {
        let ghost start = out@;
        out.append("{");
        proof {
            reveal_strlit("{");
        }
        out.append(self.preamble.as_str());
        let n = self.items.len();
        let mut count: usize = 0;
        let mut i: usize = 0;
        while i < n
            invariant
                i <= n,
                n == self.items@.len(),
                count <= i,
                count == value_count(self.items@.take(i as int)),
                out@ == start + seq!['{'] + self.preamble@ + inline_entries(self.items@.take(i as int)),
            decreases n - i,
        {
            let kv = &self.items[i];
            proof {
                let t = self.items@.take(i as int + 1);
                assert(t.drop_last() =~= self.items@.take(i as int));
                assert(t.last() == self.items@[i as int]);
                vstd::std_specs::vec::axiom_vec_index_decreases(self.items, i as int);
            }
            match &kv.value {
                Item::Value(v) => {
                    if count > 0 {
                        append_char_comma(out);
                    }
                    kv.key.fmt(out);
                    out.append("=");
                    proof {
                        reveal_strlit("=");
                    }
                    v.fmt_with(out, false);
                    count += 1;
                },
                _ => {},
            }
            i += 1;
        }
        assert(self.items@.take(n as int) =~= self.items@);
        out.append("}");
        proof {
            reveal_strlit("}");
        }
    }

    /// Appends the inline table's text to `out`: only entries that hold a value are written.
    pub fn fmt(&self, out: &mut String)
        ensures
            final(out)@ == old(out)@ + inline_text(*self),
    {
        out.append(self.decor.prefix.as_str());
        self.fmt_body(out);
        out.append(self.decor.suffix.as_str());
    }
}

} // verus!
