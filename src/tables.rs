//! Rendering of the table tree: headers, bodies, and the two document orders.

use vstd::prelude::*;
use vstd::string::StringExecFns;
use crate::decor::repr_text;
use crate::display::{value_count, value_text};
use crate::tree::{Document, Item, Table, TableKeyValue};

verus! {

broadcast use vstd::std_specs::vec::axiom_vec_decreases_to_view;

/// The segments of a path joined with dots.
pub open spec fn path_text(path: Seq<Seq<char>>) -> Seq<char>
    decreases path.len(),
{
    if path.len() == 0 {
        Seq::empty()
    } else if path.len() == 1 {
        path[0]
    } else {
        path_text(path.drop_last()) + seq!['.'] + path.last()
    }
}

/// The header line of a table visited at `path`: none for the root, `[[path]]` for a table of an
/// array of tables, `[path]` otherwise unless the table is implicit and holds no value.
pub open spec fn header_text(t: Table, path: Seq<Seq<char>>, is_array_of_tables: bool) -> Seq<char> {
    if path.len() == 0 {
        Seq::empty()
    } else if is_array_of_tables {
        t.decor.prefix@ + seq!['[', '['] + path_text(path) + seq![']', ']'] + t.decor.suffix@ + seq!['\n']
    } else if !(t.implicit && value_count(t.items@) == 0) {
        t.decor.prefix@ + seq!['['] + path_text(path) + seq![']'] + t.decor.suffix@ + seq!['\n']
    } else {
        Seq::empty()
    }
}

/// One `key=value` line for each entry that holds a value, in order.
pub open spec fn body_lines(items: Seq<TableKeyValue>) -> Seq<char>
    decreases items.len(),
{
    if items.len() == 0 {
        Seq::empty()
    } else {
        body_lines(items.drop_last()) + match items.last().value {
            Item::Value(v) => repr_text(items.last().key) + seq!['='] + value_text(v) + seq!['\n'],
            _ => Seq::empty(),
        }
    }
}

/// The text of one table on its own: header and body, without nested tables.
pub open spec fn table_block(t: Table, path: Seq<Seq<char>>, is_array_of_tables: bool) -> Seq<char> {
    header_text(t, path, is_array_of_tables) + body_lines(t.items@)
}

/// The position ordinal and block text of every table reachable from `t`, depth first, each
/// table before its children, children in entry order.
pub open spec fn table_blocks(t: Table, path: Seq<Seq<char>>, is_array_of_tables: bool) -> Seq<(Option<usize>, Seq<char>)>
    decreases t,
{
    seq![(t.position, table_block(t, path, is_array_of_tables))] + child_blocks(t.items@, path)
}

/// The blocks of the tables nested under `items`.
pub open spec fn child_blocks(items: Seq<TableKeyValue>, path: Seq<Seq<char>>) -> Seq<(Option<usize>, Seq<char>)>
    decreases items,
{
    if items.len() == 0 {
        Seq::empty()
    } else {
        child_blocks(items.drop_last(), path) + match items.last().value {
            Item::Table(c) => table_blocks(c, path.push(items.last().key.raw_value@), false),
            Item::ArrayOfTables(a) => array_of_tables_blocks(a.values@, path.push(items.last().key.raw_value@)),
            _ => Seq::empty(),
        }
    }
}

/// The blocks of the tables of an array of tables, all at one path.
pub open spec fn array_of_tables_blocks(ts: Seq<Table>, path: Seq<Seq<char>>) -> Seq<(Option<usize>, Seq<char>)>
    decreases ts,
{
    if ts.len() == 0 {
        Seq::empty()
    } else {
        array_of_tables_blocks(ts.drop_last(), path) + table_blocks(ts.last(), path, true)
    }
}

/// The texts of blocks, one after the other.
pub open spec fn blocks_text(bs: Seq<(Option<usize>, Seq<char>)>) -> Seq<char>
    decreases bs.len(),
{
    if bs.len() == 0 {
        Seq::empty()
    } else {
        blocks_text(bs.drop_last()) + bs.last().1
    }
}

/// Text of a document in the current order of its tables.
pub open spec fn document_text(d: Document) -> Seq<char> {
    blocks_text(table_blocks(d.root, Seq::empty(), false)) + d.trailing@
}

/// The segments of a path as text.
pub open spec fn path_view(p: Seq<String>) -> Seq<Seq<char>> {
    p.map_values(|s: String| s@)
}

/// A table's rendered header and body, with its position ordinal.
pub struct RenderedTable {
    pub position: Option<usize>,
    pub text: String,
}

/// Rendered tables as (position ordinal, text) pairs.
pub open spec fn rendered_view(v: Seq<RenderedTable>) -> Seq<(Option<usize>, Seq<char>)> {
    v.map_values(|r: RenderedTable| (r.position, r.text@))
}

fn append_newline(out: &mut String)
    ensures
        final(out)@ == old(out)@ + seq!['\n'],
{
    out.append("\n");
    proof {
        reveal_strlit("\n");
    }
}

/// Appends the path's segments joined with dots to `out`.
fn append_path(out: &mut String, path: &[String])
    ensures
        final(out)@ == old(out)@ + path_text(path_view(path@)),
{
    let ghost start = out@;
    let n = path.len();
    let mut i: usize = 0;
    while i < n
        invariant
            i <= n,
            n == path@.len(),
            out@ == start + path_text(path_view(path@.take(i as int))),
        decreases n - i,
    {
        if i > 0 {
            out.append(".");
            proof {
                reveal_strlit(".");
            }
        }
        out.append(path[i].as_str());
        proof {
            let t = path_view(path@.take(i as int + 1));
            assert(t.drop_last() =~= path_view(path@.take(i as int)));
            assert(t.len() == i + 1);
            if i == 0 {
                assert(t[0] == path@[0]@);
            }
        }
        i += 1;
    }
    assert(path@.take(n as int) =~= path@);
}

impl Table {
    /// Number of entries that hold a value.
    pub fn values_len(&self) -> (r: usize)
        ensures
            r == value_count(self.items@),
    {
        let n = self.items.len();
        let mut count: usize = 0;
        let mut i: usize = 0;
        while i < n
            invariant
                i <= n,
                n == self.items@.len(),
                count <= i,
                count == value_count(self.items@.take(i as int)),
            decreases n - i,
        {
            proof {
                assert(self.items@.take(i as int + 1).drop_last() =~= self.items@.take(i as int));
            }
            if let Item::Value(_) = &self.items[i].value {
                count += 1;
            }
            i += 1;
        }
        assert(self.items@.take(n as int) =~= self.items@);
        count
    }
}

/// Appends one table's header and its `key=value` lines to `out`; nested tables are left to the
/// traversal.
pub fn visit_table(out: &mut String, table: &Table, path: &[String], is_array_of_tables: bool)
    ensures
        final(out)@ == old(out)@ + table_block(*table, path_view(path@), is_array_of_tables),
{
    let ghost start = out@;
    if path.len() == 0 {
        // the root table has no header
    } else if is_array_of_tables {
        out.append(table.decor.prefix.as_str());
        out.append("[[");
        append_path(out, path);
        out.append("]]");
        out.append(table.decor.suffix.as_str());
        append_newline(out);
        proof {
            reveal_strlit("[[");
            reveal_strlit("]]");
        }
    } else if !(table.implicit && table.values_len() == 0) {
        out.append(table.decor.prefix.as_str());
        out.append("[");
        append_path(out, path);
        out.append("]");
        out.append(table.decor.suffix.as_str());
        append_newline(out);
        proof {
            reveal_strlit("[");
            reveal_strlit("]");
        }
    }
    assert(out@ == start + header_text(*table, path_view(path@), is_array_of_tables));
    let ghost mid = out@;
    let n = table.items.len();
    let mut i: usize = 0;
    while i < n
        invariant
            i <= n,
            n == table.items@.len(),
            out@ == mid + body_lines(table.items@.take(i as int)),
        decreases n - i,
    {
        let kv = &table.items[i];
        proof {
            let t = table.items@.take(i as int + 1);
            assert(t.drop_last() =~= table.items@.take(i as int));
        }
        if let Item::Value(v) = &kv.value {
            kv.key.fmt(out);
            out.append("=");
            proof {
                reveal_strlit("=");
            }
            v.fmt(out);
            append_newline(out);
        }
        i += 1;
    }
    assert(table.items@.take(n as int) =~= table.items@);
}

impl Table {
    /// Visits this table and every table nested under it (through tables and arrays of tables,
    /// never through values), depth first and each table before its children, and records for
    /// each its position ordinal and its rendered header and body. `path` is the path of this
    /// table; it is extended for each child and restored afterwards.
    pub fn visit_nested_tables(&self, path: &mut Vec<String>, is_array_of_tables: bool, out: &mut Vec<RenderedTable>)
        ensures
            final(path)@ == old(path)@,
            rendered_view(final(out)@) == rendered_view(old(out)@) + table_blocks(*self, path_view(old(path)@), is_array_of_tables),
        decreases self,
    {
        let ghost p0 = path@;
        let ghost o0 = rendered_view(out@);
        let mut text = String::new();
        visit_table(&mut text, self, path.as_slice(), is_array_of_tables);
        out.push(RenderedTable { position: self.position, text });
        assert(rendered_view(out@) =~= o0 + seq![(self.position, table_block(*self, path_view(p0), is_array_of_tables))]);
        let ghost o1 = rendered_view(out@);
        let n = self.items.len();
        let mut i: usize = 0;
        while i < n
            invariant
                i <= n,
                n == self.items@.len(),
                path@ == p0,
                rendered_view(out@) == o1 + child_blocks(self.items@.take(i as int), path_view(p0)),
            decreases n - i,
        {
            let kv = &self.items[i];
            let ghost before = rendered_view(out@);
            proof {
                let t = self.items@.take(i as int + 1);
                assert(t.drop_last() =~= self.items@.take(i as int));
                vstd::std_specs::vec::axiom_vec_index_decreases(self.items, i as int);
            }
            let ghost pk = path_view(p0).push(kv.key.raw_value@);
            match &kv.value {
                Item::Table(t) => {
                    path.push(kv.key.raw_value.clone());
                    assert(path_view(path@) =~= pk);
                    t.visit_nested_tables(path, false, out);
                    path.pop();
                    assert(path@ =~= p0);
                },
                Item::ArrayOfTables(a) => {
                    let m = a.values.len();
                    let mut j: usize = 0;
                    while j < m
                        invariant
                            j <= m,
                            m == a.values@.len(),
                            path@ == p0,
                            pk == path_view(p0).push(kv.key.raw_value@),
                            i < n,
                            n == self.items@.len(),
                            *kv == self.items@[i as int],
                            kv.value == Item::ArrayOfTables(*a),
                            rendered_view(out@) == before + array_of_tables_blocks(a.values@.take(j as int), pk),
                        decreases m - j,
                    {
                        proof {
                            assert(a.values@.take(j as int + 1).drop_last() =~= a.values@.take(j as int));
                            vstd::std_specs::vec::axiom_vec_index_decreases(a.values, j as int);
                            vstd::std_specs::vec::axiom_vec_index_decreases(self.items, i as int);
                            assert(kv.value->ArrayOfTables_0 == *a);
                            assert(decreases_to!(kv.value => kv.value->ArrayOfTables_0));
                        }
                        path.push(kv.key.raw_value.clone());
                        assert(path_view(path@) =~= pk);
                        a.values[j].visit_nested_tables(path, true, out);
                        path.pop();
                        assert(path@ =~= p0);
                        j += 1;
                    }
                    assert(a.values@.take(m as int) =~= a.values@);
                },
                _ => {},
            }
            i += 1;
        }
        assert(self.items@.take(n as int) =~= self.items@);
    }

    /// Appends the text of this table and every table under it, in their current order.
    pub fn fmt(&self, out: &mut String)
        ensures
            final(out)@ == old(out)@ + blocks_text(table_blocks(*self, Seq::empty(), false)),
    {
        let mut path: Vec<String> = Vec::new();
        let mut tables: Vec<RenderedTable> = Vec::new();
        assert(path_view(path@) =~= Seq::<Seq<char>>::empty());
        assert(rendered_view(tables@) =~= Seq::empty());
        self.visit_nested_tables(&mut path, false, &mut tables);
        append_blocks(out, &tables);
    }
}

/// Appends the texts of the rendered tables, in order.
fn append_blocks(out: &mut String, tables: &Vec<RenderedTable>)
    ensures
        final(out)@ == old(out)@ + blocks_text(rendered_view(tables@)),
{
    let ghost start = out@;
    let n = tables.len();
    let mut i: usize = 0;
    while i < n
        invariant
            i <= n,
            n == tables@.len(),
            out@ == start + blocks_text(rendered_view(tables@.take(i as int))),
        decreases n - i,
    {
        out.append(tables[i].text.as_str());
        proof {
            assert(rendered_view(tables@.take(i as int + 1)).drop_last() =~= rendered_view(tables@.take(i as int)));
        }
        i += 1;
    }
    assert(tables@.take(n as int) =~= tables@);
}

impl Document {
    /// Appends the document's text to `out`: every table in its current order, then the
    /// trailing text.
    pub fn fmt(&self, out: &mut String)
        ensures
            final(out)@ == old(out)@ + document_text(*self),
    {
        self.as_table().fmt(out);
        out.append(self.trailing.as_str());
    }

    /// The document's text, with every table in its current order.
    pub fn to_string(&self) -> (r: String)
        ensures
            r@ == document_text(*self),
    {
        let mut s = String::new();
        self.fmt(&mut s);
        s
    }
}

} // verus!
