//! Properties of rendering that relate several inputs.

use vstd::prelude::*;
use vstd::multiset::Multiset;
use crate::display::{inline_entries, value_count};
use crate::order::{
    first_greater, insert_stable, original_order_text, running_position, sort_by_tag, tagged_blocks,
    tagged_text,
};
use crate::tables::{blocks_text, document_text, header_text, path_text, table_blocks};
use crate::tree::{Document, Table, TableKeyValue};

verus! {

/// Whether an entry holds a value.
pub open spec fn holds_value(kv: TableKeyValue) -> bool {
    kv.value is Value
}

/// Entries of an inline table that hold no value play no part in its text: it renders exactly as
/// the same entries with those removed, commas included.
pub proof fn lemma_inline_skips_non_values(items: Seq<TableKeyValue>)
    ensures
        inline_entries(items) == inline_entries(items.filter(|kv: TableKeyValue| holds_value(kv))),
        value_count(items) == value_count(items.filter(|kv: TableKeyValue| holds_value(kv))),
    decreases items.len(),
{
    let pred = |kv: TableKeyValue| holds_value(kv);
    reveal(Seq::filter);
    if items.len() > 0 {
        lemma_inline_skips_non_values(items.drop_last());
        let f = items.filter(pred);
        let f0 = items.drop_last().filter(pred);
        if pred(items.last()) {
            assert(f == f0.push(items.last()));
            assert(f.drop_last() =~= f0);
        } else {
            assert(f == f0);
        }
    }
}

/// An implicit table that holds no value gets no header line at a non-root path; any other table
/// visited as a plain table there gets one, bracketing the dotted path.
pub proof fn lemma_implicit_table_header(t: Table, path: Seq<Seq<char>>)
    requires
        path.len() > 0,
    ensures
        (t.implicit && value_count(t.items@) == 0) ==> header_text(t, path, false) == Seq::<char>::empty(),
        !(t.implicit && value_count(t.items@) == 0) ==> header_text(t, path, false)
            == t.decor.prefix@ + seq!['['] + path_text(path) + seq![']'] + t.decor.suffix@ + seq!['\n'],
{
}

/// A table of an array of tables at a non-root path always gets a double-bracket header.
pub proof fn lemma_array_of_tables_header(t: Table, path: Seq<Seq<char>>)
    requires
        path.len() > 0,
    ensures
        header_text(t, path, true)
            == t.decor.prefix@ + seq!['[', '['] + path_text(path) + seq![']', ']'] + t.decor.suffix@ + seq!['\n'],
{
}

/// Whether the tags of `s` never decrease.
pub open spec fn tags_ascending(s: Seq<(usize, Seq<char>)>) -> bool {
    forall|i: int, j: int| 0 <= i < j < s.len() ==> s[i].0 <= s[j].0
}

proof fn lemma_first_greater(s: Seq<(usize, Seq<char>)>, key: usize, i: int)
    requires
        0 <= i <= s.len(),
    ensures
        i <= first_greater(s, key, i) <= s.len(),
        forall|k: int| i <= k < first_greater(s, key, i) ==> s[k].0 <= key,
        first_greater(s, key, i) < s.len() ==> s[first_greater(s, key, i)].0 > key,
    decreases s.len() - i,
{
    if i < s.len() && s[i].0 <= key {
        lemma_first_greater(s, key, i + 1);
    }
}

/// Sorting by tag keeps every block, and leaves the tags in ascending order.
pub proof fn lemma_sort_by_tag(s: Seq<(usize, Seq<char>)>)
    ensures
        sort_by_tag(s).len() == s.len(),
        sort_by_tag(s).to_multiset() == s.to_multiset(),
        tags_ascending(sort_by_tag(s)),
    decreases s.len(),
{
    if s.len() > 0 {
        let rest = sort_by_tag(s.drop_last());
        lemma_sort_by_tag(s.drop_last());
        let x = s.last();
        let g = first_greater(rest, x.0, 0);
        lemma_first_greater(rest, x.0, 0);
        let r = insert_stable(rest, x);
        assert(r == rest.insert(g, x));
        rest.to_multiset_ensures();
        s.drop_last().to_multiset_ensures();
        assert(s =~= s.drop_last().push(x));
        vstd::seq_lib::lemma_multiset_commutative(rest.take(g), seq![x] + rest.skip(g));
        vstd::seq_lib::lemma_multiset_commutative(seq![x], rest.skip(g));
        vstd::seq_lib::lemma_multiset_commutative(rest.take(g), rest.skip(g));
        assert(rest.take(g) + rest.skip(g) =~= rest);
        assert(r =~= rest.take(g) + (seq![x] + rest.skip(g)));
        assert(seq![x].to_multiset() =~= Multiset::empty().insert(x)) by {
            seq![x].to_multiset_ensures();
            assert(seq![x] =~= Seq::<(usize, Seq<char>)>::empty().push(x));
            Seq::<(usize, Seq<char>)>::empty().to_multiset_ensures();
        }
        assert(r.to_multiset() =~= s.to_multiset());
        assert forall|i: int, j: int| 0 <= i < j < r.len() implies r[i].0 <= r[j].0 by {
            if j < g {
            } else if j == g {
            } else if i < g {
                assert(r[j] == rest[j - 1]);
                assert(rest[g].0 > x.0);
                assert(rest[i].0 <= rest[g].0);
            } else if i == g {
                assert(rest[g].0 > x.0);
                if j - 1 > g {
                    assert(rest[g].0 <= rest[j - 1].0);
                }
            } else {
                assert(r[i] == rest[i - 1]);
            }
        }
    }
}

proof fn lemma_sort_keeps_ascending(s: Seq<(usize, Seq<char>)>)
    requires
        tags_ascending(s),
    ensures
        sort_by_tag(s) == s,
    decreases s.len(),
{
    if s.len() > 0 {
        let rest = s.drop_last();
        lemma_sort_keeps_ascending(rest);
        lemma_first_greater(rest, s.last().0, 0);
        let g = first_greater(rest, s.last().0, 0);
        if g < rest.len() {
            assert(rest[g].0 <= s.last().0);
        }
        assert(rest.insert(g, s.last()) =~= s);
    }
}

proof fn lemma_running_position_prefix(bs: Seq<(Option<usize>, Seq<char>)>, k: int)
    requires
        0 <= k < bs.len(),
    ensures
        running_position(bs.drop_last(), k) == running_position(bs, k),
    decreases k,
{
    if k > 0 {
        lemma_running_position_prefix(bs, k - 1);
    }
}

proof fn lemma_tagged_text(bs: Seq<(Option<usize>, Seq<char>)>)
    ensures
        tagged_text(tagged_blocks(bs)) == blocks_text(bs),
    decreases bs.len(),
{
    if bs.len() > 0 {
        lemma_tagged_text(bs.drop_last());
        assert forall|i: int| 0 <= i < bs.len() - 1 implies #[trigger] tagged_blocks(bs.drop_last())[i]
            == tagged_blocks(bs)[i] by {
            lemma_running_position_prefix(bs, i + 1);
        }
        assert(tagged_blocks(bs).drop_last() =~= tagged_blocks(bs.drop_last()));
    }
}

/// When the position ordinals met in traversal order never go down, as in a document just
/// parsed, the original-order text is the same as the current-order text.
pub proof fn lemma_original_order_of_ascending_positions(d: Document)
    requires
        tags_ascending(tagged_blocks(table_blocks(d.root, Seq::empty(), false))),
    ensures
        original_order_text(d) == document_text(d),
{
    let bs = table_blocks(d.root, Seq::empty(), false);
    lemma_sort_keeps_ascending(tagged_blocks(bs));
    lemma_tagged_text(bs);
}

} // verus!
