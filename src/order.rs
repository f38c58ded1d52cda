//! Rendering a document with its tables regrouped in the order they first appeared in the source.

use vstd::prelude::*;
use vstd::string::StringExecFns;
use crate::tables::{rendered_view, table_blocks, RenderedTable};
use crate::tree::Document;

verus! {

/// The last position ordinal seen among the first `k` blocks, or 0 when none has one.
pub open spec fn running_position(bs: Seq<(Option<usize>, Seq<char>)>, k: int) -> usize
    decreases k,
{
    if k <= 0 {
        0
    } else {
        match bs[k - 1].0 {
            Some(p) => p,
            None => running_position(bs, k - 1),
        }
    }
}

/// Each block tagged with the running position ordinal at its place: a block without an ordinal
/// takes the last one seen before it.
pub open spec fn tagged_blocks(bs: Seq<(Option<usize>, Seq<char>)>) -> Seq<(usize, Seq<char>)> {
    Seq::new(bs.len(), |i: int| (running_position(bs, i + 1), bs[i].1))
}

/// The first index at or after `i` whose tag is greater than `key`, or the length.
pub open spec fn first_greater(s: Seq<(usize, Seq<char>)>, key: usize, i: int) -> int
    decreases s.len() - i,
{
    if i >= s.len() {
        s.len() as int
    } else if s[i].0 > key {
        i
    } else {
        first_greater(s, key, i + 1)
    }
}

/// `x` placed after every element of `s` up to the first with a greater tag.
pub open spec fn insert_stable(s: Seq<(usize, Seq<char>)>, x: (usize, Seq<char>)) -> Seq<(usize, Seq<char>)> {
    s.insert(first_greater(s, x.0, 0), x)
}

/// `s` sorted by tag, stably: each block in turn goes after every block placed before it whose
/// tag is not greater.
pub open spec fn sort_by_tag(s: Seq<(usize, Seq<char>)>) -> Seq<(usize, Seq<char>)>
    decreases s.len(),
{
    if s.len() == 0 {
        s
    } else {
        insert_stable(sort_by_tag(s.drop_last()), s.last())
    }
}

/// The texts of tagged blocks, one after the other.
pub open spec fn tagged_text(s: Seq<(usize, Seq<char>)>) -> Seq<char>
    decreases s.len(),
{
    if s.len() == 0 {
        Seq::empty()
    } else {
        tagged_text(s.drop_last()) + s.last().1
    }
}

/// Text of a document with its tables in the order of their position ordinals.
pub open spec fn original_order_text(d: Document) -> Seq<char> {
    tagged_text(sort_by_tag(tagged_blocks(table_blocks(d.root, Seq::empty(), false)))) + d.trailing@
}

/// Tagged tables as (tag, text) pairs.
pub open spec fn tagged_view(v: Seq<(usize, String)>) -> Seq<(usize, Seq<char>)> {
    v.map_values(|p: (usize, String)| (p.0, p.1@))
}

/// Tags each rendered table with the running position ordinal.
fn tag_tables(tables: &Vec<RenderedTable>) -> (r: Vec<(usize, String)>)
    ensures
        tagged_view(r@) == tagged_blocks(rendered_view(tables@)),
{
    let ghost bs = rendered_view(tables@);
    let n = tables.len();
    let mut r: Vec<(usize, String)> = Vec::new();
    let mut last_position: usize = 0;
    let mut i: usize = 0;
    while i < n
        invariant
            i <= n,
            n == tables@.len(),
            bs == rendered_view(tables@),
            last_position == running_position(bs, i as int),
            tagged_view(r@) =~= tagged_blocks(bs).take(i as int),
        decreases n - i,
    {
        proof {
            assert(bs[i as int] == (tables@[i as int].position, tables@[i as int].text@));
        }
        if let Some(pos) = tables[i].position {
            last_position = pos;
        }
        assert(last_position == running_position(bs, i as int + 1));
        let ghost r0 = r@;
        r.push((last_position, tables[i].text.clone()));
        proof {
            assert(tagged_view(r@) =~= tagged_view(r0).push((last_position, tables@[i as int].text@)));
            assert(tagged_blocks(bs).take(i as int + 1) =~= tagged_blocks(bs).take(i as int).push(tagged_blocks(bs)[i as int]));
            assert(tagged_view(r@) =~= tagged_blocks(bs).take(i as int + 1));
        }
        i += 1;
    }
    r
}

/// Stably sorts the tagged tables by tag.
fn sort_tagged(tagged: &Vec<(usize, String)>) -> (r: Vec<(usize, String)>)
    ensures
        tagged_view(r@) == sort_by_tag(tagged_view(tagged@)),
{
    let ghost s = tagged_view(tagged@);
    let n = tagged.len();
    let mut sorted: Vec<(usize, String)> = Vec::new();
    let mut i: usize = 0;
    while i < n
        invariant
            i <= n,
            n == tagged@.len(),
            s == tagged_view(tagged@),
            tagged_view(sorted@) == sort_by_tag(s.take(i as int)),
        decreases n - i,
    {
        let key = tagged[i].0;
        let ghost sv = tagged_view(sorted@);
        let mut j: usize = 0;
        while j < sorted.len() && sorted[j].0 <= key
            invariant
                j <= sorted@.len(),
                sv == tagged_view(sorted@),
                first_greater(sv, key, 0) == first_greater(sv, key, j as int),
            decreases sorted@.len() - j,
        {
            j += 1;
        }
        sorted.insert(j, (key, tagged[i].1.clone()));
        proof {
            assert(s.take(i as int + 1).drop_last() =~= s.take(i as int));
            assert(s.take(i as int + 1).last() == (key, tagged@[i as int].1@));
            assert(tagged_view(sorted@) =~= sv.insert(j as int, (key, tagged@[i as int].1@)));
        }
        i += 1;
    }
    assert(s.take(n as int) =~= s);
    sorted
}

/// Appends the texts of the tagged tables, in order.
fn append_tagged(out: &mut String, tables: &Vec<(usize, String)>)
    ensures
        final(out)@ == old(out)@ + tagged_text(tagged_view(tables@)),
{
    let ghost start = out@;
    let n = tables.len();
    let mut i: usize = 0;
    while i < n
        invariant
            i <= n,
            n == tables@.len(),
            out@ == start + tagged_text(tagged_view(tables@.take(i as int))),
        decreases n - i,
    {
        out.append(tables[i].1.as_str());
        proof {
            assert(tagged_view(tables@.take(i as int + 1)).drop_last() =~= tagged_view(tables@.take(i as int)));
        }
        i += 1;
    }
    assert(tables@.take(n as int) =~= tables@);
}

impl Document {
    /// The document's text with its tables in the order they first appeared in the source:
    /// each table is tagged with the last position ordinal seen up to it in traversal order,
    /// the tables are stably sorted by tag, and the trailing text follows.
    pub fn to_string_in_original_order(&self) -> (r: String)
        ensures
            r@ == original_order_text(*self),
    {
        let mut path: Vec<String> = Vec::new();
        let mut tables: Vec<RenderedTable> = Vec::new();
        proof {
            assert(crate::tables::path_view(path@) =~= Seq::<Seq<char>>::empty());
            assert(rendered_view(tables@) =~= Seq::empty());
        }
        self.as_table().visit_nested_tables(&mut path, false, &mut tables);
        let tagged = tag_tables(&tables);
        let sorted = sort_tagged(&tagged);
        let mut string = String::new();
        append_tagged(&mut string, &sorted);
        string.append(self.trailing.as_str());
        string
    }
}

} // verus!
