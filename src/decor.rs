//! Whitespace and comments around a node, and the preserved text of scalars.

use vstd::prelude::*;
use vstd::string::StringExecFns;

verus! {

/// Free text kept verbatim before and after a node.
pub struct Decor {
    pub prefix: String,
    pub suffix: String,
}

/// A scalar's preserved literal text with its surrounding decor.
pub struct Repr {
    pub decor: Decor,
    pub raw_value: String,
}

/// A typed scalar together with the text it was written as.
pub struct Formatted<T> {
    pub value: T,
    pub repr: Repr,
}

/// Text of a repr: prefix, literal text, suffix.
pub open spec fn repr_text(r: Repr) -> Seq<char> {
    r.decor.prefix@ + r.raw_value@ + r.decor.suffix@
}

impl Decor {
    pub fn new(prefix: String, suffix: String) -> (r: Decor)
        ensures
            r.prefix == prefix,
            r.suffix == suffix,
    {
        Decor { prefix, suffix }
    }
}

impl Repr {
    pub fn new(decor: Decor, raw_value: String) -> (r: Repr)
        ensures
            r.decor == decor,
            r.raw_value == raw_value,
    {
        Repr { decor, raw_value }
    }

    /// Appends the repr's text to `out`.
    pub fn fmt(&self, out: &mut String)
        ensures
            final(out)@ == old(out)@ + repr_text(*self),
    {
        out.append(self.decor.prefix.as_str());
        out.append(self.raw_value.as_str());
        out.append(self.decor.suffix.as_str());
    }
}

impl<T> Formatted<T> {
    pub fn new(value: T, repr: Repr) -> (r: Formatted<T>)
        ensures
            r.value == value,
            r.repr == repr,
    {
        Formatted { value, repr }
    }

    /// Appends the scalar's preserved text to `out`; the typed value plays no part.
    pub fn fmt(&self, out: &mut String)
        ensures
            final(out)@ == old(out)@ + repr_text(self.repr),
    {
        self.repr.fmt(out);
    }
}

} // verus!
