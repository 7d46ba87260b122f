use vstd::prelude::*;

verus! {

/// A half-open byte range `start..end`.
#[derive(Clone, Copy, Debug, PartialEq, Eq, Structural)]
pub struct Range {
    pub start: usize,
    pub end: usize,
}

impl Range {
    pub open spec fn spec_new(start: int, end: int) -> Range {
        Range { start: start as usize, end: end as usize }
    }

    /// The range is ordered and ends at or before `len`.
    pub open spec fn within(self, len: int) -> bool {
        self.start <= self.end && self.end <= len
    }

    pub fn new(start: usize, end: usize) -> (r: Range)
        ensures
            r.start == start,
            r.end == end,
    {
        Range { start, end }
    }

    /// The empty range `0..0`, used for synthetic attributes.
    pub fn empty() -> (r: Range)
        ensures
            r.start == 0,
            r.end == 0,
    {
        Range { start: 0, end: 0 }
    }
}

/// The value an attribute carries, seen as a mathematical value.
pub enum Value {
    Nil,
    Bool(bool),
    Int64(i64),
    Uint64(u64),
    Double(u64),
    Str(Seq<char>),
    Bytes(Seq<u8>),
}

/// The value of an attribute.  A double is held as its IEEE-754 bit pattern.
#[derive(Clone, Debug)]
pub enum Variant {
    Nil,
    Bool(bool),
    Int64(i64),
    Uint64(u64),
    Double(u64),
    Str(String),
    Bytes(Vec<u8>),
}

impl View for Variant {
    type V = Value;

    open spec fn view(&self) -> Value {
        match self {
            Variant::Nil => Value::Nil,
            Variant::Bool(b) => Value::Bool(*b),
            Variant::Int64(i) => Value::Int64(*i),
            Variant::Uint64(u) => Value::Uint64(*u),
            Variant::Double(bits) => Value::Double(*bits),
            Variant::Str(s) => Value::Str(s@),
            Variant::Bytes(b) => Value::Bytes(b@),
        }
    }
}

/// An attribute seen as a mathematical value.
pub struct AttrView {
    pub id: Seq<char>,
    pub typ: Seq<char>,
    pub value: Value,
    pub range: Range,
}

/// One named, typed fact about a layer, with the bytes it was read from.
/// An empty `typ` means that the attribute carries no rendering hint.
#[derive(Clone, Debug)]
pub struct Attr {
    pub id: String,
    pub typ: String,
    pub value: Variant,
    pub range: Range,
}

impl View for Attr {
    type V = AttrView;

    open spec fn view(&self) -> AttrView {
        AttrView { id: self.id@, typ: self.typ@, value: self.value@, range: self.range }
    }
}

/// The views of a sequence of attributes.
pub open spec fn attrs_view(s: Seq<Attr>) -> Seq<AttrView> {
    s.map_values(|a: Attr| a@)
}

impl Attr {
    /// An attribute with a value and no rendering hint.
    pub fn with_value(id: String, range: Range, value: Variant) -> (r: Attr)
        ensures
            r@ == (AttrView { id: id@, typ: Seq::<char>::empty(), value: value@, range }),
    {
        Attr { id, typ: String::new(), value, range }
    }

    /// An attribute with a value and a rendering hint such as `@flags`.
    pub fn with_type(id: String, typ: String, range: Range, value: Variant) -> (r: Attr)
        ensures
            r@ == (AttrView { id: id@, typ: typ@, value: value@, range }),
    {
        Attr { id, typ, value, range }
    }
}

} // verus!
