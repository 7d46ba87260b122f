use vstd::prelude::*;
use crate::attr::{Attr, AttrView, Range, attrs_view};

verus! {

/// How well a layer was decoded.  A layer starts at `Error` and is raised to
/// `Exact` once its dissector has read every field; `Weak` marks a
/// heuristic match.
#[derive(Clone, Copy, Debug, PartialEq, Eq, Structural)]
pub enum Confidence {
    Error,
    Weak,
    Exact,
}

/// A payload seen as a mathematical value.
pub struct PayloadView {
    pub slices: Seq<Seq<u8>>,
    pub range: Range,
}

/// Undissected bytes owned by a layer, as a sequence of byte slices, with the
/// frame-relative range that they represent.
#[derive(Clone, Debug)]
pub struct Payload {
    pub slices: Vec<Vec<u8>>,
    pub range: Range,
}

impl View for Payload {
    type V = PayloadView;

    open spec fn view(&self) -> PayloadView {
        PayloadView { slices: self.slices@.map_values(|s: Vec<u8>| s@), range: self.range }
    }
}

impl Payload {
    /// An empty payload over the empty range.
    pub fn new() -> (r: Payload)
        ensures
            r@.slices.len() == 0,
            r.range == Range::spec_new(0, 0),
    {
        Payload { slices: Vec::new(), range: Range::empty() }
    }

    /// Appends a slice; the range is left as it is.
    pub fn add_slice(&mut self, slice: Vec<u8>)
        ensures
            final(self)@.slices == old(self)@.slices.push(slice@),
            final(self).range == old(self).range,
    {
        self.slices.push(slice);
        proof {
            assert(final(self)@.slices =~= old(self)@.slices.push(slice@));
        }
    }

    pub fn set_range(&mut self, range: Range)
        ensures
            final(self)@.slices == old(self)@.slices,
            final(self).range == range,
    {
        self.range = range;
    }
}

/// A second name under which a layer exposes one of its attributes.
#[derive(Clone, Debug)]
pub struct Alias {
    pub id: String,
    pub target: String,
}

/// One decoded protocol level of a frame.
#[derive(Debug)]
pub struct Layer {
    pub id: String,
    pub confidence: Confidence,
    pub tags: Vec<String>,
    pub range: Range,
    pub attrs: Vec<Attr>,
    pub aliases: Vec<Alias>,
    pub children: Vec<Layer>,
    pub payloads: Vec<Payload>,
    pub worker: Option<u8>,
}

/// The index of the first attribute of `attrs` named `id`, if any.
pub open spec fn first_attr(attrs: Seq<AttrView>, id: Seq<char>) -> Option<int>
    decreases attrs.len(),
{
    if attrs.len() == 0 {
        None
    } else {
        match first_attr(attrs.drop_last(), id) {
            Some(i) => Some(i),
            None => if attrs.last().id == id {
                Some(attrs.len() - 1)
            } else {
                None
            },
        }
    }
}

/// The target of the first alias of `aliases` named `id`, if any.
pub open spec fn first_alias(aliases: Seq<Alias>, id: Seq<char>) -> Option<Seq<char>>
    decreases aliases.len(),
{
    if aliases.len() == 0 {
        None
    } else {
        match first_alias(aliases.drop_last(), id) {
            Some(t) => Some(t),
            None => if aliases.last().id@ == id {
                Some(aliases.last().target@)
            } else {
                None
            },
        }
    }
}

impl Layer {
    pub open spec fn attrs_view(&self) -> Seq<AttrView> {
        attrs_view(self.attrs@)
    }

    pub open spec fn tags_view(&self) -> Seq<Seq<char>> {
        self.tags@.map_values(|t: String| t@)
    }

    pub open spec fn payloads_view(&self) -> Seq<PayloadView> {
        self.payloads@.map_values(|p: Payload| p@)
    }

    /// The attribute that a lookup of `id` finds: the first one named `id`,
    /// else the first one named by the target of the first alias `id`.
    pub open spec fn lookup(&self, id: Seq<char>) -> Option<AttrView> {
        match first_attr(self.attrs_view(), id) {
            Some(i) => Some(self.attrs_view()[i]),
            None => match first_alias(self.aliases@, id) {
                Some(t) => match first_attr(self.attrs_view(), t) {
                    Some(j) => Some(self.attrs_view()[j]),
                    None => None,
                },
                None => None,
            },
        }
    }

    /// A new layer: no attributes, tags, children or payloads, confidence
    /// `Error` until a dissector proves otherwise.
    pub fn new(id: String, range: Range) -> (r: Layer)
        ensures
            r.id@ == id@,
            r.confidence == Confidence::Error,
            r.range == range,
            r.tags@.len() == 0,
            r.attrs@.len() == 0,
            r.aliases@.len() == 0,
            r.children@.len() == 0,
            r.payloads@.len() == 0,
            r.worker is None,
    {
        Layer {
            id,
            confidence: Confidence::Error,
            tags: Vec::new(),
            range,
            attrs: Vec::new(),
            aliases: Vec::new(),
            children: Vec::new(),
            payloads: Vec::new(),
            worker: None,
        }
    }

    /// Attaches `child` as the last child layer.
    pub fn add_layer(&mut self, child: Layer)
        ensures
            final(self).children@ == old(self).children@.push(child),
            *final(self) == (Layer { children: final(self).children, ..*old(self) }),
    {
        self.children.push(child);
    }

    /// Appends an attribute; attributes keep the order in which they were added.
    pub fn add_attr(&mut self, attr: Attr)
        ensures
            final(self).attrs@ == old(self).attrs@.push(attr),
            final(self).attrs_view() == old(self).attrs_view().push(attr@),
            *final(self) == (Layer { attrs: final(self).attrs, ..*old(self) }),
    {
        self.attrs.push(attr);
        proof {
            assert(final(self).attrs_view() =~= old(self).attrs_view().push(attr@));
        }
    }

    /// Exposes the attribute `target` under the second name `id` as well.
    pub fn add_alias(&mut self, id: String, target: String)
        ensures
            final(self).aliases@.len() == old(self).aliases@.len() + 1,
            final(self).aliases@.drop_last() == old(self).aliases@,
            final(self).aliases@.last().id@ == id@,
            final(self).aliases@.last().target@ == target@,
            *final(self) == (Layer { aliases: final(self).aliases, ..*old(self) }),
    {
        self.aliases.push(Alias { id, target });
        proof {
            assert(final(self).aliases@.drop_last() =~= old(self).aliases@);
        }
    }

    /// Appends a payload.
    pub fn add_payload(&mut self, payload: Payload)
        ensures
            final(self).payloads@ == old(self).payloads@.push(payload),
            final(self).payloads_view() == old(self).payloads_view().push(payload@),
            *final(self) == (Layer { payloads: final(self).payloads, ..*old(self) }),
    {
        self.payloads.push(payload);
        proof {
            assert(final(self).payloads_view() =~= old(self).payloads_view().push(payload@));
        }
    }

    /// Appends a tag.
    pub fn add_tag(&mut self, tag: String)
        ensures
            final(self).tags@ == old(self).tags@.push(tag),
            final(self).tags_view() == old(self).tags_view().push(tag@),
            *final(self) == (Layer { tags: final(self).tags, ..*old(self) }),
    {
        self.tags.push(tag);
        proof {
            assert(final(self).tags_view() =~= old(self).tags_view().push(tag@));
        }
    }

    pub fn set_confidence(&mut self, confidence: Confidence)
        ensures
            *final(self) == (Layer { confidence, ..*old(self) }),
    {
        self.confidence = confidence;
    }

    pub fn set_range(&mut self, range: Range)
        ensures
            *final(self) == (Layer { range, ..*old(self) }),
    {
        self.range = range;
    }

    pub fn set_worker(&mut self, worker: u8)
        ensures
            *final(self) == (Layer { worker: Some(worker), ..*old(self) }),
    {
        self.worker = Some(worker);
    }

    /// The index of the first attribute named `id`.
    fn find_attr(&self, id: &String) -> (r: Option<usize>)
        ensures
            r matches Some(i) ==> i < self.attrs@.len() && first_attr(self.attrs_view(), id@) == Some(
                i as int,
            ),
            r is None ==> first_attr(self.attrs_view(), id@) is None,
    {
        let mut i: usize = 0;
        while i < self.attrs.len()
            invariant
                i <= self.attrs@.len(),
                first_attr(self.attrs_view().take(i as int), id@) is None,
            decreases self.attrs@.len() - i,
        {
            proof {
                assert(self.attrs_view().take(i + 1).drop_last() =~= self.attrs_view().take(i as int));
            }
            if self.attrs[i].id == *id {
                proof {
                    lemma_first_attr_prefix(self.attrs_view(), id@, i + 1);
                }
                return Some(i);
            }
            i = i + 1;
        }
        assert(self.attrs_view().take(i as int) =~= self.attrs_view());
        None
    }

    /// The target of the first alias named `id`.
    fn find_alias(&self, id: &String) -> (r: Option<&String>)
        ensures
            r matches Some(t) ==> first_alias(self.aliases@, id@) == Some(t@),
            r is None ==> first_alias(self.aliases@, id@) is None,
    {
        let mut i: usize = 0;
        while i < self.aliases.len()
            invariant
                i <= self.aliases@.len(),
                first_alias(self.aliases@.take(i as int), id@) is None,
            decreases self.aliases@.len() - i,
        {
            proof {
                assert(self.aliases@.take(i + 1).drop_last() =~= self.aliases@.take(i as int));
            }
            if self.aliases[i].id == *id {
                proof {
                    lemma_first_alias_prefix(self.aliases@, id@, i + 1);
                }
                return Some(&self.aliases[i].target);
            }
            i = i + 1;
        }
        assert(self.aliases@.take(i as int) =~= self.aliases@);
        None
    }

    /// Looks an attribute up by name: the first attribute named `id`, else
    /// the attribute that the first alias `id` stands for.
    pub fn attr(&self, id: &String) -> (r: Option<&Attr>)
        ensures
            match r {
                Some(a) => self.lookup(id@) == Some(a@),
                None => self.lookup(id@) is None,
            },
    {
        match self.find_attr(id) {
            Some(i) => Some(&self.attrs[i]),
            None => match self.find_alias(id) {
                Some(t) => match self.find_attr(t) {
                    Some(j) => Some(&self.attrs[j]),
                    None => None,
                },
                None => None,
            },
        }
    }
}

/// Where a prefix already names `id`, every longer sequence finds the same
/// first attribute.
proof fn lemma_first_attr_prefix(attrs: Seq<AttrView>, id: Seq<char>, k: int)
    requires
        0 <= k <= attrs.len(),
        first_attr(attrs.take(k), id) is Some,
    ensures
        first_attr(attrs, id) == first_attr(attrs.take(k), id),
    decreases attrs.len() - k,
{
    if k < attrs.len() {
        assert(attrs.take(k + 1).drop_last() =~= attrs.take(k));
        lemma_first_attr_prefix(attrs, id, k + 1);
    } else {
        assert(attrs.take(k) =~= attrs);
    }
}

proof fn lemma_first_alias_prefix(aliases: Seq<Alias>, id: Seq<char>, k: int)
    requires
        0 <= k <= aliases.len(),
        first_alias(aliases.take(k), id) is Some,
    ensures
        first_alias(aliases, id) == first_alias(aliases.take(k), id),
    decreases aliases.len() - k,
{
    if k < aliases.len() {
        assert(aliases.take(k + 1).drop_last() =~= aliases.take(k));
        lemma_first_alias_prefix(aliases, id, k + 1);
    } else {
        assert(aliases.take(k) =~= aliases);
    }
}

} // verus!
