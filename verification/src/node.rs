//! The table node: cached presentation scalars kept consistent with raw
//! attribute storage, and structural rules over an ordered child list.
//!
//! The surrounding tree is modeled as an arena of stable identifiers: a
//! child is its identifier plus its kind, and node construction is a fresh
//! identifier drawn from a counter. Everything the structural rules read or
//! move is the relative order and multiplicity of children, which this
//! model keeps exactly.

use vstd::prelude::*;
use crate::attrcache::{
    AttrName, AttrValue, AttrValueView, spec_derive_border, spec_derive_cellspacing,
    spec_parse_plain,
};
use crate::color::{Rgba, parse_legacy_color, spec_derive_color, spec_legacy_color};
use crate::dimension::{DimView, LengthOrPercentageOrAuto, parse_nonzero_length};
use crate::strutil::parse_unsigned_integer;

verus! {

/// The kind of a direct child, as the structural rules see it: a caption
/// child, a section child of the kind the section-creation operation
/// builds, or anything else.
#[derive(Clone, Copy, PartialEq, Eq, Structural, Debug)]
pub enum ChildKind {
    Caption,
    Section,
    Other,
}

/// A direct child of the table node: a stable identifier in the
/// surrounding tree, plus its kind.
#[derive(Clone, Copy, PartialEq, Eq, Structural, Debug)]
pub struct Child {
    pub id: u64,
    pub kind: ChildKind,
}

/// The view of an optional stored attribute as its raw string.
pub open spec fn raw_opt(v: Option<AttrValue>) -> Option<Seq<char>> {
    match v {
        Option::Some(a) => Option::Some(a@.raw()),
        Option::None => Option::None,
    }
}

/// The view of an optional borrowed string.
pub open spec fn opt_view(v: Option<&String>) -> Option<Seq<char>> {
    match v {
        Option::Some(s) => Option::Some(s@),
        Option::None => Option::None,
    }
}

/// The table node.
pub struct HTMLTableElement {
    children: Vec<Child>,
    next_id: u64,
    attr_bgcolor: Option<AttrValue>,
    attr_border: Option<AttrValue>,
    attr_cellspacing: Option<AttrValue>,
    attr_width: Option<AttrValue>,
    background_color: Option<Rgba>,
    border: Option<u32>,
    cellspacing: Option<u32>,
}

impl HTMLTableElement {
    /// The direct children, in document order.
    pub closed spec fn children(self) -> Seq<Child> {
        self.children@
    }

    /// The next identifier the node-construction service will hand out.
    pub closed spec fn next_id(self) -> u64 {
        self.next_id
    }

    /// The raw string stored for an attribute, when it is present.
    pub closed spec fn attr(self, name: AttrName) -> Option<Seq<char>> {
        match name {
            AttrName::BgColor => raw_opt(self.attr_bgcolor),
            AttrName::Border => raw_opt(self.attr_border),
            AttrName::CellSpacing => raw_opt(self.attr_cellspacing),
            AttrName::Width => raw_opt(self.attr_width),
        }
    }

    /// The cached background color.
    pub closed spec fn cached_background_color(self) -> Option<Rgba> {
        self.background_color
    }

    /// The cached border width.
    pub closed spec fn cached_border(self) -> Option<u32> {
        self.border
    }

    /// The cached cell spacing.
    pub closed spec fn cached_cellspacing(self) -> Option<u32> {
        self.cellspacing
    }

    /// The typed width stored for the width attribute, or automatic when
    /// the attribute is absent.
    pub closed spec fn width_value(self) -> DimView {
        match self.attr_width {
            Option::Some(v) => match v@ {
                AttrValueView::Dimension(_, d) => d,
                _ => DimView::Auto,
            },
            Option::None => DimView::Auto,
        }
    }

    /// Well-formedness: every cache field equals the pure derivation of the
    /// raw attribute it mirrors, every stored attribute carries the typed
    /// value its materialization hook gives it, and every child identifier
    /// is below the construction counter.
    pub closed spec fn wf(self) -> bool {
        &&& self.background_color == spec_derive_color(self.attr(AttrName::BgColor))
        &&& self.border == spec_derive_border(self.attr(AttrName::Border))
        &&& self.cellspacing == spec_derive_cellspacing(self.attr(AttrName::CellSpacing))
        &&& (self.attr_bgcolor matches Option::Some(v) ==> v@ == spec_parse_plain(
            AttrName::BgColor,
            v@.raw(),
        ))
        &&& (self.attr_border matches Option::Some(v) ==> v@ == spec_parse_plain(
            AttrName::Border,
            v@.raw(),
        ))
        &&& (self.attr_cellspacing matches Option::Some(v) ==> v@ == spec_parse_plain(
            AttrName::CellSpacing,
            v@.raw(),
        ))
        &&& (self.attr_width matches Option::Some(v) ==> v@ == spec_parse_plain(
            AttrName::Width,
            v@.raw(),
        ))
        &&& (forall|i: int| 0 <= i < self.children@.len() ==> self.children@[i].id < self.next_id)
    }

    /// The raw attributes, the caches and the typed width of `b` agree with
    /// those of `a`: the attribute state is untouched.
    pub open spec fn same_attributes(a: Self, b: Self) -> bool {
        &&& b.attr(AttrName::BgColor) == a.attr(AttrName::BgColor)
        &&& b.attr(AttrName::Border) == a.attr(AttrName::Border)
        &&& b.attr(AttrName::CellSpacing) == a.attr(AttrName::CellSpacing)
        &&& b.attr(AttrName::Width) == a.attr(AttrName::Width)
        &&& b.cached_background_color() == a.cached_background_color()
        &&& b.cached_border() == a.cached_border()
        &&& b.cached_cellspacing() == a.cached_cellspacing()
        &&& b.width_value() == a.width_value()
    }

    /// A well-formed node's caches always equal the derivations of its raw
    /// attributes: no reader can see them diverge.
    pub proof fn lemma_cache_consistency(self)
        requires
            self.wf(),
        ensures
            self.cached_background_color() == spec_derive_color(self.attr(AttrName::BgColor)),
            self.cached_border() == spec_derive_border(self.attr(AttrName::Border)),
            self.cached_cellspacing() == spec_derive_cellspacing(self.attr(AttrName::CellSpacing)),
    {
    }

    /// A fresh node: no attributes, empty caches, no children.
    pub fn new() -> (t: HTMLTableElement)
        ensures
            t.wf(),
            t.children() == Seq::<Child>::empty(),
            t.next_id() == 0,
            t.attr(AttrName::BgColor) is None,
            t.attr(AttrName::Border) is None,
            t.attr(AttrName::CellSpacing) is None,
            t.attr(AttrName::Width) is None,
            t.cached_background_color() is None,
            t.cached_border() is None,
            t.cached_cellspacing() is None,
            t.width_value() == DimView::Auto,
    {
        HTMLTableElement {
            children: Vec::new(),
            next_id: 0,
            attr_bgcolor: Option::None,
            attr_border: Option::None,
            attr_cellspacing: Option::None,
            attr_width: Option::None,
            background_color: Option::None,
            border: Option::None,
            cellspacing: Option::None,
        }
    }

    /// Reacts to an attribute mutation: re-derives the one cache field the
    /// name owns from the new raw value (or its absence). Names this node
    /// does not own are the ancestor chain's business and change nothing
    /// here.
    fn attribute_mutated(&mut self, name: AttrName, new_value: Option<&String>)
        ensures
            final(self).children == old(self).children,
            final(self).next_id == old(self).next_id,
            final(self).attr_bgcolor == old(self).attr_bgcolor,
            final(self).attr_border == old(self).attr_border,
            final(self).attr_cellspacing == old(self).attr_cellspacing,
            final(self).attr_width == old(self).attr_width,
            name == AttrName::BgColor ==> final(self).background_color == spec_derive_color(
                opt_view(new_value),
            ) && final(self).border == old(self).border && final(self).cellspacing == old(self).cellspacing,
            name == AttrName::Border ==> final(self).border == spec_derive_border(
                opt_view(new_value),
            ) && final(self).background_color == old(self).background_color && final(self).cellspacing == old(self).cellspacing,
            name == AttrName::CellSpacing ==> final(self).cellspacing == spec_derive_cellspacing(
                opt_view(new_value),
            ) && final(self).background_color == old(self).background_color && final(self).border == old(self).border,
            name == AttrName::Width ==> final(self).background_color == old(self).background_color
                && final(self).border == old(self).border && final(self).cellspacing == old(self).cellspacing,
    {
        match name {
            AttrName::BgColor => {
                self.background_color = match new_value {
                    Option::Some(s) => parse_legacy_color(s.as_str()),
                    Option::None => Option::None,
                };
            },
            AttrName::Border => {
                self.border = match new_value {
                    Option::Some(s) => match parse_unsigned_integer(s.as_str()) {
                        Option::Some(n) => Option::Some(n),
                        Option::None => Option::Some(1),
                    },
                    Option::None => Option::None,
                };
            },
            AttrName::CellSpacing => {
                self.cellspacing = match new_value {
                    Option::Some(s) => parse_unsigned_integer(s.as_str()),
                    Option::None => Option::None,
                };
            },
            AttrName::Width => {},
        }
    }

    /// The materialization hook: the typed value a raw string takes when an
    /// attribute of the given name is first stored.
    pub fn parse_plain_attribute(&self, name: AttrName, value: String) -> (v: AttrValue)
        ensures
            v@ == spec_parse_plain(name, value@),
    {
        match name {
            AttrName::Border => {
                let n = match parse_unsigned_integer(value.as_str()) {
                    Option::Some(n) => n,
                    Option::None => 1,
                };
                AttrValue::UInt(value, n)
            },
            AttrName::Width => {
                let d = parse_nonzero_length(value.as_str());
                AttrValue::Dimension(value, d)
            },
            _ => AttrValue::Str(value),
        }
    }

    /// Stores an attribute and re-derives the cache field it owns; the
    /// other attributes, the caches they own, and the children stay as
    /// they were.
    pub fn set_attribute(&mut self, name: AttrName, value: String)
        requires
            old(self).wf(),
        ensures
            final(self).wf(),
            final(self).attr(name) == Some(value@),
            forall|m: AttrName| m != name ==> final(self).attr(m) == old(self).attr(m),
            final(self).children() == old(self).children(),
            final(self).next_id() == old(self).next_id(),
            final(self).cached_background_color() == spec_derive_color(
                final(self).attr(AttrName::BgColor),
            ),
            final(self).cached_border() == spec_derive_border(final(self).attr(AttrName::Border)),
            final(self).cached_cellspacing() == spec_derive_cellspacing(
                final(self).attr(AttrName::CellSpacing),
            ),
    {
        self.attribute_mutated(name, Some(&value));
        let tv = self.parse_plain_attribute(name, value);
        match name {
            AttrName::BgColor => {
                self.attr_bgcolor = Some(tv);
            },
            AttrName::Border => {
                self.attr_border = Some(tv);
            },
            AttrName::CellSpacing => {
                self.attr_cellspacing = Some(tv);
            },
            AttrName::Width => {
                self.attr_width = Some(tv);
            },
        }
    }

    /// Removes an attribute and empties the cache field it owns; the other
    /// attributes, the caches they own, and the children stay as they were.
    pub fn remove_attribute(&mut self, name: AttrName)
        requires
            old(self).wf(),
        ensures
            final(self).wf(),
            final(self).attr(name) is None,
            forall|m: AttrName| m != name ==> final(self).attr(m) == old(self).attr(m),
            final(self).children() == old(self).children(),
            final(self).next_id() == old(self).next_id(),
            final(self).cached_background_color() == spec_derive_color(
                final(self).attr(AttrName::BgColor),
            ),
            final(self).cached_border() == spec_derive_border(final(self).attr(AttrName::Border)),
            final(self).cached_cellspacing() == spec_derive_cellspacing(
                final(self).attr(AttrName::CellSpacing),
            ),
    {
        self.attribute_mutated(name, None);
        match name {
            AttrName::BgColor => {
                self.attr_bgcolor = None;
            },
            AttrName::Border => {
                self.attr_border = None;
            },
            AttrName::CellSpacing => {
                self.attr_cellspacing = None;
            },
            AttrName::Width => {
                self.attr_width = None;
            },
        }
    }

    /// The cached border width.
    pub fn get_border(&self) -> (r: Option<u32>)
        ensures
            r == self.cached_border(),
    {
        self.border
    }

    /// The raw value of the background-color attribute, or the empty string
    /// when it is absent.
    #[allow(non_snake_case)]
    pub fn BgColor(&self) -> (r: String)
        ensures
            r@ == match self.attr(AttrName::BgColor) {
                Option::Some(s) => s,
                Option::None => Seq::<char>::empty(),
            },
    {
        match &self.attr_bgcolor {
            Option::Some(v) => v.raw_str().clone(),
            Option::None => String::new(),
        }
    }

    /// Sets the background-color attribute; the color cache follows the
    /// new value at once.
    #[allow(non_snake_case)]
    pub fn SetBgColor(&mut self, value: String)
        requires
            old(self).wf(),
        ensures
            final(self).wf(),
            final(self).attr(AttrName::BgColor) == Some(value@),
            forall|m: AttrName|
                m != AttrName::BgColor ==> final(self).attr(m) == old(self).attr(m),
            final(self).children() == old(self).children(),
            final(self).next_id() == old(self).next_id(),
            final(self).cached_background_color() == spec_legacy_color(value@),
    {
        self.set_attribute(AttrName::BgColor, value);
    }

    /// The raw value of the width attribute, or the empty string when it is
    /// absent.
    #[allow(non_snake_case)]
    pub fn Width(&self) -> (r: String)
        ensures
            r@ == match self.attr(AttrName::Width) {
                Option::Some(s) => s,
                Option::None => Seq::<char>::empty(),
            },
    {
        match &self.attr_width {
            Option::Some(v) => v.raw_str().clone(),
            Option::None => String::new(),
        }
    }

    /// Sets the width attribute; it is stored as a nonzero dimension.
    #[allow(non_snake_case)]
    pub fn SetWidth(&mut self, value: String)
        requires
            old(self).wf(),
        ensures
            final(self).wf(),
            final(self).attr(AttrName::Width) == Some(value@),
            forall|m: AttrName| m != AttrName::Width ==> final(self).attr(m) == old(self).attr(m),
            final(self).children() == old(self).children(),
            final(self).next_id() == old(self).next_id(),
            final(self).width_value() == crate::dimension::spec_parse_nonzero_length(value@),
    {
        self.set_attribute(AttrName::Width, value);
    }
}

/// The first caption-kind child, in document order.
pub open spec fn first_caption(s: Seq<Child>) -> Option<Child>
    decreases s.len(),
{
    if s.len() == 0 {
        Option::None
    } else if s[0].kind == ChildKind::Caption {
        Option::Some(s[0])
    } else {
        first_caption(s.drop_first())
    }
}

/// The child list with its first caption-kind child removed, when one is
/// there.
pub open spec fn remove_first_caption(s: Seq<Child>) -> Seq<Child>
    decreases s.len(),
{
    if s.len() == 0 {
        s
    } else if s[0].kind == ChildKind::Caption {
        s.drop_first()
    } else {
        seq![s[0]] + remove_first_caption(s.drop_first())
    }
}

/// One past the last section-kind child, when one is there.
pub open spec fn last_section_end(s: Seq<Child>) -> Option<int>
    decreases s.len(),
{
    if s.len() == 0 {
        Option::None
    } else if s.last().kind == ChildKind::Section {
        Option::Some(s.len() as int)
    } else {
        last_section_end(s.drop_last())
    }
}

/// Where a new section child is inserted: right after the last section
/// child, or at the end when there is none.
pub open spec fn tbody_insert_pos(s: Seq<Child>) -> int {
    match last_section_end(s) {
        Option::Some(p) => p,
        Option::None => s.len() as int,
    }
}

/// No child is caption-kind.
pub open spec fn no_caption(s: Seq<Child>) -> bool {
    forall|i: int| 0 <= i < s.len() ==> s[i].kind != ChildKind::Caption
}

/// At most one child is caption-kind.
pub open spec fn at_most_one_caption(s: Seq<Child>) -> bool {
    forall|i: int, j: int|
        0 <= i < j < s.len() && s[i].kind == ChildKind::Caption ==> s[j].kind
            != ChildKind::Caption
}

impl HTMLTableElement {
    /// Index of the first caption-kind child, with what its removal does to
    /// the list.
    fn find_caption_index(&self) -> (r: Option<usize>)
        ensures
            match r {
                Option::Some(i) => i < self.children().len() && self.children()[i as int].kind
                    == ChildKind::Caption && first_caption(self.children()) == Some(
                    self.children()[i as int],
                ) && remove_first_caption(self.children()) == self.children().remove(i as int),
                Option::None => first_caption(self.children()) is None && remove_first_caption(
                    self.children(),
                ) == self.children(),
            },
    {
        let ghost s = self.children@;
        let n = self.children.len();
        let mut i: usize = 0;
        proof {
            assert(s.skip(0) =~= s);
            assert(s.take(0) + remove_first_caption(s.skip(0)) =~= remove_first_caption(s));
        }
        while i < n
            invariant
                i <= n,
                n == s.len(),
                s == self.children@,
                first_caption(s) == first_caption(s.skip(i as int)),
                remove_first_caption(s) == s.take(i as int) + remove_first_caption(
                    s.skip(i as int),
                ),
                forall|j: int| 0 <= j < i ==> s[j].kind != ChildKind::Caption,
            decreases n - i,
        {
            proof {
                assert(s.skip(i as int)[0] == s[i as int]);
                assert(s.skip(i as int).drop_first() =~= s.skip(i as int + 1));
            }
            if self.children[i].kind == ChildKind::Caption {
                proof {
                    assert(remove_first_caption(s) =~= s.take(i as int) + s.skip(i as int + 1));
                    assert(s.remove(i as int) =~= s.take(i as int) + s.skip(i as int + 1));
                }
                return Some(i);
            }
            proof {
                assert(s.take(i as int) + remove_first_caption(s.skip(i as int)) =~= s.take(
                    i as int + 1,
                ) + remove_first_caption(s.skip(i as int + 1)));
            }
            i += 1;
        }
        proof {
            assert(s.skip(n as int) =~= Seq::<Child>::empty());
            assert(s.take(n as int) + remove_first_caption(s.skip(n as int)) =~= s);
        }
        None
    }

    /// The first caption-kind child, in document order, when one is there.
    #[allow(non_snake_case)]
    pub fn GetCaption(&self) -> (r: Option<Child>)
        ensures
            r == first_caption(self.children()),
    {
        match self.find_caption_index() {
            Option::Some(i) => Some(self.children[i]),
            Option::None => None,
        }
    }

    /// Removes the current caption, when there is one, then installs the
    /// new caption, when one is given, as the first child. The attribute
    /// state is untouched.
    #[allow(non_snake_case)]
    pub fn SetCaption(&mut self, new_caption: Option<Child>)
        requires
            old(self).wf(),
            new_caption matches Some(c) ==> c.kind == ChildKind::Caption
                && c.id < old(self).next_id(),
        ensures
            final(self).wf(),
            HTMLTableElement::same_attributes(*old(self), *final(self)),
            final(self).next_id() == old(self).next_id(),
            final(self).children() == match new_caption {
                Option::Some(c) => seq![c] + remove_first_caption(old(self).children()),
                Option::None => remove_first_caption(old(self).children()),
            },
    {
        let ghost s0 = self.children@;
        match self.find_caption_index() {
            Option::Some(i) => {
                self.children.remove(i);
                proof {
                    assert(self.children@ =~= s0.take(i as int) + s0.skip(i as int + 1));
                    assert(forall|j: int|
                        0 <= j < self.children@.len() ==> #[trigger] self.children@[j].id
                            < self.next_id);
                }
            },
            Option::None => {},
        }
        let ghost s1 = self.children@;
        if let Some(c) = new_caption {
            self.children.insert(0, c);
            proof {
                assert(self.children@ =~= seq![c] + s1);
                assert(forall|j: int|
                    0 <= j < self.children@.len() ==> #[trigger] self.children@[j].id
                        < self.next_id);
            }
        }
    }

    /// Returns the existing caption, or builds a fresh one and installs it
    /// as the first child. Afterwards the first caption is the returned
    /// child either way.
    #[allow(non_snake_case)]
    pub fn CreateCaption(&mut self) -> (c: Child)
        requires
            old(self).wf(),
            old(self).next_id() < u64::MAX,
        ensures
            final(self).wf(),
            HTMLTableElement::same_attributes(*old(self), *final(self)),
            c.kind == ChildKind::Caption,
            first_caption(final(self).children()) == Some(c),
            match first_caption(old(self).children()) {
                Option::Some(c0) => c == c0 && final(self).children() == old(self).children()
                    && final(self).next_id() == old(self).next_id(),
                Option::None => c == (Child { id: old(self).next_id(), kind: ChildKind::Caption })
                    && final(self).children() == seq![c] + old(self).children()
                    && final(self).next_id() == old(self).next_id() + 1,
            },
    {
        match self.find_caption_index() {
            Option::Some(i) => self.children[i],
            Option::None => {
                proof {
                    lemma_no_caption_remove(self.children@);
                }
                let c = Child { id: self.next_id, kind: ChildKind::Caption };
                self.next_id = self.next_id + 1;
                self.SetCaption(Some(c));
                proof {
                    assert((seq![c] + remove_first_caption(old(self).children()))[0] == c);
                }
                c
            },
        }
    }

    /// Removes the current caption; does nothing when there is none. The
    /// attribute state is untouched.
    #[allow(non_snake_case)]
    pub fn DeleteCaption(&mut self)
        requires
            old(self).wf(),
        ensures
            final(self).wf(),
            HTMLTableElement::same_attributes(*old(self), *final(self)),
            final(self).next_id() == old(self).next_id(),
            final(self).children() == remove_first_caption(old(self).children()),
    {
        let ghost s0 = self.children@;
        match self.find_caption_index() {
            Option::Some(i) => {
                self.children.remove(i);
                proof {
                    assert(self.children@ =~= s0.take(i as int) + s0.skip(i as int + 1));
                    assert(forall|j: int|
                        0 <= j < self.children@.len() ==> #[trigger] self.children@[j].id
                            < self.next_id);
                }
            },
            Option::None => {},
        }
    }

    /// Builds a fresh section child and inserts it right after the last
    /// section child, scanning from the end, or at the end of the list when
    /// there is none; no other child moves relative to another.
    #[allow(non_snake_case)]
    pub fn CreateTBody(&mut self) -> (c: Child)
        requires
            old(self).wf(),
            old(self).next_id() < u64::MAX,
        ensures
            final(self).wf(),
            HTMLTableElement::same_attributes(*old(self), *final(self)),
            c == (Child { id: old(self).next_id(), kind: ChildKind::Section }),
            final(self).next_id() == old(self).next_id() + 1,
            final(self).children() == old(self).children().insert(
                tbody_insert_pos(old(self).children()),
                c,
            ),
            forall|i: int|
                0 <= i < old(self).children().len() ==> old(self).children()[i].id != c.id,
    {
        let c = Child { id: self.next_id, kind: ChildKind::Section };
        self.next_id = self.next_id + 1;
        let ghost s = self.children@;
        let n = self.children.len();
        let mut i = n;
        proof {
            assert(s.take(n as int) =~= s);
        }
        while i > 0 && self.children[i - 1].kind != ChildKind::Section
            invariant
                i <= n,
                n == s.len(),
                s == self.children@,
                last_section_end(s) == last_section_end(s.take(i as int)),
            decreases i,
        {
            proof {
                assert(s.take(i as int).last() == s[i as int - 1]);
                assert(s.take(i as int).drop_last() =~= s.take(i as int - 1));
            }
            i -= 1;
        }
        let pos = if i == 0 {
            proof {
                assert(s.take(0) =~= Seq::<Child>::empty());
            }
            n
        } else {
            proof {
                assert(s.take(i as int).last() == s[i as int - 1]);
            }
            i
        };
        self.children.insert(pos, c);
        proof {
            assert(self.children@ =~= s.take(pos as int) + seq![c] + s.skip(pos as int));
            assert(forall|j: int|
                0 <= j < self.children@.len() ==> #[trigger] self.children@[j].id < self.next_id);
        }
        c
    }

    /// How many direct children the node has.
    pub fn child_count(&self) -> (n: usize)
        ensures
            n == self.children().len(),
    {
        self.children.len()
    }

    /// The direct child at a position, in document order.
    pub fn child_at(&self, i: usize) -> (c: Child)
        requires
            i < self.children().len(),
        ensures
            c == self.children()[i as int],
    {
        self.children[i]
    }

    /// The surrounding tree's generic append: a child of any kind placed at
    /// the end, as markup processing does. The structural rules impose
    /// nothing here.
    pub fn append_child(&mut self, kind: ChildKind) -> (c: Child)
        requires
            old(self).wf(),
            old(self).next_id() < u64::MAX,
        ensures
            final(self).wf(),
            HTMLTableElement::same_attributes(*old(self), *final(self)),
            c == (Child { id: old(self).next_id(), kind }),
            final(self).children() == old(self).children().push(c),
            final(self).next_id() == old(self).next_id() + 1,
    {
        let c = Child { id: self.next_id, kind };
        self.next_id = self.next_id + 1;
        self.children.push(c);
        proof {
            assert(forall|j: int|
                0 <= j < self.children@.len() ==> #[trigger] self.children@[j].id < self.next_id);
        }
        c
    }
}

/// A list whose first caption is absent is left as it is by the removal,
/// and holds no caption at all.
pub proof fn lemma_no_caption_remove(s: Seq<Child>)
    requires
        first_caption(s) is None,
    ensures
        remove_first_caption(s) == s,
        no_caption(s),
    decreases s.len(),
{
    if s.len() > 0 {
        lemma_no_caption_remove(s.drop_first());
        assert(seq![s[0]] + s.drop_first() =~= s);
        assert forall|i: int| 0 <= i < s.len() implies s[i].kind != ChildKind::Caption by {
            if i > 0 {
                assert(s.drop_first()[i - 1] == s[i]);
            }
        }
    }
}

/// Removing the first caption from a list with at most one caption leaves a
/// list with none.
pub proof fn lemma_remove_first_caption_removes_all(s: Seq<Child>)
    requires
        at_most_one_caption(s),
    ensures
        no_caption(remove_first_caption(s)),
    decreases s.len(),
{
    if s.len() == 0 {
    } else if s[0].kind == ChildKind::Caption {
        assert forall|i: int|
            0 <= i < s.drop_first().len() implies s.drop_first()[i].kind
            != ChildKind::Caption by {
            assert(s.drop_first()[i] == s[i + 1]);
        }
    } else {
        assert(at_most_one_caption(s.drop_first())) by {
            assert forall|i: int, j: int|
                0 <= i < j < s.drop_first().len() && s.drop_first()[i].kind
                    == ChildKind::Caption implies s.drop_first()[j].kind != ChildKind::Caption by {
                assert(s.drop_first()[i] == s[i + 1]);
                assert(s.drop_first()[j] == s[j + 1]);
            }
        }
        lemma_remove_first_caption_removes_all(s.drop_first());
        let r = seq![s[0]] + remove_first_caption(s.drop_first());
        assert forall|i: int| 0 <= i < r.len() implies r[i].kind != ChildKind::Caption by {
            if i > 0 {
                assert(r[i] == remove_first_caption(s.drop_first())[i - 1]);
            }
        }
    }
}

/// Setting a caption on a list that satisfies the caption-singleton
/// invariant keeps it: the removal leaves no caption, and prepending one
/// caption-kind child gives exactly one.
pub proof fn lemma_set_caption_singleton(s: Seq<Child>, c: Child)
    requires
        at_most_one_caption(s),
        c.kind == ChildKind::Caption,
    ensures
        at_most_one_caption(remove_first_caption(s)),
        at_most_one_caption(seq![c] + remove_first_caption(s)),
{
    lemma_remove_first_caption_removes_all(s);
    let r = remove_first_caption(s);
    let w = seq![c] + r;
    assert forall|i: int, j: int|
        0 <= i < j < w.len() && w[i].kind == ChildKind::Caption implies w[j].kind
        != ChildKind::Caption by {
        assert(w[j] == r[j - 1]);
    }
}

/// Inserting a child that is not caption-kind anywhere in the list keeps
/// the caption-singleton invariant.
pub proof fn lemma_insert_non_caption_singleton(s: Seq<Child>, p: int, c: Child)
    requires
        at_most_one_caption(s),
        0 <= p <= s.len(),
        c.kind != ChildKind::Caption,
    ensures
        at_most_one_caption(s.insert(p, c)),
{
    let w = s.insert(p, c);
    assert(w =~= s.take(p) + seq![c] + s.skip(p));
    assert forall|i: int, j: int|
        0 <= i < j < w.len() && w[i].kind == ChildKind::Caption implies w[j].kind
        != ChildKind::Caption by {
        let i0 = if i < p {
            i
        } else {
            i - 1
        };
        let j0 = if j < p {
            j
        } else {
            j - 1
        };
        assert(i != p && w[i] == s[i0]);
        if j != p {
            assert(w[j] == s[j0]);
            assert(i0 < j0);
        }
    }
}

/// Where the section-creation operation inserts: always past every section
/// child, right after the last one when there is any, and at the very end
/// when there is none.
pub proof fn lemma_tbody_insert_pos(s: Seq<Child>)
    ensures
        0 <= tbody_insert_pos(s) <= s.len(),
        forall|j: int| tbody_insert_pos(s) <= j < s.len() ==> s[j].kind != ChildKind::Section,
        last_section_end(s) is Some ==> tbody_insert_pos(s) > 0 && s[tbody_insert_pos(s)
            - 1].kind == ChildKind::Section,
        last_section_end(s) is None ==> tbody_insert_pos(s) == s.len() && (forall|i: int|
            0 <= i < s.len() ==> s[i].kind != ChildKind::Section),
    decreases s.len(),
{
    if s.len() == 0 {
    } else if s.last().kind == ChildKind::Section {
    } else {
        lemma_tbody_insert_pos(s.drop_last());
        assert forall|j: int|
            tbody_insert_pos(s) <= j < s.len() implies s[j].kind != ChildKind::Section by {
            if j < s.len() - 1 {
                assert(s.drop_last()[j] == s[j]);
            }
        }
        if last_section_end(s) is None {
            assert forall|i: int| 0 <= i < s.len() implies s[i].kind != ChildKind::Section by {
                if i < s.len() - 1 {
                    assert(s.drop_last()[i] == s[i]);
                }
            }
        }
    }
}

/// A list with no caption-kind child has no first caption.
pub proof fn lemma_no_caption_first(s: Seq<Child>)
    requires
        no_caption(s),
    ensures
        first_caption(s) is None,
    decreases s.len(),
{
    if s.len() > 0 {
        assert forall|i: int|
            0 <= i < s.drop_first().len() implies s.drop_first()[i].kind
            != ChildKind::Caption by {
            assert(s.drop_first()[i] == s[i + 1]);
        }
        lemma_no_caption_first(s.drop_first());
    }
}

/// What the caption getter sees right after a caption is set on a list that
/// satisfies the caption-singleton invariant: the new caption when one was
/// given, nothing when none was.
pub proof fn lemma_set_caption_get(s: Seq<Child>, c: Child)
    requires
        at_most_one_caption(s),
        c.kind == ChildKind::Caption,
    ensures
        first_caption(seq![c] + remove_first_caption(s)) == Some(c),
        first_caption(remove_first_caption(s)) is None,
{
    lemma_remove_first_caption_removes_all(s);
    lemma_no_caption_first(remove_first_caption(s));
    let w = seq![c] + remove_first_caption(s);
    assert(w[0] == c);
}

/// After a section child is appended, the next section insertion point is
/// the new end of the list: repeated creations append in call order.
pub proof fn lemma_tbody_pos_after_push(s: Seq<Child>, c: Child)
    requires
        c.kind == ChildKind::Section,
    ensures
        tbody_insert_pos(s.push(c)) == s.len() + 1,
{
    assert(s.push(c).last() == c);
}

/// Read-only access for the render path: the three cached scalars
/// verbatim, and the width hint computed on demand from attribute storage.
pub trait HTMLTableElementLayoutHelpers {
    /// The background color this view reads.
    spec fn spec_background_color(&self) -> Option<Rgba>;

    /// The border width this view reads.
    spec fn spec_border(&self) -> Option<u32>;

    /// The cell spacing this view reads.
    spec fn spec_cellspacing(&self) -> Option<u32>;

    /// The width hint this view reads.
    spec fn spec_width(&self) -> DimView;

    /// The cached background color, without recomputation.
    fn get_background_color(&self) -> (r: Option<Rgba>)
        ensures
            r == self.spec_background_color(),
    ;

    /// The cached border width, without recomputation.
    fn get_border(&self) -> (r: Option<u32>)
        ensures
            r == self.spec_border(),
    ;

    /// The cached cell spacing, without recomputation.
    fn get_cellspacing(&self) -> (r: Option<u32>)
        ensures
            r == self.spec_cellspacing(),
    ;

    /// The width hint, read from the stored typed value on demand:
    /// automatic unless the width attribute holds a dimension.
    fn get_width(&self) -> (r: LengthOrPercentageOrAuto)
        ensures
            r@ == self.spec_width(),
    ;
}

impl HTMLTableElementLayoutHelpers for HTMLTableElement {
    open spec fn spec_background_color(&self) -> Option<Rgba> {
        self.cached_background_color()
    }

    open spec fn spec_border(&self) -> Option<u32> {
        self.cached_border()
    }

    open spec fn spec_cellspacing(&self) -> Option<u32> {
        self.cached_cellspacing()
    }

    open spec fn spec_width(&self) -> DimView {
        self.width_value()
    }

    fn get_background_color(&self) -> (r: Option<Rgba>) {
        self.background_color
    }

    fn get_border(&self) -> (r: Option<u32>) {
        self.border
    }

    fn get_cellspacing(&self) -> (r: Option<u32>) {
        self.cellspacing
    }

    fn get_width(&self) -> (r: LengthOrPercentageOrAuto) {
        match &self.attr_width {
            Option::Some(AttrValue::Dimension(_, d)) => d.duplicate(),
            _ => LengthOrPercentageOrAuto::Auto,
        }
    }
}

} // verus!
