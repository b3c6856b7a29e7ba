//! The attribute names this node owns, the typed values its attribute
//! storage keeps, and the pure derivations that turn a raw attribute value
//! into a cached scalar.

use vstd::prelude::*;
use crate::dimension::{DimView, LengthOrPercentageOrAuto, spec_parse_nonzero_length};
use crate::strutil::{parse_unsigned_integer, spec_parse_unsigned};

verus! {

/// The attribute names with local behaviour on this node; every other name
/// is handled by the ancestor chain alone.
#[derive(Clone, Copy, PartialEq, Eq, Structural, Debug)]
pub enum AttrName {
    BgColor,
    Border,
    CellSpacing,
    Width,
}

/// Mathematical model of a typed attribute value.
pub enum AttrValueView {
    Str(Seq<char>),
    UInt(Seq<char>, u32),
    Dimension(Seq<char>, DimView),
}

impl AttrValueView {
    /// The raw string the value was materialized from.
    pub open spec fn raw(self) -> Seq<char> {
        match self {
            AttrValueView::Str(s) => s,
            AttrValueView::UInt(s, _) => s,
            AttrValueView::Dimension(s, _) => s,
        }
    }
}

/// A typed attribute value: the raw string as written, together with the
/// parsed form chosen when the attribute was first materialized.
#[derive(Debug)]
pub enum AttrValue {
    Str(String),
    UInt(String, u32),
    Dimension(String, LengthOrPercentageOrAuto),
}

impl View for AttrValue {
    type V = AttrValueView;

    open spec fn view(&self) -> AttrValueView {
        match self {
            AttrValue::Str(s) => AttrValueView::Str(s@),
            AttrValue::UInt(s, n) => AttrValueView::UInt(s@, *n),
            AttrValue::Dimension(s, d) => AttrValueView::Dimension(s@, d@),
        }
    }
}

impl AttrValue {
    /// The raw string the value was materialized from.
    pub fn raw_str(&self) -> (r: &String)
        ensures
            r@ == self@.raw(),
    {
        match self {
            AttrValue::Str(s) => s,
            AttrValue::UInt(s, _) => s,
            AttrValue::Dimension(s, _) => s,
        }
    }
}

/// The border derivation of a present raw value: the leading unsigned
/// integer, or the legacy fallback of one when the parse fails.
pub open spec fn spec_border_value(s: Seq<char>) -> u32 {
    match spec_parse_unsigned(s) {
        Option::Some(n) => n,
        Option::None => 1u32,
    }
}

/// The border derivation of an optional raw attribute value: absence gives
/// no width, presence always gives one (falling back to one pixel).
pub open spec fn spec_derive_border(v: Option<Seq<char>>) -> Option<u32> {
    match v {
        Option::None => Option::None,
        Option::Some(s) => Option::Some(spec_border_value(s)),
    }
}

/// The cell-spacing derivation of an optional raw attribute value: absence
/// or an unparsable value gives no spacing; there is no fallback.
pub open spec fn spec_derive_cellspacing(v: Option<Seq<char>>) -> Option<u32> {
    match v {
        Option::None => Option::None,
        Option::Some(s) => spec_parse_unsigned(s),
    }
}

/// Derives the cached border width from the raw attribute value, or from
/// its absence.
pub fn derive_border(v: Option<&str>) -> (r: Option<u32>)
    ensures
        r == spec_derive_border(
            match v {
                Option::Some(s) => Option::Some(s@),
                Option::None => Option::None,
            },
        ),
{
    match v {
        Option::Some(s) => {
            match parse_unsigned_integer(s) {
                Option::Some(n) => Option::Some(n),
                Option::None => Option::Some(1),
            }
        },
        Option::None => Option::None,
    }
}

/// Derives the cached cell spacing from the raw attribute value, or from
/// its absence.
pub fn derive_cellspacing(v: Option<&str>) -> (r: Option<u32>)
    ensures
        r == spec_derive_cellspacing(
            match v {
                Option::Some(s) => Option::Some(s@),
                Option::None => Option::None,
            },
        ),
{
    match v {
        Option::Some(s) => parse_unsigned_integer(s),
        Option::None => Option::None,
    }
}

/// The border derivation in every case: absence gives no width, and that is
/// the only way to get none; a present value whose leading-integer parse
/// fails gives the fallback of one; a present value that parses gives
/// exactly the parsed number.
pub proof fn lemma_border_derivation(v: Option<Seq<char>>)
    ensures
        spec_derive_border(v) is None <==> v is None,
        (v matches Some(s) && spec_parse_unsigned(s) is None) ==> spec_derive_border(v) == Some(
            1u32,
        ),
        v matches Some(s) ==> (spec_parse_unsigned(s) matches Some(n) ==> spec_derive_border(v)
            == Some(n)),
{
}

/// On values that do not themselves parse to one, the border fallback of
/// one is returned if and only if a value is present and its
/// leading-integer parse fails.
pub proof fn lemma_border_fallback_iff(v: Option<Seq<char>>)
    requires
        v matches Some(s) ==> spec_parse_unsigned(s) != Some(1u32),
    ensures
        spec_derive_border(v) == Some(1u32) <==> (v matches Some(s) && spec_parse_unsigned(
            s,
        ) is None),
{
}

/// The typed value an attribute takes when it is first materialized: the
/// border attribute parses to an unsigned integer with a fallback of one,
/// the width attribute to a nonzero dimension, every other name stays a
/// plain string (as the ancestor chain's hook leaves it).
pub open spec fn spec_parse_plain(name: AttrName, s: Seq<char>) -> AttrValueView {
    match name {
        AttrName::Border => AttrValueView::UInt(s, spec_border_value(s)),
        AttrName::Width => AttrValueView::Dimension(s, spec_parse_nonzero_length(s)),
        _ => AttrValueView::Str(s),
    }
}

} // verus!
