//! Dimension values for the width attribute. The numeric part of a
//! dimension is kept as its exact decimal text (digits with at most one
//! dot); the render path converts it to whatever numeric form it needs.

use vstd::prelude::*;
use crate::strutil::{
    chars_of, dec_digit, is_dec_digit, skip_spaces, space_prefix_len,
};

verus! {

/// Mathematical model of a dimension value.
pub enum DimView {
    Auto,
    Length(Seq<char>),
    Percentage(Seq<char>),
}

/// A parsed dimension: automatic, an absolute length, or a percentage.
/// The payload is the decimal text of the number.
#[derive(Debug)]
pub enum LengthOrPercentageOrAuto {
    Auto,
    Length(String),
    Percentage(String),
}

impl View for LengthOrPercentageOrAuto {
    type V = DimView;

    open spec fn view(&self) -> DimView {
        match self {
            LengthOrPercentageOrAuto::Auto => DimView::Auto,
            LengthOrPercentageOrAuto::Length(p) => DimView::Length(p@),
            LengthOrPercentageOrAuto::Percentage(p) => DimView::Percentage(p@),
        }
    }
}

impl LengthOrPercentageOrAuto {
    /// A copy with the same view.
    pub fn duplicate(&self) -> (r: LengthOrPercentageOrAuto)
        ensures
            r@ == self@,
    {
        match self {
            LengthOrPercentageOrAuto::Auto => LengthOrPercentageOrAuto::Auto,
            LengthOrPercentageOrAuto::Length(p) => LengthOrPercentageOrAuto::Length(p.clone()),
            LengthOrPercentageOrAuto::Percentage(p) => LengthOrPercentageOrAuto::Percentage(
                p.clone(),
            ),
        }
    }
}

/// Length of the longest prefix that reads as a decimal number: digits with
/// at most one dot (`seen_dot` records whether a dot was already read).
pub open spec fn num_prefix_len(s: Seq<char>, seen_dot: bool) -> nat
    decreases s.len(),
{
    if s.len() == 0 {
        0
    } else if is_dec_digit(s[0]) {
        (1 + num_prefix_len(s.drop_first(), seen_dot)) as nat
    } else if s[0] == '.' && !seen_dot {
        (1 + num_prefix_len(s.drop_first(), true)) as nat
    } else {
        0
    }
}

/// Whether some character of `s` is a decimal digit.
pub open spec fn has_dec_digit(s: Seq<char>) -> bool {
    exists|j: int| 0 <= j < s.len() && is_dec_digit(s[j])
}

/// Whether some character of `s` is a digit other than zero.
pub open spec fn has_nonzero_digit(s: Seq<char>) -> bool {
    exists|j: int| 0 <= j < s.len() && is_dec_digit(s[j]) && s[j] != '0'
}

/// The dimension parse of an attribute string: skip HTML whitespace, allow
/// one leading plus sign, read the longest digits-with-one-dot prefix; a
/// following percent sign makes it a percentage. A prefix without a digit
/// gives `Auto`.
pub open spec fn spec_parse_length(s: Seq<char>) -> DimView {
    let t = s.skip(space_prefix_len(s) as int);
    if t.len() == 0 {
        DimView::Auto
    } else {
        let u = if t[0] == '+' {
            t.drop_first()
        } else {
            t
        };
        let e = num_prefix_len(u, false) as int;
        let p = u.take(e);
        if !has_dec_digit(p) {
            DimView::Auto
        } else if e < u.len() && u[e] == '%' {
            DimView::Percentage(p)
        } else {
            DimView::Length(p)
        }
    }
}

/// The dimension parse used when a zero value is as good as absent:
/// a number with no nonzero digit collapses to `Auto`.
pub open spec fn spec_parse_nonzero_length(s: Seq<char>) -> DimView {
    match spec_parse_length(s) {
        DimView::Auto => DimView::Auto,
        DimView::Length(p) => if has_nonzero_digit(p) {
            DimView::Length(p)
        } else {
            DimView::Auto
        },
        DimView::Percentage(p) => if has_nonzero_digit(p) {
            DimView::Percentage(p)
        } else {
            DimView::Auto
        },
    }
}

/// Whether some character of the string is a digit other than zero.
fn has_nonzero_digit_str(s: &str) -> (r: bool)
    ensures
        r == has_nonzero_digit(s@),
{
    let v = chars_of(s);
    let n = v.len();
    let mut k: usize = 0;
    let mut found = false;
    while k < n
        invariant
            k <= n,
            n == v@.len(),
            v@ == s@,
            found <==> exists|j: int|
                0 <= j < k && is_dec_digit(s@[j]) && s@[j] != '0',
        decreases n - k,
    {
        if dec_digit(v[k]) && v[k] != '0' {
            found = true;
        }
        k += 1;
    }
    found
}

/// Parses a dimension out of an attribute string, as `spec_parse_length`
/// describes.
pub fn parse_length(s: &str) -> (r: LengthOrPercentageOrAuto)
    ensures
        r@ == spec_parse_length(s@),
{
    let v = chars_of(s);
    let n = v.len();
    let a = skip_spaces(&v, 0);
    proof {
        assert(v@.skip(0) =~= v@);
    }
    let ghost t = v@.skip(a as int);
    if a == n {
        proof {
            assert(t =~= Seq::<char>::empty());
        }
        return LengthOrPercentageOrAuto::Auto;
    }
    let mut b = a;
    if v[b] == '+' {
        b += 1;
        proof {
            assert(t.drop_first() =~= v@.skip(b as int));
        }
    }
    let ghost u = if t[0] == '+' {
        t.drop_first()
    } else {
        t
    };
    proof {
        assert(u == v@.skip(b as int));
    }
    let mut i = b;
    let mut dot = false;
    while i < n && (dec_digit(v[i]) || (v[i] == '.' && !dot))
        invariant
            b <= i <= n,
            n == v@.len(),
            u == v@.skip(b as int),
            num_prefix_len(u, false) == (i - b) + num_prefix_len(v@.skip(i as int), dot),
        decreases n - i,
    {
        proof {
            assert(v@.skip(i as int).drop_first() =~= v@.skip(i as int + 1));
        }
        if v[i] == '.' {
            dot = true;
        }
        i += 1;
    }
    proof {
        if i < n {
            assert(num_prefix_len(v@.skip(i as int), dot) == 0);
        } else {
            assert(v@.skip(i as int) =~= Seq::<char>::empty());
        }
        assert(num_prefix_len(u, false) == i - b);
    }
    let ghost p = u.take(i - b);
    proof {
        assert(p =~= v@.subrange(b as int, i as int));
    }
    let mut k = b;
    let mut has_digit = false;
    while k < i
        invariant
            b <= k <= i <= n,
            n == v@.len(),
            has_digit <==> exists|j: int| b <= j < k && is_dec_digit(v@[j]),
        decreases i - k,
    {
        if dec_digit(v[k]) {
            has_digit = true;
        }
        k += 1;
    }
    proof {
        if has_digit {
            let j = choose|j: int| b <= j < i && is_dec_digit(v@[j]);
            assert(p[j - b] == v@[j]);
            assert(has_dec_digit(p));
        }
        if has_dec_digit(p) {
            let j = choose|j: int| 0 <= j < p.len() && is_dec_digit(p[j]);
            assert(p[j] == v@[b + j]);
        }
    }
    if !has_digit {
        return LengthOrPercentageOrAuto::Auto;
    }
    let text = s.substring_char(b, i).to_owned();
    if i < n && v[i] == '%' {
        proof {
            assert(u[i - b] == v@[i as int]);
        }
        LengthOrPercentageOrAuto::Percentage(text)
    } else {
        LengthOrPercentageOrAuto::Length(text)
    }
}

/// Parses a dimension, collapsing a zero value to `Auto`, as
/// `spec_parse_nonzero_length` describes.
pub fn parse_nonzero_length(s: &str) -> (r: LengthOrPercentageOrAuto)
    ensures
        r@ == spec_parse_nonzero_length(s@),
{
    let d = parse_length(s);
    match d {
        LengthOrPercentageOrAuto::Auto => LengthOrPercentageOrAuto::Auto,
        LengthOrPercentageOrAuto::Length(p) => {
            if has_nonzero_digit_str(p.as_str()) {
                LengthOrPercentageOrAuto::Length(p)
            } else {
                LengthOrPercentageOrAuto::Auto
            }
        },
        LengthOrPercentageOrAuto::Percentage(p) => {
            if has_nonzero_digit_str(p.as_str()) {
                LengthOrPercentageOrAuto::Percentage(p)
            } else {
                LengthOrPercentageOrAuto::Auto
            }
        },
    }
}

} // verus!
