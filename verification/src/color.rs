//! Legacy HTML color handling: the `Rgba` scalar consumed by the render
//! path, and the derivation of a color from a raw attribute string.
//!
//! A raw value is accepted when it is a CSS named color, a `#` followed by
//! three hexadecimal digits, or a string of hexadecimal digits with an
//! optional leading `#`; anything else (after the empty string and the word
//! `transparent` are rejected) is treated as "no color". Accepted hex
//! strings are cut to 128 characters, padded with zeros to a length
//! divisible by three, split into three equal components, each reduced to
//! its last eight characters, stripped of shared leading zeros down to two
//! characters, and read as two (or one) hexadecimal digits per channel.

use vstd::prelude::*;
use crate::strutil::{chars_of, html_space, is_html_space, skip_spaces, space_prefix_len};

verus! {

/// An opaque legacy color; legacy attribute colors never carry transparency.
#[derive(Clone, Copy, PartialEq, Eq, Structural, Debug)]
pub struct Rgba {
    pub red: u8,
    pub green: u8,
    pub blue: u8,
}

impl Rgba {
    /// Builds a color from its three channels.
    pub fn new(red: u8, green: u8, blue: u8) -> (c: Rgba)
        ensures
            c == (Rgba { red, green, blue }),
    {
        Rgba { red, green, blue }
    }
}

/// ASCII hexadecimal digit.
pub open spec fn is_hex_digit(c: char) -> bool {
    ('0' as int <= c as int && c as int <= '9' as int) || ('a' as int <= c as int && c as int
        <= 'f' as int) || ('A' as int <= c as int && c as int <= 'F' as int)
}

/// Numeric value of a hexadecimal digit.
pub open spec fn hex_digit_val(c: char) -> int {
    if '0' as int <= c as int && c as int <= '9' as int {
        c as int - '0' as int
    } else if 'a' as int <= c as int && c as int <= 'f' as int {
        c as int - 'a' as int + 10
    } else {
        c as int - 'A' as int + 10
    }
}

/// Executable mirror of `is_hex_digit`.
pub fn hex_digit(c: char) -> (r: bool)
    ensures
        r == is_hex_digit(c),
{
    let u = c as u32;
    (48 <= u && u <= 57) || (97 <= u && u <= 102) || (65 <= u && u <= 70)
}

/// Executable mirror of `hex_digit_val`.
fn hex_val(c: char) -> (r: u8)
    requires
        is_hex_digit(c),
    ensures
        r as int == hex_digit_val(c),
        r <= 15,
{
    let u = c as u32;
    if 48 <= u && u <= 57 {
        (u - 48) as u8
    } else if 97 <= u && u <= 102 {
        (u - 97 + 10) as u8
    } else {
        (u - 65 + 10) as u8
    }
}

/// Length of the longest suffix made of HTML space characters.
pub open spec fn space_suffix_len(s: Seq<char>) -> nat
    decreases s.len(),
{
    if s.len() == 0 {
        0
    } else if is_html_space(s.last()) {
        (1 + space_suffix_len(s.drop_last())) as nat
    } else {
        0
    }
}

/// `s` without its leading and trailing HTML whitespace.
pub open spec fn trim_spaces(s: Seq<char>) -> Seq<char> {
    let rest = s.skip(space_prefix_len(s) as int);
    rest.take(rest.len() - space_suffix_len(rest))
}

/// Code point of `c` with an ASCII capital letter folded to lower case.
pub open spec fn ascii_lower_code(c: char) -> int {
    if 'A' as int <= c as int && c as int <= 'Z' as int {
        c as int + 32
    } else {
        c as int
    }
}

/// Executable mirror of `ascii_lower_code`.
fn lower_code(c: char) -> (r: u32)
    ensures
        r as int == ascii_lower_code(c),
{
    let u = c as u32;
    if 65 <= u && u <= 90 {
        u + 32
    } else {
        u
    }
}

/// Whether `s` spells `transparent`, ASCII case-insensitively.
pub open spec fn is_transparent_kw(s: Seq<char>) -> bool {
    s.len() == 11 && ascii_lower_code(s[0]) == 't' as int && ascii_lower_code(s[1]) == 'r' as int
        && ascii_lower_code(s[2]) == 'a' as int && ascii_lower_code(s[3]) == 'n' as int
        && ascii_lower_code(s[4]) == 's' as int && ascii_lower_code(s[5]) == 'p' as int
        && ascii_lower_code(s[6]) == 'a' as int && ascii_lower_code(s[7]) == 'r' as int
        && ascii_lower_code(s[8]) == 'e' as int && ascii_lower_code(s[9]) == 'n' as int
        && ascii_lower_code(s[10]) == 't' as int
}

/// The red, green and blue channels that the CSS named-color table gives to
/// a name, or nothing for a name outside the table (or for its one entry
/// that is not a plain color).
pub uninterp spec fn color_keyword_of(s: Seq<char>) -> Option<(u8, u8, u8)>;

/// Relies on `cssparser::parse_color_keyword`: the CSS named-color table,
/// matched ASCII case-insensitively. The result depends on the characters
/// of the name alone.
#[verifier::external_body]
fn lookup_color_keyword(s: &str) -> (r: Option<Rgba>)
    ensures
        r is Some <==> color_keyword_of(s@) is Some,
        r matches Some(c) ==> color_keyword_of(s@) == Some((c.red, c.green, c.blue)),
{
    match cssparser::parse_color_keyword(s) {
        Ok(cssparser::Color::RGBA(c)) => Some(Rgba { red: c.red, green: c.green, blue: c.blue }),
        _ => None,
    }
}

/// Whether every character of `s` is a hexadecimal digit.
pub open spec fn all_hex(s: Seq<char>) -> bool {
    forall|j: int| 0 <= j < s.len() ==> is_hex_digit(s[j])
}

/// Length of `s` once padded with zeros to a nonzero multiple of three.
pub open spec fn pad_len(n: nat) -> nat {
    if n == 0 {
        3
    } else if n % 3 == 0 {
        n
    } else {
        (n + (3 - n % 3)) as nat
    }
}

/// `s` padded with trailing zeros to a nonzero multiple of three.
pub open spec fn padded(s: Seq<char>) -> Seq<char> {
    s + Seq::new((pad_len(s.len()) - s.len()) as nat, |i: int| '0')
}

/// How many shared leading zeros the three components lose, stopping once
/// only two characters are left.
pub open spec fn comp_strip_count(r: Seq<char>, g: Seq<char>, b: Seq<char>) -> nat
    decreases r.len(),
{
    if r.len() > 2 && r.len() == g.len() && g.len() == b.len() && r[0] == '0' && g[0] == '0'
        && b[0] == '0' {
        (1 + comp_strip_count(r.drop_first(), g.drop_first(), b.drop_first())) as nat
    } else {
        0
    }
}

/// Channel value of a component: its first two hexadecimal digits, or its
/// only one.
pub open spec fn comp_val(s: Seq<char>) -> int {
    if s.len() == 1 {
        hex_digit_val(s[0])
    } else {
        16 * hex_digit_val(s[0]) + hex_digit_val(s[1])
    }
}

/// The color read out of a string of hexadecimal digits (already cut to at
/// most 128 characters): pad, split into three components, keep the last
/// eight characters of each, strip shared leading zeros, and read each
/// component as a channel.
pub open spec fn hex_color(u: Seq<char>) -> Rgba {
    let p = padded(u);
    let l = p.len() as int / 3;
    let cut = if l > 8 {
        l - 8
    } else {
        0
    };
    let r1 = p.subrange(cut, l);
    let g1 = p.subrange(l + cut, 2 * l);
    let b1 = p.subrange(2 * l + cut, 3 * l);
    let k = comp_strip_count(r1, g1, b1) as int;
    Rgba {
        red: comp_val(r1.skip(k)) as u8,
        green: comp_val(g1.skip(k)) as u8,
        blue: comp_val(b1.skip(k)) as u8,
    }
}

/// The legacy color derivation of a raw attribute string: the empty string
/// and `transparent` give no color; a CSS color name gives its table entry;
/// `#` with three hexadecimal digits gives seventeen times each digit per
/// channel; any other string of hexadecimal digits, with an optional
/// leading `#`, is read by `hex_color`; anything else gives no color.
pub open spec fn spec_legacy_color(s: Seq<char>) -> Option<Rgba> {
    if s.len() == 0 {
        None
    } else {
        let t = trim_spaces(s);
        if is_transparent_kw(t) {
            None
        } else if color_keyword_of(t) is Some {
            let k = color_keyword_of(t)->0;
            Some(Rgba { red: k.0, green: k.1, blue: k.2 })
        } else if t.len() == 4 && t[0] == '#' && is_hex_digit(t[1]) && is_hex_digit(t[2])
            && is_hex_digit(t[3]) {
            Some(
                Rgba {
                    red: (17 * hex_digit_val(t[1])) as u8,
                    green: (17 * hex_digit_val(t[2])) as u8,
                    blue: (17 * hex_digit_val(t[3])) as u8,
                },
            )
        } else {
            let u = if t.len() > 0 && t[0] == '#' {
                t.drop_first()
            } else {
                t
            };
            if all_hex(u) {
                let w = if u.len() > 128 {
                    u.take(128)
                } else {
                    u
                };
                Some(hex_color(w))
            } else {
                None
            }
        }
    }
}

/// Whether `v[a..e]` spells `transparent`, ASCII case-insensitively.
fn is_transparent_range(v: &Vec<char>, a: usize, e: usize) -> (r: bool)
    requires
        a <= e <= v@.len(),
    ensures
        r == is_transparent_kw(v@.subrange(a as int, e as int)),
{
    proof {
        assert(v@.subrange(a as int, e as int).len() == e - a);
    }
    if e - a != 11 {
        return false;
    }
    let ghost t = v@.subrange(a as int, e as int);
    proof {
        assert(forall|j: int| 0 <= j < 11 ==> t[j] == v@[a + j]);
    }
    lower_code(v[a]) == 't' as u32 && lower_code(v[a + 1]) == 'r' as u32 && lower_code(v[a + 2])
        == 'a' as u32 && lower_code(v[a + 3]) == 'n' as u32 && lower_code(v[a + 4]) == 's' as u32
        && lower_code(v[a + 5]) == 'p' as u32 && lower_code(v[a + 6]) == 'a' as u32 && lower_code(
        v[a + 7],
    ) == 'r' as u32 && lower_code(v[a + 8]) == 'e' as u32 && lower_code(v[a + 9]) == 'n' as u32
        && lower_code(v[a + 10]) == 't' as u32
}

/// Bounds of the trimmed region of `v`: the indices that cut away leading
/// and trailing HTML whitespace.
fn trim_range(v: &Vec<char>) -> (r: (usize, usize))
    ensures
        r.0 <= r.1 <= v@.len(),
        trim_spaces(v@) == v@.subrange(r.0 as int, r.1 as int),
{
    let n = v.len();
    let a = skip_spaces(v, 0);
    proof {
        assert(v@.skip(0) =~= v@);
    }
    let ghost rest = v@.skip(a as int);
    let mut e = n;
    proof {
        assert(rest.take(n - a) =~= rest);
    }
    while e > a && html_space(v[e - 1])
        invariant
            a <= e <= n,
            n == v@.len(),
            rest == v@.skip(a as int),
            space_suffix_len(rest) == (n - e) + space_suffix_len(rest.take(e - a)),
        decreases e,
    {
        proof {
            assert(rest.take(e - a).last() == v@[e - 1]);
            assert(rest.take(e - a).drop_last() =~= rest.take(e - 1 - a));
        }
        e -= 1;
    }
    proof {
        if e > a {
            assert(rest.take(e - a).last() == v@[e - 1]);
            assert(space_suffix_len(rest.take(e - a)) == 0);
        } else {
            assert(rest.take(0) =~= Seq::<char>::empty());
        }
        assert(space_suffix_len(rest) == n - e);
        assert(trim_spaces(v@) =~= v@.subrange(a as int, e as int));
    }
    (a, e)
}

/// Parses a raw attribute string as a legacy color, as `spec_legacy_color`
/// describes.
#[verifier::rlimit(30)]
#[verifier::loop_isolation(false)]
pub fn parse_legacy_color(s: &str) -> (r: Option<Rgba>)
    ensures
        r == spec_legacy_color(s@),
{
    let v = chars_of(s);
    let n = v.len();
    if n == 0 {
        return None;
    }
    let bounds = trim_range(&v);
    let a = bounds.0;
    let e = bounds.1;
    let ghost t = trim_spaces(v@);
    proof {
        assert(t.len() == e - a);
        assert(forall|q: int| 0 <= q < t.len() ==> t[q] == v@[a + q]);
    }
    if is_transparent_range(&v, a, e) {
        return None;
    }
    let tstr = s.substring_char(a, e);
    if let Some(c) = lookup_color_keyword(tstr) {
        return Some(c);
    }
    if e - a == 4 && v[a] == '#' && hex_digit(v[a + 1]) && hex_digit(v[a + 2]) && hex_digit(
        v[a + 3],
    ) {
        let red = 17 * hex_val(v[a + 1]);
        let green = 17 * hex_val(v[a + 2]);
        let blue = 17 * hex_val(v[a + 3]);
        return Some(Rgba { red, green, blue });
    }
    let mut b0 = a;
    if a < e && v[a] == '#' {
        b0 = a + 1;
    }
    let ghost u = if t.len() > 0 && t[0] == '#' {
        t.drop_first()
    } else {
        t
    };
    proof {
        assert(u =~= v@.subrange(b0 as int, e as int));
    }
    let mut j = b0;
    while j < e
        invariant
            b0 <= j <= e <= n,
            n == v@.len(),
            u == v@.subrange(b0 as int, e as int),
            forall|q: int| 0 <= q < j - b0 ==> is_hex_digit(u[q]),
        decreases e - j,
    {
        if !hex_digit(v[j]) {
            proof {
                assert(u[j - b0] == v@[j as int]);
                assert(!all_hex(u));
            }
            return None;
        }
        j += 1;
    }
    proof {
        assert(all_hex(u));
    }
    let mut w_end = e;
    if e - b0 > 128 {
        w_end = b0 + 128;
    }
    let ghost w = if u.len() > 128 {
        u.take(128)
    } else {
        u
    };
    proof {
        assert(w =~= v@.subrange(b0 as int, w_end as int));
        assert(forall|q: int| 0 <= q < w.len() ==> is_hex_digit(w[q]));
    }
    Some(hex_color_exec(&v, b0, w_end))
}

/// Copies the hexadecimal digits `v[b0..e]` and pads them with zeros to a
/// nonzero length divisible by three.
fn build_padded(v: &Vec<char>, b0: usize, e: usize) -> (p: Vec<char>)
    requires
        b0 <= e <= v@.len(),
        e - b0 <= 128,
        forall|q: int| 0 <= q < e - b0 ==> is_hex_digit(v@.subrange(b0 as int, e as int)[q]),
    ensures
        p@ == padded(v@.subrange(b0 as int, e as int)),
        p@.len() == pad_len((e - b0) as nat),
        p@.len() % 3 == 0,
        3 <= p@.len() <= 129,
        forall|q: int| 0 <= q < p@.len() ==> is_hex_digit(p@[q]),
{
    let ghost w = v@.subrange(b0 as int, e as int);
    let m = e - b0;
    let mut p: Vec<char> = Vec::new();
    let mut j = b0;
    while j < e
        invariant
            b0 <= j <= e <= v@.len(),
            w == v@.subrange(b0 as int, e as int),
            p@ == w.take(j - b0),
        decreases e - j,
    {
        p.push(v[j]);
        proof {
            assert(p@ =~= w.take(j + 1 - b0));
        }
        j += 1;
    }
    proof {
        assert(w.take(m as int) =~= w);
    }
    let target: usize = if m == 0 {
        3
    } else if m % 3 == 0 {
        m
    } else {
        m + (3 - m % 3)
    };
    proof {
        assert(target == pad_len(w.len()));
    }
    while p.len() < target
        invariant
            m <= p@.len() <= target,
            target == pad_len(w.len()),
            m == w.len(),
            p@ == w + Seq::new((p@.len() - m) as nat, |i: int| '0'),
        decreases target - p@.len(),
    {
        p.push('0');
        proof {
            assert(p@ =~= w + Seq::new((p@.len() - m) as nat, |i: int| '0'));
        }
    }
    proof {
        assert(p@ =~= padded(w));
        assert(forall|q: int| 0 <= q < p@.len() ==> is_hex_digit(p@[q])) by {
            assert(forall|q: int| 0 <= q < w.len() ==> is_hex_digit(#[trigger] p@[q]));
            assert(forall|q: int|
                w.len() <= q < p@.len() ==> #[trigger] p@[q] == '0' && is_hex_digit('0'));
        }
    }
    p
}

/// Reads a channel triple out of the hexadecimal digits `v[b0..e]`,
/// as `hex_color` describes.
#[verifier::rlimit(30)]
fn hex_color_exec(v: &Vec<char>, b0: usize, e: usize) -> (c: Rgba)
    requires
        b0 <= e <= v@.len(),
        e - b0 <= 128,
        forall|q: int| 0 <= q < e - b0 ==> is_hex_digit(v@.subrange(b0 as int, e as int)[q]),
    ensures
        c == hex_color(v@.subrange(b0 as int, e as int)),
{
    let ghost w = v@.subrange(b0 as int, e as int);
    let p = build_padded(v, b0, e);
    let ghost pd = padded(w);
    let l = p.len() / 3;
    proof {
        assert(3 * (p@.len() as int / 3) == p@.len() as int) by {
            assert(p@.len() as int % 3 == 0);
        }
        assert(1 <= l <= 43);
    }
    let cut: usize = if l > 8 {
        l - 8
    } else {
        0
    };
    let cl = l - cut;
    let ghost r1 = pd.subrange(cut as int, l as int);
    let ghost g1 = pd.subrange(l as int + cut as int, 2 * l as int);
    let ghost b1 = pd.subrange(2 * l as int + cut as int, 3 * l as int);
    proof {
        assert(r1.len() == cl && g1.len() == cl && b1.len() == cl);
    }
    let mut k: usize = 0;
    proof {
        assert(r1.skip(0) =~= r1);
        assert(g1.skip(0) =~= g1);
        assert(b1.skip(0) =~= b1);
    }
    while cl - k > 2 && p[cut + k] == '0' && p[l + cut + k] == '0' && p[2 * l + cut + k] == '0'
        invariant
            0 <= k <= cl,
            cl > 2 ==> k <= cl - 2,
            cl <= 2 ==> k == 0,
            cl == l - cut,
            cut + 8 >= l,
            1 <= l <= 43,
            cut < l,
            3 * l == pd.len(),
            p@ == pd,
            r1 == pd.subrange(cut as int, l as int),
            g1 == pd.subrange(l as int + cut as int, 2 * l as int),
            b1 == pd.subrange(2 * l as int + cut as int, 3 * l as int),
            comp_strip_count(r1, g1, b1) == k + comp_strip_count(
                r1.skip(k as int),
                g1.skip(k as int),
                b1.skip(k as int),
            ),
        decreases cl - k,
    {
        proof {
            assert(r1.skip(k as int)[0] == pd[cut + k]);
            assert(g1.skip(k as int)[0] == pd[l + cut + k]);
            assert(b1.skip(k as int)[0] == pd[2 * l + cut + k]);
            assert(r1.skip(k as int).drop_first() =~= r1.skip(k as int + 1));
            assert(g1.skip(k as int).drop_first() =~= g1.skip(k as int + 1));
            assert(b1.skip(k as int).drop_first() =~= b1.skip(k as int + 1));
        }
        k += 1;
    }
    proof {
        if cl - k > 2 {
            assert(r1.skip(k as int)[0] == pd[cut + k]);
            assert(g1.skip(k as int)[0] == pd[l + cut + k]);
            assert(b1.skip(k as int)[0] == pd[2 * l + cut + k]);
        }
        assert(comp_strip_count(r1.skip(k as int), g1.skip(k as int), b1.skip(k as int)) == 0);
        assert(comp_strip_count(r1, g1, b1) == k);
        assert(r1.skip(k as int) =~= pd.subrange(cut + k, cut + k + (cl - k)));
        assert(g1.skip(k as int) =~= pd.subrange(l + cut + k, l + cut + k + (cl - k)));
        assert(b1.skip(k as int) =~= pd.subrange(
            2 * l + cut + k,
            2 * l + cut + k + (cl - k),
        ));
    }
    let red = comp_val_exec(&p, cut + k, cl - k);
    let green = comp_val_exec(&p, l + cut + k, cl - k);
    let blue = comp_val_exec(&p, 2 * l + cut + k, cl - k);
    proof {
        assert(red as int == comp_val(r1.skip(k as int)));
        assert(green as int == comp_val(g1.skip(k as int)));
        assert(blue as int == comp_val(b1.skip(k as int)));
    }
    Rgba { red, green, blue }
}

/// Reads the channel value of the component of `len` characters starting at
/// `at` in `p`.
fn comp_val_exec(p: &Vec<char>, at: usize, len: usize) -> (r: u8)
    requires
        1 <= len,
        at + len <= p@.len(),
        forall|q: int| 0 <= q < p@.len() ==> is_hex_digit(p@[q]),
    ensures
        r as int == comp_val(p@.subrange(at as int, at as int + len as int)),
{
    let ghost s = p@.subrange(at as int, at as int + len as int);
    let pn = p.len();
    proof {
        assert(at + len <= pn);
        assert(s[0] == p@[at as int]);
    }
    if len == 1 {
        hex_val(p[at])
    } else {
        proof {
            assert(s[1] == p@[at + 1]);
        }
        16 * hex_val(p[at]) + hex_val(p[at + 1])
    }
}

/// The color derivation of an optional raw attribute value: absent or
/// unparsable values give no color.
pub open spec fn spec_derive_color(v: Option<Seq<char>>) -> Option<Rgba> {
    match v {
        Option::None => Option::None,
        Option::Some(s) => spec_legacy_color(s),
    }
}

/// Derives the cached background color from the raw attribute value, or
/// from its absence.
pub fn derive_background_color(v: Option<&str>) -> (r: Option<Rgba>)
    ensures
        r == spec_derive_color(
            match v {
                Option::Some(s) => Option::Some(s@),
                Option::None => Option::None,
            },
        ),
{
    match v {
        Option::Some(s) => parse_legacy_color(s),
        Option::None => Option::None,
    }
}

} // verus!
