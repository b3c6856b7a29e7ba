//! Character-level parsing rules shared by the attribute derivations:
//! HTML whitespace, decimal digits, and the leading-unsigned-integer parse.

use vstd::prelude::*;

verus! {

/// The five HTML space characters.
pub open spec fn is_html_space(c: char) -> bool {
    c == ' ' || c == '\t' || c == '\n' || c == '\u{c}' || c == '\r'
}

/// Executable mirror of `is_html_space`.
pub fn html_space(c: char) -> (r: bool)
    ensures
        r == is_html_space(c),
{
    c == ' ' || c == '\t' || c == '\n' || c == '\u{c}' || c == '\r'
}

/// ASCII decimal digit.
pub open spec fn is_dec_digit(c: char) -> bool {
    '0' as int <= c as int && c as int <= '9' as int
}

/// Executable mirror of `is_dec_digit`.
pub fn dec_digit(c: char) -> (r: bool)
    ensures
        r == is_dec_digit(c),
{
    let u = c as u32;
    48 <= u && u <= 57
}

/// Numeric value of a decimal digit.
pub open spec fn dec_digit_val(c: char) -> int {
    c as int - '0' as int
}

/// Length of the longest prefix made of HTML space characters.
pub open spec fn space_prefix_len(s: Seq<char>) -> nat
    decreases s.len(),
{
    if s.len() == 0 {
        0
    } else if is_html_space(s[0]) {
        (1 + space_prefix_len(s.drop_first())) as nat
    } else {
        0
    }
}

/// Length of the longest prefix made of decimal digits.
pub open spec fn digit_prefix_len(s: Seq<char>) -> nat
    decreases s.len(),
{
    if s.len() == 0 {
        0
    } else if is_dec_digit(s[0]) {
        (1 + digit_prefix_len(s.drop_first())) as nat
    } else {
        0
    }
}

/// Value of a sequence of decimal digits, most significant first.
pub open spec fn dec_value(s: Seq<char>) -> int
    decreases s.len(),
{
    if s.len() == 0 {
        0
    } else {
        dec_value(s.drop_last()) * 10 + dec_digit_val(s.last())
    }
}

/// What remains of `t` after an optional single leading sign.
pub open spec fn after_sign(t: Seq<char>) -> Seq<char> {
    if t.len() > 0 && (t[0] == '+' || t[0] == '-') {
        t.drop_first()
    } else {
        t
    }
}

/// Whether `t` starts with a minus sign.
pub open spec fn has_neg_sign(t: Seq<char>) -> bool {
    t.len() > 0 && t[0] == '-'
}

/// The leading-unsigned-integer parse of an attribute string: skip HTML
/// whitespace, allow one sign, then read the decimal digit prefix; anything
/// after the digits is ignored. The parse fails when no digit follows, when
/// the value does not fit in 32 bits, or when a nonzero value is negated.
pub open spec fn spec_parse_unsigned(s: Seq<char>) -> Option<u32> {
    let t = s.skip(space_prefix_len(s) as int);
    let u = after_sign(t);
    let d = digit_prefix_len(u) as int;
    if d == 0 {
        None
    } else {
        let v = dec_value(u.take(d));
        if has_neg_sign(t) {
            if v == 0 {
                Some(0u32)
            } else {
                None
            }
        } else if v > u32::MAX as int {
            None
        } else {
            Some(v as u32)
        }
    }
}

/// Copies the characters of a string into a vector, in order.
pub fn chars_of(s: &str) -> (v: Vec<char>)
    ensures
        v@ == s@,
{
    let n = s.unicode_len();
    let mut v: Vec<char> = Vec::new();
    let mut i: usize = 0;
    while i < n
        invariant
            i <= n,
            n == s@.len(),
            v@ == s@.take(i as int),
        decreases n - i,
    {
        let c = s.get_char(i);
        v.push(c);
        proof {
            assert(v@ =~= s@.take(i as int + 1));
        }
        i += 1;
    }
    proof {
        assert(s@.take(n as int) =~= s@);
    }
    v
}

/// Index of the first character of `v` at or past `from` that is not HTML
/// whitespace, or the length when all of them are.
pub fn skip_spaces(v: &Vec<char>, from: usize) -> (i: usize)
    requires
        from <= v@.len(),
    ensures
        from <= i <= v@.len(),
        space_prefix_len(v@.skip(from as int)) == i - from,
{
    let n = v.len();
    let mut i: usize = from;
    while i < n && html_space(v[i])
        invariant
            from <= i <= n,
            n == v@.len(),
            space_prefix_len(v@.skip(from as int)) == (i - from)
                + space_prefix_len(v@.skip(i as int)),
        decreases n - i,
    {
        proof {
            assert(v@.skip(i as int).drop_first() =~= v@.skip(i as int + 1));
        }
        i += 1;
    }
    proof {
        if i < n {
            assert(space_prefix_len(v@.skip(i as int)) == 0);
        } else {
            assert(v@.skip(i as int) =~= Seq::<char>::empty());
        }
    }
    i
}

/// Parses a leading unsigned integer out of the characters of `v`,
/// as `spec_parse_unsigned` describes.
pub fn parse_unsigned_chars(v: &Vec<char>) -> (r: Option<u32>)
    ensures
        r == spec_parse_unsigned(v@),
{
    let n = v.len();
    let start_ws = skip_spaces(v, 0);
    proof {
        assert(v@.skip(0) =~= v@);
    }
    let ghost t = v@.skip(start_ws as int);
    let mut i = start_ws;
    let mut neg = false;
    if i < n && (v[i] == '+' || v[i] == '-') {
        neg = v[i] == '-';
        i += 1;
        proof {
            assert(t.drop_first() =~= v@.skip(i as int));
        }
    }
    let start = i;
    let ghost u = after_sign(t);
    proof {
        assert(u =~= v@.skip(start as int));
        assert(has_neg_sign(t) == neg);
    }
    let mut val: u64 = 0;
    let mut over = false;
    while i < n && dec_digit(v[i])
        invariant
            start <= i <= n,
            n == v@.len(),
            u == v@.skip(start as int),
            digit_prefix_len(u) == (i - start) + digit_prefix_len(v@.skip(i as int)),
            forall|j: int| 0 <= j < i - start ==> is_dec_digit(u[j]),
            !over ==> val as int == dec_value(u.take(i - start)) && val <= u32::MAX as u64,
            over ==> dec_value(u.take(i - start)) > u32::MAX as int,
        decreases n - i,
    {
        let d = (v[i] as u32) - 48;
        let ghost p = u.take(i - start);
        let ghost p2 = u.take(i + 1 - start);
        proof {
            assert(v@.skip(i as int).drop_first() =~= v@.skip(i as int + 1));
            assert(u[i - start] == v@[i as int]);
            assert(p2.drop_last() =~= p);
            assert(p2.last() == u[i - start]);
            assert(dec_value(p2) == dec_value(p) * 10 + dec_digit_val(u[i - start]));
        }
        if !over {
            let next = val * 10 + (d as u64);
            if next <= u32::MAX as u64 {
                val = next;
            } else {
                over = true;
            }
        } else {
            proof {
                assert(dec_value(p) * 10 > u32::MAX as int * 10);
            }
        }
        i += 1;
    }
    proof {
        if i < n {
            assert(digit_prefix_len(v@.skip(i as int)) == 0);
        } else {
            assert(v@.skip(i as int) =~= Seq::<char>::empty());
        }
        assert(digit_prefix_len(u) == i - start);
    }
    if i == start {
        None
    } else if neg {
        if !over && val == 0 {
            Some(0)
        } else {
            None
        }
    } else if over {
        None
    } else {
        Some(val as u32)
    }
}

/// Parses a leading unsigned integer out of an attribute string.
pub fn parse_unsigned_integer(s: &str) -> (r: Option<u32>)
    ensures
        r == spec_parse_unsigned(s@),
{
    let v = chars_of(s);
    parse_unsigned_chars(&v)
}

} // verus!
