//! The wire format of the fetched resource.
//!
//! The resource arrives as one JSON object,
//! `{id, name, data: {year, price, "CPU model", "Hard disk size"}}`, whose
//! inner member names deviate from conventional casing and are mapped
//! explicitly to the record's field names. The grammar accepted here is
//! JSON as the object needs it: members in any order, whitespace between
//! tokens, string values with the JSON escapes (surrogate pairs
//! included) and without raw control characters, numbers with an
//! optional fraction and exponent and no leading zero, and members with
//! unknown names holding any JSON value, which is skipped. A missing or
//! repeated required member, or one of the wrong type, fails the whole
//! parse: no partial record is ever produced.
//!
//! The spec functions `sp_*` state the grammar directly over `Seq<char>`;
//! each executable parsing function is proved to return exactly what they
//! say. The `price` field is carried as the number's own text, unaltered.

use vstd::prelude::*;

verus! {

/// A whitespace character between tokens.
pub open spec fn is_ws(c: char) -> bool {
    c == ' ' || c == '\n' || c == '\t' || c == '\r'
}

/// A decimal digit.
pub open spec fn is_digit(c: char) -> bool {
    '0' <= c && c <= '9'
}

/// The first position at or after `i` that does not hold whitespace.
pub open spec fn sp_ws(s: Seq<char>, i: int) -> int
    decreases s.len() - i,
{
    if 0 <= i && i < s.len() && is_ws(s[i]) {
        sp_ws(s, i + 1)
    } else {
        i
    }
}

/// The first position at or after `i` that does not hold a digit.
pub open spec fn sp_digits_end(s: Seq<char>, i: int) -> int
    decreases s.len() - i,
{
    if 0 <= i && i < s.len() && is_digit(s[i]) {
        sp_digits_end(s, i + 1)
    } else {
        i
    }
}

/// A raw control character, which JSON forbids inside a string.
pub open spec fn is_control(c: char) -> bool {
    (c as u32) < 32
}

/// A hexadecimal digit.
pub open spec fn is_hex(c: char) -> bool {
    ('0' <= c && c <= '9') || ('a' <= c && c <= 'f') || ('A' <= c && c <= 'F')
}

/// The value of a hexadecimal digit.
pub open spec fn hex_val(c: char) -> int {
    if '0' <= c && c <= '9' {
        c as int - 48
    } else if 'a' <= c && c <= 'f' {
        c as int - 87
    } else {
        c as int - 55
    }
}

/// Whether four hexadecimal digits stand at `i`.
pub open spec fn hex4_ok(s: Seq<char>, i: int) -> bool {
    &&& i + 4 <= s.len()
    &&& is_hex(s[i])
    &&& is_hex(s[i + 1])
    &&& is_hex(s[i + 2])
    &&& is_hex(s[i + 3])
}

/// The code unit four hexadecimal digits at `i` denote.
pub open spec fn hex4_val(s: Seq<char>, i: int) -> int {
    hex_val(s[i]) * 4096 + hex_val(s[i + 1]) * 256 + hex_val(s[i + 2]) * 16 + hex_val(s[i + 3])
}

/// The character a short escape denotes, if the character after the
/// backslash is one.
pub open spec fn short_escape(c: char) -> Option<char> {
    if c == '"' {
        Some('"')
    } else if c == '\\' {
        Some('\\')
    } else if c == '/' {
        Some('/')
    } else if c == 'b' {
        Some('\u{8}')
    } else if c == 'f' {
        Some('\u{c}')
    } else if c == 'n' {
        Some('\n')
    } else if c == 'r' {
        Some('\r')
    } else if c == 't' {
        Some('\t')
    } else {
        None
    }
}

/// The text of a string value read from after its opening quote up to
/// and over its closing quote, with the position after that quote. The
/// JSON escapes are decoded, a `\uXXXX` high surrogate must pair with a
/// following low one, and a raw control character fails the parse.
pub open spec fn sp_string_body(s: Seq<char>, i: int) -> Option<(Seq<char>, int)>
    decreases s.len() - i,
{
    if i < 0 || i >= s.len() {
        None
    } else if s[i] == '"' {
        Some((Seq::empty(), i + 1))
    } else if s[i] == '\\' {
        if i + 2 > s.len() {
            None
        } else if short_escape(s[i + 1]) is Some {
            match sp_string_body(s, i + 2) {
                Some(p) => Some((seq![short_escape(s[i + 1]).unwrap()].add(p.0), p.1)),
                None => None,
            }
        } else if s[i + 1] == 'u' {
            if !hex4_ok(s, i + 2) {
                None
            } else {
                let w = hex4_val(s, i + 2);
                if 0xD800 <= w < 0xDC00 {
                    if i + 12 <= s.len() && s[i + 6] == '\\' && s[i + 7] == 'u' && hex4_ok(
                        s,
                        i + 8,
                    ) && 0xDC00 <= hex4_val(s, i + 8) < 0xE000 {
                        let code = 0x10000 + (w - 0xD800) * 1024 + (hex4_val(s, i + 8) - 0xDC00);
                        match sp_string_body(s, i + 12) {
                            Some(p) => Some((seq![((code as u32) as char)].add(p.0), p.1)),
                            None => None,
                        }
                    } else {
                        None
                    }
                } else if 0xDC00 <= w < 0xE000 {
                    None
                } else {
                    match sp_string_body(s, i + 6) {
                        Some(p) => Some((seq![((w as u32) as char)].add(p.0), p.1)),
                        None => None,
                    }
                }
            }
        } else {
            None
        }
    } else if is_control(s[i]) {
        None
    } else {
        match sp_string_body(s, i + 1) {
            Some(p) => Some((seq![s[i]].add(p.0), p.1)),
            None => None,
        }
    }
}

/// A whole string value at `i`: a quote, its text, a quote.
pub open spec fn sp_string(s: Seq<char>, i: int) -> Option<(Seq<char>, int)> {
    if 0 <= i && i < s.len() && s[i] == '"' {
        sp_string_body(s, i + 1)
    } else {
        None
    }
}

/// The exponent part of a number whose digits end at `m`, if one
/// stands there, and the number's whole text from `i`.
pub open spec fn sp_number_exp(s: Seq<char>, i: int, m: int) -> Option<(Seq<char>, int)> {
    if m < s.len() && (s[m] == 'e' || s[m] == 'E') {
        let x = if m + 1 < s.len() && (s[m + 1] == '+' || s[m + 1] == '-') {
            m + 2
        } else {
            m + 1
        };
        let e = sp_digits_end(s, x);
        if e == x {
            None
        } else {
            Some((s.subrange(i, e), e))
        }
    } else {
        Some((s.subrange(i, m), m))
    }
}

/// A number value at `i`, as JSON has it: an optional minus, an integer
/// part without a leading zero, an optional fraction, an optional
/// exponent. The result is the number's text, exactly as it stands.
pub open spec fn sp_number(s: Seq<char>, i: int) -> Option<(Seq<char>, int)> {
    if i < 0 {
        None
    } else {
        let j = if i < s.len() && s[i] == '-' {
            i + 1
        } else {
            i
        };
        if !(j < s.len() && is_digit(s[j])) {
            None
        } else {
            let k = if s[j] == '0' {
                j + 1
            } else {
                sp_digits_end(s, j)
            };
            if k < s.len() && s[k] == '.' {
                let m = sp_digits_end(s, k + 1);
                if m == k + 1 {
                    None
                } else {
                    sp_number_exp(s, i, m)
                }
            } else {
                sp_number_exp(s, i, k)
            }
        }
    }
}

/// Skips one JSON value of any kind, for members the record does not
/// bind: a string, a number, an object, an array, or a literal.
pub open spec fn sp_skip_value(s: Seq<char>, i: int) -> Option<int>
    decreases s.len() - i, 0int,
{
    if i < 0 || i >= s.len() {
        None
    } else if s[i] == '"' {
        match sp_string(s, i) {
            Some(p) => Some(p.1),
            None => None,
        }
    } else if s[i] == '-' || is_digit(s[i]) {
        match sp_number(s, i) {
            Some(p) => Some(p.1),
            None => None,
        }
    } else if s[i] == '{' {
        let j = sp_ws(s, i + 1);
        if j < s.len() && s[j] == '}' {
            Some(j + 1)
        } else {
            sp_skip_members(s, i + 1)
        }
    } else if s[i] == '[' {
        let j = sp_ws(s, i + 1);
        if j < s.len() && s[j] == ']' {
            Some(j + 1)
        } else {
            sp_skip_elements(s, i + 1)
        }
    } else if s[i] == 't' {
        if i + 4 <= s.len() && s[i + 1] == 'r' && s[i + 2] == 'u' && s[i + 3] == 'e' {
            Some(i + 4)
        } else {
            None
        }
    } else if s[i] == 'f' {
        if i + 5 <= s.len() && s[i + 1] == 'a' && s[i + 2] == 'l' && s[i + 3] == 's' && s[i + 4]
            == 'e' {
            Some(i + 5)
        } else {
            None
        }
    } else if s[i] == 'n' {
        if i + 4 <= s.len() && s[i + 1] == 'u' && s[i + 2] == 'l' && s[i + 3] == 'l' {
            Some(i + 4)
        } else {
            None
        }
    } else {
        None
    }
}

/// Skips the members of an object being skipped, from after its opening
/// brace (or after a comma), up to and over its closing brace.
pub open spec fn sp_skip_members(s: Seq<char>, i: int) -> Option<int>
    decreases s.len() - i, 1int,
{
    let i0 = sp_ws(s, i);
    match sp_string(s, i0) {
        None => None,
        Some(kp) => {
            let j1 = sp_ws(s, kp.1);
            if !(j1 < s.len() && s[j1] == ':') {
                None
            } else {
                let j2 = sp_ws(s, j1 + 1);
                // a member always advances the position;
                // the test keeps the recursion well-founded
                if !(i < j2 <= s.len()) {
                    None
                } else {
                    match sp_skip_value(s, j2) {
                        None => None,
                        Some(e) => {
                            let j3 = sp_ws(s, e);
                            if j3 < s.len() && s[j3] == ',' {
                                if i < j3 + 1 <= s.len() {
                                    sp_skip_members(s, j3 + 1)
                                } else {
                                    None
                                }
                            } else if j3 < s.len() && s[j3] == '}' {
                                Some(j3 + 1)
                            } else {
                                None
                            }
                        },
                    }
                }
            }
        },
    }
}

/// Skips the elements of an array being skipped, from after its opening
/// bracket (or after a comma), up to and over its closing bracket.
pub open spec fn sp_skip_elements(s: Seq<char>, i: int) -> Option<int>
    decreases s.len() - i, 1int,
{
    let j = sp_ws(s, i);
    // an element always advances the position;
    // the test keeps the recursion well-founded
    if !(i <= j <= s.len()) {
        None
    } else {
        match sp_skip_value(s, j) {
            None => None,
            Some(e) => {
                let j3 = sp_ws(s, e);
                if j3 < s.len() && s[j3] == ',' {
                    if i < j3 + 1 <= s.len() {
                        sp_skip_elements(s, j3 + 1)
                    } else {
                        None
                    }
                } else if j3 < s.len() && s[j3] == ']' {
                    Some(j3 + 1)
                } else {
                    None
                }
            },
        }
    }
}

/// A member value as the binder sees it: the decoded text of a string,
/// the text of a number, or anything else, which only a member the
/// record does not bind may hold.
pub enum MemberV {
    S(Seq<char>),
    N(Seq<char>),
    X,
}

/// A member value at `i`, told apart by its first character; a value
/// that is neither a string nor a number is skipped whole.
pub open spec fn sp_member(s: Seq<char>, i: int) -> Option<(MemberV, int)> {
    if 0 <= i && i < s.len() && s[i] == '"' {
        match sp_string(s, i) {
            Some(p) => Some((MemberV::S(p.0), p.1)),
            None => None,
        }
    } else if 0 <= i && i < s.len() && (s[i] == '-' || is_digit(s[i])) {
        match sp_number(s, i) {
            Some(p) => Some((MemberV::N(p.0), p.1)),
            None => None,
        }
    } else {
        match sp_skip_value(s, i) {
            Some(e) => Some((MemberV::X, e)),
            None => None,
        }
    }
}

/// Whether `c` is a decimal digit.
fn digit_q(c: char) -> (b: bool)
    ensures
        b == is_digit(c),
{
    '0' <= c && c <= '9'
}

/// Skips whitespace, to the position `sp_ws` states.
fn skip_ws(s: &Vec<char>, i: usize) -> (j: usize)
    requires
        i <= s.len(),
    ensures
        j == sp_ws(s@, i as int),
        i <= j <= s.len(),
    decreases s.len() - i,
{
    if i < s.len() && { let c = s[i]; c == ' ' || c == '\n' || c == '\t' || c == '\r' } {
        skip_ws(s, i + 1)
    } else {
        i
    }
}

/// Skips digits, to the position `sp_digits_end` states.
fn skip_digits(s: &Vec<char>, i: usize) -> (j: usize)
    requires
        i <= s.len(),
    ensures
        j == sp_digits_end(s@, i as int),
        i <= j <= s.len(),
    decreases s.len() - i,
{
    if i < s.len() && digit_q(s[i]) {
        skip_digits(s, i + 1)
    } else {
        i
    }
}

/// The characters of `s` from `a` up to `b`.
fn copy_range(s: &Vec<char>, a: usize, b: usize) -> (v: Vec<char>)
    requires
        a <= b <= s.len(),
    ensures
        v@ == s@.subrange(a as int, b as int),
{
    let mut v: Vec<char> = Vec::new();
    let mut i: usize = a;
    while i < b
        invariant
            a <= i <= b <= s.len(),
            v@ == s@.subrange(a as int, i as int),
        decreases b - i,
    {
        v.push(s[i]);
        i = i + 1;
        proof {
            assert(v@ =~= s@.subrange(a as int, i as int));
        }
    }
    v
}

/// Relies on std's `char::from_u32`: a code point converts exactly when
/// it is a Unicode scalar value, to the character with that value.
pub assume_specification[ char::from_u32 ](u: u32) -> (r: Option<char>)
    ensures
        r is Some <==> (u < 0xD800 || (0xE000 <= u && u <= 0x10FFFF)),
        r is Some ==> r.unwrap() as u32 == u,
;

/// Whether `c` is a hexadecimal digit.
fn hex_q(c: char) -> (b: bool)
    ensures
        b == is_hex(c),
{
    ('0' <= c && c <= '9') || ('a' <= c && c <= 'f') || ('A' <= c && c <= 'F')
}

/// The value of a hexadecimal digit, as `hex_val` states it.
fn hex_v(c: char) -> (v: u32)
    requires
        is_hex(c),
    ensures
        v as int == hex_val(c),
        v < 16,
{
    let u = c as u32;
    if u >= 97 {
        u - 87
    } else if u >= 65 {
        u - 55
    } else {
        u - 48
    }
}

/// Reads a string value's text, as `sp_string_body` states it.
fn string_body(s: &Vec<char>, i: usize) -> (r: Option<(Vec<char>, usize)>)
    requires
        i <= s.len(),
    ensures
        match (r, sp_string_body(s@, i as int)) {
            (Some(p), Some(q)) => p.0@ == q.0 && p.1 as int == q.1 && i < p.1 <= s.len(),
            (None, None) => true,
            _ => false,
        },
    decreases s.len() - i,
{
    if i >= s.len() {
        return None;
    }
    let c = s[i];
    if c == '"' {
        return Some((Vec::new(), i + 1));
    }
    if c == '\\' {
        if s.len() - i < 2 {
            return None;
        }
        let e = s[i + 1];
        let short: Option<char> = if e == '"' {
            Some('"')
        } else if e == '\\' {
            Some('\\')
        } else if e == '/' {
            Some('/')
        } else if e == 'b' {
            Some('\u{8}')
        } else if e == 'f' {
            Some('\u{c}')
        } else if e == 'n' {
            Some('\n')
        } else if e == 'r' {
            Some('\r')
        } else if e == 't' {
            Some('\t')
        } else {
            None
        };
        match short {
            Some(d) => {
                match string_body(s, i + 2) {
                    Some((t, j)) => {
                        let mut t2 = t;
                        t2.insert(0, d);
                        proof {
                            assert(t2@ =~= seq![short_escape(s@[i as int + 1]).unwrap()].add(
                                sp_string_body(s@, i as int + 2).unwrap().0,
                            ));
                        }
                        Some((t2, j))
                    },
                    None => None,
                }
            },
            None => {
                if e != 'u' {
                    return None;
                }
                if s.len() - i < 6 {
                    return None;
                }
                if !(hex_q(s[i + 2]) && hex_q(s[i + 3]) && hex_q(s[i + 4]) && hex_q(s[i + 5])) {
                    return None;
                }
                let w: u32 = hex_v(s[i + 2]) * 4096 + hex_v(s[i + 3]) * 256 + hex_v(s[i + 4]) * 16
                    + hex_v(s[i + 5]);
                proof {
                    assert(w as int == hex4_val(s@, i as int + 2));
                }
                if 0xD800 <= w && w < 0xDC00 {
                    if s.len() - i < 12 {
                        return None;
                    }
                    if !(s[i + 6] == '\\' && s[i + 7] == 'u') {
                        return None;
                    }
                    if !(hex_q(s[i + 8]) && hex_q(s[i + 9]) && hex_q(s[i + 10]) && hex_q(
                        s[i + 11],
                    )) {
                        return None;
                    }
                    let w2: u32 = hex_v(s[i + 8]) * 4096 + hex_v(s[i + 9]) * 256 + hex_v(
                        s[i + 10],
                    ) * 16 + hex_v(s[i + 11]);
                    proof {
                        assert(w2 as int == hex4_val(s@, i as int + 8));
                    }
                    if !(0xDC00 <= w2 && w2 < 0xE000) {
                        return None;
                    }
                    let code: u32 = 0x10000 + (w - 0xD800) * 1024 + (w2 - 0xDC00);
                    let dopt = char::from_u32(code);
                    let d = dopt.unwrap();
                    proof {
                        vstd::utf8::char_u32_cast(d, code);
                    }
                    match string_body(s, i + 12) {
                        Some((t, j)) => {
                            let mut t2 = t;
                            t2.insert(0, d);
                            proof {
                                assert(t2@ =~= seq![d].add(
                                    sp_string_body(s@, i as int + 12).unwrap().0,
                                ));
                            }
                            Some((t2, j))
                        },
                        None => None,
                    }
                } else if 0xDC00 <= w && w < 0xE000 {
                    None
                } else {
                    let dopt = char::from_u32(w);
                    let d = dopt.unwrap();
                    proof {
                        vstd::utf8::char_u32_cast(d, w);
                    }
                    match string_body(s, i + 6) {
                        Some((t, j)) => {
                            let mut t2 = t;
                            t2.insert(0, d);
                            proof {
                                assert(t2@ =~= seq![d].add(
                                    sp_string_body(s@, i as int + 6).unwrap().0,
                                ));
                            }
                            Some((t2, j))
                        },
                        None => None,
                    }
                }
            },
        }
    } else if (c as u32) < 32 {
        None
    } else {
        match string_body(s, i + 1) {
            Some((t, j)) => {
                let mut t2 = t;
                t2.insert(0, c);
                proof {
                    assert(t2@ =~= seq![s@[i as int]].add(
                        sp_string_body(s@, i as int + 1).unwrap().0,
                    ));
                }
                Some((t2, j))
            },
            None => None,
        }
    }
}

/// Reads a whole string value, as `sp_string` states it.
fn parse_string(s: &Vec<char>, i: usize) -> (r: Option<(Vec<char>, usize)>)
    requires
        i <= s.len(),
    ensures
        match (r, sp_string(s@, i as int)) {
            (Some(p), Some(q)) => p.0@ == q.0 && p.1 as int == q.1 && i < p.1 <= s.len(),
            (None, None) => true,
            _ => false,
        },
{
    if i < s.len() && s[i] == '"' {
        string_body(s, i + 1)
    } else {
        None
    }
}

/// Reads a number's exponent part and extracts the whole text, as
/// `sp_number_exp` states it.
fn parse_number_exp(s: &Vec<char>, i: usize, m: usize) -> (r: Option<(Vec<char>, usize)>)
    requires
        i <= m <= s.len(),
    ensures
        match (r, sp_number_exp(s@, i as int, m as int)) {
            (Some(p), Some(q)) => p.0@ == q.0 && p.1 as int == q.1 && m <= p.1 <= s.len(),
            (None, None) => true,
            _ => false,
        },
{
    if m < s.len() && { let c = s[m]; c == 'e' || c == 'E' } {
        let x = if m + 1 < s.len() && { let c = s[m + 1]; c == '+' || c == '-' } {
            m + 2
        } else {
            m + 1
        };
        let e = skip_digits(s, x);
        if e == x {
            None
        } else {
            Some((copy_range(s, i, e), e))
        }
    } else {
        Some((copy_range(s, i, m), m))
    }
}

/// Reads a number's text, as `sp_number` states it.
fn parse_number(s: &Vec<char>, i: usize) -> (r: Option<(Vec<char>, usize)>)
    requires
        i <= s.len(),
    ensures
        match (r, sp_number(s@, i as int)) {
            (Some(p), Some(q)) => p.0@ == q.0 && p.1 as int == q.1 && i < p.1 <= s.len(),
            (None, None) => true,
            _ => false,
        },
{
    let j = if i < s.len() && s[i] == '-' {
        i + 1
    } else {
        i
    };
    if !(j < s.len() && digit_q(s[j])) {
        return None;
    }
    let k = if s[j] == '0' {
        j + 1
    } else {
        // the digit at `j` is part of the run, so the scan may start after it
        skip_digits(s, j + 1)
    };
    proof {
        assert(sp_digits_end(s@, j as int) == sp_digits_end(s@, j as int + 1));
    }
    if k < s.len() && s[k] == '.' {
        let m = skip_digits(s, k + 1);
        if m == k + 1 {
            None
        } else {
            parse_number_exp(s, i, m)
        }
    } else {
        parse_number_exp(s, i, k)
    }
}

/// Skips one JSON value, as `sp_skip_value` states it.
fn skip_value(s: &Vec<char>, i: usize) -> (r: Option<usize>)
    requires
        i <= s.len(),
    ensures
        match (r, sp_skip_value(s@, i as int)) {
            (Some(e), Some(se)) => e as int == se && i < e <= s.len(),
            (None, None) => true,
            _ => false,
        },
    decreases s.len() - i, 0int,
{
    if i >= s.len() {
        return None;
    }
    let c = s[i];
    if c == '"' {
        match parse_string(s, i) {
            Some((_, j)) => Some(j),
            None => None,
        }
    } else if c == '-' || digit_q(c) {
        match parse_number(s, i) {
            Some((_, j)) => Some(j),
            None => None,
        }
    } else if c == '{' {
        let j = skip_ws(s, i + 1);
        if j < s.len() && s[j] == '}' {
            Some(j + 1)
        } else {
            skip_members(s, i + 1)
        }
    } else if c == '[' {
        let j = skip_ws(s, i + 1);
        if j < s.len() && s[j] == ']' {
            Some(j + 1)
        } else {
            skip_elements(s, i + 1)
        }
    } else if c == 't' {
        if s.len() - i >= 4 && s[i + 1] == 'r' && s[i + 2] == 'u' && s[i + 3] == 'e' {
            Some(i + 4)
        } else {
            None
        }
    } else if c == 'f' {
        if s.len() - i >= 5 && s[i + 1] == 'a' && s[i + 2] == 'l' && s[i + 3] == 's' && s[i + 4]
            == 'e' {
            Some(i + 5)
        } else {
            None
        }
    } else if c == 'n' {
        if s.len() - i >= 4 && s[i + 1] == 'u' && s[i + 2] == 'l' && s[i + 3] == 'l' {
            Some(i + 4)
        } else {
            None
        }
    } else {
        None
    }
}

/// Skips an object's members, as `sp_skip_members` states them.
fn skip_members(s: &Vec<char>, i: usize) -> (r: Option<usize>)
    requires
        i <= s.len(),
    ensures
        match (r, sp_skip_members(s@, i as int)) {
            (Some(e), Some(se)) => e as int == se && i < e <= s.len(),
            (None, None) => true,
            _ => false,
        },
    decreases s.len() - i, 1int,
{
    let i0 = skip_ws(s, i);
    match parse_string(s, i0) {
        None => None,
        Some((_, j0)) => {
            let j1 = skip_ws(s, j0);
            if !(j1 < s.len() && s[j1] == ':') {
                None
            } else {
                let j2 = skip_ws(s, j1 + 1);
                match skip_value(s, j2) {
                    None => None,
                    Some(e) => {
                        let j3 = skip_ws(s, e);
                        if j3 < s.len() && s[j3] == ',' {
                            skip_members(s, j3 + 1)
                        } else if j3 < s.len() && s[j3] == '}' {
                            Some(j3 + 1)
                        } else {
                            None
                        }
                    },
                }
            }
        },
    }
}

/// Skips an array's elements, as `sp_skip_elements` states them.
fn skip_elements(s: &Vec<char>, i: usize) -> (r: Option<usize>)
    requires
        i <= s.len(),
    ensures
        match (r, sp_skip_elements(s@, i as int)) {
            (Some(e), Some(se)) => e as int == se && i < e <= s.len(),
            (None, None) => true,
            _ => false,
        },
    decreases s.len() - i, 1int,
{
    let j = skip_ws(s, i);
    match skip_value(s, j) {
        None => None,
        Some(e) => {
            let j3 = skip_ws(s, e);
            if j3 < s.len() && s[j3] == ',' {
                skip_elements(s, j3 + 1)
            } else if j3 < s.len() && s[j3] == ']' {
                Some(j3 + 1)
            } else {
                None
            }
        },
    }
}

/// An executable member value: the decoded text of a string, the text
/// of a number, or anything else, skipped.
pub enum MemberVal {
    S(Vec<char>),
    N(Vec<char>),
    X,
}

/// What a `MemberVal` stands for.
pub open spec fn member_view(v: MemberVal) -> MemberV {
    match v {
        MemberVal::S(t) => MemberV::S(t@),
        MemberVal::N(t) => MemberV::N(t@),
        MemberVal::X => MemberV::X,
    }
}

/// Reads a member value, as `sp_member` states it.
fn parse_member(s: &Vec<char>, i: usize) -> (r: Option<(MemberVal, usize)>)
    requires
        i <= s.len(),
    ensures
        match (r, sp_member(s@, i as int)) {
            (Some(p), Some(q)) => member_view(p.0) == q.0 && p.1 as int == q.1 && i < p.1 <= s.len(),
            (None, None) => true,
            _ => false,
        },
{
    if i < s.len() && s[i] == '"' {
        match parse_string(s, i) {
            Some((t, j)) => Some((MemberVal::S(t), j)),
            None => None,
        }
    } else if i < s.len() && (s[i] == '-' || digit_q(s[i])) {
        match parse_number(s, i) {
            Some((t, j)) => Some((MemberVal::N(t), j)),
            None => None,
        }
    } else {
        match skip_value(s, i) {
            Some(e) => Some((MemberVal::X, e)),
            None => None,
        }
    }
}

/// Whether the characters of `a` spell exactly `b`.
fn chars_eq_str(a: &Vec<char>, b: &str) -> (r: bool)
    ensures
        r == (a@ == b@),
{
    let n = b.unicode_len();
    if a.len() != n {
        proof {
            assert(a@ != b@);
        }
        return false;
    }
    let mut i: usize = 0;
    while i < n
        invariant
            i <= n,
            a@.len() == n,
            b@.len() == n,
            forall|t: int| 0 <= t < i ==> a@[t] == b@[t],
        decreases n - i,
    {
        if a[i] != b.get_char(i) {
            proof {
                assert(a@ != b@);
            }
            return false;
        }
        i = i + 1;
    }
    proof {
        assert(a@ =~= b@);
    }
    true
}

/// What has been read of the inner object so far: the text of each
/// required member, when it has appeared.
pub struct InnerAccV {
    pub year: Option<Seq<char>>,
    pub price: Option<Seq<char>>,
    pub cpu: Option<Seq<char>>,
    pub hard_disk: Option<Seq<char>>,
}

pub open spec fn inner_acc_empty() -> InnerAccV {
    InnerAccV { year: None, price: None, cpu: None, hard_disk: None }
}

/// Folds one inner member into the accumulator. A required member of the
/// wrong type, or one seen twice, fails; an unknown member changes
/// nothing.
pub open spec fn sp_add_inner(acc: InnerAccV, k: Seq<char>, v: MemberV) -> Option<InnerAccV> {
    if k == "year"@ {
        match v {
            MemberV::N(t) => if acc.year is Some {
                None
            } else {
                Some(InnerAccV { year: Some(t), ..acc })
            },
            _ => None,
        }
    } else if k == "price"@ {
        match v {
            MemberV::N(t) => if acc.price is Some {
                None
            } else {
                Some(InnerAccV { price: Some(t), ..acc })
            },
            _ => None,
        }
    } else if k == "CPU model"@ {
        match v {
            MemberV::S(t) => if acc.cpu is Some {
                None
            } else {
                Some(InnerAccV { cpu: Some(t), ..acc })
            },
            _ => None,
        }
    } else if k == "Hard disk size"@ {
        match v {
            MemberV::S(t) => if acc.hard_disk is Some {
                None
            } else {
                Some(InnerAccV { hard_disk: Some(t), ..acc })
            },
            _ => None,
        }
    } else {
        Some(acc)
    }
}

/// The members of the inner object from the position after its opening
/// brace (or after a comma), up to and over its closing brace.
pub open spec fn sp_inner_items(s: Seq<char>, i: int, acc: InnerAccV) -> Option<(InnerAccV, int)>
    decreases s.len() - i,
{
    let i0 = sp_ws(s, i);
    match sp_string(s, i0) {
        None => None,
        Some(kp) => {
            let j1 = sp_ws(s, kp.1);
            if !(j1 < s.len() && s[j1] == ':') {
                None
            } else {
                let j2 = sp_ws(s, j1 + 1);
                match sp_member(s, j2) {
                    None => None,
                    Some(vp) => match sp_add_inner(acc, kp.0, vp.0) {
                        None => None,
                        Some(acc2) => {
                            let j3 = sp_ws(s, vp.1);
                            if j3 < s.len() && s[j3] == ',' {
                                // a member always advances the position;
                                // the test keeps the recursion well-founded
                                if i < j3 + 1 <= s.len() {
                                    sp_inner_items(s, j3 + 1, acc2)
                                } else {
                                    None
                                }
                            } else if j3 < s.len() && s[j3] == '}' {
                                Some((acc2, j3 + 1))
                            } else {
                                None
                            }
                        },
                    },
                }
            }
        },
    }
}

/// A whole inner object at `i`: a brace, members, a brace.
pub open spec fn sp_inner_obj(s: Seq<char>, i: int) -> Option<(InnerAccV, int)> {
    if 0 <= i && i < s.len() && s[i] == '{' {
        let j = sp_ws(s, i + 1);
        if j < s.len() && s[j] == '}' {
            Some((inner_acc_empty(), j + 1))
        } else {
            sp_inner_items(s, i + 1, inner_acc_empty())
        }
    } else {
        None
    }
}

/// The executable inner accumulator.
pub struct InnerAcc {
    pub year: Option<Vec<char>>,
    pub price: Option<Vec<char>>,
    pub cpu: Option<Vec<char>>,
    pub hard_disk: Option<Vec<char>>,
}

/// What an `InnerAcc` stands for.
pub open spec fn inner_acc_view(a: InnerAcc) -> InnerAccV {
    InnerAccV {
        year: match a.year {
            Some(t) => Some(t@),
            None => None,
        },
        price: match a.price {
            Some(t) => Some(t@),
            None => None,
        },
        cpu: match a.cpu {
            Some(t) => Some(t@),
            None => None,
        },
        hard_disk: match a.hard_disk {
            Some(t) => Some(t@),
            None => None,
        },
    }
}

/// Folds one inner member, as `sp_add_inner` states it.
fn add_inner(acc: InnerAcc, k: &Vec<char>, v: MemberVal) -> (r: Option<InnerAcc>)
    ensures
        match (r, sp_add_inner(inner_acc_view(acc), k@, member_view(v))) {
            (Some(a), Some(b)) => inner_acc_view(a) == b,
            (None, None) => true,
            _ => false,
        },
{
    if chars_eq_str(k, "year") {
        match v {
            MemberVal::N(t) => if acc.year.is_some() {
                None
            } else {
                Some(InnerAcc { year: Some(t), ..acc })
            },
            _ => None,
        }
    } else if chars_eq_str(k, "price") {
        match v {
            MemberVal::N(t) => if acc.price.is_some() {
                None
            } else {
                Some(InnerAcc { price: Some(t), ..acc })
            },
            _ => None,
        }
    } else if chars_eq_str(k, "CPU model") {
        match v {
            MemberVal::S(t) => if acc.cpu.is_some() {
                None
            } else {
                Some(InnerAcc { cpu: Some(t), ..acc })
            },
            _ => None,
        }
    } else if chars_eq_str(k, "Hard disk size") {
        match v {
            MemberVal::S(t) => if acc.hard_disk.is_some() {
                None
            } else {
                Some(InnerAcc { hard_disk: Some(t), ..acc })
            },
            _ => None,
        }
    } else {
        Some(acc)
    }
}

/// Reads inner members, as `sp_inner_items` states them.
fn inner_items(s: &Vec<char>, i: usize, acc: InnerAcc) -> (r: Option<(InnerAcc, usize)>)
    requires
        i <= s.len(),
    ensures
        match (r, sp_inner_items(s@, i as int, inner_acc_view(acc))) {
            (Some(p), Some(q)) => inner_acc_view(p.0) == q.0 && p.1 as int == q.1 && i < p.1
                <= s.len(),
            (None, None) => true,
            _ => false,
        },
    decreases s.len() - i,
{
    let i0 = skip_ws(s, i);
    match parse_string(s, i0) {
        None => None,
        Some((k, j0)) => {
            let j1 = skip_ws(s, j0);
            if !(j1 < s.len() && s[j1] == ':') {
                None
            } else {
                let j2 = skip_ws(s, j1 + 1);
                match parse_member(s, j2) {
                    None => None,
                    Some((v, jv)) => match add_inner(acc, &k, v) {
                        None => None,
                        Some(acc2) => {
                            let j3 = skip_ws(s, jv);
                            if j3 < s.len() && s[j3] == ',' {
                                inner_items(s, j3 + 1, acc2)
                            } else if j3 < s.len() && s[j3] == '}' {
                                Some((acc2, j3 + 1))
                            } else {
                                None
                            }
                        },
                    },
                }
            }
        },
    }
}

/// Reads a whole inner object, as `sp_inner_obj` states it.
fn inner_obj(s: &Vec<char>, i: usize) -> (r: Option<(InnerAcc, usize)>)
    requires
        i <= s.len(),
    ensures
        match (r, sp_inner_obj(s@, i as int)) {
            (Some(p), Some(q)) => inner_acc_view(p.0) == q.0 && p.1 as int == q.1 && i < p.1
                <= s.len(),
            (None, None) => true,
            _ => false,
        },
{
    if i < s.len() && s[i] == '{' {
        let j = skip_ws(s, i + 1);
        if j < s.len() && s[j] == '}' {
            Some((InnerAcc { year: None, price: None, cpu: None, hard_disk: None }, j + 1))
        } else {
            inner_items(s, i + 1, InnerAcc { year: None, price: None, cpu: None, hard_disk: None })
        }
    } else {
        None
    }
}

/// Every character of `t` is a digit.
pub open spec fn all_digits(t: Seq<char>) -> bool {
    forall|q: int| 0 <= q < t.len() ==> is_digit(t[q])
}

/// The value of a run of digits, most significant first.
pub open spec fn digits_val(t: Seq<char>) -> int
    decreases t.len(),
{
    if t.len() == 0 {
        0
    } else {
        digits_val(t.drop_last()) * 10 + (t.last() as int - 48)
    }
}

/// The integer a number's text denotes, when it denotes one: an optional
/// minus followed by digits only. A text with a fraction denotes none.
pub open spec fn sp_int_of(t: Seq<char>) -> Option<int> {
    if t.len() > 0 && t[0] == '-' {
        let u = t.subrange(1, t.len() as int);
        if u.len() > 0 && all_digits(u) {
            Some(-digits_val(u))
        } else {
            None
        }
    } else if t.len() > 0 && all_digits(t) {
        Some(digits_val(t))
    } else {
        None
    }
}

pub proof fn lemma_digits_val_nonneg(t: Seq<char>)
    requires
        all_digits(t),
    ensures
        digits_val(t) >= 0,
    decreases t.len(),
{
    if t.len() > 0 {
        assert(all_digits(t.drop_last()));
        lemma_digits_val_nonneg(t.drop_last());
    }
}

/// Reading one more digit multiplies the value by ten and adds it.
pub proof fn lemma_digits_val_step(t: Seq<char>, j: int)
    requires
        0 <= j < t.len(),
    ensures
        digits_val(t.subrange(0, j + 1)) == digits_val(t.subrange(0, j)) * 10 + (t[j] as int
            - 48),
{
    assert(t.subrange(0, j + 1).drop_last() =~= t.subrange(0, j));
    assert(t.subrange(0, j + 1).last() == t[j]);
}

/// The value of a prefix never exceeds the value of the whole run.
pub proof fn lemma_digits_val_prefix_le(t: Seq<char>, j: int)
    requires
        all_digits(t),
        0 <= j <= t.len(),
    ensures
        digits_val(t.subrange(0, j)) <= digits_val(t),
    decreases t.len() - j,
{
    if j == t.len() {
        assert(t.subrange(0, j) =~= t);
    } else {
        lemma_digits_val_step(t, j);
        assert(all_digits(t.subrange(0, j)));
        lemma_digits_val_nonneg(t.subrange(0, j));
        lemma_digits_val_prefix_le(t, j + 1);
    }
}

/// The `year` value a member's text denotes, when it fits the field, as
/// `sp_int_of` and the range of the field state it.
fn int_of_i32(t: &Vec<char>) -> (r: Option<i32>)
    ensures
        match (r, sp_int_of(t@)) {
            (Some(v), Some(w)) => v as int == w && -2147483648 <= w <= 2147483647,
            (None, Some(w)) => w < -2147483648 || w > 2147483647,
            (None, None) => true,
            (Some(_), None) => false,
        },
{
    let neg = t.len() > 0 && t[0] == '-';
    let start: usize = if neg {
        1
    } else {
        0
    };
    let ghost u: Seq<char> = if neg {
        t@.subrange(1, t@.len() as int)
    } else {
        t@
    };
    if t.len() <= start {
        return None;
    }
    let mut acc: u64 = 0;
    let mut i: usize = start;
    while i < t.len()
        invariant
            start <= i <= t@.len(),
            start == if neg {
                1int
            } else {
                0int
            },
            neg ==> (t@.len() > 0 && t@[0] == '-'),
            !neg ==> !(t@.len() > 0 && t@[0] == '-'),
            start < t@.len(),
            u == if neg {
                t@.subrange(1, t@.len() as int)
            } else {
                t@
            },
            forall|q: int| start <= q < i ==> is_digit(t@[q]),
            acc as int == digits_val(u.subrange(0, i - start)),
            acc <= 2147483648,
        decreases t@.len() - i,
    {
        let c = t[i];
        if !digit_q(c) {
            proof {
                assert(u[i - start] == t@[i as int]);
                assert(!all_digits(u));
            }
            return None;
        }
        let d: u64 = (c as u8 - 48) as u64;
        proof {
            assert(48 <= c as u8 <= 57);
        }
        let acc2: u64 = acc * 10 + d;
        proof {
            lemma_digits_val_step(u, i - start);
            assert(u[i - start] == t@[i as int]);
            assert(acc2 as int == digits_val(u.subrange(0, i + 1 - start)));
        }
        if acc2 > 2147483648 {
            proof {
                if all_digits(u) {
                    lemma_digits_val_prefix_le(u, i + 1 - start);
                    assert(digits_val(u) > 2147483648);
                }
            }
            return None;
        }
        acc = acc2;
        i = i + 1;
    }
    proof {
        assert forall|q: int| 0 <= q < u.len() implies is_digit(u[q]) by {
            assert(u[q] == t@[q + start]);
        }
        assert(u.subrange(0, i - start) =~= u);
    }
    if neg {
        let v: i64 = -(acc as i64);
        Some(v as i32)
    } else {
        if acc > 2147483647 {
            return None;
        }
        Some(acc as i32)
    }
}

/// The inner record of the resource. `year` is the one numeric field the
/// logic reads as a number; `price` keeps the number's own text.
#[derive(Debug)]
pub struct InnerData {
    pub year: i32,
    pub price: String,
    pub cpu: String,
    pub hard_disk: String,
}

/// What an inner record holds.
pub struct InnerV {
    pub year: int,
    pub price: Seq<char>,
    pub cpu: Seq<char>,
    pub hard_disk: Seq<char>,
}

impl View for InnerData {
    type V = InnerV;

    open spec fn view(&self) -> InnerV {
        InnerV {
            year: self.year as int,
            price: self.price@,
            cpu: self.cpu@,
            hard_disk: self.hard_disk@,
        }
    }
}

/// The fetched resource: an identifier, a label, and the inner record.
#[derive(Debug)]
pub struct Data {
    pub id: String,
    pub name: String,
    pub data: InnerData,
}

/// What a resource holds.
pub struct DataV {
    pub id: Seq<char>,
    pub name: Seq<char>,
    pub data: InnerV,
}

impl View for Data {
    type V = DataV;

    open spec fn view(&self) -> DataV {
        DataV { id: self.id@, name: self.name@, data: self.data@ }
    }
}

/// The inner record an accumulator yields: every required member present,
/// and the year's text an integer that fits the field.
pub open spec fn sp_bind_inner(acc: InnerAccV) -> Option<InnerV> {
    match (acc.year, acc.price, acc.cpu, acc.hard_disk) {
        (Some(y), Some(p), Some(c), Some(h)) => match sp_int_of(y) {
            Some(w) => if -2147483648 <= w <= 2147483647 {
                Some(InnerV { year: w, price: p, cpu: c, hard_disk: h })
            } else {
                None
            },
            None => None,
        },
        _ => None,
    }
}

/// A whole inner record at `i`: its object, bound.
pub open spec fn sp_inner(s: Seq<char>, i: int) -> Option<(InnerV, int)> {
    match sp_inner_obj(s, i) {
        Some(p) => match sp_bind_inner(p.0) {
            Some(v) => Some((v, p.1)),
            None => None,
        },
        None => None,
    }
}

/// Binds the inner accumulator, as `sp_bind_inner` states it.
fn bind_inner(acc: InnerAcc) -> (r: Option<InnerData>)
    ensures
        match (r, sp_bind_inner(inner_acc_view(acc))) {
            (Some(d), Some(v)) => d@ == v,
            (None, None) => true,
            _ => false,
        },
{
    match (acc.year, acc.price, acc.cpu, acc.hard_disk) {
        (Some(y), Some(p), Some(c), Some(h)) => match int_of_i32(&y) {
            Some(w) => Some(
                InnerData {
                    year: w,
                    price: crate::text::chars_to_string(&p),
                    cpu: crate::text::chars_to_string(&c),
                    hard_disk: crate::text::chars_to_string(&h),
                },
            ),
            None => None,
        },
        _ => None,
    }
}

/// Reads and binds a whole inner record, as `sp_inner` states it.
fn parse_inner(s: &Vec<char>, i: usize) -> (r: Option<(InnerData, usize)>)
    requires
        i <= s.len(),
    ensures
        match (r, sp_inner(s@, i as int)) {
            (Some(p), Some(q)) => p.0@ == q.0 && p.1 as int == q.1 && i < p.1 <= s.len(),
            (None, None) => true,
            _ => false,
        },
{
    match inner_obj(s, i) {
        Some((acc, j)) => match bind_inner(acc) {
            Some(d) => Some((d, j)),
            None => None,
        },
        None => None,
    }
}

/// What has been read of the outer object so far.
pub struct TopAccV {
    pub id: Option<Seq<char>>,
    pub name: Option<Seq<char>>,
    pub data: Option<InnerV>,
}

pub open spec fn top_acc_empty() -> TopAccV {
    TopAccV { id: None, name: None, data: None }
}

/// Folds one outer member other than `data`, which never reaches this:
/// its value is an object and is read in place.
pub open spec fn sp_add_top(acc: TopAccV, k: Seq<char>, v: MemberV) -> Option<TopAccV> {
    if k == "id"@ {
        match v {
            MemberV::S(t) => if acc.id is Some {
                None
            } else {
                Some(TopAccV { id: Some(t), ..acc })
            },
            _ => None,
        }
    } else if k == "name"@ {
        match v {
            MemberV::S(t) => if acc.name is Some {
                None
            } else {
                Some(TopAccV { name: Some(t), ..acc })
            },
            _ => None,
        }
    } else {
        Some(acc)
    }
}

/// The members of the outer object, from the position after its opening
/// brace (or after a comma), up to and over its closing brace.
pub open spec fn sp_top_items(s: Seq<char>, i: int, acc: TopAccV) -> Option<(TopAccV, int)>
    decreases s.len() - i,
{
    let i0 = sp_ws(s, i);
    match sp_string(s, i0) {
        None => None,
        Some(kp) => {
            let j1 = sp_ws(s, kp.1);
            if !(j1 < s.len() && s[j1] == ':') {
                None
            } else {
                let j2 = sp_ws(s, j1 + 1);
                let step: Option<(TopAccV, int)> = if kp.0 == "data"@ {
                    if acc.data is Some {
                        None
                    } else {
                        match sp_inner(s, j2) {
                            Some(ip) => Some((TopAccV { data: Some(ip.0), ..acc }, ip.1)),
                            None => None,
                        }
                    }
                } else {
                    match sp_member(s, j2) {
                        Some(vp) => match sp_add_top(acc, kp.0, vp.0) {
                            Some(a2) => Some((a2, vp.1)),
                            None => None,
                        },
                        None => None,
                    }
                };
                match step {
                    None => None,
                    Some(sp2) => {
                        let j3 = sp_ws(s, sp2.1);
                        if j3 < s.len() && s[j3] == ',' {
                            // a member always advances the position;
                            // the test keeps the recursion well-founded
                            if i < j3 + 1 <= s.len() {
                                sp_top_items(s, j3 + 1, sp2.0)
                            } else {
                                None
                            }
                        } else if j3 < s.len() && s[j3] == '}' {
                            Some((sp2.0, j3 + 1))
                        } else {
                            None
                        }
                    },
                }
            }
        },
    }
}

/// A whole outer object at `i`.
pub open spec fn sp_top_obj(s: Seq<char>, i: int) -> Option<(TopAccV, int)> {
    if 0 <= i && i < s.len() && s[i] == '{' {
        let j = sp_ws(s, i + 1);
        if j < s.len() && s[j] == '}' {
            Some((top_acc_empty(), j + 1))
        } else {
            sp_top_items(s, i + 1, top_acc_empty())
        }
    } else {
        None
    }
}

/// The resource an outer accumulator yields: every required member
/// present.
pub open spec fn sp_bind_top(acc: TopAccV) -> Option<DataV> {
    match (acc.id, acc.name, acc.data) {
        (Some(i), Some(n), Some(d)) => Some(DataV { id: i, name: n, data: d }),
        _ => None,
    }
}

/// The resource a whole body denotes, when it denotes one: leading and
/// trailing whitespace around one outer object, bound.
pub open spec fn sp_data(s: Seq<char>) -> Option<DataV> {
    match sp_top_obj(s, sp_ws(s, 0)) {
        Some(p) => if sp_ws(s, p.1) == s.len() {
            sp_bind_top(p.0)
        } else {
            None
        },
        None => None,
    }
}

/// The executable outer accumulator.
pub struct TopAcc {
    pub id: Option<Vec<char>>,
    pub name: Option<Vec<char>>,
    pub data: Option<InnerData>,
}

/// What a `TopAcc` stands for.
pub open spec fn top_acc_view(a: TopAcc) -> TopAccV {
    TopAccV {
        id: match a.id {
            Some(t) => Some(t@),
            None => None,
        },
        name: match a.name {
            Some(t) => Some(t@),
            None => None,
        },
        data: match a.data {
            Some(d) => Some(d@),
            None => None,
        },
    }
}

/// Folds one outer member whose value the binder sees, as `sp_add_top` states it.
fn add_top(acc: TopAcc, k: &Vec<char>, v: MemberVal) -> (r: Option<TopAcc>)
    ensures
        match (r, sp_add_top(top_acc_view(acc), k@, member_view(v))) {
            (Some(a), Some(b)) => top_acc_view(a) == b,
            (None, None) => true,
            _ => false,
        },
{
    if chars_eq_str(k, "id") {
        match v {
            MemberVal::S(t) => if acc.id.is_some() {
                None
            } else {
                Some(TopAcc { id: Some(t), ..acc })
            },
            _ => None,
        }
    } else if chars_eq_str(k, "name") {
        match v {
            MemberVal::S(t) => if acc.name.is_some() {
                None
            } else {
                Some(TopAcc { name: Some(t), ..acc })
            },
            _ => None,
        }
    } else {
        Some(acc)
    }
}

/// Reads outer members, as `sp_top_items` states them.
fn top_items(s: &Vec<char>, i: usize, acc: TopAcc) -> (r: Option<(TopAcc, usize)>)
    requires
        i <= s.len(),
    ensures
        match (r, sp_top_items(s@, i as int, top_acc_view(acc))) {
            (Some(p), Some(q)) => top_acc_view(p.0) == q.0 && p.1 as int == q.1 && i < p.1
                <= s.len(),
            (None, None) => true,
            _ => false,
        },
    decreases s.len() - i,
{
    let i0 = skip_ws(s, i);
    match parse_string(s, i0) {
        None => None,
        Some((k, j0)) => {
            let j1 = skip_ws(s, j0);
            if !(j1 < s.len() && s[j1] == ':') {
                None
            } else {
                let j2 = skip_ws(s, j1 + 1);
                let step: Option<(TopAcc, usize)> = if chars_eq_str(&k, "data") {
                    if acc.data.is_some() {
                        None
                    } else {
                        match parse_inner(s, j2) {
                            Some((d, jd)) => Some((TopAcc { data: Some(d), ..acc }, jd)),
                            None => None,
                        }
                    }
                } else {
                    match parse_member(s, j2) {
                        Some((v, jv)) => match add_top(acc, &k, v) {
                            Some(a2) => Some((a2, jv)),
                            None => None,
                        },
                        None => None,
                    }
                };
                match step {
                    None => None,
                    Some((a2, je)) => {
                        let j3 = skip_ws(s, je);
                        if j3 < s.len() && s[j3] == ',' {
                            top_items(s, j3 + 1, a2)
                        } else if j3 < s.len() && s[j3] == '}' {
                            Some((a2, j3 + 1))
                        } else {
                            None
                        }
                    },
                }
            }
        },
    }
}

/// Reads a whole outer object, as `sp_top_obj` states it.
fn top_obj(s: &Vec<char>, i: usize) -> (r: Option<(TopAcc, usize)>)
    requires
        i <= s.len(),
    ensures
        match (r, sp_top_obj(s@, i as int)) {
            (Some(p), Some(q)) => top_acc_view(p.0) == q.0 && p.1 as int == q.1 && i < p.1
                <= s.len(),
            (None, None) => true,
            _ => false,
        },
{
    if i < s.len() && s[i] == '{' {
        let j = skip_ws(s, i + 1);
        if j < s.len() && s[j] == '}' {
            Some((TopAcc { id: None, name: None, data: None }, j + 1))
        } else {
            top_items(s, i + 1, TopAcc { id: None, name: None, data: None })
        }
    } else {
        None
    }
}

/// Binds the outer accumulator, as `sp_bind_top` states it.
fn bind_top(acc: TopAcc) -> (r: Option<Data>)
    ensures
        match (r, sp_bind_top(top_acc_view(acc))) {
            (Some(d), Some(v)) => d@ == v,
            (None, None) => true,
            _ => false,
        },
{
    match (acc.id, acc.name, acc.data) {
        (Some(i), Some(n), Some(d)) => Some(
            Data {
                id: crate::text::chars_to_string(&i),
                name: crate::text::chars_to_string(&n),
                data: d,
            },
        ),
        _ => None,
    }
}

/// Parses one response body into the resource it denotes.
///
/// Succeeds exactly on the bodies of which `sp_data` states a resource,
/// and returns exactly that resource; on every other body it returns
/// nothing, never a partial record.
pub fn parse_data(s: &str) -> (r: Option<Data>)
    ensures
        match (r, sp_data(s@)) {
            (Some(d), Some(v)) => d@ == v,
            (None, None) => true,
            _ => false,
        },
{
    let chars = crate::text::str_to_chars(s);
    let i = skip_ws(&chars, 0);
    match top_obj(&chars, i) {
        Some((acc, j)) => {
            let j2 = skip_ws(&chars, j);
            if j2 == chars.len() {
                bind_top(acc)
            } else {
                None
            }
        },
        None => None,
    }
}

impl Data {
    /// The pretty rendering of a fetched resource: each field after its
    /// name, nested and indented, string values quoted, `price` as the
    /// number's own text.
    pub open spec fn spec_render(self) -> Seq<char> {
        "Data {\n    id: \""@ + self.id@ + "\",\n    name: \""@ + self.name@
            + "\",\n    data: InnerData {\n        year: "@ + crate::text::dec_signed(
            self.data.year as int,
        ) + ",\n        price: "@ + self.data.price@ + ",\n        cpu: \""@ + self.data.cpu@
            + "\",\n        hard_disk: \""@ + self.data.hard_disk@ + "\",\n    },\n}"@
    }

    /// Renders the resource, as `spec_render` states it.
    pub fn render_pretty(&self) -> (r: String)
        ensures
            r@ == self.spec_render(),
    {
        let mut r = String::new();
        r.append("Data {\n    id: \"");
        r.append(self.id.as_str());
        r.append("\",\n    name: \"");
        r.append(self.name.as_str());
        r.append("\",\n    data: InnerData {\n        year: ");
        let year = crate::text::i32_chars(self.data.year);
        let year_str = crate::text::chars_to_string(&year);
        r.append(year_str.as_str());
        r.append(",\n        price: ");
        r.append(self.data.price.as_str());
        r.append(",\n        cpu: \"");
        r.append(self.data.cpu.as_str());
        r.append("\",\n        hard_disk: \"");
        r.append(self.data.hard_disk.as_str());
        r.append("\",\n    },\n}");
        proof {
            assert(r@ =~= self.spec_render());
        }
        r
    }
}

} // verus!
