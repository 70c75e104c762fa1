//! Character-level text helpers: decimal rendering of integers and the
//! conversion between `Vec<char>` and `String` that the renderers build on.

use vstd::prelude::*;

verus! {

/// The character for one decimal digit value.
pub open spec fn digit_char(d: int) -> char {
    ((48 + d) as u8) as char
}

/// The decimal digits of `n`, most significant first, no sign and no
/// leading zero (a single `'0'` for zero).
pub open spec fn dec_digits(n: nat) -> Seq<char>
    decreases n,
{
    if n < 10 {
        seq![digit_char(n as int)]
    } else {
        dec_digits(n / 10).push(digit_char((n % 10) as int))
    }
}

/// The decimal rendering of a signed value: a `'-'` before the digits of
/// its magnitude when it is negative.
pub open spec fn dec_signed(n: int) -> Seq<char> {
    if n < 0 {
        seq!['-'].add(dec_digits((-n) as nat))
    } else {
        dec_digits(n as nat)
    }
}

/// The digits of `n`, as `dec_digits` states them.
pub fn u64_digits(n: u64) -> (v: Vec<char>)
    ensures
        v@ == dec_digits(n as nat),
    decreases n,
{
    if n < 10 {
        let c: char = ((n as u8) + 48) as char;
        let mut v: Vec<char> = Vec::new();
        v.push(c);
        v
    } else {
        let mut v = u64_digits(n / 10);
        let c: char = (((n % 10) as u8) + 48) as char;
        v.push(c);
        v
    }
}

/// The characters of `dec_signed`: a sign when negative, then digits.
pub fn i32_chars(n: i32) -> (v: Vec<char>)
    ensures
        v@ == dec_signed(n as int),
{
    if n < 0 {
        let m: u64 = (-(n as i64)) as u64;
        let mut v: Vec<char> = Vec::new();
        v.push('-');
        let mut d = u64_digits(m);
        v.append(&mut d);
        proof {
            assert(v@ =~= dec_signed(n as int));
        }
        v
    } else {
        u64_digits(n as u64)
    }
}

/// Relies on std's `FromIterator` impl for `String`: collecting an
/// iterator of `char`s yields the string of exactly those characters.
#[verifier::external_body]
pub fn chars_to_string(v: &Vec<char>) -> (s: String)
    ensures
        s@ == v@,
{
    v.iter().collect()
}

/// The characters of `s`, one by one.
pub fn str_to_chars(s: &str) -> (v: Vec<char>)
    ensures
        v@ == s@,
{
    let n = s.unicode_len();
    let mut v: Vec<char> = Vec::new();
    let mut i: usize = 0;
    while i < n
        invariant
            i <= n,
            n == s@.len(),
            v@ == s@.subrange(0, i as int),
        decreases n - i,
    {
        let c = s.get_char(i);
        v.push(c);
        i = i + 1;
        proof {
            assert(v@ =~= s@.subrange(0, i as int));
        }
    }
    proof {
        assert(v@ =~= s@);
    }
    v
}

} // verus!
