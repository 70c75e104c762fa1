//! Laws that relate the library's pieces to one another: the decimal
//! renderings read back as the values they render; an accumulator that
//! misses a required member never yields a record; and a well-formed
//! resource, rendered to its canonical wire text and parsed back, comes
//! back with every field exactly equal.

use vstd::prelude::*;

use crate::text::{dec_digits, dec_signed, digit_char};
use crate::wire::{
    all_digits, digits_val, inner_acc_empty, is_control, is_digit, short_escape, sp_bind_inner,
    sp_bind_top, sp_data, sp_digits_end, sp_inner, sp_inner_items, sp_inner_obj, sp_int_of,
    sp_member, sp_number, sp_number_exp, sp_string, sp_string_body, sp_top_items, sp_top_obj,
    sp_ws, top_acc_empty, DataV, InnerAccV, InnerV, MemberV, TopAccV,
};

verus! {

/// The decimal digits of `n` are digits, and they denote `n`.
pub proof fn lemma_dec_digits_val(n: nat)
    ensures
        all_digits(dec_digits(n)),
        digits_val(dec_digits(n)) == n,
        dec_digits(n).len() >= 1,
    decreases n,
{
    if n < 10 {
        assert(is_digit(digit_char(n as int)));
        let t = dec_digits(n);
        assert(t =~= seq![digit_char(n as int)]);
        assert(t.drop_last() =~= Seq::<char>::empty());
        assert(digits_val(Seq::<char>::empty()) == 0);
        assert(digits_val(t) == digits_val(t.drop_last()) * 10 + (t.last() as int - 48));
        assert(digits_val(t) == digit_char(n as int) as int - 48);
    } else {
        lemma_dec_digits_val(n / 10);
        let t = dec_digits(n / 10);
        let c = digit_char((n % 10) as int);
        assert(is_digit(c));
        assert(dec_digits(n) == t.push(c));
        assert(t.push(c).drop_last() =~= t);
        assert(t.push(c).last() == c);
        assert(all_digits(t.push(c)));
        assert(digits_val(t.push(c)) == digits_val(t) * 10 + (c as int - 48));
    }
}

/// Rendering an integer and reading the text back yields the integer:
/// `sp_int_of` inverts `dec_signed` on every value.
pub proof fn lemma_int_text_round_trip(w: int)
    ensures
        sp_int_of(dec_signed(w)) == Some(w),
{
    if w < 0 {
        lemma_dec_digits_val((-w) as nat);
        let t = dec_signed(w);
        let u = t.subrange(1, t.len() as int);
        assert(t[0] == '-');
        assert(u =~= dec_digits((-w) as nat));
        assert(sp_int_of(t) == Some(-digits_val(u)));
    } else {
        lemma_dec_digits_val(w as nat);
        let t = dec_signed(w);
        assert(t == dec_digits(w as nat));
        assert(is_digit(t[0]));
        assert(t[0] != '-');
        assert(sp_int_of(t) == Some(digits_val(t)));
    }
}

/// An inner accumulator that misses any required member yields no
/// record: a body in which a required member never appeared cannot
/// produce a partial one.
pub proof fn lemma_missing_member_no_record(acc: InnerAccV)
    requires
        acc.year is None || acc.price is None || acc.cpu is None || acc.hard_disk is None,
    ensures
        sp_bind_inner(acc) is None,
{
}

pub proof fn lemma_digits_end_facts(s: Seq<char>, i: int)
    requires
        0 <= i <= s.len(),
    ensures
        i <= sp_digits_end(s, i) <= s.len(),
        forall|q: int| i <= q < sp_digits_end(s, i) ==> is_digit(s[q]),
        sp_digits_end(s, i) == s.len() || !is_digit(s[sp_digits_end(s, i)]),
    decreases s.len() - i,
{
    if i < s.len() && is_digit(s[i]) {
        lemma_digits_end_facts(s, i + 1);
    }
}

/// A run of digits ended by a non-digit (or by the end) is scanned to
/// exactly its end.
pub proof fn lemma_digits_local(s: Seq<char>, i: int, e: int)
    requires
        0 <= i <= e <= s.len(),
        forall|q: int| i <= q < e ==> is_digit(s[q]),
        e == s.len() || !is_digit(s[e]),
    ensures
        sp_digits_end(s, i) == e,
    decreases e - i,
{
    if i < e {
        lemma_digits_local(s, i + 1, e);
    }
}

/// A stretch free of quotes, backslashes and control characters, ended
/// by a quote, is read as exactly that stretch.
pub proof fn lemma_string_local(s: Seq<char>, i: int, e: int)
    requires
        0 <= i <= e < s.len(),
        forall|q: int| i <= q < e ==> (s[q] != '"' && s[q] != '\\' && !is_control(s[q])),
        s[e] == '"',
    ensures
        sp_string_body(s, i) == Some((s.subrange(i, e), e + 1)),
    decreases e - i,
{
    if i == e {
        assert(s.subrange(i, e) =~= Seq::<char>::empty());
    } else {
        lemma_string_local(s, i + 1, e);
        assert(seq![s[i]].add(s.subrange(i + 1, e)) =~= s.subrange(i, e));
    }
}

/// The shape of a JSON number's text: an optional minus, an integer
/// part without a leading zero, an optional fraction, an optional
/// exponent, and nothing after them.
pub open spec fn num_wf(p: Seq<char>) -> bool {
    let j = if p.len() > 0 && p[0] == '-' {
        1int
    } else {
        0int
    };
    &&& j < p.len()
    &&& is_digit(p[j])
    &&& {
        let k = if p[j] == '0' {
            j + 1
        } else {
            sp_digits_end(p, j)
        };
        let m = if k < p.len() && p[k] == '.' {
            sp_digits_end(p, k + 1)
        } else {
            k
        };
        &&& (k < p.len() && p[k] == '.' ==> m > k + 1)
        &&& if m < p.len() && (p[m] == 'e' || p[m] == 'E') {
            let x = if m + 1 < p.len() && (p[m + 1] == '+' || p[m + 1] == '-') {
                m + 2
            } else {
                m + 1
            };
            sp_digits_end(p, x) > x && sp_digits_end(p, x) == p.len()
        } else {
            m == p.len()
        }
    }
}

/// A number-shaped stretch ended by anything that cannot continue a
/// number is read as exactly that stretch.
pub proof fn lemma_number_local(s: Seq<char>, i: int, p: Seq<char>)
    requires
        num_wf(p),
        0 <= i,
        i + p.len() <= s.len(),
        s.subrange(i, i + p.len()) == p,
        i + p.len() == s.len() || (!is_digit(s[i + p.len()]) && s[i + p.len()] != '.' && s[i
            + p.len()] != 'e' && s[i + p.len()] != 'E'),
    ensures
        sp_number(s, i) == Some((p, i + p.len())),
{
    let n = p.len() as int;
    assert forall|q: int| 0 <= q < n implies p[q] == s[i + q] by {
        assert(p[q] == s.subrange(i, i + n)[q]);
    }
    let j0: int = if p[0] == '-' {
        1
    } else {
        0
    };
    // the integer part
    let k: int = if p[j0] == '0' {
        j0 + 1
    } else {
        sp_digits_end(p, j0)
    };
    if p[j0] != '0' {
        lemma_digits_end_facts(p, j0);
        assert forall|q: int| i + j0 <= q < i + k implies is_digit(s[q]) by {
            assert(s[q] == p[q - i]);
        }
        lemma_digits_local(s, i + j0, i + k);
    }
    // the fraction
    let m: int = if k < n && p[k] == '.' {
        sp_digits_end(p, k + 1)
    } else {
        k
    };
    if k < n && p[k] == '.' {
        assert(s[i + k] == '.');
        lemma_digits_end_facts(p, k + 1);
        assert forall|q: int| i + k + 1 <= q < i + m implies is_digit(s[q]) by {
            assert(s[q] == p[q - i]);
        }
        lemma_digits_local(s, i + k + 1, i + m);
    }
    // the exponent
    if m < n && (p[m] == 'e' || p[m] == 'E') {
        let x: int = if m + 1 < n && (p[m + 1] == '+' || p[m + 1] == '-') {
            m + 2
        } else {
            m + 1
        };
        lemma_digits_end_facts(p, x);
        assert(sp_digits_end(p, x) == n);
        assert forall|q: int| i + x <= q < i + n implies is_digit(s[q]) by {
            assert(s[q] == p[q - i]);
        }
        lemma_digits_local(s, i + x, i + n);
        assert(sp_number_exp(s, i, i + m) == Some((s.subrange(i, i + n), i + n)));
    } else {
        assert(m == n);
        assert(sp_number_exp(s, i, i + m) == Some((s.subrange(i, i + m), i + m)));
    }
    assert(sp_number(s, i) == Some((s.subrange(i, i + n), i + n)));
}

/// The escape of one character in the canonical rendering: quotes,
/// backslashes and the five control characters with short escapes take
/// them; every other character stands as it is.
pub open spec fn esc_char(c: char) -> Seq<char> {
    if c == '"' {
        seq!['\\', '"']
    } else if c == '\\' {
        seq!['\\', '\\']
    } else if c == '\u{8}' {
        seq!['\\', 'b']
    } else if c == '\u{c}' {
        seq!['\\', 'f']
    } else if c == '\n' {
        seq!['\\', 'n']
    } else if c == '\r' {
        seq!['\\', 'r']
    } else if c == '\t' {
        seq!['\\', 't']
    } else {
        seq![c]
    }
}

/// The canonical escaping of a whole text.
pub open spec fn esc(t: Seq<char>) -> Seq<char>
    decreases t.len(),
{
    if t.len() == 0 {
        Seq::empty()
    } else {
        esc_char(t[0]).add(esc(t.subrange(1, t.len() as int)))
    }
}

/// Text the canonical rendering can carry: any character but a control
/// character without a short escape of its own.
pub open spec fn text_wf(t: Seq<char>) -> bool {
    forall|q: int| 0 <= q < t.len() ==> (!is_control(t[q]) || esc_char(t[q]).len() == 2)
}

/// The canonical escaping of a text, ended by a quote, is read back as
/// exactly that text.
pub proof fn lemma_esc_local(s: Seq<char>, i: int, t: Seq<char>)
    requires
        text_wf(t),
        0 <= i,
        i + esc(t).len() < s.len(),
        s.subrange(i, i + esc(t).len()) == esc(t),
        s[i + esc(t).len()] == '"',
    ensures
        sp_string_body(s, i) == Some((t, i + esc(t).len() + 1)),
    decreases t.len(),
{
    let el = esc(t).len() as int;
    assert forall|q: int| 0 <= q < el implies #[trigger] esc(t)[q] == s[i + q] by {
        assert(esc(t)[q] == s.subrange(i, i + el)[q]);
    }
    if t.len() == 0 {
        assert(esc(t) =~= Seq::<char>::empty());
        assert(s[i] == '"');
    } else {
        let c = t[0];
        let rest = t.subrange(1, t.len() as int);
        let ec = esc_char(c);
        let k = ec.len() as int;
        assert(esc(t) == ec.add(esc(rest)));
        assert(text_wf(rest)) by {
            assert forall|q: int| 0 <= q < rest.len() implies (!is_control(rest[q]) || esc_char(
                rest[q],
            ).len() == 2) by {
                assert(rest[q] == t[q + 1]);
            }
        }
        let rl = esc(rest).len() as int;
        assert(rl == el - k);
        assert forall|q: int| 0 <= q < rl implies s.subrange(i + k, i + el)[q] == esc(rest)[q] by {
            assert(esc(t)[k + q] == s[i + (k + q)]);
            assert(esc(t)[k + q] == esc(rest)[q]);
        }
        assert(s.subrange(i + k, i + el) =~= esc(rest));
        lemma_esc_local(s, i + k, rest);
        assert(esc(t)[0] == s[i + 0]);
        if k == 2 {
            assert(s[i] == '\\');
            assert(esc(t)[1] == s[i + 1]);
            assert(s[i + 1] == ec[1]);
            assert(short_escape(ec[1]) == Some(c));
            assert(sp_string_body(s, i) == Some((seq![c].add(rest), i + el + 1)));
        } else {
            assert(s[i] == c);
            assert(c != '"' && c != '\\');
            assert(!is_control(c));
            assert(sp_string_body(s, i) == Some((seq![c].add(rest), i + el + 1)));
        }
        assert(seq![c].add(rest) =~= t);
    }
}

/// An inner record every field of which can stand on the wire.
pub open spec fn inner_wf(v: InnerV) -> bool {
    &&& -2147483648 <= v.year <= 2147483647
    &&& num_wf(v.price)
    &&& text_wf(v.cpu)
    &&& text_wf(v.hard_disk)
}

/// The canonical wire text of an inner record: its members in one fixed
/// order, without whitespace.
pub open spec fn json_of_inner(v: InnerV) -> Seq<char> {
    "{\"year\":"@ + dec_signed(v.year) + ",\"price\":"@ + v.price + ",\"CPU model\":\""@ + esc(
        v.cpu,
    ) + "\",\"Hard disk size\":\""@ + esc(v.hard_disk) + "\"}"@
}

/// The digits of a positive value do not open with a zero.
pub proof fn lemma_dec_digits_leading(n: nat)
    requires
        n >= 1,
    ensures
        dec_digits(n)[0] != '0',
    decreases n,
{
    if n < 10 {
        assert(dec_digits(n) == seq![digit_char(n as int)]);
        assert(digit_char(n as int) as int == 48 + n);
    } else {
        lemma_dec_digits_val(n / 10);
        lemma_dec_digits_leading(n / 10);
        assert(dec_digits(n)[0] == dec_digits(n / 10)[0]);
    }
}

/// The rendering of an integer is number-shaped, and opens with a minus
/// or a digit.
pub proof fn lemma_dec_signed_shape(w: int)
    ensures
        num_wf(dec_signed(w)),
        dec_signed(w).len() > 0,
        dec_signed(w)[0] == '-' || is_digit(dec_signed(w)[0]),
{
    if w < 0 {
        lemma_dec_digits_val((-w) as nat);
        lemma_dec_digits_leading((-w) as nat);
        let p = dec_signed(w);
        let d = dec_digits((-w) as nat);
        assert(p[0] == '-');
        assert forall|q: int| 1 <= q < p.len() implies is_digit(p[q]) by {
            assert(p[q] == d[q - 1]);
        }
        assert(p[1] == d[0]);
        assert(p[1] != '0');
        lemma_digits_local(p, 1, p.len() as int);
    } else if w == 0 {
        let p = dec_signed(w);
        assert(p == dec_digits(0));
        assert(p =~= seq![digit_char(0)]);
        assert(digit_char(0) as int == 48);
        assert(p[0] == '0');
        assert(is_digit(p[0]));
    } else {
        lemma_dec_digits_val(w as nat);
        lemma_dec_digits_leading(w as nat);
        let p = dec_signed(w);
        assert(p == dec_digits(w as nat));
        assert(is_digit(p[0]));
        assert(p[0] != '0');
        lemma_digits_local(p, 0, p.len() as int);
    }
}

/// One member of the inner object, already read as its tokens, takes
/// the scan from the member's start past the comma that follows it.
proof fn lemma_inner_items_step(
    s: Seq<char>,
    i: int,
    kend: int,
    key: Seq<char>,
    val: MemberV,
    vend: int,
    acc: InnerAccV,
    acc2: InnerAccV,
)
    requires
        sp_ws(s, i) == i,
        sp_string(s, i) == Some((key, kend)),
        0 <= kend < s.len(),
        s[kend] == ':',
        sp_ws(s, kend) == kend,
        sp_ws(s, kend + 1) == kend + 1,
        sp_member(s, kend + 1) == Some((val, vend)),
        crate::wire::sp_add_inner(acc, key, val) == Some(acc2),
        0 <= vend < s.len(),
        sp_ws(s, vend) == vend,
        s[vend] == ',',
        i < vend + 1 <= s.len(),
    ensures
        sp_inner_items(s, i, acc) == sp_inner_items(s, vend + 1, acc2),
{
}

/// The last member of the inner object, already read as its tokens,
/// takes the scan to past the closing brace.
proof fn lemma_inner_items_end(
    s: Seq<char>,
    i: int,
    kend: int,
    key: Seq<char>,
    val: MemberV,
    vend: int,
    acc: InnerAccV,
    acc2: InnerAccV,
)
    requires
        sp_ws(s, i) == i,
        sp_string(s, i) == Some((key, kend)),
        0 <= kend < s.len(),
        s[kend] == ':',
        sp_ws(s, kend) == kend,
        sp_ws(s, kend + 1) == kend + 1,
        sp_member(s, kend + 1) == Some((val, vend)),
        crate::wire::sp_add_inner(acc, key, val) == Some(acc2),
        0 <= vend < s.len(),
        sp_ws(s, vend) == vend,
        s[vend] == '}',
    ensures
        sp_inner_items(s, i, acc) == Some((acc2, vend + 1)),
{
}

/// One outer member other than `data`, already read as its tokens,
/// takes the scan from the member's start past the comma that follows.
proof fn lemma_top_items_step(
    s: Seq<char>,
    i: int,
    kend: int,
    key: Seq<char>,
    val: MemberV,
    vend: int,
    acc: TopAccV,
    acc2: TopAccV,
)
    requires
        sp_ws(s, i) == i,
        sp_string(s, i) == Some((key, kend)),
        key != "data"@,
        0 <= kend < s.len(),
        s[kend] == ':',
        sp_ws(s, kend) == kend,
        sp_ws(s, kend + 1) == kend + 1,
        sp_member(s, kend + 1) == Some((val, vend)),
        crate::wire::sp_add_top(acc, key, val) == Some(acc2),
        0 <= vend < s.len(),
        sp_ws(s, vend) == vend,
        s[vend] == ',',
        i < vend + 1 <= s.len(),
    ensures
        sp_top_items(s, i, acc) == sp_top_items(s, vend + 1, acc2),
{
}

/// The `data` member, standing last in the outer object with its inner
/// record already read, takes the scan to past the closing brace.
proof fn lemma_top_items_data_end(
    s: Seq<char>,
    i: int,
    kend: int,
    dv: InnerV,
    vend: int,
    acc: TopAccV,
)
    requires
        sp_ws(s, i) == i,
        sp_string(s, i) == Some(("data"@, kend)),
        0 <= kend < s.len(),
        s[kend] == ':',
        sp_ws(s, kend) == kend,
        sp_ws(s, kend + 1) == kend + 1,
        acc.data is None,
        sp_inner(s, kend + 1) == Some((dv, vend)),
        0 <= vend < s.len(),
        sp_ws(s, vend) == vend,
        s[vend] == '}',
    ensures
        sp_top_items(s, i, acc) == Some(((TopAccV { data: Some(dv), ..acc }), vend + 1)),
{
}

/// Reading the last member of the inner object and its closing brace,
/// from the position after the comma that precedes it.
#[verifier::rlimit(100)]
proof fn lemma_inner_members_last(s: Seq<char>, i: int, v: InnerV)
    requires
        inner_wf(v),
        0 <= i,
        i + json_of_inner(v).len() <= s.len(),
        s.subrange(i, i + json_of_inner(v).len()) == json_of_inner(v),
    ensures
        sp_inner_items(
            s,
            i + 33 + dec_signed(v.year).len() + v.price.len() + esc(v.cpu).len(),
            (InnerAccV {
                year: Some(dec_signed(v.year)),
                price: Some(v.price),
                cpu: Some(v.cpu),
                hard_disk: None,
            }),
        ) == Some(
            (
                (InnerAccV {
                    year: Some(dec_signed(v.year)),
                    price: Some(v.price),
                    cpu: Some(v.cpu),
                    hard_disk: Some(v.hard_disk),
                }),
                i + json_of_inner(v).len(),
            ),
        ),
{
    reveal_strlit("{\"year\":");
    reveal_strlit(",\"price\":");
    reveal_strlit(",\"CPU model\":\"");
    reveal_strlit("\",\"Hard disk size\":\"");
    reveal_strlit("\"}");
    reveal_strlit("year");
    reveal_strlit("price");
    reveal_strlit("CPU model");
    reveal_strlit("Hard disk size");
    let jv = json_of_inner(v);
    let n = jv.len() as int;
    let y = dec_signed(v.year);
    let yl = y.len() as int;
    let pl = v.price.len() as int;
    let ecl = esc(v.cpu).len() as int;
    let ehl = esc(v.hard_disk).len() as int;
    let ob = 8 + yl;
    let oc = ob + 9 + pl;
    let od = oc + 14 + ecl;
    let oe = od + 20 + ehl;
    assert(n == oe + 2);
    assert forall|q: int| 0 <= q < n implies #[trigger] jv[q] == s[i + q] by {
        assert(jv[q] == s.subrange(i, i + n)[q]);
    }
    let acc3 = InnerAccV {
        year: Some(y),
        price: Some(v.price),
        cpu: Some(v.cpu),
        hard_disk: None,
    };
    // the member name "Hard disk size"
    assert(jv[od + 2] == s[i + (od + 2)] && jv[od + 2] == '"');
    assert(sp_ws(s, i + od + 2) == i + od + 2);
    assert forall|c: int| 0 <= c < 14 implies s.subrange(i + od + 3, i + od + 17)[c]
        == "Hard disk size"@[c] by {
        assert(jv[od + 3 + c] == s[i + (od + 3 + c)]);
        assert(jv[od + 3 + c] == "Hard disk size"@[c]);
    }
    assert(s.subrange(i + od + 3, i + od + 17) =~= "Hard disk size"@);
    assert forall|q: int| i + od + 3 <= q < i + od + 17 implies (s[q] != '"' && s[q] != '\\' && !is_control(s[q])) by {
        assert(s.subrange(i + od + 3, i + od + 17)[q - (i + od + 3)] == "Hard disk size"@[q - (i
            + od + 3)]);
    }
    assert(jv[od + 17] == s[i + (od + 17)] && jv[od + 17] == '"');
    lemma_string_local(s, i + od + 3, i + od + 17);
    assert(sp_string(s, i + od + 2) == Some(("Hard disk size"@, i + od + 18)));
    assert(jv[od + 18] == s[i + (od + 18)] && jv[od + 18] == ':');
    assert(sp_ws(s, i + od + 18) == i + od + 18);
    // the hard disk value, a string
    assert(jv[od + 19] == s[i + (od + 19)] && jv[od + 19] == '"');
    assert(sp_ws(s, i + od + 19) == i + od + 19);
    assert forall|c: int| 0 <= c < ehl implies s.subrange(i + od + 20, i + oe)[c] == esc(
        v.hard_disk,
    )[c] by {
        assert(jv[od + 20 + c] == s[i + (od + 20 + c)]);
        assert(jv[od + 20 + c] == esc(v.hard_disk)[c]);
    }
    assert(s.subrange(i + od + 20, i + oe) =~= esc(v.hard_disk));
    assert(jv[oe] == s[i + oe] && jv[oe] == '"');
    lemma_esc_local(s, i + od + 20, v.hard_disk);
    assert(sp_string(s, i + od + 19) == Some((v.hard_disk, i + oe + 1)));
    assert(sp_member(s, i + od + 19) == Some((MemberV::S(v.hard_disk), i + oe + 1)));
    let acc4 = InnerAccV {
        year: Some(y),
        price: Some(v.price),
        cpu: Some(v.cpu),
        hard_disk: Some(v.hard_disk),
    };
    assert("Hard disk size"@ != "year"@);
    assert("Hard disk size"@ != "price"@);
    assert("Hard disk size"@ != "CPU model"@);
    assert(crate::wire::sp_add_inner(acc3, "Hard disk size"@, MemberV::S(v.hard_disk)) == Some(acc4));
    // the closing brace, and the record the members bind to
    assert(jv[oe + 1] == s[i + (oe + 1)] && jv[oe + 1] == '}');
    assert(sp_ws(s, i + oe + 1) == i + oe + 1);
    lemma_inner_items_end(s, i + od + 2, i + od + 18, "Hard disk size"@, MemberV::S(v.hard_disk), i + oe + 1, acc3, acc4);
    assert(sp_inner_items(s, i + od + 2, acc3) == Some((acc4, i + n)));
}

/// Reading the cpu member and everything after it in the inner object,
/// from the position after the comma that precedes it.
#[verifier::rlimit(100)]
proof fn lemma_inner_cpu_tokens(s: Seq<char>, i: int, v: InnerV)
    requires
        inner_wf(v),
        0 <= i,
        i + json_of_inner(v).len() <= s.len(),
        s.subrange(i, i + json_of_inner(v).len()) == json_of_inner(v),
    ensures
        sp_string(s, i + 18 + dec_signed(v.year).len() + v.price.len()) == Some(
            ("CPU model"@, i + 29 + dec_signed(v.year).len() + v.price.len()),
        ),
        sp_member(s, i + 30 + dec_signed(v.year).len() + v.price.len()) == Some(
            (
                MemberV::S(v.cpu),
                i + 32 + dec_signed(v.year).len() + v.price.len() + esc(v.cpu).len(),
            ),
        ),
{
    reveal_strlit("{\"year\":");
    reveal_strlit(",\"price\":");
    reveal_strlit(",\"CPU model\":\"");
    reveal_strlit("\",\"Hard disk size\":\"");
    reveal_strlit("\"}");
    reveal_strlit("CPU model");
    let jv = json_of_inner(v);
    let n = jv.len() as int;
    let y = dec_signed(v.year);
    let yl = y.len() as int;
    let pl = v.price.len() as int;
    let ecl = esc(v.cpu).len() as int;
    let ehl = esc(v.hard_disk).len() as int;
    let ob = 8 + yl;
    let oc = ob + 9 + pl;
    let od = oc + 14 + ecl;
    let oe = od + 20 + ehl;
    assert(n == oe + 2);
    assert forall|q: int| 0 <= q < n implies #[trigger] jv[q] == s[i + q] by {
        assert(jv[q] == s.subrange(i, i + n)[q]);
    }
    // the member name "CPU model"
    assert(jv[oc + 1] == s[i + (oc + 1)] && jv[oc + 1] == '"');
    assert forall|c: int| 0 <= c < 9 implies s.subrange(i + oc + 2, i + oc + 11)[c] == "CPU model"@[c]
        by {
        assert(jv[oc + 2 + c] == s[i + (oc + 2 + c)]);
        assert(jv[oc + 2 + c] == "CPU model"@[c]);
    }
    assert(s.subrange(i + oc + 2, i + oc + 11) =~= "CPU model"@);
    assert forall|q: int| i + oc + 2 <= q < i + oc + 11 implies (s[q] != '"' && s[q] != '\\'
        && !is_control(s[q])) by {
        assert(s.subrange(i + oc + 2, i + oc + 11)[q - (i + oc + 2)] == "CPU model"@[q - (i + oc
            + 2)]);
    }
    assert(jv[oc + 11] == s[i + (oc + 11)] && jv[oc + 11] == '"');
    lemma_string_local(s, i + oc + 2, i + oc + 11);
    assert(sp_string(s, i + oc + 1) == Some(("CPU model"@, i + oc + 12)));
    // the cpu value, a string
    assert(jv[oc + 13] == s[i + (oc + 13)] && jv[oc + 13] == '"');
    assert forall|c: int| 0 <= c < ecl implies s.subrange(i + oc + 14, i + od)[c] == esc(
        v.cpu,
    )[c] by {
        assert(jv[oc + 14 + c] == s[i + (oc + 14 + c)]);
        assert(jv[oc + 14 + c] == esc(v.cpu)[c]);
    }
    assert(s.subrange(i + oc + 14, i + od) =~= esc(v.cpu));
    assert(jv[od] == s[i + od] && jv[od] == '"');
    lemma_esc_local(s, i + oc + 14, v.cpu);
    assert(sp_string(s, i + oc + 13) == Some((v.cpu, i + od + 1)));
    assert(sp_member(s, i + oc + 13) == Some((MemberV::S(v.cpu), i + od + 1)));
}

/// Reading the cpu member and everything after it in the inner object,
/// from the position after the comma that precedes it.
#[verifier::rlimit(100)]
proof fn lemma_inner_members_tail(s: Seq<char>, i: int, v: InnerV)
    requires
        inner_wf(v),
        0 <= i,
        i + json_of_inner(v).len() <= s.len(),
        s.subrange(i, i + json_of_inner(v).len()) == json_of_inner(v),
    ensures
        sp_inner_items(
            s,
            i + 18 + dec_signed(v.year).len() + v.price.len(),
            (InnerAccV { year: Some(dec_signed(v.year)), price: Some(v.price), cpu: None, hard_disk: None }),
        ) == Some(
            (
                (InnerAccV {
                    year: Some(dec_signed(v.year)),
                    price: Some(v.price),
                    cpu: Some(v.cpu),
                    hard_disk: Some(v.hard_disk),
                }),
                i + json_of_inner(v).len(),
            ),
        ),
{
    reveal_strlit("{\"year\":");
    reveal_strlit(",\"price\":");
    reveal_strlit(",\"CPU model\":\"");
    reveal_strlit("\",\"Hard disk size\":\"");
    reveal_strlit("\"}");
    reveal_strlit("year");
    reveal_strlit("price");
    reveal_strlit("CPU model");
    reveal_strlit("Hard disk size");
    let jv = json_of_inner(v);
    let n = jv.len() as int;
    let y = dec_signed(v.year);
    let yl = y.len() as int;
    let pl = v.price.len() as int;
    let ecl = esc(v.cpu).len() as int;
    let ehl = esc(v.hard_disk).len() as int;
    let ob = 8 + yl;
    let oc = ob + 9 + pl;
    let od = oc + 14 + ecl;
    let oe = od + 20 + ehl;
    assert(n == oe + 2);
    assert forall|q: int| 0 <= q < n implies #[trigger] jv[q] == s[i + q] by {
        assert(jv[q] == s.subrange(i, i + n)[q]);
    }
    let acc2 = InnerAccV { year: Some(y), price: Some(v.price), cpu: None, hard_disk: None };
    lemma_inner_cpu_tokens(s, i, v);
    assert(sp_string(s, i + oc + 1) == Some(("CPU model"@, i + oc + 12)));
    assert(sp_member(s, i + oc + 13) == Some((MemberV::S(v.cpu), i + od + 1)));
    assert(jv[oc + 1] == s[i + (oc + 1)] && jv[oc + 1] == '"');
    assert(sp_ws(s, i + oc + 1) == i + oc + 1);
    assert(jv[oc + 12] == s[i + (oc + 12)] && jv[oc + 12] == ':');
    assert(sp_ws(s, i + oc + 12) == i + oc + 12);
    assert(jv[oc + 13] == s[i + (oc + 13)] && jv[oc + 13] == '"');
    assert(sp_ws(s, i + oc + 13) == i + oc + 13);
    let acc3 = InnerAccV {
        year: Some(y),
        price: Some(v.price),
        cpu: Some(v.cpu),
        hard_disk: None,
    };
    assert("CPU model"@ != "year"@) by {
        assert("CPU model"@.len() == 9);
        assert("year"@.len() == 4);
    }
    assert("CPU model"@ != "price"@) by {
        assert("CPU model"@.len() == 9);
        assert("price"@.len() == 5);
    }
    assert(crate::wire::sp_add_inner(acc2, "CPU model"@, MemberV::S(v.cpu)) == Some(acc3));
    assert(jv[od + 1] == s[i + (od + 1)] && jv[od + 1] == ',');
    assert(sp_ws(s, i + od + 1) == i + od + 1);
    lemma_inner_items_step(s, i + oc + 1, i + oc + 12, "CPU model"@, MemberV::S(v.cpu), i + od + 1, acc2, acc3);
    assert(sp_inner_items(s, i + oc + 1, acc2) == sp_inner_items(s, i + od + 2, acc3));
    lemma_inner_members_last(s, i, v);
    let acc4 = InnerAccV {
        year: Some(y),
        price: Some(v.price),
        cpu: Some(v.cpu),
        hard_disk: Some(v.hard_disk),
    };
    assert(sp_inner_items(s, i + od + 2, acc3) == Some((acc4, i + n)));
}

/// Reading the price member and everything after it in the inner
/// object, from the position after the comma that precedes it.
#[verifier::rlimit(100)]
proof fn lemma_inner_members_mid(s: Seq<char>, i: int, v: InnerV)
    requires
        inner_wf(v),
        0 <= i,
        i + json_of_inner(v).len() <= s.len(),
        s.subrange(i, i + json_of_inner(v).len()) == json_of_inner(v),
    ensures
        sp_inner_items(
            s,
            i + 9 + dec_signed(v.year).len(),
            (InnerAccV { year: Some(dec_signed(v.year)), price: None, cpu: None, hard_disk: None }),
        ) == Some(
            (
                (InnerAccV {
                    year: Some(dec_signed(v.year)),
                    price: Some(v.price),
                    cpu: Some(v.cpu),
                    hard_disk: Some(v.hard_disk),
                }),
                i + json_of_inner(v).len(),
            ),
        ),
{
    reveal_strlit("{\"year\":");
    reveal_strlit(",\"price\":");
    reveal_strlit(",\"CPU model\":\"");
    reveal_strlit("\",\"Hard disk size\":\"");
    reveal_strlit("\"}");
    reveal_strlit("year");
    reveal_strlit("price");
    reveal_strlit("CPU model");
    reveal_strlit("Hard disk size");
    let jv = json_of_inner(v);
    let n = jv.len() as int;
    let y = dec_signed(v.year);
    let yl = y.len() as int;
    let pl = v.price.len() as int;
    let ecl = esc(v.cpu).len() as int;
    let ehl = esc(v.hard_disk).len() as int;
    let ob = 8 + yl;
    let oc = ob + 9 + pl;
    let od = oc + 14 + ecl;
    let oe = od + 20 + ehl;
    lemma_dec_signed_shape(v.year);
    assert(n == oe + 2);
    assert forall|q: int| 0 <= q < n implies #[trigger] jv[q] == s[i + q] by {
        assert(jv[q] == s.subrange(i, i + n)[q]);
    }
    let acc1 = InnerAccV { year: Some(y), price: None, cpu: None, hard_disk: None };
    // the member name "price"
    assert(jv[ob + 1] == s[i + (ob + 1)] && jv[ob + 1] == '"');
    assert(sp_ws(s, i + ob + 1) == i + ob + 1);
    assert forall|c: int| 0 <= c < 5 implies s.subrange(i + ob + 2, i + ob + 7)[c] == "price"@[c]
        by {
        assert(jv[ob + 2 + c] == s[i + (ob + 2 + c)]);
        assert(jv[ob + 2 + c] == "price"@[c]);
    }
    assert(s.subrange(i + ob + 2, i + ob + 7) =~= "price"@);
    assert forall|q: int| i + ob + 2 <= q < i + ob + 7 implies (s[q] != '"' && s[q] != '\\' && !is_control(s[q])) by {
        assert(s.subrange(i + ob + 2, i + ob + 7)[q - (i + ob + 2)] == "price"@[q - (i + ob
            + 2)]);
    }
    assert(jv[ob + 7] == s[i + (ob + 7)] && jv[ob + 7] == '"');
    lemma_string_local(s, i + ob + 2, i + ob + 7);
    assert(sp_string(s, i + ob + 1) == Some(("price"@, i + ob + 8)));
    assert(jv[ob + 8] == s[i + (ob + 8)] && jv[ob + 8] == ':');
    assert(sp_ws(s, i + ob + 8) == i + ob + 8);
    // the price value, a number ended by the comma that follows it
    assert(sp_ws(s, i + ob + 9) == i + ob + 9) by {
        assert(jv[ob + 9] == s[i + (ob + 9)]);
        assert(jv[ob + 9] == v.price[0]);
        assert(v.price[0] == '-' || is_digit(v.price[0]));
    }
    assert forall|c: int| 0 <= c < pl implies s.subrange(i + ob + 9, i + oc)[c] == v.price[c] by {
        assert(jv[ob + 9 + c] == s[i + (ob + 9 + c)]);
        assert(jv[ob + 9 + c] == v.price[c]);
    }
    assert(s.subrange(i + ob + 9, i + oc) =~= v.price);
    assert(jv[oc] == s[i + oc] && jv[oc] == ',');
    lemma_number_local(s, i + ob + 9, v.price);
    assert(v.price[0] == '-' || is_digit(v.price[0]));
    assert(s[i + ob + 9] != '"');
    assert(sp_member(s, i + ob + 9) == Some((MemberV::N(v.price), i + oc)));
    let acc2 = InnerAccV { year: Some(y), price: Some(v.price), cpu: None, hard_disk: None };
    assert("price"@ != "year"@);
    assert(crate::wire::sp_add_inner(acc1, "price"@, MemberV::N(v.price)) == Some(acc2));
    assert(sp_ws(s, i + oc) == i + oc);
    lemma_inner_items_step(s, i + ob + 1, i + ob + 8, "price"@, MemberV::N(v.price), i + oc, acc1, acc2);
    assert(sp_inner_items(s, i + ob + 1, acc1) == sp_inner_items(s, i + oc + 1, acc2));
    lemma_inner_members_tail(s, i, v);
    let acc4 = InnerAccV {
        year: Some(y),
        price: Some(v.price),
        cpu: Some(v.cpu),
        hard_disk: Some(v.hard_disk),
    };
    assert(sp_inner_items(s, i + oc + 1, acc2) == Some((acc4, i + n)));
}

/// Reading the canonical text of a well-formed inner record back, from
/// any position it occupies, yields exactly that record.
#[verifier::rlimit(100)]
pub proof fn lemma_inner_local(s: Seq<char>, i: int, v: InnerV)
    requires
        inner_wf(v),
        0 <= i,
        i + json_of_inner(v).len() <= s.len(),
        s.subrange(i, i + json_of_inner(v).len()) == json_of_inner(v),
    ensures
        sp_inner(s, i) == Some((v, i + json_of_inner(v).len())),
{
    reveal_strlit("{\"year\":");
    reveal_strlit(",\"price\":");
    reveal_strlit(",\"CPU model\":\"");
    reveal_strlit("\",\"Hard disk size\":\"");
    reveal_strlit("\"}");
    reveal_strlit("year");
    reveal_strlit("price");
    reveal_strlit("CPU model");
    reveal_strlit("Hard disk size");
    let jv = json_of_inner(v);
    let n = jv.len() as int;
    let y = dec_signed(v.year);
    let yl = y.len() as int;
    let pl = v.price.len() as int;
    let ecl = esc(v.cpu).len() as int;
    let ehl = esc(v.hard_disk).len() as int;
    let ob = 8 + yl;
    let oc = ob + 9 + pl;
    let od = oc + 14 + ecl;
    let oe = od + 20 + ehl;
    lemma_dec_signed_shape(v.year);
    assert(n == oe + 2);
    assert forall|q: int| 0 <= q < n implies #[trigger] jv[q] == s[i + q] by {
        assert(jv[q] == s.subrange(i, i + n)[q]);
    }
    // the opening brace and the member name "year"
    assert(jv[0] == s[i + 0] && jv[0] == '{');
    assert(jv[1] == s[i + 1] && jv[1] == '"');
    assert(sp_ws(s, i + 1) == i + 1);
    assert forall|c: int| 0 <= c < 4 implies s.subrange(i + 2, i + 6)[c] == "year"@[c] by {
        assert(jv[2 + c] == s[i + (2 + c)]);
        assert(jv[2 + c] == "year"@[c]);
    }
    assert(s.subrange(i + 2, i + 6) =~= "year"@);
    assert forall|q: int| i + 2 <= q < i + 6 implies (s[q] != '"' && s[q] != '\\' && !is_control(s[q])) by {
        assert(s.subrange(i + 2, i + 6)[q - (i + 2)] == "year"@[q - (i + 2)]);
    }
    assert(jv[6] == s[i + 6] && jv[6] == '"');
    lemma_string_local(s, i + 2, i + 6);
    assert(sp_string(s, i + 1) == Some(("year"@, i + 7)));
    assert(jv[7] == s[i + 7] && jv[7] == ':');
    assert(sp_ws(s, i + 7) == i + 7);
    // the year value, a number ended by the comma that follows it
    assert(sp_ws(s, i + 8) == i + 8) by {
        assert(jv[8] == s[i + 8]);
        assert(jv[8] == y[0]);
    }
    assert forall|c: int| 0 <= c < yl implies s.subrange(i + 8, i + 8 + yl)[c] == y[c] by {
        assert(jv[8 + c] == s[i + (8 + c)]);
        assert(jv[8 + c] == y[c]);
    }
    assert(s.subrange(i + 8, i + 8 + yl) =~= y);
    assert(jv[ob] == s[i + ob] && jv[ob] == ',');
    lemma_number_local(s, i + 8, y);
    assert(s[i + 8] != '"');
    assert(sp_member(s, i + 8) == Some((MemberV::N(y), i + ob)));
    let acc1 = InnerAccV { year: Some(y), price: None, cpu: None, hard_disk: None };
    assert(crate::wire::sp_add_inner(inner_acc_empty(), "year"@, MemberV::N(y)) == Some(acc1));
    assert(sp_ws(s, i + ob) == i + ob);
    lemma_inner_items_step(s, i + 1, i + 7, "year"@, MemberV::N(y), i + ob, inner_acc_empty(), acc1);
    assert(sp_inner_items(s, i + 1, inner_acc_empty()) == sp_inner_items(s, i + ob + 1, acc1));
    lemma_inner_members_mid(s, i, v);
    let acc4 = InnerAccV {
        year: Some(y),
        price: Some(v.price),
        cpu: Some(v.cpu),
        hard_disk: Some(v.hard_disk),
    };
    assert(sp_inner_items(s, i + ob + 1, acc1) == Some((acc4, i + n)));
    assert(sp_inner_obj(s, i) == Some((acc4, i + n)));
    lemma_int_text_round_trip(v.year);
    assert(sp_bind_inner(acc4) == Some(v));
    assert(sp_inner(s, i) == Some((v, i + n)));
}



/// A resource every field of which can stand on the wire.
pub open spec fn data_wf(d: DataV) -> bool {
    &&& text_wf(d.id)
    &&& text_wf(d.name)
    &&& inner_wf(d.data)
}

/// The canonical wire text of a resource: its members in one fixed
/// order, without whitespace.
pub open spec fn json_of(d: DataV) -> Seq<char> {
    "{\"id\":\""@ + esc(d.id) + "\",\"name\":\""@ + esc(d.name) + "\",\"data\":"@ + json_of_inner(
        d.data,
    ) + "}"@
}

/// The round trip: a well-formed resource, rendered to its wire text and
/// read back, comes back whole — every field exactly equal.
#[verifier::rlimit(100)]
pub proof fn lemma_wire_round_trip(d: DataV)
    requires
        data_wf(d),
    ensures
        sp_data(json_of(d)) == Some(d),
{
    reveal_strlit("{\"id\":\"");
    reveal_strlit("\",\"name\":\"");
    reveal_strlit("\",\"data\":");
    reveal_strlit("}");
    reveal_strlit("id");
    reveal_strlit("name");
    reveal_strlit("data");
    let s = json_of(d);
    let n = s.len() as int;
    let eil = esc(d.id).len() as int;
    let enl = esc(d.name).len() as int;
    let iv = json_of_inner(d.data);
    let ll = iv.len() as int;
    let og = 7 + eil;
    let oh = og + 10 + enl;
    let oi = oh + 9;
    assert(n == oi + ll + 1);
    // the opening brace and the member name "id"
    assert(s[0] == '{');
    assert(s[1] == '"');
    assert(sp_ws(s, 0) == 0);
    assert(sp_ws(s, 1) == 1);
    assert forall|c: int| 0 <= c < 2 implies s.subrange(2, 4)[c] == "id"@[c] by {
        assert(s[2 + c] == "id"@[c]);
    }
    assert(s.subrange(2, 4) =~= "id"@);
    assert forall|q: int| 2 <= q < 4 implies (s[q] != '"' && s[q] != '\\' && !is_control(s[q])) by {
        assert(s.subrange(2, 4)[q - 2] == "id"@[q - 2]);
    }
    assert(s[4] == '"');
    lemma_string_local(s, 2, 4);
    assert(sp_string(s, 1) == Some(("id"@, 5int)));
    assert(s[5] == ':');
    assert(sp_ws(s, 5) == 5);
    // the id value, a string
    assert(s[6] == '"');
    assert(sp_ws(s, 6) == 6);
    assert forall|c: int| 0 <= c < eil implies s.subrange(7, og)[c] == esc(d.id)[c] by {
        assert(s[7 + c] == esc(d.id)[c]);
    }
    assert(s.subrange(7, og) =~= esc(d.id));
    assert(s[og] == '"');
    lemma_esc_local(s, 7, d.id);
    assert(sp_string(s, 6) == Some((d.id, og + 1)));
    assert(sp_member(s, 6) == Some((MemberV::S(d.id), og + 1)));
    assert("id"@ != "data"@);
    let acc1 = TopAccV { id: Some(d.id), name: None, data: None };
    assert(crate::wire::sp_add_top(top_acc_empty(), "id"@, MemberV::S(d.id)) == Some(acc1));
    assert(s[og + 1] == ',');
    assert(sp_ws(s, og + 1) == og + 1);
    lemma_top_items_step(s, 1, 5, "id"@, MemberV::S(d.id), og + 1, top_acc_empty(), acc1);
    assert(sp_top_items(s, 1, top_acc_empty()) == sp_top_items(s, og + 2, acc1));
    // the member name "name"
    assert(s[og + 2] == '"');
    assert(sp_ws(s, og + 2) == og + 2);
    assert forall|c: int| 0 <= c < 4 implies s.subrange(og + 3, og + 7)[c] == "name"@[c] by {
        assert(s[og + 3 + c] == "name"@[c]);
    }
    assert(s.subrange(og + 3, og + 7) =~= "name"@);
    assert forall|q: int| og + 3 <= q < og + 7 implies (s[q] != '"' && s[q] != '\\' && !is_control(s[q])) by {
        assert(s.subrange(og + 3, og + 7)[q - (og + 3)] == "name"@[q - (og + 3)]);
    }
    assert(s[og + 7] == '"');
    lemma_string_local(s, og + 3, og + 7);
    assert(sp_string(s, og + 2) == Some(("name"@, og + 8)));
    assert(s[og + 8] == ':');
    assert(sp_ws(s, og + 8) == og + 8);
    // the name value, a string
    assert(s[og + 9] == '"');
    assert(sp_ws(s, og + 9) == og + 9);
    assert forall|c: int| 0 <= c < enl implies s.subrange(og + 10, oh)[c] == esc(d.name)[c] by {
        assert(s[og + 10 + c] == esc(d.name)[c]);
    }
    assert(s.subrange(og + 10, oh) =~= esc(d.name));
    assert(s[oh] == '"');
    lemma_esc_local(s, og + 10, d.name);
    assert(sp_string(s, og + 9) == Some((d.name, oh + 1)));
    assert(sp_member(s, og + 9) == Some((MemberV::S(d.name), oh + 1)));
    assert("name"@ != "data"@) by {
        assert("name"@[0] == 'n');
        assert("data"@[0] == 'd');
    }
    assert("name"@ != "id"@);
    let acc2 = TopAccV { id: Some(d.id), name: Some(d.name), data: None };
    assert(crate::wire::sp_add_top(acc1, "name"@, MemberV::S(d.name)) == Some(acc2));
    assert(s[oh + 1] == ',');
    assert(sp_ws(s, oh + 1) == oh + 1);
    lemma_top_items_step(s, og + 2, og + 8, "name"@, MemberV::S(d.name), oh + 1, acc1, acc2);
    assert(sp_top_items(s, og + 2, acc1) == sp_top_items(s, oh + 2, acc2));
    // the member name "data", and the inner record in place
    assert(s[oh + 2] == '"');
    assert(sp_ws(s, oh + 2) == oh + 2);
    assert forall|c: int| 0 <= c < 4 implies s.subrange(oh + 3, oh + 7)[c] == "data"@[c] by {
        assert(s[oh + 3 + c] == "data"@[c]);
    }
    assert(s.subrange(oh + 3, oh + 7) =~= "data"@);
    assert forall|q: int| oh + 3 <= q < oh + 7 implies (s[q] != '"' && s[q] != '\\' && !is_control(s[q])) by {
        assert(s.subrange(oh + 3, oh + 7)[q - (oh + 3)] == "data"@[q - (oh + 3)]);
    }
    assert(s[oh + 7] == '"');
    lemma_string_local(s, oh + 3, oh + 7);
    assert(sp_string(s, oh + 2) == Some(("data"@, oh + 8)));
    assert(s[oh + 8] == ':');
    assert(sp_ws(s, oh + 8) == oh + 8);
    assert(s[oi] == iv[0]);
    assert(iv[0] == '{') by {
        reveal_strlit("{\"year\":");
    }
    assert(sp_ws(s, oi) == oi);
    assert forall|c: int| 0 <= c < ll implies s.subrange(oi, oi + ll)[c] == iv[c] by {
        assert(s[oi + c] == iv[c]);
    }
    assert(s.subrange(oi, oi + ll) =~= iv);
    lemma_inner_local(s, oi, d.data);
    assert(sp_inner(s, oi) == Some((d.data, oi + ll)));
    let acc3 = TopAccV { id: Some(d.id), name: Some(d.name), data: Some(d.data) };
    // the closing brace, and the resource the members bind to
    assert(s[oi + ll] == '}');
    assert(sp_ws(s, oi + ll) == oi + ll);
    lemma_top_items_data_end(s, oh + 2, oh + 8, d.data, oi + ll, acc2);
    assert(sp_top_items(s, oh + 2, acc2) == Some((acc3, n)));
    assert(sp_top_obj(s, 0) == Some((acc3, n)));
    assert(sp_ws(s, n) == n);
    assert(sp_bind_top(acc3) == Some(d));
    assert(sp_data(s) == Some(d));
}

} // verus!
