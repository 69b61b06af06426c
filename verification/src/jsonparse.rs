//! Reading JSON text back as a value: a parser for JSON text, and the laws
//! that it reads the pretty-printed text of every value back as that value,
//! and the JSON text of a topology back as the topology's value.
use vstd::prelude::*;
use crate::json::{comma, escape, escape_char, hex_lower, ind, jstr, json_topology};
use crate::jsonread::{lemma_escape_front, lemma_unescape_escape, unescape};
use crate::jsonvalue::{elems_text, lemma_topology_value, members_text, pretty, topology_value, JsonValue};
use crate::text::{dec, digit_char};
use crate::types::SpecTopology;

verus! {

// ---------------------------------------------------------------------------
// The parser
// ---------------------------------------------------------------------------
pub open spec fn is_ws(c: char) -> bool {
    c == ' ' || c == '\n' || c == '\t' || c == '\r'
}

pub open spec fn is_digit(c: char) -> bool {
    '0' <= c && c <= '9'
}

/// The text after the whitespace at its start.
pub open spec fn skip_ws(t: Seq<char>) -> Seq<char>
    decreases t.len(),
{
    if t.len() > 0 && is_ws(t[0]) {
        skip_ws(t.drop_first())
    } else {
        t
    }
}

pub open spec fn starts_with(t: Seq<char>, w: Seq<char>) -> bool {
    t.len() >= w.len() && t.take(w.len() as int) == w
}

/// How many digits stand at the start of `t`.
pub open spec fn digit_run(t: Seq<char>) -> nat
    decreases t.len(),
{
    if t.len() > 0 && is_digit(t[0]) {
        1 + digit_run(t.drop_first())
    } else {
        0
    }
}

/// The number that a run of decimal digits denotes.
pub open spec fn digits_value(ds: Seq<char>) -> nat
    decreases ds.len(),
{
    if ds.len() == 0 {
        0
    } else {
        digits_value(ds.drop_last()) * 10 + (ds.last() as int - '0' as int) as nat
    }
}

/// An integer: an optional minus sign and at least one digit. (The numbers of
/// this library's text are all integers; fractions and exponents are not read.)
pub open spec fn parse_number(t: Seq<char>) -> Option<(JsonValue, Seq<char>)> {
    if t.len() > 0 && t[0] == '-' {
        let u = t.drop_first();
        let n = digit_run(u);
        if n > 0 {
            Some((JsonValue::Number(-(digits_value(u.take(n as int)) as int)), u.skip(n as int)))
        } else {
            None
        }
    } else {
        let n = digit_run(t);
        if n > 0 {
            Some((JsonValue::Number(digits_value(t.take(n as int)) as int), t.skip(n as int)))
        } else {
            None
        }
    }
}

/// The length of the body of a string literal whose opening quote stands just
/// before `t`: up to the first quote that no backslash escapes; no control
/// character may stand in it.
pub open spec fn str_len(t: Seq<char>) -> Option<nat>
    decreases t.len(),
{
    if t.len() == 0 {
        None
    } else if t[0] == '"' {
        Some(0)
    } else if (t[0] as u32) < 0x20 {
        None
    } else if t[0] == '\\' {
        if t.len() >= 2 {
            match str_len(t.skip(2)) {
                Some(n) => Some(n + 2),
                None => None,
            }
        } else {
            None
        }
    } else {
        match str_len(t.drop_first()) {
            Some(n) => Some(n + 1),
            None => None,
        }
    }
}

/// The string whose literal's opening quote stands just before `t`, and the
/// text after its closing quote.
pub open spec fn parse_string(t: Seq<char>) -> Option<(Seq<char>, Seq<char>)> {
    match str_len(t) {
        Some(n) => Some((unescape(t.take(n as int)), t.skip(n as int + 1))),
        None => None,
    }
}

/// Skipping whitespace never lengthens the text.
pub proof fn lemma_skip_ws_len(t: Seq<char>)
    ensures
        skip_ws(t).len() <= t.len(),
    decreases t.len(),
{
    if t.len() > 0 && is_ws(t[0]) {
        lemma_skip_ws_len(t.drop_first());
    }
}

/// The value at the start of `t`, and the text after it.
#[verifier::opaque]
pub open spec fn parse_value(t: Seq<char>) -> Option<(JsonValue, Seq<char>)>
    decreases t.len(), 0int,
{
    if t.len() == 0 {
        None
    } else if t[0] == 'n' {
        if starts_with(t, "null"@) {
            Some((JsonValue::Null, t.skip(4)))
        } else {
            None
        }
    } else if t[0] == 't' {
        if starts_with(t, "true"@) {
            Some((JsonValue::Bool(true), t.skip(4)))
        } else {
            None
        }
    } else if t[0] == 'f' {
        if starts_with(t, "false"@) {
            Some((JsonValue::Bool(false), t.skip(5)))
        } else {
            None
        }
    } else if t[0] == '"' {
        match parse_string(t.drop_first()) {
            Some((s, r)) => Some((JsonValue::Str(s), r)),
            None => None,
        }
    } else if t[0] == '[' {
        let r = skip_ws(t.drop_first());
        if r.len() > 0 && r[0] == ']' {
            Some((JsonValue::Array(Seq::empty()), r.drop_first()))
        } else {
            proof {
                lemma_skip_ws_len(t.drop_first());
            }
            parse_elems(r, Seq::empty())
        }
    } else if t[0] == '{' {
        let r = skip_ws(t.drop_first());
        if r.len() > 0 && r[0] == '}' {
            Some((JsonValue::Object(Seq::empty()), r.drop_first()))
        } else {
            proof {
                lemma_skip_ws_len(t.drop_first());
            }
            parse_members(r, Seq::empty())
        }
    } else {
        parse_number(t)
    }
}

/// The rest of an array whose elements so far are `acc`, from the next
/// element on.
#[verifier::opaque]
pub open spec fn parse_elems(t: Seq<char>, acc: Seq<JsonValue>) -> Option<(JsonValue, Seq<char>)>
    decreases t.len(), 1int,
{
    match parse_value(t) {
        Some((v, r)) => if r.len() < t.len() {
            let r2 = skip_ws(r);
            proof {
                lemma_skip_ws_len(r);
            }
            if r2.len() > 0 && r2[0] == ',' {
                proof {
                    lemma_skip_ws_len(r2.drop_first());
                }
                parse_elems(skip_ws(r2.drop_first()), acc.push(v))
            } else if r2.len() > 0 && r2[0] == ']' {
                Some((JsonValue::Array(acc.push(v)), r2.drop_first()))
            } else {
                None
            }
        } else {
            None
        },
        None => None,
    }
}

/// The rest of an object whose members so far are `acc`, from the next
/// member on.
#[verifier::opaque]
pub open spec fn parse_members(t: Seq<char>, acc: Seq<(Seq<char>, JsonValue)>) -> Option<
    (JsonValue, Seq<char>),
>
    decreases t.len(), 1int,
{
    if t.len() > 0 && t[0] == '"' {
        match parse_string(t.drop_first()) {
            Some((k, r)) => {
                let r1 = skip_ws(r);
                if r1.len() > 0 && r1[0] == ':' {
                    let r2 = skip_ws(r1.drop_first());
                    if r2.len() < t.len() {
                        match parse_value(r2) {
                            Some((v, r3)) => if r3.len() < r2.len() {
                                let r4 = skip_ws(r3);
                                proof {
                                    lemma_skip_ws_len(r3);
                                }
                                if r4.len() > 0 && r4[0] == ',' {
                                    proof {
                                        lemma_skip_ws_len(r4.drop_first());
                                    }
                                    parse_members(skip_ws(r4.drop_first()), acc.push((k, v)))
                                } else if r4.len() > 0 && r4[0] == '}' {
                                    Some((JsonValue::Object(acc.push((k, v))), r4.drop_first()))
                                } else {
                                    None
                                }
                            } else {
                                None
                            },
                            None => None,
                        }
                    } else {
                        None
                    }
                } else {
                    None
                }
            },
            None => None,
        }
    } else {
        None
    }
}

/// The value that a JSON text holds: one value, with nothing but whitespace
/// around it.
pub open spec fn parse_json(t: Seq<char>) -> Option<JsonValue> {
    match parse_value(skip_ws(t)) {
        Some((v, r)) => if skip_ws(r).len() == 0 {
            Some(v)
        } else {
            None
        },
        None => None,
    }
}

// ---------------------------------------------------------------------------
// Pieces of the pretty-printed text read back
// ---------------------------------------------------------------------------
proof fn lemma_skip_ws(w: Seq<char>, x: Seq<char>)
    requires
        forall|i: int| 0 <= i < w.len() ==> is_ws(#[trigger] w[i]),
        x.len() == 0 || !is_ws(x[0]),
    ensures
        skip_ws(w + x) == x,
    decreases w.len(),
{
    if w.len() == 0 {
        assert(w + x =~= x);
    } else {
        assert((w + x)[0] == w[0]);
        assert((w + x).drop_first() =~= w.drop_first() + x);
        lemma_skip_ws(w.drop_first(), x);
    }
}

proof fn lemma_ind_ws(d: nat)
    ensures
        forall|i: int| 0 <= i < ind(d).len() ==> is_ws(#[trigger] ind(d)[i]),
    decreases d,
{
    if d > 0 {
        lemma_ind_ws((d - 1) as nat);
        reveal_strlit("  ");
        assert forall|i: int| 0 <= i < ind(d).len() implies is_ws(#[trigger] ind(d)[i]) by {
            if i < ind((d - 1) as nat).len() {
                assert(ind(d)[i] == ind((d - 1) as nat)[i]);
            } else {
                assert(ind(d)[i] == "  "@[i - ind((d - 1) as nat).len()]);
            }
        }
    }
}

/// Whitespace made of a line break and indentation.
proof fn lemma_nl_ind_ws(d: nat)
    ensures
        forall|i: int| 0 <= i < (seq!['\n'] + ind(d)).len() ==> is_ws(#[trigger] (seq!['\n'] + ind(d))[i]),
{
    lemma_ind_ws(d);
    assert forall|i: int| 0 <= i < (seq!['\n'] + ind(d)).len() implies is_ws(#[trigger] (seq!['\n'] + ind(d))[i]) by {
        if i > 0 {
            assert((seq!['\n'] + ind(d))[i] == ind(d)[i - 1]);
        }
    }
}

proof fn lemma_dec_digits(n: nat)
    ensures
        dec(n).len() > 0,
        forall|i: int| 0 <= i < dec(n).len() ==> is_digit(#[trigger] dec(n)[i]),
        digits_value(dec(n)) == n,
    decreases n,
{
    if n >= 10 {
        lemma_dec_digits(n / 10);
        assert(dec(n).drop_last() =~= dec(n / 10));
        assert(dec(n).last() == digit_char(n % 10));
        assert(digit_char(n % 10) as int - '0' as int == n % 10);
        assert((n / 10) * 10 + n % 10 == n);
        assert(digits_value(dec(n)) == digits_value(dec(n / 10)) * 10 + (n % 10));
        assert forall|i: int| 0 <= i < dec(n).len() implies is_digit(#[trigger] dec(n)[i]) by {
            if i < dec(n / 10).len() {
                assert(dec(n)[i] == dec(n / 10)[i]);
            }
        }
    } else {
        assert(dec(n).drop_last() =~= Seq::<char>::empty());
        assert(dec(n).last() == digit_char(n));
        assert(digit_char(n) as int - '0' as int == n);
        assert(digits_value(dec(n).drop_last()) == 0);
        assert(digits_value(dec(n)) == 0 * 10 + n);
    }
}

proof fn lemma_digit_run(ds: Seq<char>, rest: Seq<char>)
    requires
        forall|i: int| 0 <= i < ds.len() ==> is_digit(#[trigger] ds[i]),
        rest.len() == 0 || !is_digit(rest[0]),
    ensures
        digit_run(ds + rest) == ds.len(),
    decreases ds.len(),
{
    if ds.len() == 0 {
        assert(ds + rest =~= rest);
    } else {
        assert((ds + rest)[0] == ds[0]);
        assert((ds + rest).drop_first() =~= ds.drop_first() + rest);
        assert forall|i: int| 0 <= i < ds.drop_first().len() implies is_digit(#[trigger] ds.drop_first()[i]) by {
            assert(ds.drop_first()[i] == ds[i + 1]);
        }
        lemma_digit_run(ds.drop_first(), rest);
    }
}

proof fn lemma_parse_dec(n: nat, rest: Seq<char>)
    requires
        rest.len() == 0 || !is_digit(rest[0]),
    ensures
        digit_run(dec(n) + rest) == dec(n).len(),
        (dec(n) + rest).take(dec(n).len() as int) == dec(n),
        (dec(n) + rest).skip(dec(n).len() as int) == rest,
        digits_value(dec(n)) == n,
        is_digit((dec(n) + rest)[0]),
{
    lemma_dec_digits(n);
    lemma_digit_run(dec(n), rest);
    assert((dec(n) + rest).take(dec(n).len() as int) =~= dec(n));
    assert((dec(n) + rest).skip(dec(n).len() as int) =~= rest);
    assert((dec(n) + rest)[0] == dec(n)[0]);
}

proof fn lemma_hex_plain(d: nat)
    requires
        d < 16,
    ensures
        hex_lower(d) != '"',
        hex_lower(d) != '\\',
        !((hex_lower(d) as u32) < 0x20),
{
}

/// The body of a string literal ends at the quote after the escaped text.
proof fn lemma_str_len(s: Seq<char>, rest: Seq<char>)
    ensures
        str_len(escape(s) + seq!['"'] + rest) == Some(escape(s).len()),
    decreases s.len(),
{
    let t = escape(s) + seq!['"'] + rest;
    if s.len() == 0 {
        assert(escape(s) =~= Seq::<char>::empty());
        assert(t[0] == '"');
    } else {
        lemma_escape_front(s);
        lemma_str_len(s.drop_first(), rest);
        let c = s[0];
        let ec = escape_char(c);
        let x = escape(s.drop_first()) + seq!['"'] + rest;
        assert(t =~= ec + x);
        if c == '"' || c == '\\' || c == '\n' || c == '\r' || c == '\t' || c == '\x08' || c == '\x0c' {
            assert(t[0] == '\\');
            assert(t.skip(2) =~= x);
        } else if (c as u32) < 0x20 {
            let h1 = hex_lower((c as u32 / 16) as nat);
            let h2 = hex_lower((c as u32 % 16) as nat);
            lemma_hex_plain((c as u32 / 16) as nat);
            lemma_hex_plain((c as u32 % 16) as nat);
            let y = t.skip(2);
            assert(y =~= seq!['0', '0', h1, h2] + x);
            let y1 = y.drop_first();
            let y2 = y1.drop_first();
            let y3 = y2.drop_first();
            let y4 = y3.drop_first();
            assert(y4 =~= x);
            assert(y3[0] == h2);
            assert(str_len(y3) == Some(escape(s.drop_first()).len() + 1));
            assert(y2[0] == h1);
            assert(str_len(y2) == Some(escape(s.drop_first()).len() + 2));
            assert(y1[0] == '0');
            assert(str_len(y1) == Some(escape(s.drop_first()).len() + 3));
            assert(y[0] == '0');
            assert(str_len(y) == Some(escape(s.drop_first()).len() + 4));
            assert(t[0] == '\\');
        } else {
            assert(t[0] == c);
            assert(t.drop_first() =~= x);
        }
    }
}

/// A string literal reads back as its string.
proof fn lemma_parse_string(s: Seq<char>, rest: Seq<char>)
    ensures
        parse_string(escape(s) + seq!['"'] + rest) == Some((s, rest)),
{
    lemma_str_len(s, rest);
    lemma_unescape_escape(s);
    let t = escape(s) + seq!['"'] + rest;
    assert(t.take(escape(s).len() as int) =~= escape(s));
    assert(t.skip(escape(s).len() as int + 1) =~= rest);
}

// ---------------------------------------------------------------------------
// The text of arrays and objects read from the front
// ---------------------------------------------------------------------------
/// The elements of an array from the `i`-th on, one to a line at level `d`.
pub open spec fn elems_from(items: Seq<JsonValue>, i: int, d: nat) -> Seq<char>
    decreases items.len() - i,
{
    if i < 0 || i >= items.len() {
        Seq::empty()
    } else {
        ind(d) + pretty(items[i], d) + comma(i + 1 < items.len()) + seq!['\n'] + elems_from(items, i + 1, d)
    }
}

/// The members of an object from the `i`-th on, one to a line at level `d`.
pub open spec fn members_from(ms: Seq<(Seq<char>, JsonValue)>, i: int, d: nat) -> Seq<char>
    decreases ms.len() - i,
{
    if i < 0 || i >= ms.len() {
        Seq::empty()
    } else {
        ind(d) + jstr(ms[i].0) + seq![':', ' '] + pretty(ms[i].1, d) + comma(i + 1 < ms.len()) + seq!['\n']
            + members_from(ms, i + 1, d)
    }
}

proof fn lemma_elems_front(items: Seq<JsonValue>, k: int, d: nat)
    requires
        0 <= k <= items.len(),
    ensures
        elems_text(items, k, d) + elems_from(items, k, d) == elems_from(items, 0, d),
    decreases k,
{
    if k == 0 {
        assert(elems_text(items, 0, d) + elems_from(items, 0, d) =~= elems_from(items, 0, d));
    } else {
        lemma_elems_front(items, k - 1, d);
        assert(elems_text(items, k, d) + elems_from(items, k, d) =~= elems_text(items, k - 1, d) + elems_from(
            items,
            k - 1,
            d,
        ));
    }
}

proof fn lemma_members_front(ms: Seq<(Seq<char>, JsonValue)>, k: int, d: nat)
    requires
        0 <= k <= ms.len(),
    ensures
        members_text(ms, k, d) + members_from(ms, k, d) == members_from(ms, 0, d),
    decreases k,
{
    if k == 0 {
        assert(members_text(ms, 0, d) + members_from(ms, 0, d) =~= members_from(ms, 0, d));
    } else {
        lemma_members_front(ms, k - 1, d);
        assert(members_text(ms, k, d) + members_from(ms, k, d) =~= members_text(ms, k - 1, d) + members_from(
            ms,
            k - 1,
            d,
        ));
    }
}

/// The text of a value starts with what tells its kind: no whitespace, no
/// closing bracket, no comma.
proof fn lemma_pretty_head(v: JsonValue, d: nat)
    ensures
        pretty(v, d).len() > 0,
        !is_ws(pretty(v, d)[0]),
        pretty(v, d)[0] != ']',
        pretty(v, d)[0] != '}',
        pretty(v, d)[0] != ',',
{
    match v {
        JsonValue::Null => {
            reveal_strlit("null");
        },
        JsonValue::Bool(b) => {
            reveal_strlit("true");
            reveal_strlit("false");
        },
        JsonValue::Number(n) => {
            if n >= 0 {
                lemma_dec_digits(n as nat);
                assert(is_digit(dec(n as nat)[0]));
            }
        },
        JsonValue::Str(s) => {},
        JsonValue::Array(items) => {
            reveal_strlit("[]");
        },
        JsonValue::Object(ms) => {
            reveal_strlit("{}");
        },
    }
}

// ---------------------------------------------------------------------------
// One step of the parser
// ---------------------------------------------------------------------------
proof fn lemma_pv_array(t: Seq<char>)
    requires
        t.len() > 0,
        t[0] == '[',
    ensures
        parse_value(t) == (if skip_ws(t.drop_first()).len() > 0 && skip_ws(t.drop_first())[0] == ']' {
            Some((JsonValue::Array(Seq::empty()), skip_ws(t.drop_first()).drop_first()))
        } else {
            parse_elems(skip_ws(t.drop_first()), Seq::empty())
        }),
{
    reveal(parse_value);
    reveal(parse_elems);
    reveal(parse_members);
}

proof fn lemma_pv_object(t: Seq<char>)
    requires
        t.len() > 0,
        t[0] == '{',
    ensures
        parse_value(t) == (if skip_ws(t.drop_first()).len() > 0 && skip_ws(t.drop_first())[0] == '}' {
            Some((JsonValue::Object(Seq::empty()), skip_ws(t.drop_first()).drop_first()))
        } else {
            parse_members(skip_ws(t.drop_first()), Seq::empty())
        }),
{
    reveal(parse_value);
    reveal(parse_elems);
    reveal(parse_members);
}

proof fn lemma_pe_step(t: Seq<char>, acc: Seq<JsonValue>, v: JsonValue, r: Seq<char>)
    requires
        parse_value(t) == Some((v, r)),
        r.len() < t.len(),
    ensures
        parse_elems(t, acc) == (if skip_ws(r).len() > 0 && skip_ws(r)[0] == ',' {
            parse_elems(skip_ws(skip_ws(r).drop_first()), acc.push(v))
        } else if skip_ws(r).len() > 0 && skip_ws(r)[0] == ']' {
            Some((JsonValue::Array(acc.push(v)), skip_ws(r).drop_first()))
        } else {
            None
        }),
{
    reveal(parse_value);
    reveal(parse_elems);
    reveal(parse_members);
}

proof fn lemma_pm_step(
    t: Seq<char>,
    acc: Seq<(Seq<char>, JsonValue)>,
    k: Seq<char>,
    r: Seq<char>,
    v: JsonValue,
    r3: Seq<char>,
)
    requires
        t.len() > 0,
        t[0] == '"',
        parse_string(t.drop_first()) == Some((k, r)),
        skip_ws(r).len() > 0,
        skip_ws(r)[0] == ':',
        skip_ws(skip_ws(r).drop_first()).len() < t.len(),
        parse_value(skip_ws(skip_ws(r).drop_first())) == Some((v, r3)),
        r3.len() < skip_ws(skip_ws(r).drop_first()).len(),
    ensures
        parse_members(t, acc) == (if skip_ws(r3).len() > 0 && skip_ws(r3)[0] == ',' {
            parse_members(skip_ws(skip_ws(r3).drop_first()), acc.push((k, v)))
        } else if skip_ws(r3).len() > 0 && skip_ws(r3)[0] == '}' {
            Some((JsonValue::Object(acc.push((k, v))), skip_ws(r3).drop_first()))
        } else {
            None
        }),
{
    reveal(parse_value);
    reveal(parse_elems);
    reveal(parse_members);
}

// ---------------------------------------------------------------------------
// Every value read back
// ---------------------------------------------------------------------------
proof fn lemma_parse_scalar(v: JsonValue, d: nat, rest: Seq<char>)
    requires
        rest.len() == 0 || !is_digit(rest[0]),
        !(v is Array),
        !(v is Object),
    ensures
        parse_value(pretty(v, d) + rest) == Some((v, rest)),
{
    reveal_with_fuel(parse_value, 2);
    let t = pretty(v, d) + rest;
    match v {
        JsonValue::Null => {
            reveal_strlit("null");
            assert(t[0] == 'n');
            assert(t.take(4) =~= "null"@);
            assert(t.skip(4) =~= rest);
        },
        JsonValue::Bool(b) => {
            reveal_strlit("true");
            reveal_strlit("false");
            if b {
                assert(t[0] == 't');
                assert(t.take(4) =~= "true"@);
                assert(t.skip(4) =~= rest);
            } else {
                assert(t[0] == 'f');
                assert(t.take(5) =~= "false"@);
                assert(t.skip(5) =~= rest);
            }
        },
        JsonValue::Number(n) => {
            if n >= 0 {
                lemma_parse_dec(n as nat, rest);
                assert(t == dec(n as nat) + rest);
            } else {
                let m = (-n) as nat;
                lemma_parse_dec(m, rest);
                assert(t =~= seq!['-'] + (dec(m) + rest));
                assert(t.drop_first() =~= dec(m) + rest);
            }
        },
        JsonValue::Str(s) => {
            lemma_parse_string(s, rest);
            assert(t[0] == '"');
            assert(t.drop_first() =~= escape(s) + seq!['"'] + rest);
        },
        _ => {},
    }
}

proof fn lemma_parse_pretty(v: JsonValue, d: nat, rest: Seq<char>)
    requires
        rest.len() == 0 || !is_digit(rest[0]),
    ensures
        parse_value(pretty(v, d) + rest) == Some((v, rest)),
    decreases v, 0int,
{
    match v {
        JsonValue::Array(items) => lemma_parse_array(items, d, rest),
        JsonValue::Object(ms) => lemma_parse_object(ms, d, rest),
        _ => lemma_parse_scalar(v, d, rest),
    }
}

#[verifier::spinoff_prover]
#[verifier::rlimit(60)]
proof fn lemma_parse_array(items: Seq<JsonValue>, d: nat, rest: Seq<char>)
    ensures
        parse_value(pretty(JsonValue::Array(items), d) + rest) == Some((JsonValue::Array(items), rest)),
    decreases items, items.len() + 1,
{
    let t = pretty(JsonValue::Array(items), d) + rest;
    if items.len() == 0 {
        reveal_strlit("[]");
        assert(t[0] == '[');
        lemma_pv_array(t);
        assert(t.drop_first() =~= seq![']'] + rest);
        lemma_skip_ws(Seq::empty(), seq![']'] + rest);
        assert(Seq::<char>::empty() + (seq![']'] + rest) =~= seq![']'] + rest);
        assert(items =~= Seq::<JsonValue>::empty());
        assert((seq![']'] + rest).drop_first() =~= rest);
    } else {
        let n = items.len() as int;
        lemma_elems_front(items, n, d + 1);
        assert(elems_from(items, n, d + 1) =~= Seq::<char>::empty());
        let tail = pretty(items[0], d + 1) + comma(1 < n) + seq!['\n'] + elems_from(items, 1, d + 1) + ind(d)
            + seq![']'] + rest;
        assert(t[0] == '[');
        lemma_pv_array(t);
        assert(t.drop_first() =~= seq!['\n'] + ind(d + 1) + tail);
        lemma_nl_ind_ws(d + 1);
        lemma_pretty_head(items[0], d + 1);
        lemma_skip_ws(seq!['\n'] + ind(d + 1), tail);
        lemma_parse_elems(items, 0, d, rest);
        assert(items.take(0) =~= Seq::<JsonValue>::empty());
    }
}

#[verifier::spinoff_prover]
#[verifier::rlimit(60)]
proof fn lemma_parse_object(ms: Seq<(Seq<char>, JsonValue)>, d: nat, rest: Seq<char>)
    ensures
        parse_value(pretty(JsonValue::Object(ms), d) + rest) == Some((JsonValue::Object(ms), rest)),
    decreases ms, ms.len() + 1,
{
    let t = pretty(JsonValue::Object(ms), d) + rest;
    if ms.len() == 0 {
        reveal_strlit("{}");
        assert(t[0] == '{');
        lemma_pv_object(t);
        assert(t.drop_first() =~= seq!['}'] + rest);
        lemma_skip_ws(Seq::empty(), seq!['}'] + rest);
        assert(Seq::<char>::empty() + (seq!['}'] + rest) =~= seq!['}'] + rest);
        assert(ms =~= Seq::<(Seq<char>, JsonValue)>::empty());
        assert((seq!['}'] + rest).drop_first() =~= rest);
    } else {
        let n = ms.len() as int;
        lemma_members_front(ms, n, d + 1);
        assert(members_from(ms, n, d + 1) =~= Seq::<char>::empty());
        let tail = jstr(ms[0].0) + seq![':', ' '] + pretty(ms[0].1, d + 1) + comma(1 < n) + seq!['\n']
            + members_from(ms, 1, d + 1) + ind(d) + seq!['}'] + rest;
        assert(t[0] == '{');
        lemma_pv_object(t);
        assert(t.drop_first() =~= seq!['\n'] + ind(d + 1) + tail);
        lemma_nl_ind_ws(d + 1);
        lemma_skip_ws(seq!['\n'] + ind(d + 1), tail);
        lemma_parse_members(ms, 0, d, rest);
        assert(ms.take(0) =~= Seq::<(Seq<char>, JsonValue)>::empty());
    }
}

#[verifier::spinoff_prover]
#[verifier::rlimit(60)]
proof fn lemma_parse_elems(items: Seq<JsonValue>, i: int, d: nat, rest: Seq<char>)
    requires
        0 <= i < items.len(),
    ensures
        parse_elems(
            pretty(items[i], d + 1) + comma(i + 1 < items.len()) + seq!['\n'] + elems_from(items, i + 1, d + 1)
                + ind(d) + seq![']'] + rest,
            items.take(i),
        ) == Some((JsonValue::Array(items), rest)),
    decreases items, items.len() - i,
{
    let n = items.len() as int;
    let tail = comma(i + 1 < n) + seq!['\n'] + elems_from(items, i + 1, d + 1) + ind(d) + seq![']'] + rest;
    let t = pretty(items[i], d + 1) + tail;
    assert(t =~= pretty(items[i], d + 1) + comma(i + 1 < n) + seq!['\n'] + elems_from(items, i + 1, d + 1) + ind(d)
        + seq![']'] + rest);
    assert(tail[0] == ',' || tail[0] == '\n');
    lemma_parse_pretty(items[i], d + 1, tail);
    lemma_pretty_head(items[i], d + 1);
    lemma_pe_step(t, items.take(i), items[i], tail);
    if i + 1 < n {
        assert(tail[0] == ',');
        lemma_skip_ws(Seq::empty(), tail);
        assert(Seq::<char>::empty() + tail =~= tail);
        let nxt = pretty(items[i + 1], d + 1) + comma(i + 2 < n) + seq!['\n'] + elems_from(items, i + 2, d + 1)
            + ind(d) + seq![']'] + rest;
        assert(tail.drop_first() =~= seq!['\n'] + ind(d + 1) + nxt);
        lemma_nl_ind_ws(d + 1);
        lemma_pretty_head(items[i + 1], d + 1);
        lemma_skip_ws(seq!['\n'] + ind(d + 1), nxt);
        lemma_parse_elems(items, i + 1, d, rest);
        assert(items.take(i).push(items[i]) =~= items.take(i + 1));
    } else {
        assert(tail =~= seq!['\n'] + ind(d) + (seq![']'] + rest));
        lemma_nl_ind_ws(d);
        lemma_skip_ws(seq!['\n'] + ind(d), seq![']'] + rest);
        assert(items.take(i).push(items[i]) =~= items);
        assert((seq![']'] + rest).drop_first() =~= rest);
    }
}

#[verifier::spinoff_prover]
#[verifier::rlimit(60)]
proof fn lemma_parse_members(ms: Seq<(Seq<char>, JsonValue)>, i: int, d: nat, rest: Seq<char>)
    requires
        0 <= i < ms.len(),
    ensures
        parse_members(
            jstr(ms[i].0) + seq![':', ' '] + pretty(ms[i].1, d + 1) + comma(i + 1 < ms.len()) + seq!['\n']
                + members_from(ms, i + 1, d + 1) + ind(d) + seq!['}'] + rest,
            ms.take(i),
        ) == Some((JsonValue::Object(ms), rest)),
    decreases ms, ms.len() - i,
{
    let n = ms.len() as int;
    let k = ms[i].0;
    let v = ms[i].1;
    let tail = comma(i + 1 < n) + seq!['\n'] + members_from(ms, i + 1, d + 1) + ind(d) + seq!['}'] + rest;
    let body = pretty(v, d + 1) + tail;
    let after_key = seq![':', ' '] + body;
    let t = jstr(k) + after_key;
    assert(t =~= jstr(ms[i].0) + seq![':', ' '] + pretty(ms[i].1, d + 1) + comma(i + 1 < ms.len()) + seq!['\n']
        + members_from(ms, i + 1, d + 1) + ind(d) + seq!['}'] + rest);
    assert(t[0] == '"');
    assert(t.drop_first() =~= escape(k) + seq!['"'] + after_key);
    lemma_parse_string(k, after_key);
    lemma_skip_ws(Seq::empty(), after_key);
    assert(Seq::<char>::empty() + after_key =~= after_key);
    assert(after_key[0] == ':');
    lemma_pretty_head(v, d + 1);
    assert(after_key.drop_first() =~= seq![' '] + body);
    lemma_skip_ws(seq![' '], body);
    assert(tail[0] == ',' || tail[0] == '\n');
    lemma_parse_pretty(v, d + 1, tail);
    lemma_pm_step(t, ms.take(i), k, after_key, v, tail);
    if i + 1 < n {
        assert(tail[0] == ',');
        lemma_skip_ws(Seq::empty(), tail);
        assert(Seq::<char>::empty() + tail =~= tail);
        let nxt = jstr(ms[i + 1].0) + seq![':', ' '] + pretty(ms[i + 1].1, d + 1) + comma(i + 2 < n) + seq!['\n']
            + members_from(ms, i + 2, d + 1) + ind(d) + seq!['}'] + rest;
        assert(tail.drop_first() =~= seq!['\n'] + ind(d + 1) + nxt);
        lemma_nl_ind_ws(d + 1);
        assert(nxt[0] == '"');
        lemma_skip_ws(seq!['\n'] + ind(d + 1), nxt);
        lemma_parse_members(ms, i + 1, d, rest);
        assert(ms.take(i).push((k, v)) =~= ms.take(i + 1));
    } else {
        assert(tail =~= seq!['\n'] + ind(d) + (seq!['}'] + rest));
        lemma_nl_ind_ws(d);
        lemma_skip_ws(seq!['\n'] + ind(d), seq!['}'] + rest);
        assert(ms.take(i).push((k, v)) =~= ms);
        assert((seq!['}'] + rest).drop_first() =~= rest);
    }
}

/// The pretty-printed text of every JSON value reads back as that value.
pub proof fn lemma_parse_json_pretty(v: JsonValue, d: nat)
    ensures
        parse_json(pretty(v, d)) == Some(v),
{
    lemma_pretty_head(v, d);
    lemma_skip_ws(Seq::empty(), pretty(v, d));
    assert(Seq::<char>::empty() + pretty(v, d) =~= pretty(v, d));
    lemma_parse_pretty(v, d, Seq::empty());
    assert(pretty(v, d) + Seq::<char>::empty() =~= pretty(v, d));
}

/// The JSON text of a topology, as `to_json` writes it, is one valid JSON text
/// that reads back as the topology's value: an object whose members are
/// `pci_roots`, `fabrics_controllers`, `nvme_subsystems` and `dm_devices` in
/// that order, each array holding the items of the list in order, and every
/// string reading back as the field's string.
pub proof fn lemma_json_topology_reads_back(t: SpecTopology)
    ensures
        parse_json(json_topology(t, 0)) == Some(topology_value(t)),
{
    lemma_topology_value(t, 0);
    lemma_parse_json_pretty(topology_value(t), 0);
}

} // verus!
