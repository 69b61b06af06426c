//! Reading the body of a JSON string back: what each escape sequence stands
//! for, and the law that what the writer escapes reads back unchanged.
use vstd::prelude::*;
use crate::json::{escape, escape_char, hex_lower};
use crate::text::char_digit;

verus! {

pub open spec fn hex_at(t: Seq<char>, i: int) -> nat {
    match char_digit(t[i], 16) {
        Some(d) => d,
        None => 0,
    }
}

/// Whether four hex digits stand at `i`.
pub open spec fn is_hex4(t: Seq<char>, i: int) -> bool {
    &&& char_digit(t[i], 16) is Some
    &&& char_digit(t[i + 1], 16) is Some
    &&& char_digit(t[i + 2], 16) is Some
    &&& char_digit(t[i + 3], 16) is Some
}

/// The number that four hex digits at `i` denote.
pub open spec fn hex4(t: Seq<char>, i: int) -> nat {
    4096 * hex_at(t, i) + 256 * hex_at(t, i + 1) + 16 * hex_at(t, i + 2) + hex_at(t, i + 3)
}

/// The characters that the body of a JSON string stands for: each escape
/// sequence of RFC 8259 for the character it names (a "\uXXXX" outside the
/// surrogates for the code point XXXX), any other character for itself.
pub open spec fn unescape(t: Seq<char>) -> Seq<char>
    decreases t.len(),
{
    if t.len() == 0 {
        Seq::empty()
    } else if t[0] == '\\' && t.len() >= 2 && (t[1] == '"' || t[1] == '\\' || t[1] == '/') {
        seq![t[1]] + unescape(t.subrange(2, t.len() as int))
    } else if t[0] == '\\' && t.len() >= 2 && t[1] == 'n' {
        seq!['\n'] + unescape(t.subrange(2, t.len() as int))
    } else if t[0] == '\\' && t.len() >= 2 && t[1] == 'r' {
        seq!['\r'] + unescape(t.subrange(2, t.len() as int))
    } else if t[0] == '\\' && t.len() >= 2 && t[1] == 't' {
        seq!['\t'] + unescape(t.subrange(2, t.len() as int))
    } else if t[0] == '\\' && t.len() >= 2 && t[1] == 'b' {
        seq!['\x08'] + unescape(t.subrange(2, t.len() as int))
    } else if t[0] == '\\' && t.len() >= 2 && t[1] == 'f' {
        seq!['\x0c'] + unescape(t.subrange(2, t.len() as int))
    } else if t[0] == '\\' && t.len() >= 6 && t[1] == 'u' && is_hex4(t, 2) && (hex4(t, 2) < 0xD800
        || 0xE000 <= hex4(t, 2)) {
        seq![hex4(t, 2) as char] + unescape(t.subrange(6, t.len() as int))
    } else {
        seq![t[0]] + unescape(t.subrange(1, t.len() as int))
    }
}

pub proof fn lemma_escape_front(s: Seq<char>)
    requires
        s.len() > 0,
    ensures
        escape(s) == escape_char(s[0]) + escape(s.drop_first()),
    decreases s.len(),
{
    if s.len() == 1 {
        assert(s.drop_last() =~= Seq::<char>::empty());
        assert(s.drop_first() =~= Seq::<char>::empty());
        assert(escape(s.drop_last()) =~= Seq::<char>::empty());
        assert(escape(s) =~= escape_char(s[0]));
    } else {
        lemma_escape_front(s.drop_last());
        assert(s.drop_last().drop_first() =~= s.drop_first().drop_last());
        assert(s.drop_first().last() == s.last());
        assert(escape(s) =~= escape_char(s[0]) + escape(s.drop_first()));
    }
}

proof fn lemma_hex_lower(d: nat)
    requires
        d < 16,
    ensures
        char_digit(hex_lower(d), 16) == Some(d),
{
}

proof fn lemma_unescape_char(c: char, e: Seq<char>)
    ensures
        unescape(escape_char(c) + e) == seq![c] + unescape(e),
{
    let t = escape_char(c) + e;
    if c == '"' || c == '\\' || c == '\n' || c == '\r' || c == '\t' || c == '\x08' || c == '\x0c' {
        assert(t.subrange(2, t.len() as int) =~= e);
    } else if (c as u32) < 0x20 {
        let v = c as u32;
        lemma_hex_lower((v / 16) as nat);
        lemma_hex_lower((v % 16) as nat);
        assert(t[2] == '0' && t[3] == '0');
        assert(hex_at(t, 4) == v / 16);
        assert(hex_at(t, 5) == v % 16);
        assert(hex4(t, 2) == v);
        assert(t.subrange(6, t.len() as int) =~= e);
        assert((v as char) == c);
    } else {
        assert(t.subrange(1, t.len() as int) =~= e);
    }
}

/// A string written by the JSON writer reads back as the same string.
pub proof fn lemma_unescape_escape(s: Seq<char>)
    ensures
        unescape(escape(s)) == s,
    decreases s.len(),
{
    if s.len() == 0 {
        assert(escape(s) =~= Seq::<char>::empty());
    } else {
        lemma_escape_front(s);
        lemma_unescape_char(s[0], escape(s.drop_first()));
        lemma_unescape_escape(s.drop_first());
        assert(seq![s[0]] + s.drop_first() =~= s);
    }
}

} // verus!
