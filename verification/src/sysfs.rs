//! Interpretation of what sysfs holds: number parsing of attribute files,
//! size and SCSI type labels, PCI address recognition, and the walk over the
//! components of canonical sysfs paths.
use vstd::prelude::*;
use vstd::string::*;
use vstd::arithmetic::div_mod::lemma_div_denominator;
use vstd::arithmetic::div_mod::lemma_fundamental_div_mod;
use crate::text::{
    all_hex, contains_char, dec, digit_char, find_char, has_prefix, is_hex_digit,
    parse_i32, parse_unsigned, push_u64, spec_parse_i32, spec_parse_unsigned, starts_with, str_eq,
    to_string,
};
use crate::sort::sort_strings;
use crate::types::opt_view;
use crate::sort::spec_sorted_strings;

verus! {

// ---------------------------------------------------------------------------
// Attribute values
// ---------------------------------------------------------------------------
/// The value of an attribute file that holds an unsigned decimal number.
/// `value` is the file's trimmed content, `None` where it could not be read or was empty.
pub fn read_u64(value: Option<&str>) -> (r: Option<u64>)
    ensures
        r == match value {
            Some(s) => match spec_parse_unsigned(s@, 10, u64::MAX as nat) {
                Some(v) => Some(v as u64),
                None => None,
            },
            None => None,
        },
{
    match value {
        Some(s) => parse_unsigned(s, 10, u64::MAX),
        None => None,
    }
}

/// The value of an attribute file that holds a signed decimal number.
pub fn read_i32(value: Option<&str>) -> (r: Option<i32>)
    ensures
        r == match value {
            Some(s) => spec_parse_i32(s@),
            None => None,
        },
{
    match value {
        Some(s) => parse_i32(s),
        None => None,
    }
}

/// `s` with every leading "0x" taken off, repeatedly.
pub open spec fn strip_hex_prefixes(s: Seq<char>) -> Seq<char>
    decreases s.len(),
{
    if s.len() >= 2 && s[0] == '0' && s[1] == 'x' {
        strip_hex_prefixes(s.subrange(2, s.len() as int))
    } else {
        s
    }
}

/// The value of an attribute file that holds a hexadecimal number such as
/// "0x010802": leading "0x" markers are dropped, then the rest is parsed in base 16.
pub fn read_hex_u32(value: Option<&str>) -> (r: Option<u32>)
    ensures
        r == match value {
            Some(s) => match spec_parse_unsigned(strip_hex_prefixes(s@), 16, u32::MAX as nat) {
                Some(v) => Some(v as u32),
                None => None,
            },
            None => None,
        },
{
    match value {
        Some(s) => {
            let n = s.unicode_len();
            let mut i: usize = 0;
            assert(s@.subrange(0, n as int) =~= s@);
            while n - i >= 2 && s.get_char(i) == '0' && s.get_char(i + 1) == 'x'
                invariant
                    n == s@.len(),
                    i <= n,
                    strip_hex_prefixes(s@) == strip_hex_prefixes(s@.subrange(i as int, n as int)),
                decreases n - i,
            {
                let ghost rest = s@.subrange(i as int, n as int);
                assert(rest.subrange(2, rest.len() as int) =~= s@.subrange(i + 2, n as int));
                i = i + 2;
            }
            let rest = s.substring_char(i, n);
            assert(strip_hex_prefixes(rest@) == rest@);
            match parse_unsigned(rest, 16, 0xffff_ffffu64) {
                Some(v) => Some(v as u32),
                None => None,
            }
        },
        None => None,
    }
}

/// A directory listing in the byte order of the names, as `list_dir` returned it
/// (unordered) before sorting.
pub fn list_dir_sorted(entries: Vec<String>) -> (r: Vec<String>)
    ensures
        r@ == spec_sorted_strings(entries@),
{
    sort_strings(entries)
}

// ---------------------------------------------------------------------------
// Sizes
// ---------------------------------------------------------------------------
pub open spec fn two_pow(e: nat) -> nat
    decreases e,
{
    if e == 0 {
        1
    } else {
        2 * two_pow((e - 1) as nat)
    }
}

/// How many low bits of `b` a 64-bit float (53-bit significand) cannot hold.
pub open spec fn excess_bits(b: nat) -> nat
    decreases b,
{
    if b < 0x20_0000_0000_0000 {
        0
    } else {
        1 + excess_bits(b / 2)
    }
}

/// `n / d` rounded to the nearest integer, ties to the even one.
pub open spec fn round_div_even(n: nat, d: nat) -> nat {
    let q = n / d;
    let r = n % d;
    if 2 * r > d || (2 * r == d && q % 2 == 1) {
        q + 1
    } else {
        q
    }
}

/// The value of `b` once converted to a 64-bit float (round to nearest, ties to even).
pub open spec fn nearest_double(b: nat) -> nat {
    let p = two_pow(excess_bits(b));
    round_div_even(b, p) * p
}

/// `bytes / unit` in tenths, rounded the way a float is printed with one
/// decimal (nearest, ties to even), after the conversion of `bytes` to a float.
pub open spec fn size_tenths(bytes: nat, unit: nat) -> nat {
    round_div_even(nearest_double(bytes) * 10, unit)
}

pub open spec fn scaled_size(bytes: nat, unit: nat, name: Seq<char>) -> Seq<char> {
    let t = size_tenths(bytes, unit);
    dec(t / 10) + seq!['.', digit_char(t % 10)] + name
}

pub open spec fn spec_format_size(bytes: u64) -> Seq<char> {
    if bytes >= 0x100_0000_0000 {
        scaled_size(bytes as nat, 0x100_0000_0000, " TiB"@)
    } else if bytes >= 0x4000_0000 {
        scaled_size(bytes as nat, 0x4000_0000, " GiB"@)
    } else if bytes >= 0x10_0000 {
        scaled_size(bytes as nat, 0x10_0000, " MiB"@)
    } else if bytes >= 0x400 {
        scaled_size(bytes as nat, 0x400, " KiB"@)
    } else {
        dec(bytes as nat) + " B"@
    }
}

fn nearest_double_exec(b: u64) -> (v: u128)
    ensures
        v == nearest_double(b as nat),
        v <= 0x2_0000_0000_0000_0000,
{
    let mut t: u64 = b;
    let mut p: u128 = 1;
    let ghost mut e: nat = 0;
    while t >= 0x20_0000_0000_0000
        invariant
            p == two_pow(e),
            p > 0,
            p == 1 || p <= b,
            t == b as nat / p as nat,
            excess_bits(b as nat) == e + excess_bits(t as nat),
        decreases t,
    {
        proof {
            lemma_div_denominator(b as int, p as int, 2);
            lemma_fundamental_div_mod(b as int, p as int);
            let bi = b as int;
            let pi = p as int;
            assert(pi * 2 <= bi) by (nonlinear_arith)
                requires
                    bi == pi * (bi / pi) + bi % pi,
                    bi / pi >= 2,
                    bi % pi >= 0,
                    pi > 0,
            ;
        }
        t = t / 2;
        p = p * 2;
        proof {
            e = e + 1;
        }
    }
    let q: u128 = b as u128 / p;
    let r: u128 = b as u128 % p;
    proof {
        lemma_fundamental_div_mod(b as int, p as int);
        let bi = b as int;
        let pi = p as int;
        let qi = q as int;
        let ri = r as int;
        assert(qi * pi + pi <= 0x2_0000_0000_0000_0000) by (nonlinear_arith)
            requires
                bi == pi * qi + ri,
                ri >= 0,
                pi <= bi || pi == 1,
                bi < 0x1_0000_0000_0000_0000,
        ;
        assert((qi + 1) * pi == qi * pi + pi) by (nonlinear_arith);
    }
    let q2: u128 = if 2 * r > p || (2 * r == p && q % 2 == 1) {
        q + 1
    } else {
        q
    };
    q2 * p
}

fn push_scaled(out: &mut String, bytes: u64, unit: u128, name: &str)
    requires
        1024 <= unit <= 0x100_0000_0000,
    ensures
        final(out)@ == old(out)@ + scaled_size(bytes as nat, unit as nat, name@),
{
    let v = nearest_double_exec(bytes);
    let n: u128 = v * 10;
    let q: u128 = n / unit;
    let r: u128 = n % unit;
    proof {
        assert(q <= n / 1024) by {
            vstd::arithmetic::div_mod::lemma_div_is_ordered_by_denominator(n as int, 1024, unit as int);
        }
    }
    let t: u128 = if 2 * r > unit || (2 * r == unit && q % 2 == 1) {
        q + 1
    } else {
        q
    };
    assert(t == size_tenths(bytes as nat, unit as nat));
    push_u64(out, (t / 10) as u64);
    out.push('.');
    let c = digit_char_exec((t % 10) as u64);
    out.push(c);
    out.append(name);
    assert(final(out)@ =~= old(out)@ + scaled_size(bytes as nat, unit as nat, name@));
}

fn digit_char_exec(d: u64) -> (c: char)
    requires
        d < 10,
    ensures
        c == digit_char(d as nat),
{
    let b: u8 = 48u8 + (d as u8);
    b as char
}

/// A byte count in human units: one decimal in TiB, GiB, MiB or KiB (1024-based),
/// as a 64-bit float prints with one decimal, or whole bytes below 1 KiB.
pub fn format_size(bytes: u64) -> (r: String)
    ensures
        r@ == spec_format_size(bytes),
{
    let mut out = String::new();
    if bytes >= 0x100_0000_0000 {
        push_scaled(&mut out, bytes, 0x100_0000_0000, " TiB");
    } else if bytes >= 0x4000_0000 {
        push_scaled(&mut out, bytes, 0x4000_0000, " GiB");
    } else if bytes >= 0x10_0000 {
        push_scaled(&mut out, bytes, 0x10_0000, " MiB");
    } else if bytes >= 0x400 {
        push_scaled(&mut out, bytes, 0x400, " KiB");
    } else {
        push_u64(&mut out, bytes);
        out.append(" B");
    }
    assert(out@ =~= spec_format_size(bytes));
    out
}

// ---------------------------------------------------------------------------
// SCSI peripheral types
// ---------------------------------------------------------------------------
pub open spec fn spec_scsi_type_name(t: u32) -> Seq<char> {
    if t == 0 {
        "disk"@
    } else if t == 1 {
        "tape"@
    } else if t == 2 {
        "printer"@
    } else if t == 3 {
        "processor"@
    } else if t == 4 {
        "worm"@
    } else if t == 5 {
        "cd/dvd"@
    } else if t == 6 {
        "scanner"@
    } else if t == 7 {
        "optical"@
    } else if t == 8 {
        "media changer"@
    } else if t == 9 {
        "communications"@
    } else if t == 12 {
        "storage array"@
    } else if t == 13 {
        "enclosure"@
    } else if t == 14 {
        "simplified disk"@
    } else {
        "unknown"@
    }
}

/// The name of a SCSI peripheral device type code.
pub fn scsi_type_name(t: u32) -> (r: &'static str)
    ensures
        r@ == spec_scsi_type_name(t),
{
    match t {
        0 => "disk",
        1 => "tape",
        2 => "printer",
        3 => "processor",
        4 => "worm",
        5 => "cd/dvd",
        6 => "scanner",
        7 => "optical",
        8 => "media changer",
        9 => "communications",
        12 => "storage array",
        13 => "enclosure",
        14 => "simplified disk",
        _ => "unknown",
    }
}

// ---------------------------------------------------------------------------
// PCI addresses
// ---------------------------------------------------------------------------
/// `s` has the shape domain:bus:device.function with its first ':' at `d`:
/// a domain of four or more hex digits, a bus and a device of two, and a
/// function of one or more.
pub open spec fn pci_shape_at(s: Seq<char>, d: int) -> bool {
    &&& 4 <= d
    &&& d + 8 <= s.len()
    &&& all_hex(s.subrange(0, d))
    &&& s[d] == ':'
    &&& all_hex(s.subrange(d + 1, d + 3))
    &&& s[d + 3] == ':'
    &&& all_hex(s.subrange(d + 4, d + 6))
    &&& s[d + 6] == '.'
    &&& all_hex(s.subrange(d + 7, s.len() as int))
}

pub open spec fn spec_is_pci_address(s: Seq<char>) -> bool {
    exists|d: int| pci_shape_at(s, d)
}

fn all_hex_range(s: &str, from: usize, to: usize) -> (r: bool)
    requires
        from <= to <= s@.len(),
    ensures
        r == all_hex(s@.subrange(from as int, to as int)),
{
    let mut i = from;
    while i < to
        invariant
            from <= i <= to,
            to <= s@.len(),
            all_hex(s@.subrange(from as int, i as int)),
        decreases to - i,
    {
        let c = s.get_char(i);
        if !(('0' <= c && c <= '9') || ('a' <= c && c <= 'f') || ('A' <= c && c <= 'F')) {
            assert(!is_hex_digit(s@.subrange(from as int, to as int)[i - from]));
            return false;
        }
        i = i + 1;
        assert(all_hex(s@.subrange(from as int, i as int))) by {
            let sub = s@.subrange(from as int, i as int);
            assert forall|k: int| 0 <= k < sub.len() implies is_hex_digit(#[trigger] sub[k]) by {
                if k < sub.len() - 1 {
                    assert(sub[k] == s@.subrange(from as int, i - 1)[k]);
                }
            }
        }
    }
    true
}

/// Whether `s` looks like a PCI address such as "0000:00:1f.2".
pub fn is_pci_address(s: &str) -> (r: bool)
    ensures
        r == spec_is_pci_address(s@),
{
    let n = s.unicode_len();
    let d = match find_char(s, ':') {
        Some(d) => d,
        None => {
            assert forall|d: int| !pci_shape_at(s@, d) by {
                if pci_shape_at(s@, d) {
                    assert(s@[d] == ':');
                }
            }
            return false;
        },
    };
    let ok = d >= 4 && n >= 8 && d <= n - 8 && all_hex_range(s, 0, d) && all_hex_range(s, d + 1, d + 3)
        && s.get_char(d + 3) == ':' && all_hex_range(s, d + 4, d + 6) && s.get_char(d + 6)
        == '.' && all_hex_range(s, d + 7, n);
    proof {
        assert forall|e: int| pci_shape_at(s@, e) implies e == d by {
            if e < d {
                assert(s@[e] == ':');
            } else if e > d {
                assert(s@.subrange(0, e)[d as int] == s@[d as int]);
                assert(!is_hex_digit(s@[d as int]));
            }
        }
        if ok {
            assert(pci_shape_at(s@, d as int));
        }
    }
    ok
}

// ---------------------------------------------------------------------------
// Paths
// ---------------------------------------------------------------------------
/// `s` cut at every `c`, as `str::split` does (always at least one piece).
pub open spec fn split_on(s: Seq<char>, c: char) -> Seq<Seq<char>>
    decreases s.len(),
{
    if s.len() == 0 {
        seq![Seq::<char>::empty()]
    } else {
        let prev = split_on(s.drop_last(), c);
        if s.last() == c {
            prev.push(Seq::<char>::empty())
        } else {
            prev.update(prev.len() - 1, prev.last().push(s.last()))
        }
    }
}

/// A piece of a '/'-separated path that names something: not empty and not ".".
pub open spec fn names_something(x: Seq<char>) -> bool {
    x.len() > 0 && x != seq!['.']
}

/// The pieces of `s` that pass `f`, in order.
pub open spec fn keep_if(s: Seq<Seq<char>>, f: spec_fn(Seq<char>) -> bool) -> Seq<Seq<char>>
    decreases s.len(),
{
    if s.len() == 0 {
        s
    } else {
        let r = keep_if(s.drop_last(), f);
        if f(s.last()) {
            r.push(s.last())
        } else {
            r
        }
    }
}

/// The named components of a path, from the root to the leaf.
pub open spec fn path_components(p: Seq<char>) -> Seq<Seq<char>> {
    keep_if(split_on(p, '/'), |x: Seq<char>| names_something(x))
}

pub proof fn lemma_split_nonempty(s: Seq<char>, c: char)
    ensures
        split_on(s, c).len() >= 1,
    decreases s.len(),
{
    if s.len() > 0 {
        lemma_split_nonempty(s.drop_last(), c);
    }
}

/// Cuts `s` at every `c`, as `str::split` does.
pub fn split_exec(s: &str, c: char) -> (r: Vec<String>)
    ensures
        r@.map_values(|x: String| x@) == split_on(s@, c),
{
    let n = s.unicode_len();
    let mut pieces: Vec<String> = Vec::new();
    let mut cur = String::new();
    let mut i: usize = 0;
    proof {
        assert(s@.subrange(0, 0) =~= Seq::<char>::empty());
    }
    while i < n
        invariant
            n == s@.len(),
            i <= n,
            pieces@.map_values(|x: String| x@).push(cur@) == split_on(s@.subrange(0, i as int), c),
        decreases n - i,
    {
        let ch = s.get_char(i);
        let ghost pre = s@.subrange(0, i as int);
        assert(s@.subrange(0, i + 1).drop_last() =~= pre);
        proof {
            lemma_split_nonempty(pre, c);
        }
        if ch == c {
            let done = cur;
            pieces.push(done);
            cur = String::new();
            assert(pieces@.map_values(|x: String| x@).push(cur@) =~= split_on(s@.subrange(0, i + 1), c));
        } else {
            cur.push(ch);
            assert(pieces@.map_values(|x: String| x@).push(cur@) =~= split_on(s@.subrange(0, i + 1), c));
        }
        i = i + 1;
    }
    let ghost before = pieces@.map_values(|x: String| x@);
    let ghost cv = cur@;
    pieces.push(cur);
    assert(pieces@.map_values(|x: String| x@) =~= before.push(cv));
    assert(s@.subrange(0, n as int) =~= s@);
    pieces
}

/// The named components of a path, in order.
pub fn path_components_exec(p: &str) -> (r: Vec<String>)
    ensures
        r@.map_values(|x: String| x@) == path_components(p@),
{
    let pieces = split_exec(p, '/');
    let ghost all = pieces@.map_values(|x: String| x@);
    let mut r: Vec<String> = Vec::new();
    let mut j: usize = 0;
    while j < pieces.len()
        invariant
            j <= pieces@.len(),
            all == pieces@.map_values(|x: String| x@),
            r@.map_values(|x: String| x@) == keep_if(all.take(j as int), |x: Seq<char>| names_something(x)),
        decreases pieces@.len() - j,
    {
        assert(all.take(j + 1).drop_last() =~= all.take(j as int));
        let s = pieces[j].as_str();
        let keep = s.unicode_len() > 0 && !str_eq(s, ".");
        proof {
            reveal_strlit(".");
            assert(seq!['.'] =~= "."@);
        }
        if keep {
            r.push(to_string(s));
        }
        j = j + 1;
        assert(r@.map_values(|x: String| x@) =~= keep_if(all.take(j as int), |x: Seq<char>| names_something(x)));
    }
    assert(all.take(pieces@.len() as int) =~= all);
    r
}

/// The PCI addresses among the components of a canonical sysfs path, root first.
pub open spec fn spec_pci_ancestors(p: Seq<char>) -> Seq<Seq<char>> {
    keep_if(path_components(p), |x: Seq<char>| spec_is_pci_address(x))
}

/// Walks a canonical sysfs path and collects its PCI addresses, from the root to the leaf.
pub fn collect_pci_ancestors(canonical_path: &str) -> (r: Vec<String>)
    ensures
        r@.map_values(|x: String| x@) == spec_pci_ancestors(canonical_path@),
{
    let comps = path_components_exec(canonical_path);
    let ghost all = comps@.map_values(|x: String| x@);
    let mut r: Vec<String> = Vec::new();
    let mut j: usize = 0;
    while j < comps.len()
        invariant
            j <= comps@.len(),
            all == comps@.map_values(|x: String| x@),
            r@.map_values(|x: String| x@) == keep_if(all.take(j as int), |x: Seq<char>| spec_is_pci_address(x)),
        decreases comps@.len() - j,
    {
        assert(all.take(j + 1).drop_last() =~= all.take(j as int));
        if is_pci_address(comps[j].as_str()) {
            r.push(comps[j].clone());
        }
        j = j + 1;
        assert(r@.map_values(|x: String| x@) =~= keep_if(all.take(j as int), |x: Seq<char>| spec_is_pci_address(x)));
    }
    assert(all.take(comps@.len() as int) =~= all);
    r
}

/// A component such as "pci0000:4a" names a PCI root; its domain is what follows "pci".
pub open spec fn names_pci_root(c: Seq<char>) -> bool {
    has_prefix(c, "pci"@) && c.subrange(3, c.len() as int).contains(':')
}

pub open spec fn first_pci_root(cs: Seq<Seq<char>>) -> Option<Seq<char>>
    decreases cs.len(),
{
    if cs.len() == 0 {
        None
    } else if names_pci_root(cs[0]) {
        Some(cs[0].subrange(3, cs[0].len() as int))
    } else {
        first_pci_root(cs.drop_first())
    }
}

/// The PCI root domain ("0000:4a") of a canonical sysfs path, from its first
/// component of the form "pci0000:4a".
pub fn find_pci_root(canonical_path: &str) -> (r: Option<String>)
    ensures
        match r {
            Some(d) => first_pci_root(path_components(canonical_path@)) == Some(d@),
            None => first_pci_root(path_components(canonical_path@)) is None,
        },
{
    let comps = path_components_exec(canonical_path);
    let ghost all = comps@.map_values(|x: String| x@);
    let mut j: usize = 0;
    proof {
        reveal_strlit("pci");
        assert(all.subrange(0, all.len() as int) =~= all);
    }
    while j < comps.len()
        invariant
            j <= comps@.len(),
            all == comps@.map_values(|x: String| x@),
            all == path_components(canonical_path@),
            first_pci_root(all) == first_pci_root(all.subrange(j as int, all.len() as int)),
        decreases comps@.len() - j,
    {
        proof {
            reveal_strlit("pci");
        }
        let c = comps[j].as_str();
        let ghost rest = all.subrange(j as int, all.len() as int);
        assert(rest[0] == c@);
        assert(rest.drop_first() =~= all.subrange(j + 1, all.len() as int));
        if starts_with(c, "pci") {
            let m = c.unicode_len();
            let tail = c.substring_char(3, m);
            if contains_char(tail, ':') {
                assert(names_pci_root(rest[0]));
                assert(first_pci_root(rest) == Some(c@.subrange(3, m as int)));
                return Some(to_string(tail));
            }
        }
        j = j + 1;
    }
    None
}

/// The final named component of a path, as `Path::file_name` gives it: `None`
/// where there is none or where it is "..".
pub open spec fn spec_file_name(p: Seq<char>) -> Option<Seq<char>> {
    let cs = path_components(p);
    if cs.len() == 0 || cs.last() == ".."@ {
        None
    } else {
        Some(cs.last())
    }
}

/// The file name of a path.
pub fn file_name(p: &str) -> (r: Option<String>)
    ensures
        match r {
            Some(x) => spec_file_name(p@) == Some(x@),
            None => spec_file_name(p@) is None,
        },
{
    let mut comps = path_components_exec(p);
    let ghost all = comps@.map_values(|x: String| x@);
    match comps.pop() {
        None => None,
        Some(last) => {
            assert(last@ == all.last());
            if str_eq(last.as_str(), "..") {
                None
            } else {
                Some(last)
            }
        },
    }
}

/// The name of the driver bound to a device, from the target of its `driver` link.
pub fn read_driver(driver_link: Option<&str>) -> (r: Option<String>)
    ensures
        match driver_link {
            Some(l) => match r {
                Some(x) => spec_file_name(l@) == Some(x@),
                None => spec_file_name(l@) is None,
            },
            None => r is None,
        },
{
    match driver_link {
        Some(l) => file_name(l),
        None => None,
    }
}


// ---------------------------------------------------------------------------
// The readers as functions of what was read
// ---------------------------------------------------------------------------
pub open spec fn spec_read_u64(value: Option<Seq<char>>) -> Option<u64> {
    match value {
        Some(s) => match spec_parse_unsigned(s, 10, u64::MAX as nat) {
            Some(v) => Some(v as u64),
            None => None,
        },
        None => None,
    }
}

pub open spec fn spec_read_i32(value: Option<Seq<char>>) -> Option<i32> {
    match value {
        Some(s) => spec_parse_i32(s),
        None => None,
    }
}

pub open spec fn spec_read_hex_u32(value: Option<Seq<char>>) -> Option<u32> {
    match value {
        Some(s) => match spec_parse_unsigned(strip_hex_prefixes(s), 16, u32::MAX as nat) {
            Some(v) => Some(v as u32),
            None => None,
        },
        None => None,
    }
}

pub open spec fn spec_read_driver(link: Option<Seq<char>>) -> Option<Seq<char>> {
    match link {
        Some(l) => spec_file_name(l),
        None => None,
    }
}

pub open spec fn str_opt_view(o: Option<&str>) -> Option<Seq<char>> {
    match o {
        Some(s) => Some(s@),
        None => None,
    }
}

/// The content of an optional attribute, borrowed.
pub fn opt_as_str(o: &Option<String>) -> (r: Option<&str>)
    ensures
        str_opt_view(r) == opt_view(*o),
{
    match o {
        Some(s) => Some(s.as_str()),
        None => None,
    }
}

/// `read_u64` on an optional attribute content.
pub fn read_u64_of(o: &Option<String>) -> (r: Option<u64>)
    ensures
        r == spec_read_u64(opt_view(*o)),
{
    read_u64(opt_as_str(o))
}

pub fn read_i32_of(o: &Option<String>) -> (r: Option<i32>)
    ensures
        r == spec_read_i32(opt_view(*o)),
{
    read_i32(opt_as_str(o))
}

pub fn read_hex_u32_of(o: &Option<String>) -> (r: Option<u32>)
    ensures
        r == spec_read_hex_u32(opt_view(*o)),
{
    read_hex_u32(opt_as_str(o))
}

pub fn read_driver_of(o: &Option<String>) -> (r: Option<String>)
    ensures
        opt_view(r) == spec_read_driver(opt_view(*o)),
{
    read_driver(opt_as_str(o))
}
} // verus!
