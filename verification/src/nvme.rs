//! NVMe controllers, their namespaces, and NVMe subsystems, from what sysfs
//! lists under /sys/class/nvme and /sys/class/nvme-subsystem.
use vstd::prelude::*;
use vstd::string::*;
use crate::block::{block_named, get_block, sectors_to_bytes};
use crate::scsi::or_else;
use crate::sort::{keyed_lt, lemma_sort_map, sort_by_key, sort_stable, str_less, str_lt, Keyed};
use crate::sysfs::{file_name, is_pci_address, path_components, path_components_exec, read_u64_of, spec_file_name, spec_is_pci_address, spec_read_u64};
use crate::text::{all_digits, all_digits_exec, has_prefix, or_empty, parse_u32, spec_parse_u32, starts_with, str_eq, to_string};
use crate::types::{
    clone_opt_string, ctrls_view, namespaces_view, opt_view, strs_view, subsystems_view, BlockDevice,
    NvmeCtrl, NvmeNamespace, NvmeSubsystem, SpecNvmeCtrl, SpecNvmeNamespace, SpecNvmeSubsystem,
};

verus! {

// ---------------------------------------------------------------------------
// What sysfs lists
// ---------------------------------------------------------------------------
/// An entry of a controller's or a subsystem's directory: its name, the
/// trimmed `nguid` and `size` attributes read under it, and `nguid` read under
/// /sys/class/block/<name>.
pub struct NamespaceEntry {
    pub name: String,
    pub nguid: Option<String>,
    pub block_nguid: Option<String>,
    pub size: Option<String>,
}

/// An entry of /sys/class/nvme ("nvme0"): where its link resolves to, the
/// trimmed attributes read there, the target of the `device` link there, and
/// the entries of that directory (unordered).
pub struct NvmeCtrlEntry {
    pub name: String,
    pub canonical: Option<String>,
    pub model: Option<String>,
    pub serial: Option<String>,
    pub firmware_rev: Option<String>,
    pub transport: Option<String>,
    pub state: Option<String>,
    pub address: Option<String>,
    pub device_link: Option<String>,
    pub children: Vec<NamespaceEntry>,
}

/// An entry of /sys/class/nvme-subsystem ("nvme-subsys0"): where its link
/// resolves to, the trimmed `model`, `serial` and `subsysnqn` attributes read
/// there, and the entries of that directory (unordered).
pub struct NvmeSubsysEntry {
    pub name: String,
    pub canonical: Option<String>,
    pub model: Option<String>,
    pub serial: Option<String>,
    pub nqn: Option<String>,
    pub children: Vec<NamespaceEntry>,
}

/// What the NVMe discovery reads: the entries of /sys/class/nvme and of
/// /sys/class/nvme-subsystem, in the order listed (empty where missing).
pub struct NvmeSysfs {
    pub controllers: Vec<NvmeCtrlEntry>,
    pub subsystems: Vec<NvmeSubsysEntry>,
}

impl Keyed for NamespaceEntry {
    open spec fn key_lt(a: Self, b: Self) -> bool {
        str_lt(a.name@, b.name@)
    }

    fn less(&self, other: &Self) -> (r: bool) {
        str_less(self.name.as_str(), other.name.as_str())
    }
}

impl Keyed for NvmeCtrlEntry {
    open spec fn key_lt(a: Self, b: Self) -> bool {
        str_lt(a.name@, b.name@)
    }

    fn less(&self, other: &Self) -> (r: bool) {
        str_less(self.name.as_str(), other.name.as_str())
    }
}

impl Keyed for NvmeSubsysEntry {
    open spec fn key_lt(a: Self, b: Self) -> bool {
        str_lt(a.name@, b.name@)
    }

    fn less(&self, other: &Self) -> (r: bool) {
        str_less(self.name.as_str(), other.name.as_str())
    }
}

// ---------------------------------------------------------------------------
// Names
// ---------------------------------------------------------------------------
/// The index of the first `c` in `s` from `i` on, or -1.
pub open spec fn char_pos(s: Seq<char>, c: char, i: int) -> int
    decreases s.len() - i,
{
    if i < 0 || i >= s.len() {
        -1
    } else if s[i] == c {
        i
    } else {
        char_pos(s, c, i + 1)
    }
}

fn char_pos_exec(s: &str, c: char) -> (r: Option<usize>)
    ensures
        match r {
            Some(i) => char_pos(s@, c, 0) == i && i < s@.len(),
            None => char_pos(s@, c, 0) == -1,
        },
{
    let n = s.unicode_len();
    let mut i: usize = 0;
    while i < n && s.get_char(i) != c
        invariant
            n == s@.len(),
            i <= n,
            char_pos(s@, c, 0) == char_pos(s@, c, i as int),
        decreases n - i,
    {
        i = i + 1;
    }
    if i < n {
        Some(i)
    } else {
        None
    }
}

/// A nonempty run of decimal digits.
pub open spec fn digit_run(s: Seq<char>) -> bool {
    s.len() > 0 && all_digits(s)
}

/// Whether `s` is "<digits>n<digits>", the second run not empty, the first
/// possibly empty; cut at the first 'n'.
pub open spec fn digits_n_digits(s: Seq<char>, first_nonempty: bool) -> bool {
    let p = char_pos(s, 'n', 0);
    p >= 0 && all_digits(s.subrange(0, p)) && (!first_nonempty || p > 0) && digit_run(
        s.subrange(p + 1, s.len() as int),
    )
}

/// Whether `name` names a namespace of the controller `ctrl`: the controller's
/// name, then 'n' and digits ("nvme0n1"), or 'c', digits, 'n', digits ("nvme0c0n1").
pub open spec fn spec_is_nvme_namespace_name(name: Seq<char>, ctrl: Seq<char>) -> bool {
    has_prefix(name, ctrl) && {
        let suf = name.subrange(ctrl.len() as int, name.len() as int);
        if suf.len() > 0 && suf[0] == 'n' {
            digit_run(suf.subrange(1, suf.len() as int))
        } else if suf.len() > 0 && suf[0] == 'c' {
            digits_n_digits(suf.subrange(1, suf.len() as int), true)
        } else {
            false
        }
    }
}

fn digits_n_digits_exec(s: &str, first_nonempty: bool) -> (r: bool)
    ensures
        r == digits_n_digits(s@, first_nonempty),
{
    match char_pos_exec(s, 'n') {
        Some(p) => {
            let n = s.unicode_len();
            all_digits_exec(s.substring_char(0, p)) && (!first_nonempty || p > 0) && p + 1 < n
                && all_digits_exec(s.substring_char(p + 1, n))
        },
        None => false,
    }
}

/// Whether `name` looks like a namespace of the controller named `ctrl_name`.
pub fn is_nvme_namespace_name(name: &str, ctrl_name: &str) -> (r: bool)
    ensures
        r == spec_is_nvme_namespace_name(name@, ctrl_name@),
{
    if !starts_with(name, ctrl_name) {
        return false;
    }
    let n = name.unicode_len();
    let suffix = name.substring_char(ctrl_name.unicode_len(), n);
    let m = suffix.unicode_len();
    if m > 0 && suffix.get_char(0) == 'n' {
        m > 1 && all_digits_exec(suffix.substring_char(1, m))
    } else if m > 0 && suffix.get_char(0) == 'c' {
        digits_n_digits_exec(suffix.substring_char(1, m), true)
    } else {
        false
    }
}

/// The index of the last 'n' at or before `i` that is followed by a nonempty
/// run of digits up to the end, or -1.
pub open spec fn nsid_pos(s: Seq<char>, i: int) -> int
    decreases i + 1,
{
    if i < 0 || i >= s.len() {
        -1
    } else if s[i] == 'n' && i + 1 < s.len() && all_digits(s.subrange(i + 1, s.len() as int)) {
        i
    } else {
        nsid_pos(s, i - 1)
    }
}

/// The namespace id of a namespace name: the digits after the last 'n' that
/// only digits follow ("nvme0c0n1" gives 1), as a `u32`.
pub open spec fn spec_extract_nsid(name: Seq<char>) -> Option<u32> {
    let p = nsid_pos(name, name.len() - 1);
    if p >= 0 {
        spec_parse_u32(name.subrange(p + 1, name.len() as int))
    } else {
        None
    }
}

/// Extracts the namespace id from a namespace name.
pub fn extract_nsid(name: &str) -> (r: Option<u32>)
    ensures
        r == spec_extract_nsid(name@),
{
    let n = name.unicode_len();
    let mut i: usize = n;
    while i > 0
        invariant
            n == name@.len(),
            i <= n,
            nsid_pos(name@, n - 1) == nsid_pos(name@, i - 1),
        decreases i,
    {
        let k = i - 1;
        if name.get_char(k) == 'n' && k + 1 < n && all_digits_exec(name.substring_char(k + 1, n)) {
            return parse_u32(name.substring_char(k + 1, n));
        }
        i = i - 1;
    }
    None
}

/// Whether a NGUID says something: one made only of '0' and '-' (such as "0"
/// or "00000000-0000-0000-0000-000000000000") means there is none.
pub open spec fn nguid_meaningful(g: Seq<char>) -> bool {
    exists|i: int| 0 <= i < g.len() && g[i] != '0' && g[i] != '-'
}

fn nguid_meaningful_exec(g: &str) -> (r: bool)
    ensures
        r == nguid_meaningful(g@),
{
    let n = g.unicode_len();
    let mut i: usize = 0;
    while i < n
        invariant
            n == g@.len(),
            i <= n,
            forall|k: int| 0 <= k < i ==> g@[k] == '0' || g@[k] == '-',
        decreases n - i,
    {
        let c = g.get_char(i);
        if c != '0' && c != '-' {
            return true;
        }
        i = i + 1;
    }
    false
}

/// The NGUID of a namespace: read under the namespace, else under its block
/// device; none where it is not meaningful.
pub open spec fn spec_nguid(e: NamespaceEntry) -> Option<Seq<char>> {
    match or_else(opt_view(e.nguid), opt_view(e.block_nguid)) {
        Some(g) => if nguid_meaningful(g) {
            Some(g)
        } else {
            None
        },
        None => None,
    }
}

fn nguid_exec(e: &NamespaceEntry) -> (r: Option<String>)
    ensures
        opt_view(r) == spec_nguid(*e),
{
    let g = match &e.nguid {
        Some(x) => Some(x.clone()),
        None => clone_opt_string(&e.block_nguid),
    };
    match g {
        Some(x) => if nguid_meaningful_exec(x.as_str()) {
            Some(x)
        } else {
            None
        },
        None => None,
    }
}

// ---------------------------------------------------------------------------
// Namespaces
// ---------------------------------------------------------------------------
/// The size of a namespace from its `size` attribute, in bytes.
pub open spec fn attr_size(e: NamespaceEntry) -> Option<u64> {
    match spec_read_u64(opt_view(e.size)) {
        Some(v) => Some(sectors_to_bytes(v)),
        None => None,
    }
}

fn attr_size_exec(e: &NamespaceEntry) -> (r: Option<u64>)
    ensures
        r == attr_size(*e),
{
    match read_u64_of(&e.size) {
        Some(v) => Some(v.wrapping_mul(512)),
        None => None,
    }
}

/// A namespace under a controller: its size is that of its block device,
/// else that of its `size` attribute, else 0.
pub open spec fn ctrl_namespace(e: NamespaceEntry, bs: Seq<BlockDevice>) -> SpecNvmeNamespace {
    let b = block_named(bs, e.name@);
    SpecNvmeNamespace {
        name: e.name@,
        nsid: spec_extract_nsid(e.name@),
        nguid: spec_nguid(e),
        size_bytes: match b {
            Some(d) => d.size_bytes,
            None => match attr_size(e) {
                Some(v) => v,
                None => 0,
            },
        },
        block_device: b,
    }
}

/// The namespaces of the controller named `ctrl` among the entries `es`, in order.
pub open spec fn spec_ctrl_namespaces(es: Seq<NamespaceEntry>, ctrl: Seq<char>, bs: Seq<BlockDevice>) -> Seq<
    SpecNvmeNamespace,
>
    decreases es.len(),
{
    if es.len() == 0 {
        Seq::empty()
    } else {
        let r = spec_ctrl_namespaces(es.drop_last(), ctrl, bs);
        if spec_is_nvme_namespace_name(es.last().name@, ctrl) {
            r.push(ctrl_namespace(es.last(), bs))
        } else {
            r
        }
    }
}

/// Finds the namespaces of the controller named `ctrl_name` among the
/// (sorted) entries of its directory.
pub fn discover_controller_namespaces(
    es: &Vec<NamespaceEntry>,
    ctrl_name: &str,
    bs: &Vec<BlockDevice>,
) -> (r: Vec<NvmeNamespace>)
    ensures
        namespaces_view(r@) == spec_ctrl_namespaces(es@, ctrl_name@, bs@),
{
    let mut r: Vec<NvmeNamespace> = Vec::new();
    let mut j: usize = 0;
    while j < es.len()
        invariant
            j <= es@.len(),
            namespaces_view(r@) == spec_ctrl_namespaces(es@.take(j as int), ctrl_name@, bs@),
        decreases es@.len() - j,
    {
        let e = &es[j];
        assert(es@.take(j + 1).drop_last() =~= es@.take(j as int));
        assert(es@.take(j + 1).last() == *e);
        if is_nvme_namespace_name(e.name.as_str(), ctrl_name) {
            let block_device = get_block(bs, e.name.as_str());
            let size_bytes = match &block_device {
                Some(d) => d.size_bytes,
                None => match attr_size_exec(e) {
                    Some(v) => v,
                    None => 0,
                },
            };
            let ns = NvmeNamespace {
                name: e.name.clone(),
                nsid: extract_nsid(e.name.as_str()),
                nguid: nguid_exec(e),
                size_bytes,
                block_device,
            };
            let ghost before = namespaces_view(r@);
            r.push(ns);
            assert(namespaces_view(r@) =~= before.push(ctrl_namespace(*e, bs@)));
        }
        j = j + 1;
        assert(namespaces_view(r@) =~= spec_ctrl_namespaces(es@.take(j as int), ctrl_name@, bs@));
    }
    assert(es@.take(es@.len() as int) =~= es@);
    r
}

/// Whether an entry of a subsystem's directory is one of its namespaces:
/// "nvme", then digits, 'n' and a nonempty run of digits ("nvme0n1").
pub open spec fn is_subsys_namespace(name: Seq<char>) -> bool {
    has_prefix(name, "nvme"@) && digits_n_digits(name.subrange(4, name.len() as int), false)
}

/// A namespace of a subsystem: its size is that of its `size` attribute,
/// else that of its block device, else 0.
pub open spec fn subsys_namespace(e: NamespaceEntry, bs: Seq<BlockDevice>) -> SpecNvmeNamespace {
    let rest = e.name@.subrange(4, e.name@.len() as int);
    let p = char_pos(rest, 'n', 0);
    let b = block_named(bs, e.name@);
    SpecNvmeNamespace {
        name: e.name@,
        nsid: spec_parse_u32(rest.subrange(p + 1, rest.len() as int)),
        nguid: spec_nguid(e),
        size_bytes: match attr_size(e) {
            Some(v) => v,
            None => match b {
                Some(d) => d.size_bytes,
                None => 0,
            },
        },
        block_device: b,
    }
}

/// The namespaces among the entries of a subsystem's directory, in order.
pub open spec fn spec_subsys_namespaces(es: Seq<NamespaceEntry>, bs: Seq<BlockDevice>) -> Seq<SpecNvmeNamespace>
    decreases es.len(),
{
    if es.len() == 0 {
        Seq::empty()
    } else {
        let r = spec_subsys_namespaces(es.drop_last(), bs);
        if is_subsys_namespace(es.last().name@) {
            r.push(subsys_namespace(es.last(), bs))
        } else {
            r
        }
    }
}

fn subsys_namespaces(es: &Vec<NamespaceEntry>, bs: &Vec<BlockDevice>) -> (r: Vec<NvmeNamespace>)
    ensures
        namespaces_view(r@) == spec_subsys_namespaces(es@, bs@),
{
    let mut r: Vec<NvmeNamespace> = Vec::new();
    let mut j: usize = 0;
    while j < es.len()
        invariant
            j <= es@.len(),
            namespaces_view(r@) == spec_subsys_namespaces(es@.take(j as int), bs@),
        decreases es@.len() - j,
    {
        let e = &es[j];
        assert(es@.take(j + 1).drop_last() =~= es@.take(j as int));
        assert(es@.take(j + 1).last() == *e);
        proof {
            reveal_strlit("nvme");
        }
        let name = e.name.as_str();
        if starts_with(name, "nvme") {
            let n = name.unicode_len();
            let rest = name.substring_char(4, n);
            if digits_n_digits_exec(rest, false) {
                let p = match char_pos_exec(rest, 'n') {
                    Some(p) => p,
                    None => 0,
                };
                let m = rest.unicode_len();
                let block_device = get_block(bs, name);
                let size_bytes = match attr_size_exec(e) {
                    Some(v) => v,
                    None => match &block_device {
                        Some(d) => d.size_bytes,
                        None => 0,
                    },
                };
                let ns = NvmeNamespace {
                    name: e.name.clone(),
                    nsid: parse_u32(rest.substring_char(p + 1, m)),
                    nguid: nguid_exec(e),
                    size_bytes,
                    block_device,
                };
                let ghost before = namespaces_view(r@);
                r.push(ns);
                assert(namespaces_view(r@) =~= before.push(subsys_namespace(*e, bs@)));
            }
        }
        j = j + 1;
        assert(namespaces_view(r@) =~= spec_subsys_namespaces(es@.take(j as int), bs@));
    }
    assert(es@.take(es@.len() as int) =~= es@);
    r
}

// ---------------------------------------------------------------------------
// Subsystems
// ---------------------------------------------------------------------------
/// Whether an entry of a subsystem's directory names a controller: "nvme"
/// followed by a nonempty run of digits ("nvme0", "nvme1").
pub open spec fn is_subsys_controller(name: Seq<char>) -> bool {
    has_prefix(name, "nvme"@) && digit_run(name.subrange(4, name.len() as int))
}

/// The controllers among the entries of a subsystem's directory, in order.
pub open spec fn spec_subsys_controllers(es: Seq<NamespaceEntry>) -> Seq<Seq<char>>
    decreases es.len(),
{
    if es.len() == 0 {
        Seq::empty()
    } else {
        let r = spec_subsys_controllers(es.drop_last());
        if is_subsys_controller(es.last().name@) {
            r.push(es.last().name@)
        } else {
            r
        }
    }
}

fn subsys_controllers(es: &Vec<NamespaceEntry>) -> (r: Vec<String>)
    ensures
        strs_view(r@) == spec_subsys_controllers(es@),
{
    let mut r: Vec<String> = Vec::new();
    let mut j: usize = 0;
    while j < es.len()
        invariant
            j <= es@.len(),
            strs_view(r@) == spec_subsys_controllers(es@.take(j as int)),
        decreases es@.len() - j,
    {
        let e = &es[j];
        assert(es@.take(j + 1).drop_last() =~= es@.take(j as int));
        assert(es@.take(j + 1).last() == *e);
        proof {
            reveal_strlit("nvme");
        }
        let name = e.name.as_str();
        if starts_with(name, "nvme") {
            let n = name.unicode_len();
            if n > 4 && all_digits_exec(name.substring_char(4, n)) {
                let ghost before = strs_view(r@);
                r.push(e.name.clone());
                assert(strs_view(r@) =~= before.push(e.name@));
            }
        }
        j = j + 1;
        assert(strs_view(r@) =~= spec_subsys_controllers(es@.take(j as int)));
    }
    assert(es@.take(es@.len() as int) =~= es@);
    r
}

pub open spec fn subsys_info(e: NvmeSubsysEntry, children: Seq<NamespaceEntry>, bs: Seq<BlockDevice>) -> SpecNvmeSubsystem {
    SpecNvmeSubsystem {
        name: e.name@,
        nqn: opt_view(e.nqn),
        model: or_empty(opt_view(e.model)),
        serial: or_empty(opt_view(e.serial)),
        controllers: spec_subsys_controllers(children),
        namespaces: spec_subsys_namespaces(children, bs),
    }
}

/// The subsystems among the entries: named "nvme-subsys..." and resolving, in
/// order, each with the entries of its directory taken in name order.
pub open spec fn spec_subsystems(ss: Seq<NvmeSubsysEntry>, bs: Seq<BlockDevice>) -> Seq<SpecNvmeSubsystem>
    decreases ss.len(),
{
    if ss.len() == 0 {
        Seq::empty()
    } else {
        let r = spec_subsystems(ss.drop_last(), bs);
        let e = ss.last();
        if has_prefix(e.name@, "nvme-subsys"@) && e.canonical is Some {
            r.push(subsys_info(e, sort_stable(e.children@, keyed_lt::<NamespaceEntry>()), bs))
        } else {
            r
        }
    }
}

fn or_empty_owned(o: Option<String>) -> (r: String)
    ensures
        r@ == or_empty(opt_view(o)),
{
    match o {
        Some(s) => s,
        None => String::new(),
    }
}

/// The subsystems of the (sorted) entries of /sys/class/nvme-subsystem.
fn discover_subsystems(ss: Vec<NvmeSubsysEntry>, bs: &Vec<BlockDevice>) -> (r: Vec<NvmeSubsystem>)
    ensures
        subsystems_view(r@) == spec_subsystems(ss@, bs@),
{
    let ghost orig = ss@;
    let mut input = ss;
    let mut r: Vec<NvmeSubsystem> = Vec::new();
    let n = input.len();
    let mut i: usize = 0;
    while input.len() > 0
        invariant
            i + input@.len() == n,
            n == orig.len(),
            input@ == orig.skip(i as int),
            subsystems_view(r@) == spec_subsystems(orig.take(i as int), bs@),
        decreases input@.len(),
    {
        let e = input.remove(0);
        assert(orig.take(i + 1).drop_last() =~= orig.take(i as int));
        assert(orig[i as int] == e);
        assert(orig.take(i + 1).last() == e);
        assert(input@ =~= orig.skip(i + 1));
        let ghost ev = e;
        proof {
            reveal_strlit("nvme-subsys");
        }
        if starts_with(e.name.as_str(), "nvme-subsys") && e.canonical.is_some() {
            let NvmeSubsysEntry { name, canonical: _, model, serial, nqn, children } = e;
            let ghost cv = sort_stable(children@, keyed_lt::<NamespaceEntry>());
            let sorted = sort_by_key(children);
            let sub = NvmeSubsystem {
                name,
                nqn,
                model: or_empty_owned(model),
                serial: or_empty_owned(serial),
                controllers: subsys_controllers(&sorted),
                namespaces: subsys_namespaces(&sorted, bs),
            };
            assert(sub@ == subsys_info(ev, cv, bs@));
            let ghost before = subsystems_view(r@);
            r.push(sub);
            assert(subsystems_view(r@) =~= before.push(subsys_info(ev, cv, bs@)));
        }
        i = i + 1;
    }
    assert(orig.take(n as int) =~= orig);
    r
}

/// Whether a subsystem entry lists the controller named `ctrl`: named
/// "nvme-subsys...", resolving, and with `ctrl` among the names in its directory.
pub open spec fn subsys_lists(e: NvmeSubsysEntry, ctrl: Seq<char>) -> bool {
    has_prefix(e.name@, "nvme-subsys"@) && e.canonical is Some && exists|k: int|
        0 <= k < e.children@.len() && #[trigger] e.children@[k].name@ == ctrl
}

/// The index of the first subsystem from `i` on that lists `ctrl`, or -1.
pub open spec fn first_listing(ss: Seq<NvmeSubsysEntry>, ctrl: Seq<char>, i: int) -> int
    decreases ss.len() - i,
{
    if i < 0 || i >= ss.len() {
        -1
    } else if subsys_lists(ss[i], ctrl) {
        i
    } else {
        first_listing(ss, ctrl, i + 1)
    }
}

/// The first component from `i` on that begins with "nvme-subsys".
pub open spec fn first_subsys_component(cs: Seq<Seq<char>>, i: int) -> Option<Seq<char>>
    decreases cs.len() - i,
{
    if i < 0 || i >= cs.len() {
        None
    } else if has_prefix(cs[i], "nvme-subsys"@) {
        Some(cs[i])
    } else {
        first_subsys_component(cs, i + 1)
    }
}

/// The subsystem of a controller: the first subsystem (in the order of `ss`)
/// that lists it, else the first "nvme-subsys..." component of its canonical path.
pub open spec fn spec_find_subsystem(ss: Seq<NvmeSubsysEntry>, canonical: Seq<char>, ctrl: Seq<char>) -> Option<
    Seq<char>,
> {
    let i = first_listing(ss, ctrl, 0);
    if i >= 0 {
        Some(ss[i].name@)
    } else {
        first_subsys_component(path_components(canonical), 0)
    }
}

fn lists_name(es: &Vec<NamespaceEntry>, name: &str) -> (r: bool)
    ensures
        r == exists|k: int| 0 <= k < es@.len() && #[trigger] es@[k].name@ == name@,
{
    let mut j: usize = 0;
    while j < es.len()
        invariant
            j <= es@.len(),
            forall|k: int| 0 <= k < j ==> es@[k].name@ != name@,
        decreases es@.len() - j,
    {
        if str_eq(es[j].name.as_str(), name) {
            return true;
        }
        j = j + 1;
    }
    false
}

/// Finds the subsystem of the controller named `ctrl_name`, among the (sorted)
/// subsystem entries, else from its canonical path.
pub fn find_subsystem_for_controller(ss: &Vec<NvmeSubsysEntry>, canonical: &str, ctrl_name: &str) -> (r: Option<
    String,
>)
    ensures
        opt_view(r) == spec_find_subsystem(ss@, canonical@, ctrl_name@),
{
    proof {
        reveal_strlit("nvme-subsys");
    }
    let mut j: usize = 0;
    while j < ss.len()
        invariant
            j <= ss@.len(),
            first_listing(ss@, ctrl_name@, 0) == first_listing(ss@, ctrl_name@, j as int),
        decreases ss@.len() - j,
    {
        let e = &ss[j];
        if starts_with(e.name.as_str(), "nvme-subsys") && e.canonical.is_some() && lists_name(&e.children, ctrl_name) {
            assert(subsys_lists(ss@[j as int], ctrl_name@));
            assert(first_listing(ss@, ctrl_name@, j as int) == j);
            return Some(e.name.clone());
        }
        j = j + 1;
    }
    assert(first_listing(ss@, ctrl_name@, 0) == -1);
    let comps = path_components_exec(canonical);
    let ghost all = comps@.map_values(|x: String| x@);
    let mut k: usize = 0;
    while k < comps.len()
        invariant
            k <= comps@.len(),
            all == comps@.map_values(|x: String| x@),
            all == path_components(canonical@),
            first_listing(ss@, ctrl_name@, 0) == -1,
            first_subsys_component(all, 0) == first_subsys_component(all, k as int),
        decreases comps@.len() - k,
    {
        assert(all[k as int] == comps@[k as int]@);
        if starts_with(comps[k].as_str(), "nvme-subsys") {
            let c = comps[k].clone();
            assert(c@ == all[k as int]);
            assert(first_subsys_component(all, k as int) == Some(all[k as int]));
            return Some(c);
        }
        k = k + 1;
    }
    None
}

// ---------------------------------------------------------------------------
// Controllers
// ---------------------------------------------------------------------------
/// The transport of a controller: its `transport` attribute, "pcie" where missing.
pub open spec fn ctrl_transport(e: NvmeCtrlEntry) -> Seq<char> {
    match opt_view(e.transport) {
        Some(t) => t,
        None => "pcie"@,
    }
}

/// The PCI address of a PCIe controller: the file name of its `device` link,
/// where that is a PCI address.
pub open spec fn ctrl_pci(e: NvmeCtrlEntry) -> Option<Seq<char>> {
    match opt_view(e.device_link) {
        Some(l) => match spec_file_name(l) {
            Some(f) => if spec_is_pci_address(f) {
                Some(f)
            } else {
                None
            },
            None => None,
        },
        None => None,
    }
}

pub open spec fn ctrl_info(
    e: NvmeCtrlEntry,
    canonical: Seq<char>,
    ss: Seq<NvmeSubsysEntry>,
    bs: Seq<BlockDevice>,
) -> SpecNvmeCtrl {
    let t = ctrl_transport(e);
    let pcie = t == "pcie"@;
    SpecNvmeCtrl {
        name: e.name@,
        model: or_empty(opt_view(e.model)),
        serial: or_empty(opt_view(e.serial)),
        firmware_rev: or_empty(opt_view(e.firmware_rev)),
        transport: t,
        state: or_empty(opt_view(e.state)),
        pci_address: if pcie {
            ctrl_pci(e)
        } else {
            None
        },
        transport_address: if pcie {
            None
        } else {
            opt_view(e.address)
        },
        subsys_name: spec_find_subsystem(ss, canonical, e.name@),
        namespaces: spec_ctrl_namespaces(sort_stable(e.children@, keyed_lt::<NamespaceEntry>()), e.name@, bs),
    }
}

/// The controllers among the entries: named "nvme..." and resolving, in order.
pub open spec fn spec_ctrls(cs: Seq<NvmeCtrlEntry>, ss: Seq<NvmeSubsysEntry>, bs: Seq<BlockDevice>) -> Seq<
    SpecNvmeCtrl,
>
    decreases cs.len(),
{
    if cs.len() == 0 {
        Seq::empty()
    } else {
        let r = spec_ctrls(cs.drop_last(), ss, bs);
        let e = cs.last();
        if has_prefix(e.name@, "nvme"@) && e.canonical is Some {
            r.push(ctrl_info(e, e.canonical->Some_0@, ss, bs))
        } else {
            r
        }
    }
}

/// Controllers in the byte order of their names.
pub open spec fn ctrl_lt() -> spec_fn(SpecNvmeCtrl, SpecNvmeCtrl) -> bool {
    |a: SpecNvmeCtrl, b: SpecNvmeCtrl| str_lt(a.name, b.name)
}

/// The controllers of the (sorted) entries of /sys/class/nvme, in name order;
/// `ss` are the (sorted) subsystem entries.
fn discover_controllers(cs: Vec<NvmeCtrlEntry>, ss: &Vec<NvmeSubsysEntry>, bs: &Vec<BlockDevice>) -> (r: Vec<NvmeCtrl>)
    ensures
        ctrls_view(r@) == sort_stable(spec_ctrls(cs@, ss@, bs@), ctrl_lt()),
{
    let ghost orig = cs@;
    let mut input = cs;
    let mut r: Vec<NvmeCtrl> = Vec::new();
    let n = input.len();
    let mut i: usize = 0;
    while input.len() > 0
        invariant
            i + input@.len() == n,
            n == orig.len(),
            input@ == orig.skip(i as int),
            ctrls_view(r@) == spec_ctrls(orig.take(i as int), ss@, bs@),
        decreases input@.len(),
    {
        let e = input.remove(0);
        assert(orig.take(i + 1).drop_last() =~= orig.take(i as int));
        assert(orig[i as int] == e);
        assert(orig.take(i + 1).last() == e);
        assert(input@ =~= orig.skip(i + 1));
        let ghost ev = e;
        proof {
            reveal_strlit("nvme");
        }
        if starts_with(e.name.as_str(), "nvme") && e.canonical.is_some() {
            let NvmeCtrlEntry {
                name,
                canonical,
                model,
                serial,
                firmware_rev,
                transport,
                state,
                address,
                device_link,
                children,
            } = e;
            let c = match canonical {
                Some(c) => c,
                None => String::new(),
            };
            let t = match transport {
                Some(t) => t,
                None => to_string("pcie"),
            };
            let pcie = str_eq(t.as_str(), "pcie");
            let pci_address = if pcie {
                match &device_link {
                    Some(l) => match file_name(l.as_str()) {
                        Some(f) => if is_pci_address(f.as_str()) {
                            Some(f)
                        } else {
                            None
                        },
                        None => None,
                    },
                    None => None,
                }
            } else {
                None
            };
            let transport_address = if pcie {
                None
            } else {
                address
            };
            let subsys_name = find_subsystem_for_controller(ss, c.as_str(), name.as_str());
            let ghost kids = sort_stable(children@, keyed_lt::<NamespaceEntry>());
            let sorted = sort_by_key(children);
            let namespaces = discover_controller_namespaces(&sorted, name.as_str(), bs);
            let ctrl = NvmeCtrl {
                name,
                model: or_empty_owned(model),
                serial: or_empty_owned(serial),
                firmware_rev: or_empty_owned(firmware_rev),
                transport: t,
                state: or_empty_owned(state),
                pci_address,
                transport_address,
                subsys_name,
                namespaces,
            };
            assert(ctrl@ == ctrl_info(ev, c@, ss@, bs@));
            let ghost before = ctrls_view(r@);
            r.push(ctrl);
            assert(ctrls_view(r@) =~= before.push(ctrl_info(ev, c@, ss@, bs@)));
        }
        i = i + 1;
    }
    assert(orig.take(n as int) =~= orig);
    let ghost unsorted = r@;
    let out = sort_by_key(r);
    proof {
        let f = |c: NvmeCtrl| c@;
        lemma_sort_map(unsorted, keyed_lt::<NvmeCtrl>(), f, ctrl_lt());
        assert(ctrls_view(out@) =~= out@.map_values(f));
        assert(ctrls_view(unsorted) =~= unsorted.map_values(f));
    }
    out
}

// ---------------------------------------------------------------------------
// Discovery
// ---------------------------------------------------------------------------
/// The NVMe controllers (in name order) and subsystems of a snapshot, each
/// listing taken in name order.
pub open spec fn spec_discover(
    cs: Seq<NvmeCtrlEntry>,
    ss: Seq<NvmeSubsysEntry>,
    bs: Seq<BlockDevice>,
) -> (Seq<SpecNvmeCtrl>, Seq<SpecNvmeSubsystem>) {
    let sc = sort_stable(cs, keyed_lt::<NvmeCtrlEntry>());
    let sss = sort_stable(ss, keyed_lt::<NvmeSubsysEntry>());
    (sort_stable(spec_ctrls(sc, sss, bs), ctrl_lt()), spec_subsystems(sss, bs))
}

/// Discovers the NVMe controllers and subsystems; `block_devices` are the block
/// devices that a namespace may name.
pub fn discover(block_devices: &Vec<BlockDevice>, sysfs: NvmeSysfs) -> (r: (Vec<NvmeCtrl>, Vec<NvmeSubsystem>))
    ensures
        (ctrls_view(r.0@), subsystems_view(r.1@)) == spec_discover(
            sysfs.controllers@,
            sysfs.subsystems@,
            block_devices@,
        ),
{
    let NvmeSysfs { controllers, subsystems } = sysfs;
    let subs = sort_by_key(subsystems);
    let ctrls = sort_by_key(controllers);
    let found = discover_controllers(ctrls, &subs, block_devices);
    let subsystems = discover_subsystems(subs, block_devices);
    (found, subsystems)
}

/// The PCI addresses of the controllers that have one, in order.
pub open spec fn spec_pci_addresses(cs: Seq<SpecNvmeCtrl>) -> Seq<Seq<char>>
    decreases cs.len(),
{
    if cs.len() == 0 {
        Seq::empty()
    } else {
        let r = spec_pci_addresses(cs.drop_last());
        match cs.last().pci_address {
            Some(a) => r.push(a),
            None => r,
        }
    }
}

/// Collects the PCI addresses used by NVMe controllers.
pub fn pci_addresses(controllers: &Vec<NvmeCtrl>) -> (r: Vec<String>)
    ensures
        strs_view(r@) == spec_pci_addresses(ctrls_view(controllers@)),
{
    let ghost cv = ctrls_view(controllers@);
    let mut r: Vec<String> = Vec::new();
    let mut j: usize = 0;
    while j < controllers.len()
        invariant
            j <= controllers@.len(),
            cv == ctrls_view(controllers@),
            strs_view(r@) == spec_pci_addresses(cv.take(j as int)),
        decreases controllers@.len() - j,
    {
        assert(cv.take(j + 1).drop_last() =~= cv.take(j as int));
        assert(cv.take(j + 1).last() == controllers@[j as int]@);
        match &controllers[j].pci_address {
            Some(a) => {
                let ghost before = strs_view(r@);
                r.push(a.clone());
                assert(strs_view(r@) =~= before.push(a@));
            },
            None => {},
        }
        j = j + 1;
    }
    assert(cv.take(cv.len() as int) =~= cv);
    r
}

// ---------------------------------------------------------------------------
// Namespace ids
// ---------------------------------------------------------------------------
proof fn lemma_char_pos_after_digits(s: Seq<char>, c: Seq<char>, i: int)
    requires
        all_digits(c),
        0 <= i <= c.len(),
        c.len() < s.len(),
        s.subrange(0, c.len() as int) == c,
        s[c.len() as int] == 'n',
    ensures
        char_pos(s, 'n', i) == c.len(),
    decreases c.len() - i,
{
    if i < c.len() {
        assert(s[i] == c[i]);
        lemma_char_pos_after_digits(s, c, i + 1);
    }
}

/// A namespace of a subsystem named "nvme", digits, 'n' and the digits `n`
/// ("nvme0n1") has the namespace id that `n` denotes, the number after the
/// 'n', whatever the digits of the controller before it; that is the id that
/// `extract_nsid` reads from the name.
pub proof fn lemma_subsys_namespace_nsid(e: NamespaceEntry, bs: Seq<BlockDevice>, c: Seq<char>, n: Seq<char>)
    requires
        all_digits(c),
        digit_run(n),
        e.name@ == "nvme"@ + c + "n"@ + n,
    ensures
        subsys_namespace(e, bs).nsid == spec_parse_u32(n),
        subsys_namespace(e, bs).nsid == spec_extract_nsid(e.name@),
{
    reveal_strlit("nvme");
    reveal_strlit("n");
    let name = e.name@;
    let rest = name.subrange(4, name.len() as int);
    assert(rest =~= c + "n"@ + n);
    assert(rest.subrange(0, c.len() as int) =~= c);
    lemma_char_pos_after_digits(rest, c, 0);
    assert(rest.subrange(c.len() as int + 1, rest.len() as int) =~= n);
    let k: int = c.len() as int + 4;
    assert(name[k] == 'n');
    assert(name.subrange(k + 1, name.len() as int) =~= n);
    assert(nsid_pos(name, name.len() - 1) == k) by {
        assert(name.len() - 1 >= k);
        lemma_nsid_pos_from_end(name, n, k, name.len() - 1);
    }
}

proof fn lemma_nsid_pos_from_end(name: Seq<char>, n: Seq<char>, k: int, i: int)
    requires
        0 <= k <= i < name.len(),
        name[k] == 'n',
        name.subrange(k + 1, name.len() as int) == n,
        digit_run(n),
    ensures
        nsid_pos(name, i) == k,
    decreases i - k,
{
    if i > k {
        assert(name[i] == n[i - k - 1]);
        assert(name[i] != 'n');
        lemma_nsid_pos_from_end(name, n, k, i - 1);
    } else {
        assert(all_digits(name.subrange(k + 1, name.len() as int)));
    }
}

} // verus!
