//! The shape of the JSON text: scanned from the start, outside string
//! literals, every `{` and `[` is closed by a later `}` or `]`, the depth never
//! falls below where it started, and the text ends outside any string.
use vstd::prelude::*;
use crate::json::{
    all_items, comma, controller_child_json, dm_device_json, dm_slave_json, escape, escape_char, hex_lower, ind,
    iscsi_session_json, jarr, jbool, jitems, jkey, jline, jobj, jopt_block, jopt_num, jopt_str, jstr, jstr_array,
    json_block, json_controller_child, json_dm_device, json_dm_slave, json_iscsi_session, json_namespace,
    json_nvme_ctrl, json_partition, json_pci_node, json_pci_nodes, json_pci_root, json_sas_phy, json_scsi_device,
    json_scsi_target, json_storage_controller, json_subsystem, json_topology, json_transport, namespace_json,
    nvme_ctrl_fields, nvme_ctrl_json, partition_json, pci_root_json, sas_phy_json, scsi_device_json,
    scsi_host_fields, scsi_target_json, str_json, subsystem_json,
};
use crate::types::{
    SpecBlockDevice, SpecControllerChild, SpecDmDevice, SpecDmSlave, SpecIscsiSessionInfo, SpecNvmeCtrl,
    SpecNvmeNamespace, SpecNvmeSubsystem, SpecPartition, SpecPciNode, SpecPciRoot, SpecSasPhyInfo, SpecScsiDevice,
    SpecScsiHost, SpecScsiTarget, SpecStorageController, SpecTopology, SpecTransportInfo,
};
use crate::text::{dec, digit_char, int_dec};

verus! {

// ---------------------------------------------------------------------------
// Scanning
// ---------------------------------------------------------------------------
/// Where a scan of JSON text stands: the bracket depth, the lowest depth met,
/// whether it is inside a string literal, and whether the last character there
/// was an escaping backslash.
pub struct JState {
    pub depth: int,
    pub low: int,
    pub in_str: bool,
    pub esc: bool,
}

pub open spec fn step(st: JState, c: char) -> JState {
    if st.in_str {
        if st.esc {
            JState { esc: false, ..st }
        } else if c == '\\' {
            JState { esc: true, ..st }
        } else if c == '"' {
            JState { in_str: false, ..st }
        } else {
            st
        }
    } else if c == '"' {
        JState { in_str: true, ..st }
    } else if c == '{' || c == '[' {
        JState { depth: st.depth + 1, ..st }
    } else if c == '}' || c == ']' {
        JState {
            depth: st.depth - 1,
            low: if st.depth - 1 < st.low {
                st.depth - 1
            } else {
                st.low
            },
            ..st
        }
    } else {
        st
    }
}

/// The state after scanning `s` from `st`.
pub open spec fn scan(st: JState, s: Seq<char>) -> JState
    decreases s.len(),
{
    if s.len() == 0 {
        st
    } else {
        step(scan(st, s.drop_last()), s.last())
    }
}

pub open spec fn outside(k: int, m: int) -> JState {
    JState { depth: k, low: m, in_str: false, esc: false }
}

pub open spec fn inside(k: int, m: int) -> JState {
    JState { depth: k, low: m, in_str: true, esc: false }
}

/// Text whose brackets balance outside string literals: a scan from outside any
/// string comes back outside, at the depth it started, never below it.
pub open spec fn balanced(s: Seq<char>) -> bool {
    forall|k: int, m: int| m <= k ==> #[trigger] scan(outside(k, m), s) == outside(k, m)
}

/// Text without quotes, backslashes or brackets.
pub open spec fn quiet(s: Seq<char>) -> bool
    decreases s.len(),
{
    if s.len() == 0 {
        true
    } else {
        let c = s.last();
        c != '"' && c != '\\' && c != '{' && c != '}' && c != '[' && c != ']' && quiet(s.drop_last())
    }
}

pub proof fn lemma_scan_push(st: JState, s: Seq<char>, c: char)
    ensures
        scan(st, s.push(c)) == step(scan(st, s), c),
{
    assert(s.push(c).drop_last() =~= s);
}

pub proof fn lemma_scan_one(st: JState, c: char)
    ensures
        scan(st, seq![c]) == step(st, c),
{
    reveal_with_fuel(scan, 2);
    assert(seq![c].drop_last() =~= Seq::<char>::empty());
}

pub proof fn lemma_quiet_one(c: char)
    requires
        c != '"' && c != '\\' && c != '{' && c != '}' && c != '[' && c != ']',
    ensures
        quiet(seq![c]),
{
    reveal_with_fuel(quiet, 2);
    assert(seq![c].drop_last() =~= Seq::<char>::empty());
}

pub proof fn lemma_scan_concat(st: JState, a: Seq<char>, b: Seq<char>)
    ensures
        scan(st, a + b) == scan(scan(st, a), b),
    decreases b.len(),
{
    if b.len() == 0 {
        assert(a + b =~= a);
    } else {
        lemma_scan_concat(st, a, b.drop_last());
        assert((a + b).drop_last() =~= a + b.drop_last());
        assert((a + b).last() == b.last());
    }
}

pub proof fn lemma_balanced_concat(a: Seq<char>, b: Seq<char>)
    requires
        balanced(a),
        balanced(b),
    ensures
        balanced(a + b),
{
    assert forall|k: int, m: int| m <= k implies #[trigger] scan(outside(k, m), a + b) == outside(k, m) by {
        lemma_scan_concat(outside(k, m), a, b);
    }
}

pub proof fn lemma_quiet_scan(s: Seq<char>, st: JState)
    requires
        quiet(s),
        !st.esc,
    ensures
        scan(st, s) == st,
    decreases s.len(),
{
    if s.len() > 0 {
        lemma_quiet_scan(s.drop_last(), st);
    }
}

pub proof fn lemma_quiet_balanced(s: Seq<char>)
    requires
        quiet(s),
    ensures
        balanced(s),
{
    assert forall|k: int, m: int| m <= k implies #[trigger] scan(outside(k, m), s) == outside(k, m) by {
        lemma_quiet_scan(s, outside(k, m));
    }
}

pub proof fn lemma_quiet_concat(a: Seq<char>, b: Seq<char>)
    requires
        quiet(a),
        quiet(b),
    ensures
        quiet(a + b),
    decreases b.len(),
{
    if b.len() > 0 {
        lemma_quiet_concat(a, b.drop_last());
        assert((a + b).drop_last() =~= a + b.drop_last());
        assert((a + b).last() == b.last());
    } else {
        assert(a + b =~= a);
    }
}

proof fn lemma_ind_quiet(d: nat)
    ensures
        quiet(ind(d)),
    decreases d,
{
    reveal_strlit("  ");
    if d > 0 {
        lemma_ind_quiet((d - 1) as nat);
        lemma_quiet_one(' ');
        lemma_quiet_concat(seq![' '], seq![' ']);
        assert(seq![' '] + seq![' '] =~= "  "@);
        lemma_quiet_concat(ind((d - 1) as nat), "  "@);
    }
}

proof fn lemma_dec_quiet(n: nat)
    ensures
        quiet(dec(n)),
    decreases n,
{
    if n >= 10 {
        lemma_dec_quiet(n / 10);
        assert(dec(n).drop_last() =~= dec(n / 10));
    } else {
        lemma_quiet_one(digit_char(n));
    }
}

proof fn lemma_int_dec_quiet(n: int)
    ensures
        quiet(int_dec(n)),
{
    if n < 0 {
        lemma_dec_quiet((-n) as nat);
        lemma_quiet_one('-');
        lemma_quiet_concat(seq!['-'], dec((-n) as nat));
    } else {
        lemma_dec_quiet(n as nat);
    }
}

proof fn lemma_words_quiet()
    ensures
        quiet("null"@),
        quiet("true"@),
        quiet("false"@),
        quiet("null,\n"@),
{
    reveal_strlit("null");
    reveal_strlit("true");
    reveal_strlit("false");
    reveal_strlit("null,\n");
    reveal_with_fuel(quiet, 7);
}

proof fn lemma_comma_quiet(tc: bool)
    ensures
        quiet(comma(tc) + seq!['\n']),
{
    lemma_quiet_one('\n');
    if tc {
        lemma_quiet_one(',');
    } else {
        reveal_with_fuel(quiet, 1);
        assert(quiet(Seq::<char>::empty()));
    }
    lemma_quiet_concat(comma(tc), seq!['\n']);
}

// ---------------------------------------------------------------------------
// Strings
// ---------------------------------------------------------------------------
proof fn lemma_escape_char_scan(c: char, k: int, m: int)
    ensures
        scan(inside(k, m), escape_char(c)) == inside(k, m),
{
    let st = inside(k, m);
    let e = escape_char(c);
    reveal_with_fuel(scan, 7);
    if c == '"' || c == '\\' || c == '\n' || c == '\r' || c == '\t' || c == '\x08' || c == '\x0c' {
        assert(e.drop_last().drop_last() =~= Seq::<char>::empty());
        assert(e.drop_last() =~= seq!['\\']);
    } else if (c as u32) < 0x20 {
        let h1 = hex_lower((c as u32 / 16) as nat);
        let h2 = hex_lower((c as u32 % 16) as nat);
        assert(h1 != '"' && h1 != '\\' && h2 != '"' && h2 != '\\');
        assert(e.drop_last().drop_last().drop_last().drop_last().drop_last().drop_last() =~= Seq::<char>::empty());
        assert(e.drop_last().drop_last().drop_last().drop_last().drop_last() =~= seq!['\\']);
        assert(e.drop_last().drop_last().drop_last().drop_last() =~= seq!['\\', 'u']);
        assert(e.drop_last().drop_last().drop_last() =~= seq!['\\', 'u', '0']);
        assert(e.drop_last().drop_last() =~= seq!['\\', 'u', '0', '0']);
        assert(e.drop_last() =~= seq!['\\', 'u', '0', '0', h1]);
    } else {
        assert(e.drop_last() =~= Seq::<char>::empty());
    }
}

proof fn lemma_escape_scan(s: Seq<char>, k: int, m: int)
    ensures
        scan(inside(k, m), escape(s)) == inside(k, m),
    decreases s.len(),
{
    if s.len() > 0 {
        lemma_escape_scan(s.drop_last(), k, m);
        lemma_scan_concat(inside(k, m), escape(s.drop_last()), escape_char(s.last()));
        lemma_escape_char_scan(s.last(), k, m);
    }
}

/// A JSON string literal leaves the brackets as they are.
pub proof fn lemma_jstr(s: Seq<char>)
    ensures
        balanced(jstr(s)),
{
    assert forall|k: int, m: int| m <= k implies #[trigger] scan(outside(k, m), jstr(s)) == outside(k, m) by {
        let q = seq!['"'];
        lemma_scan_one(outside(k, m), '"');
        lemma_scan_one(inside(k, m), '"');
        lemma_scan_concat(outside(k, m), q + escape(s), q);
        lemma_scan_concat(outside(k, m), q, escape(s));
        lemma_escape_scan(s, k, m);
    }
}

proof fn lemma_jopt_str(o: Option<Seq<char>>)
    ensures
        balanced(jopt_str(o)),
{
    lemma_words_quiet();
    match o {
        Some(s) => lemma_jstr(s),
        None => lemma_quiet_balanced("null"@),
    }
}

proof fn lemma_jopt_num(o: Option<int>)
    ensures
        balanced(jopt_num(o)),
{
    lemma_words_quiet();
    match o {
        Some(n) => {
            lemma_int_dec_quiet(n);
            lemma_quiet_balanced(int_dec(n));
        },
        None => lemma_quiet_balanced("null"@),
    }
}

proof fn lemma_jbool(b: bool)
    ensures
        balanced(jbool(b)),
{
    lemma_words_quiet();
    lemma_quiet_balanced("true"@);
    lemma_quiet_balanced("false"@);
}

proof fn lemma_dec_balanced(n: nat)
    ensures
        balanced(dec(n)),
{
    lemma_dec_quiet(n);
    lemma_quiet_balanced(dec(n));
}

// ---------------------------------------------------------------------------
// Members, objects and arrays
// ---------------------------------------------------------------------------
proof fn lemma_jkey(d: nat, name: Seq<char>)
    requires
        quiet(name),
    ensures
        balanced(jkey(d, name)),
{
    let q = seq!['"'];
    let tail = seq!['"', ':', ' '];
    lemma_ind_quiet(d);
    assert forall|k: int, m: int| m <= k implies #[trigger] scan(outside(k, m), jkey(d, name)) == outside(k, m) by {
        let st = outside(k, m);
        lemma_scan_one(st, '"');
        reveal_with_fuel(scan, 4);
        assert(tail.drop_last().drop_last().drop_last() =~= Seq::<char>::empty());
        assert(tail.drop_last().drop_last() =~= seq!['"']);
        assert(tail.drop_last() =~= seq!['"', ':']);
        lemma_scan_concat(st, ind(d) + q + name, tail);
        lemma_scan_concat(st, ind(d) + q, name);
        lemma_scan_concat(st, ind(d), q);
        lemma_quiet_scan(ind(d), st);
        lemma_quiet_scan(name, inside(k, m));
    }
}

proof fn lemma_jline(d: nat, name: Seq<char>, value: Seq<char>, tc: bool)
    requires
        quiet(name),
        balanced(value),
    ensures
        balanced(jline(d, name, value, tc)),
{
    reveal(jline);
    lemma_jkey(d, name);
    lemma_comma_quiet(tc);
    lemma_quiet_balanced(comma(tc) + seq!['\n']);
    lemma_balanced_concat(jkey(d, name), value);
    lemma_balanced_concat(jkey(d, name) + value, comma(tc) + seq!['\n']);
    assert(jkey(d, name) + value + comma(tc) + seq!['\n'] =~= (jkey(d, name) + value) + (comma(tc) + seq!['\n']));
}

/// What lies between an opening bracket and its closing one.
proof fn lemma_wrapped(open: char, body: Seq<char>, d: nat, close: char)
    requires
        open == '{' || open == '[',
        close == '}' || close == ']',
        balanced(body),
    ensures
        balanced(seq![open] + body + ind(d) + seq![close]),
{
    lemma_ind_quiet(d);
    lemma_quiet_balanced(ind(d));
    lemma_balanced_concat(body, ind(d));
    assert forall|k: int, m: int| m <= k implies #[trigger] scan(outside(k, m), seq![open] + body + ind(d) + seq![close])
        == outside(k, m) by {
        let st = outside(k, m);
        lemma_scan_one(st, open);
        lemma_scan_one(outside(k + 1, m), close);
        lemma_scan_concat(st, seq![open] + (body + ind(d)), seq![close]);
        lemma_scan_concat(st, seq![open], body + ind(d));
        assert(scan(st, seq![open]) == outside(k + 1, m));
        assert(scan(outside(k + 1, m), body + ind(d)) == outside(k + 1, m));
        assert(seq![open] + body + ind(d) + seq![close] =~= seq![open] + (body + ind(d)) + seq![close]);
    }
}

proof fn lemma_jobj(d: nat, members: Seq<char>)
    requires
        balanced(members),
    ensures
        balanced(jobj(d, members)),
{
    let nl = seq!['\n'];
    lemma_quiet_one('\n');
    lemma_quiet_balanced(nl);
    lemma_balanced_concat(nl, members);
    lemma_wrapped('{', nl + members, d, '}');
    assert(jobj(d, members) =~= seq!['{'] + (nl + members) + ind(d) + seq!['}']);
}

proof fn lemma_jarr(d: nat, name: Seq<char>, elems: Seq<char>, tc: bool)
    requires
        quiet(name),
        balanced(elems),
    ensures
        balanced(jarr(d, name, elems, tc)),
{
    reveal(jarr);
    lemma_jkey(d, name);
    lemma_comma_quiet(tc);
    lemma_quiet_balanced(comma(tc) + seq!['\n']);
    let body = if elems.len() == 0 {
        "[]"@
    } else {
        seq!['[', '\n'] + elems + ind(d) + seq![']']
    };
    if elems.len() == 0 {
        reveal_strlit("[]");
        assert(Seq::<char>::empty() + ind(0) == Seq::<char>::empty());
        lemma_wrapped('[', Seq::<char>::empty(), 0, ']');
        assert(seq!['['] + Seq::<char>::empty() + ind(0) + seq![']'] =~= "[]"@);
    } else {
        let nl = seq!['\n'];
        lemma_quiet_one('\n');
        lemma_quiet_balanced(nl);
        lemma_balanced_concat(nl, elems);
        lemma_wrapped('[', nl + elems, d, ']');
        assert(body =~= seq!['['] + (nl + elems) + ind(d) + seq![']']);
    }
    lemma_balanced_concat(jkey(d, name), body);
    lemma_balanced_concat(jkey(d, name) + body, comma(tc) + seq!['\n']);
    assert(jarr(d, name, elems, tc) =~= (jkey(d, name) + body) + (comma(tc) + seq!['\n']));
}

/// The first `k` elements of an array, each balanced, make balanced text.
pub proof fn lemma_jitems<T>(s: Seq<T>, k: int, d: nat, f: spec_fn(T, nat) -> Seq<char>)
    requires
        0 <= k <= s.len(),
        forall|i: int| 0 <= i < s.len() ==> #[trigger] balanced(f(s[i], d)),
    ensures
        balanced(jitems(s, k, d, f)),
    decreases k,
{
    if k == 0 {
        lemma_quiet_balanced(Seq::<char>::empty());
    } else {
        lemma_jitems(s, k - 1, d, f);
        lemma_ind_quiet(d);
        lemma_quiet_balanced(ind(d));
        lemma_comma_quiet(k < s.len());
        lemma_quiet_balanced(comma(k < s.len()) + seq!['\n']);
        assert(balanced(f(s[k - 1], d)));
        let a = jitems(s, k - 1, d, f);
        lemma_balanced_concat(a, ind(d));
        lemma_balanced_concat(a + ind(d), f(s[k - 1], d));
        lemma_balanced_concat(a + ind(d) + f(s[k - 1], d), comma(k < s.len()) + seq!['\n']);
        assert(jitems(s, k, d, f) =~= (a + ind(d) + f(s[k - 1], d)) + (comma(k < s.len()) + seq!['\n']));
    }
}

proof fn lemma_jstr_array(d: nat, name: Seq<char>, vals: Seq<Seq<char>>, tc: bool)
    requires
        quiet(name),
    ensures
        balanced(jstr_array(d, name, vals, tc)),
{
    reveal(jstr_array);
    reveal(jarr);
    assert forall|i: int| 0 <= i < vals.len() implies #[trigger] balanced(str_json()(vals[i], d + 1)) by {
        lemma_jstr(vals[i]);
    }
    lemma_jitems(vals, vals.len() as int, d + 1, str_json());
    lemma_jarr(d, name, jitems(vals, vals.len() as int, d + 1, str_json()), tc);
    if vals.len() > 0 {
        assert(jitems(vals, vals.len() as int, d + 1, str_json()).len() > 0);
    } else {
        assert(jitems(vals, 0, d + 1, str_json()).len() == 0);
    }
    assert(jstr_array(d, name, vals, tc) == jarr(d, name, jitems(vals, vals.len() as int, d + 1, str_json()), tc));
}

// ---------------------------------------------------------------------------
// The text of the topology
// ---------------------------------------------------------------------------
proof fn lemma_keys_0()
    ensures
        quiet("address"@),
        quiet("ata_port"@),
        quiet("block_device"@),
        quiet("children"@),
        quiet("class_code"@),
        quiet("controllers"@),
        quiet("dev_path"@),
        quiet("device_id"@),
{
    reveal_strlit("address");
    reveal_strlit("ata_port");
    reveal_strlit("block_device");
    reveal_strlit("children");
    reveal_strlit("class_code");
    reveal_strlit("controllers");
    reveal_strlit("dev_path");
    reveal_strlit("device_id");
    reveal_with_fuel(quiet, 20);
}

proof fn lemma_keys_1()
    ensures
        quiet("device_name"@),
        quiet("devices"@),
        quiet("dm_devices"@),
        quiet("dm_name"@),
        quiet("dm_type"@),
        quiet("dm_uuid"@),
        quiet("domain"@),
        quiet("driver"@),
{
    reveal_strlit("device_name");
    reveal_strlit("devices");
    reveal_strlit("dm_devices");
    reveal_strlit("dm_name");
    reveal_strlit("dm_type");
    reveal_strlit("dm_uuid");
    reveal_strlit("domain");
    reveal_strlit("driver");
    reveal_with_fuel(quiet, 20);
}

proof fn lemma_keys_2()
    ensures
        quiet("fabric_name"@),
        quiet("fabrics_controllers"@),
        quiet("firmware_rev"@),
        quiet("hctl"@),
        quiet("holders"@),
        quiet("host_driver"@),
        quiet("host_num"@),
        quiet("initiator_protocols"@),
{
    reveal_strlit("fabric_name");
    reveal_strlit("fabrics_controllers");
    reveal_strlit("firmware_rev");
    reveal_strlit("hctl");
    reveal_strlit("holders");
    reveal_strlit("host_driver");
    reveal_strlit("host_num");
    reveal_strlit("initiator_protocols");
    reveal_with_fuel(quiet, 20);
}

proof fn lemma_keys_3()
    ensures
        quiet("model"@),
        quiet("name"@),
        quiet("namespaces"@),
        quiet("negotiated_linkrate"@),
        quiet("nguid"@),
        quiet("node_name"@),
        quiet("nqn"@),
        quiet("nsid"@),
{
    reveal_strlit("model");
    reveal_strlit("name");
    reveal_strlit("namespaces");
    reveal_strlit("negotiated_linkrate");
    reveal_strlit("nguid");
    reveal_strlit("node_name");
    reveal_strlit("nqn");
    reveal_strlit("nsid");
    reveal_with_fuel(quiet, 20);
}

proof fn lemma_keys_4()
    ensures
        quiet("numa_node"@),
        quiet("number"@),
        quiet("nvme_subsystems"@),
        quiet("partitions"@),
        quiet("pci_address"@),
        quiet("pci_roots"@),
        quiet("phys"@),
        quiet("port_name"@),
{
    reveal_strlit("numa_node");
    reveal_strlit("number");
    reveal_strlit("nvme_subsystems");
    reveal_strlit("partitions");
    reveal_strlit("pci_address");
    reveal_strlit("pci_roots");
    reveal_strlit("phys");
    reveal_strlit("port_name");
    reveal_with_fuel(quiet, 20);
}

proof fn lemma_keys_5()
    ensures
        quiet("port_state"@),
        quiet("port_type"@),
        quiet("proc_name"@),
        quiet("read_only"@),
        quiet("removable"@),
        quiet("rev"@),
        quiet("sas_address"@),
        quiet("scsi_type"@),
{
    reveal_strlit("port_state");
    reveal_strlit("port_type");
    reveal_strlit("proc_name");
    reveal_strlit("read_only");
    reveal_strlit("removable");
    reveal_strlit("rev");
    reveal_strlit("sas_address");
    reveal_strlit("scsi_type");
    reveal_with_fuel(quiet, 20);
}

proof fn lemma_keys_6()
    ensures
        quiet("scsi_type_name"@),
        quiet("serial"@),
        quiet("sessions"@),
        quiet("sg_device"@),
        quiet("size_bytes"@),
        quiet("slaves"@),
        quiet("speed"@),
        quiet("state"@),
{
    reveal_strlit("scsi_type_name");
    reveal_strlit("serial");
    reveal_strlit("sessions");
    reveal_strlit("sg_device");
    reveal_strlit("size_bytes");
    reveal_strlit("slaves");
    reveal_strlit("speed");
    reveal_strlit("state");
    reveal_with_fuel(quiet, 20);
}

proof fn lemma_keys_7()
    ensures
        quiet("subsys_name"@),
        quiet("supported_speeds"@),
        quiet("target_address"@),
        quiet("target_name"@),
        quiet("target_port"@),
        quiet("target_protocols"@),
        quiet("targets"@),
        quiet("transport"@),
{
    reveal_strlit("subsys_name");
    reveal_strlit("supported_speeds");
    reveal_strlit("target_address");
    reveal_strlit("target_name");
    reveal_strlit("target_port");
    reveal_strlit("target_protocols");
    reveal_strlit("targets");
    reveal_strlit("transport");
    reveal_with_fuel(quiet, 20);
}

proof fn lemma_keys_8()
    ensures
        quiet("transport_address"@),
        quiet("transport_type"@),
        quiet("type"@),
        quiet("vendor"@),
        quiet("vendor_id"@),
        quiet("wwn"@),
{
    reveal_strlit("transport_address");
    reveal_strlit("transport_type");
    reveal_strlit("type");
    reveal_strlit("vendor");
    reveal_strlit("vendor_id");
    reveal_strlit("wwn");
    reveal_with_fuel(quiet, 20);
}

/// The member names of the JSON text hold no quote, backslash or bracket.
proof fn lemma_keys()
    ensures
        quiet("address"@),
        quiet("ata_port"@),
        quiet("block_device"@),
        quiet("children"@),
        quiet("class_code"@),
        quiet("controllers"@),
        quiet("dev_path"@),
        quiet("device_id"@),
        quiet("device_name"@),
        quiet("devices"@),
        quiet("dm_devices"@),
        quiet("dm_name"@),
        quiet("dm_type"@),
        quiet("dm_uuid"@),
        quiet("domain"@),
        quiet("driver"@),
        quiet("fabric_name"@),
        quiet("fabrics_controllers"@),
        quiet("firmware_rev"@),
        quiet("hctl"@),
        quiet("holders"@),
        quiet("host_driver"@),
        quiet("host_num"@),
        quiet("initiator_protocols"@),
        quiet("model"@),
        quiet("name"@),
        quiet("namespaces"@),
        quiet("negotiated_linkrate"@),
        quiet("nguid"@),
        quiet("node_name"@),
        quiet("nqn"@),
        quiet("nsid"@),
        quiet("numa_node"@),
        quiet("number"@),
        quiet("nvme_subsystems"@),
        quiet("partitions"@),
        quiet("pci_address"@),
        quiet("pci_roots"@),
        quiet("phys"@),
        quiet("port_name"@),
        quiet("port_state"@),
        quiet("port_type"@),
        quiet("proc_name"@),
        quiet("read_only"@),
        quiet("removable"@),
        quiet("rev"@),
        quiet("sas_address"@),
        quiet("scsi_type"@),
        quiet("scsi_type_name"@),
        quiet("serial"@),
        quiet("sessions"@),
        quiet("sg_device"@),
        quiet("size_bytes"@),
        quiet("slaves"@),
        quiet("speed"@),
        quiet("state"@),
        quiet("subsys_name"@),
        quiet("supported_speeds"@),
        quiet("target_address"@),
        quiet("target_name"@),
        quiet("target_port"@),
        quiet("target_protocols"@),
        quiet("targets"@),
        quiet("transport"@),
        quiet("transport_address"@),
        quiet("transport_type"@),
        quiet("type"@),
        quiet("vendor"@),
        quiet("vendor_id"@),
        quiet("wwn"@),
{
    lemma_keys_0();
    lemma_keys_1();
    lemma_keys_2();
    lemma_keys_3();
    lemma_keys_4();
    lemma_keys_5();
    lemma_keys_6();
    lemma_keys_7();
    lemma_keys_8();
}

proof fn lemma_json_partition(p: SpecPartition, d: nat)
    ensures
        balanced(json_partition(p, d)),
{
    lemma_keys();
    reveal(json_partition);
    lemma_jstr(p.name);
    lemma_jline(d + 1, "name"@, jstr(p.name), true);
    lemma_dec_balanced(p.number as nat);
    lemma_jline(d + 1, "number"@, dec(p.number as nat), true);
    lemma_balanced_concat(jline(d + 1, "name"@, jstr(p.name), true), jline(d + 1, "number"@, dec(p.number as nat), true));
    lemma_dec_balanced(p.size_bytes as nat);
    lemma_jline(d + 1, "size_bytes"@, dec(p.size_bytes as nat), true);
    lemma_balanced_concat(jline(d + 1, "name"@, jstr(p.name), true) + jline(d + 1, "number"@, dec(p.number as nat), true), jline(d + 1, "size_bytes"@, dec(p.size_bytes as nat), true));
    lemma_jstr_array(d + 1, "holders"@, p.holders, false);
    lemma_balanced_concat(jline(d + 1, "name"@, jstr(p.name), true) + jline(d + 1, "number"@, dec(p.number as nat), true) + jline(d + 1, "size_bytes"@, dec(p.size_bytes as nat), true), jstr_array(d + 1, "holders"@, p.holders, false));
    lemma_jobj(d, jline(d + 1, "name"@, jstr(p.name), true) + jline(d + 1, "number"@, dec(p.number as nat), true) + jline(d + 1, "size_bytes"@, dec(p.size_bytes as nat), true) + jstr_array(d + 1, "holders"@, p.holders, false));
}

proof fn lemma_json_block(b: SpecBlockDevice, d: nat)
    ensures
        balanced(json_block(b, d)),
{
    lemma_keys();
    reveal(json_block);
    lemma_jstr(b.name);
    lemma_jline(d + 1, "name"@, jstr(b.name), true);
    lemma_jstr(b.dev_path);
    lemma_jline(d + 1, "dev_path"@, jstr(b.dev_path), true);
    lemma_balanced_concat(jline(d + 1, "name"@, jstr(b.name), true), jline(d + 1, "dev_path"@, jstr(b.dev_path), true));
    lemma_dec_balanced(b.size_bytes as nat);
    lemma_jline(d + 1, "size_bytes"@, dec(b.size_bytes as nat), true);
    lemma_balanced_concat(jline(d + 1, "name"@, jstr(b.name), true) + jline(d + 1, "dev_path"@, jstr(b.dev_path), true), jline(d + 1, "size_bytes"@, dec(b.size_bytes as nat), true));
    lemma_jbool(b.removable);
    lemma_jline(d + 1, "removable"@, jbool(b.removable), true);
    lemma_balanced_concat(jline(d + 1, "name"@, jstr(b.name), true) + jline(d + 1, "dev_path"@, jstr(b.dev_path), true) + jline(d + 1, "size_bytes"@, dec(b.size_bytes as nat), true), jline(d + 1, "removable"@, jbool(b.removable), true));
    lemma_jbool(b.read_only);
    lemma_jline(d + 1, "read_only"@, jbool(b.read_only), true);
    lemma_balanced_concat(jline(d + 1, "name"@, jstr(b.name), true) + jline(d + 1, "dev_path"@, jstr(b.dev_path), true) + jline(d + 1, "size_bytes"@, dec(b.size_bytes as nat), true) + jline(d + 1, "removable"@, jbool(b.removable), true), jline(d + 1, "read_only"@, jbool(b.read_only), true));
    lemma_jopt_str(b.wwn);
    lemma_jline(d + 1, "wwn"@, jopt_str(b.wwn), true);
    lemma_balanced_concat(jline(d + 1, "name"@, jstr(b.name), true) + jline(d + 1, "dev_path"@, jstr(b.dev_path), true) + jline(d + 1, "size_bytes"@, dec(b.size_bytes as nat), true) + jline(d + 1, "removable"@, jbool(b.removable), true) + jline(d + 1, "read_only"@, jbool(b.read_only), true), jline(d + 1, "wwn"@, jopt_str(b.wwn), true));
    assert forall|i: int| 0 <= i < b.partitions.len() implies #[trigger] balanced(partition_json()(b.partitions[i], d + 2)) by { lemma_json_partition(b.partitions[i], d + 2); }
    lemma_jitems(b.partitions, b.partitions.len() as int, d + 2, partition_json());
    lemma_jarr(d + 1, "partitions"@, all_items(b.partitions, d + 2, partition_json()), true);
    lemma_balanced_concat(jline(d + 1, "name"@, jstr(b.name), true) + jline(d + 1, "dev_path"@, jstr(b.dev_path), true) + jline(d + 1, "size_bytes"@, dec(b.size_bytes as nat), true) + jline(d + 1, "removable"@, jbool(b.removable), true) + jline(d + 1, "read_only"@, jbool(b.read_only), true) + jline(d + 1, "wwn"@, jopt_str(b.wwn), true), jarr(d + 1, "partitions"@, all_items(b.partitions, d + 2, partition_json()), true));
    lemma_jstr_array(d + 1, "holders"@, b.holders, false);
    lemma_balanced_concat(jline(d + 1, "name"@, jstr(b.name), true) + jline(d + 1, "dev_path"@, jstr(b.dev_path), true) + jline(d + 1, "size_bytes"@, dec(b.size_bytes as nat), true) + jline(d + 1, "removable"@, jbool(b.removable), true) + jline(d + 1, "read_only"@, jbool(b.read_only), true) + jline(d + 1, "wwn"@, jopt_str(b.wwn), true) + jarr(d + 1, "partitions"@, all_items(b.partitions, d + 2, partition_json()), true), jstr_array(d + 1, "holders"@, b.holders, false));
    lemma_jobj(d, jline(d + 1, "name"@, jstr(b.name), true) + jline(d + 1, "dev_path"@, jstr(b.dev_path), true) + jline(d + 1, "size_bytes"@, dec(b.size_bytes as nat), true) + jline(d + 1, "removable"@, jbool(b.removable), true) + jline(d + 1, "read_only"@, jbool(b.read_only), true) + jline(d + 1, "wwn"@, jopt_str(b.wwn), true) + jarr(d + 1, "partitions"@, all_items(b.partitions, d + 2, partition_json()), true) + jstr_array(d + 1, "holders"@, b.holders, false));
}

proof fn lemma_jopt_block(d: nat, b: Option<SpecBlockDevice>, tc: bool)
    ensures
        balanced(jopt_block(d, b, tc)),
{
    lemma_keys();
    reveal(jopt_block);
    lemma_jkey(d, "block_device"@);
    lemma_words_quiet();
    let v = match b {
        Some(x) => json_block(x, d),
        None => "null"@,
    };
    match b {
        Some(x) => lemma_json_block(x, d),
        None => lemma_quiet_balanced("null"@),
    }
    lemma_comma_quiet(tc);
    lemma_quiet_balanced(comma(tc) + seq!['\n']);
    lemma_balanced_concat(jkey(d, "block_device"@), v);
    lemma_balanced_concat(jkey(d, "block_device"@) + v, comma(tc) + seq!['\n']);
    assert(jopt_block(d, b, tc) =~= (jkey(d, "block_device"@) + v) + (comma(tc) + seq!['\n']));
}

proof fn lemma_json_namespace(ns: SpecNvmeNamespace, d: nat)
    ensures
        balanced(json_namespace(ns, d)),
{
    lemma_keys();
    reveal(json_namespace);
    lemma_jstr(ns.name);
    lemma_jline(d + 1, "name"@, jstr(ns.name), true);
    lemma_jopt_num(match ns.nsid { Some(v) => Some(v as int), None => None });
    lemma_jline(d + 1, "nsid"@, jopt_num(match ns.nsid { Some(v) => Some(v as int), None => None }), true);
    lemma_balanced_concat(jline(d + 1, "name"@, jstr(ns.name), true), jline(d + 1, "nsid"@, jopt_num(match ns.nsid { Some(v) => Some(v as int), None => None }), true));
    lemma_jopt_str(ns.nguid);
    lemma_jline(d + 1, "nguid"@, jopt_str(ns.nguid), true);
    lemma_balanced_concat(jline(d + 1, "name"@, jstr(ns.name), true) + jline(d + 1, "nsid"@, jopt_num(match ns.nsid { Some(v) => Some(v as int), None => None }), true), jline(d + 1, "nguid"@, jopt_str(ns.nguid), true));
    lemma_dec_balanced(ns.size_bytes as nat);
    lemma_jline(d + 1, "size_bytes"@, dec(ns.size_bytes as nat), true);
    lemma_balanced_concat(jline(d + 1, "name"@, jstr(ns.name), true) + jline(d + 1, "nsid"@, jopt_num(match ns.nsid { Some(v) => Some(v as int), None => None }), true) + jline(d + 1, "nguid"@, jopt_str(ns.nguid), true), jline(d + 1, "size_bytes"@, dec(ns.size_bytes as nat), true));
    lemma_jopt_block(d + 1, ns.block_device, false);
    lemma_balanced_concat(jline(d + 1, "name"@, jstr(ns.name), true) + jline(d + 1, "nsid"@, jopt_num(match ns.nsid { Some(v) => Some(v as int), None => None }), true) + jline(d + 1, "nguid"@, jopt_str(ns.nguid), true) + jline(d + 1, "size_bytes"@, dec(ns.size_bytes as nat), true), jopt_block(d + 1, ns.block_device, false));
    lemma_jobj(d, jline(d + 1, "name"@, jstr(ns.name), true) + jline(d + 1, "nsid"@, jopt_num(match ns.nsid { Some(v) => Some(v as int), None => None }), true) + jline(d + 1, "nguid"@, jopt_str(ns.nguid), true) + jline(d + 1, "size_bytes"@, dec(ns.size_bytes as nat), true) + jopt_block(d + 1, ns.block_device, false));
}

proof fn lemma_nvme_ctrl_fields(n: SpecNvmeCtrl, e: nat)
    ensures
        balanced(nvme_ctrl_fields(n, e)),
{
    lemma_keys();
    reveal(nvme_ctrl_fields);
    lemma_jstr(n.name);
    lemma_jline(e, "name"@, jstr(n.name), true);
    lemma_jstr(n.model);
    lemma_jline(e, "model"@, jstr(n.model), true);
    lemma_balanced_concat(jline(e, "name"@, jstr(n.name), true), jline(e, "model"@, jstr(n.model), true));
    lemma_jstr(n.serial);
    lemma_jline(e, "serial"@, jstr(n.serial), true);
    lemma_balanced_concat(jline(e, "name"@, jstr(n.name), true) + jline(e, "model"@, jstr(n.model), true), jline(e, "serial"@, jstr(n.serial), true));
    lemma_jstr(n.firmware_rev);
    lemma_jline(e, "firmware_rev"@, jstr(n.firmware_rev), true);
    lemma_balanced_concat(jline(e, "name"@, jstr(n.name), true) + jline(e, "model"@, jstr(n.model), true) + jline(e, "serial"@, jstr(n.serial), true), jline(e, "firmware_rev"@, jstr(n.firmware_rev), true));
    lemma_jstr(n.transport);
    lemma_jline(e, "transport"@, jstr(n.transport), true);
    lemma_balanced_concat(jline(e, "name"@, jstr(n.name), true) + jline(e, "model"@, jstr(n.model), true) + jline(e, "serial"@, jstr(n.serial), true) + jline(e, "firmware_rev"@, jstr(n.firmware_rev), true), jline(e, "transport"@, jstr(n.transport), true));
    lemma_jstr(n.state);
    lemma_jline(e, "state"@, jstr(n.state), true);
    lemma_balanced_concat(jline(e, "name"@, jstr(n.name), true) + jline(e, "model"@, jstr(n.model), true) + jline(e, "serial"@, jstr(n.serial), true) + jline(e, "firmware_rev"@, jstr(n.firmware_rev), true) + jline(e, "transport"@, jstr(n.transport), true), jline(e, "state"@, jstr(n.state), true));
    lemma_jopt_str(n.pci_address);
    lemma_jline(e, "pci_address"@, jopt_str(n.pci_address), true);
    lemma_balanced_concat(jline(e, "name"@, jstr(n.name), true) + jline(e, "model"@, jstr(n.model), true) + jline(e, "serial"@, jstr(n.serial), true) + jline(e, "firmware_rev"@, jstr(n.firmware_rev), true) + jline(e, "transport"@, jstr(n.transport), true) + jline(e, "state"@, jstr(n.state), true), jline(e, "pci_address"@, jopt_str(n.pci_address), true));
    lemma_jopt_str(n.transport_address);
    lemma_jline(e, "transport_address"@, jopt_str(n.transport_address), true);
    lemma_balanced_concat(jline(e, "name"@, jstr(n.name), true) + jline(e, "model"@, jstr(n.model), true) + jline(e, "serial"@, jstr(n.serial), true) + jline(e, "firmware_rev"@, jstr(n.firmware_rev), true) + jline(e, "transport"@, jstr(n.transport), true) + jline(e, "state"@, jstr(n.state), true) + jline(e, "pci_address"@, jopt_str(n.pci_address), true), jline(e, "transport_address"@, jopt_str(n.transport_address), true));
    lemma_jopt_str(n.subsys_name);
    lemma_jline(e, "subsys_name"@, jopt_str(n.subsys_name), true);
    lemma_balanced_concat(jline(e, "name"@, jstr(n.name), true) + jline(e, "model"@, jstr(n.model), true) + jline(e, "serial"@, jstr(n.serial), true) + jline(e, "firmware_rev"@, jstr(n.firmware_rev), true) + jline(e, "transport"@, jstr(n.transport), true) + jline(e, "state"@, jstr(n.state), true) + jline(e, "pci_address"@, jopt_str(n.pci_address), true) + jline(e, "transport_address"@, jopt_str(n.transport_address), true), jline(e, "subsys_name"@, jopt_str(n.subsys_name), true));
    assert forall|i: int| 0 <= i < n.namespaces.len() implies #[trigger] balanced(namespace_json()(n.namespaces[i], e + 1)) by { lemma_json_namespace(n.namespaces[i], e + 1); }
    lemma_jitems(n.namespaces, n.namespaces.len() as int, e + 1, namespace_json());
    lemma_jarr(e, "namespaces"@, all_items(n.namespaces, e + 1, namespace_json()), false);
    lemma_balanced_concat(jline(e, "name"@, jstr(n.name), true) + jline(e, "model"@, jstr(n.model), true) + jline(e, "serial"@, jstr(n.serial), true) + jline(e, "firmware_rev"@, jstr(n.firmware_rev), true) + jline(e, "transport"@, jstr(n.transport), true) + jline(e, "state"@, jstr(n.state), true) + jline(e, "pci_address"@, jopt_str(n.pci_address), true) + jline(e, "transport_address"@, jopt_str(n.transport_address), true) + jline(e, "subsys_name"@, jopt_str(n.subsys_name), true), jarr(e, "namespaces"@, all_items(n.namespaces, e + 1, namespace_json()), false));
}

proof fn lemma_json_nvme_ctrl(n: SpecNvmeCtrl, d: nat)
    ensures
        balanced(json_nvme_ctrl(n, d)),
{
    reveal(json_nvme_ctrl);
    lemma_nvme_ctrl_fields(n, d + 1);
    lemma_jobj(d, nvme_ctrl_fields(n, d + 1));
}

proof fn lemma_json_subsystem(s: SpecNvmeSubsystem, d: nat)
    ensures
        balanced(json_subsystem(s, d)),
{
    lemma_keys();
    reveal(json_subsystem);
    lemma_jstr(s.name);
    lemma_jline(d + 1, "name"@, jstr(s.name), true);
    lemma_jopt_str(s.nqn);
    lemma_jline(d + 1, "nqn"@, jopt_str(s.nqn), true);
    lemma_balanced_concat(jline(d + 1, "name"@, jstr(s.name), true), jline(d + 1, "nqn"@, jopt_str(s.nqn), true));
    lemma_jstr(s.model);
    lemma_jline(d + 1, "model"@, jstr(s.model), true);
    lemma_balanced_concat(jline(d + 1, "name"@, jstr(s.name), true) + jline(d + 1, "nqn"@, jopt_str(s.nqn), true), jline(d + 1, "model"@, jstr(s.model), true));
    lemma_jstr(s.serial);
    lemma_jline(d + 1, "serial"@, jstr(s.serial), true);
    lemma_balanced_concat(jline(d + 1, "name"@, jstr(s.name), true) + jline(d + 1, "nqn"@, jopt_str(s.nqn), true) + jline(d + 1, "model"@, jstr(s.model), true), jline(d + 1, "serial"@, jstr(s.serial), true));
    lemma_jstr_array(d + 1, "controllers"@, s.controllers, true);
    lemma_balanced_concat(jline(d + 1, "name"@, jstr(s.name), true) + jline(d + 1, "nqn"@, jopt_str(s.nqn), true) + jline(d + 1, "model"@, jstr(s.model), true) + jline(d + 1, "serial"@, jstr(s.serial), true), jstr_array(d + 1, "controllers"@, s.controllers, true));
    assert forall|i: int| 0 <= i < s.namespaces.len() implies #[trigger] balanced(namespace_json()(s.namespaces[i], d + 2)) by { lemma_json_namespace(s.namespaces[i], d + 2); }
    lemma_jitems(s.namespaces, s.namespaces.len() as int, d + 2, namespace_json());
    lemma_jarr(d + 1, "namespaces"@, all_items(s.namespaces, d + 2, namespace_json()), false);
    lemma_balanced_concat(jline(d + 1, "name"@, jstr(s.name), true) + jline(d + 1, "nqn"@, jopt_str(s.nqn), true) + jline(d + 1, "model"@, jstr(s.model), true) + jline(d + 1, "serial"@, jstr(s.serial), true) + jstr_array(d + 1, "controllers"@, s.controllers, true), jarr(d + 1, "namespaces"@, all_items(s.namespaces, d + 2, namespace_json()), false));
    lemma_jobj(d, jline(d + 1, "name"@, jstr(s.name), true) + jline(d + 1, "nqn"@, jopt_str(s.nqn), true) + jline(d + 1, "model"@, jstr(s.model), true) + jline(d + 1, "serial"@, jstr(s.serial), true) + jstr_array(d + 1, "controllers"@, s.controllers, true) + jarr(d + 1, "namespaces"@, all_items(s.namespaces, d + 2, namespace_json()), false));
}

proof fn lemma_json_scsi_device(x: SpecScsiDevice, d: nat)
    ensures
        balanced(json_scsi_device(x, d)),
{
    lemma_keys();
    reveal(json_scsi_device);
    lemma_jstr(x.hctl);
    lemma_jline(d + 1, "hctl"@, jstr(x.hctl), true);
    lemma_jstr(x.vendor);
    lemma_jline(d + 1, "vendor"@, jstr(x.vendor), true);
    lemma_balanced_concat(jline(d + 1, "hctl"@, jstr(x.hctl), true), jline(d + 1, "vendor"@, jstr(x.vendor), true));
    lemma_jstr(x.model);
    lemma_jline(d + 1, "model"@, jstr(x.model), true);
    lemma_balanced_concat(jline(d + 1, "hctl"@, jstr(x.hctl), true) + jline(d + 1, "vendor"@, jstr(x.vendor), true), jline(d + 1, "model"@, jstr(x.model), true));
    lemma_jstr(x.rev);
    lemma_jline(d + 1, "rev"@, jstr(x.rev), true);
    lemma_balanced_concat(jline(d + 1, "hctl"@, jstr(x.hctl), true) + jline(d + 1, "vendor"@, jstr(x.vendor), true) + jline(d + 1, "model"@, jstr(x.model), true), jline(d + 1, "rev"@, jstr(x.rev), true));
    lemma_dec_balanced(x.scsi_type as nat);
    lemma_jline(d + 1, "scsi_type"@, dec(x.scsi_type as nat), true);
    lemma_balanced_concat(jline(d + 1, "hctl"@, jstr(x.hctl), true) + jline(d + 1, "vendor"@, jstr(x.vendor), true) + jline(d + 1, "model"@, jstr(x.model), true) + jline(d + 1, "rev"@, jstr(x.rev), true), jline(d + 1, "scsi_type"@, dec(x.scsi_type as nat), true));
    lemma_jstr(x.scsi_type_name);
    lemma_jline(d + 1, "scsi_type_name"@, jstr(x.scsi_type_name), true);
    lemma_balanced_concat(jline(d + 1, "hctl"@, jstr(x.hctl), true) + jline(d + 1, "vendor"@, jstr(x.vendor), true) + jline(d + 1, "model"@, jstr(x.model), true) + jline(d + 1, "rev"@, jstr(x.rev), true) + jline(d + 1, "scsi_type"@, dec(x.scsi_type as nat), true), jline(d + 1, "scsi_type_name"@, jstr(x.scsi_type_name), true));
    lemma_jopt_block(d + 1, x.block_device, true);
    lemma_balanced_concat(jline(d + 1, "hctl"@, jstr(x.hctl), true) + jline(d + 1, "vendor"@, jstr(x.vendor), true) + jline(d + 1, "model"@, jstr(x.model), true) + jline(d + 1, "rev"@, jstr(x.rev), true) + jline(d + 1, "scsi_type"@, dec(x.scsi_type as nat), true) + jline(d + 1, "scsi_type_name"@, jstr(x.scsi_type_name), true), jopt_block(d + 1, x.block_device, true));
    lemma_jopt_str(x.sg_device);
    lemma_jline(d + 1, "sg_device"@, jopt_str(x.sg_device), false);
    lemma_balanced_concat(jline(d + 1, "hctl"@, jstr(x.hctl), true) + jline(d + 1, "vendor"@, jstr(x.vendor), true) + jline(d + 1, "model"@, jstr(x.model), true) + jline(d + 1, "rev"@, jstr(x.rev), true) + jline(d + 1, "scsi_type"@, dec(x.scsi_type as nat), true) + jline(d + 1, "scsi_type_name"@, jstr(x.scsi_type_name), true) + jopt_block(d + 1, x.block_device, true), jline(d + 1, "sg_device"@, jopt_str(x.sg_device), false));
    lemma_jobj(d, jline(d + 1, "hctl"@, jstr(x.hctl), true) + jline(d + 1, "vendor"@, jstr(x.vendor), true) + jline(d + 1, "model"@, jstr(x.model), true) + jline(d + 1, "rev"@, jstr(x.rev), true) + jline(d + 1, "scsi_type"@, dec(x.scsi_type as nat), true) + jline(d + 1, "scsi_type_name"@, jstr(x.scsi_type_name), true) + jopt_block(d + 1, x.block_device, true) + jline(d + 1, "sg_device"@, jopt_str(x.sg_device), false));
}

proof fn lemma_json_scsi_target(t: SpecScsiTarget, d: nat)
    ensures
        balanced(json_scsi_target(t, d)),
{
    lemma_keys();
    reveal(json_scsi_target);
    lemma_jstr(t.address);
    lemma_jline(d + 1, "address"@, jstr(t.address), true);
    assert forall|i: int| 0 <= i < t.devices.len() implies #[trigger] balanced(scsi_device_json()(t.devices[i], d + 2)) by { lemma_json_scsi_device(t.devices[i], d + 2); }
    lemma_jitems(t.devices, t.devices.len() as int, d + 2, scsi_device_json());
    lemma_jarr(d + 1, "devices"@, all_items(t.devices, d + 2, scsi_device_json()), false);
    lemma_balanced_concat(jline(d + 1, "address"@, jstr(t.address), true), jarr(d + 1, "devices"@, all_items(t.devices, d + 2, scsi_device_json()), false));
    lemma_jobj(d, jline(d + 1, "address"@, jstr(t.address), true) + jarr(d + 1, "devices"@, all_items(t.devices, d + 2, scsi_device_json()), false));
}

proof fn lemma_json_sas_phy(p: SpecSasPhyInfo, d: nat)
    ensures
        balanced(json_sas_phy(p, d)),
{
    lemma_keys();
    reveal(json_sas_phy);
    lemma_jstr(p.name);
    lemma_jline(d + 1, "name"@, jstr(p.name), true);
    lemma_jstr(p.sas_address);
    lemma_jline(d + 1, "sas_address"@, jstr(p.sas_address), true);
    lemma_balanced_concat(jline(d + 1, "name"@, jstr(p.name), true), jline(d + 1, "sas_address"@, jstr(p.sas_address), true));
    lemma_jstr(p.negotiated_linkrate);
    lemma_jline(d + 1, "negotiated_linkrate"@, jstr(p.negotiated_linkrate), true);
    lemma_balanced_concat(jline(d + 1, "name"@, jstr(p.name), true) + jline(d + 1, "sas_address"@, jstr(p.sas_address), true), jline(d + 1, "negotiated_linkrate"@, jstr(p.negotiated_linkrate), true));
    lemma_jopt_str(p.initiator_protocols);
    lemma_jline(d + 1, "initiator_protocols"@, jopt_str(p.initiator_protocols), true);
    lemma_balanced_concat(jline(d + 1, "name"@, jstr(p.name), true) + jline(d + 1, "sas_address"@, jstr(p.sas_address), true) + jline(d + 1, "negotiated_linkrate"@, jstr(p.negotiated_linkrate), true), jline(d + 1, "initiator_protocols"@, jopt_str(p.initiator_protocols), true));
    lemma_jopt_str(p.target_protocols);
    lemma_jline(d + 1, "target_protocols"@, jopt_str(p.target_protocols), false);
    lemma_balanced_concat(jline(d + 1, "name"@, jstr(p.name), true) + jline(d + 1, "sas_address"@, jstr(p.sas_address), true) + jline(d + 1, "negotiated_linkrate"@, jstr(p.negotiated_linkrate), true) + jline(d + 1, "initiator_protocols"@, jopt_str(p.initiator_protocols), true), jline(d + 1, "target_protocols"@, jopt_str(p.target_protocols), false));
    lemma_jobj(d, jline(d + 1, "name"@, jstr(p.name), true) + jline(d + 1, "sas_address"@, jstr(p.sas_address), true) + jline(d + 1, "negotiated_linkrate"@, jstr(p.negotiated_linkrate), true) + jline(d + 1, "initiator_protocols"@, jopt_str(p.initiator_protocols), true) + jline(d + 1, "target_protocols"@, jopt_str(p.target_protocols), false));
}

proof fn lemma_json_iscsi_session(s: SpecIscsiSessionInfo, d: nat)
    ensures
        balanced(json_iscsi_session(s, d)),
{
    lemma_keys();
    reveal(json_iscsi_session);
    lemma_jstr(s.target_name);
    lemma_jline(d + 1, "target_name"@, jstr(s.target_name), true);
    lemma_jstr(s.state);
    lemma_jline(d + 1, "state"@, jstr(s.state), true);
    lemma_balanced_concat(jline(d + 1, "target_name"@, jstr(s.target_name), true), jline(d + 1, "state"@, jstr(s.state), true));
    lemma_jopt_str(s.target_address);
    lemma_jline(d + 1, "target_address"@, jopt_str(s.target_address), true);
    lemma_balanced_concat(jline(d + 1, "target_name"@, jstr(s.target_name), true) + jline(d + 1, "state"@, jstr(s.state), true), jline(d + 1, "target_address"@, jopt_str(s.target_address), true));
    lemma_jopt_num(match s.target_port { Some(v) => Some(v as int), None => None });
    lemma_jline(d + 1, "target_port"@, jopt_num(match s.target_port { Some(v) => Some(v as int), None => None }), false);
    lemma_balanced_concat(jline(d + 1, "target_name"@, jstr(s.target_name), true) + jline(d + 1, "state"@, jstr(s.state), true) + jline(d + 1, "target_address"@, jopt_str(s.target_address), true), jline(d + 1, "target_port"@, jopt_num(match s.target_port { Some(v) => Some(v as int), None => None }), false));
    lemma_jobj(d, jline(d + 1, "target_name"@, jstr(s.target_name), true) + jline(d + 1, "state"@, jstr(s.state), true) + jline(d + 1, "target_address"@, jopt_str(s.target_address), true) + jline(d + 1, "target_port"@, jopt_num(match s.target_port { Some(v) => Some(v as int), None => None }), false));
}

proof fn lemma_json_transport(t: SpecTransportInfo, d: nat)
    ensures
        balanced(json_transport(t, d)),
{
    lemma_keys();
    reveal(json_transport);
    match t {
        SpecTransportInfo::Fc(fc) => {
            lemma_jstr("Fc"@);
            lemma_jline(d + 1, "transport_type"@, jstr("Fc"@), true);
            lemma_jstr(fc.port_name);
            lemma_jline(d + 1, "port_name"@, jstr(fc.port_name), true);
            lemma_balanced_concat(jline(d + 1, "transport_type"@, jstr("Fc"@), true), jline(d + 1, "port_name"@, jstr(fc.port_name), true));
            lemma_jstr(fc.node_name);
            lemma_jline(d + 1, "node_name"@, jstr(fc.node_name), true);
            lemma_balanced_concat(jline(d + 1, "transport_type"@, jstr("Fc"@), true) + jline(d + 1, "port_name"@, jstr(fc.port_name), true), jline(d + 1, "node_name"@, jstr(fc.node_name), true));
            lemma_jstr(fc.port_state);
            lemma_jline(d + 1, "port_state"@, jstr(fc.port_state), true);
            lemma_balanced_concat(jline(d + 1, "transport_type"@, jstr("Fc"@), true) + jline(d + 1, "port_name"@, jstr(fc.port_name), true) + jline(d + 1, "node_name"@, jstr(fc.node_name), true), jline(d + 1, "port_state"@, jstr(fc.port_state), true));
            lemma_jstr(fc.port_type);
            lemma_jline(d + 1, "port_type"@, jstr(fc.port_type), true);
            lemma_balanced_concat(jline(d + 1, "transport_type"@, jstr("Fc"@), true) + jline(d + 1, "port_name"@, jstr(fc.port_name), true) + jline(d + 1, "node_name"@, jstr(fc.node_name), true) + jline(d + 1, "port_state"@, jstr(fc.port_state), true), jline(d + 1, "port_type"@, jstr(fc.port_type), true));
            lemma_jstr(fc.speed);
            lemma_jline(d + 1, "speed"@, jstr(fc.speed), true);
            lemma_balanced_concat(jline(d + 1, "transport_type"@, jstr("Fc"@), true) + jline(d + 1, "port_name"@, jstr(fc.port_name), true) + jline(d + 1, "node_name"@, jstr(fc.node_name), true) + jline(d + 1, "port_state"@, jstr(fc.port_state), true) + jline(d + 1, "port_type"@, jstr(fc.port_type), true), jline(d + 1, "speed"@, jstr(fc.speed), true));
            lemma_jopt_str(fc.fabric_name);
            lemma_jline(d + 1, "fabric_name"@, jopt_str(fc.fabric_name), true);
            lemma_balanced_concat(jline(d + 1, "transport_type"@, jstr("Fc"@), true) + jline(d + 1, "port_name"@, jstr(fc.port_name), true) + jline(d + 1, "node_name"@, jstr(fc.node_name), true) + jline(d + 1, "port_state"@, jstr(fc.port_state), true) + jline(d + 1, "port_type"@, jstr(fc.port_type), true) + jline(d + 1, "speed"@, jstr(fc.speed), true), jline(d + 1, "fabric_name"@, jopt_str(fc.fabric_name), true));
            lemma_jopt_str(fc.supported_speeds);
            lemma_jline(d + 1, "supported_speeds"@, jopt_str(fc.supported_speeds), false);
            lemma_balanced_concat(jline(d + 1, "transport_type"@, jstr("Fc"@), true) + jline(d + 1, "port_name"@, jstr(fc.port_name), true) + jline(d + 1, "node_name"@, jstr(fc.node_name), true) + jline(d + 1, "port_state"@, jstr(fc.port_state), true) + jline(d + 1, "port_type"@, jstr(fc.port_type), true) + jline(d + 1, "speed"@, jstr(fc.speed), true) + jline(d + 1, "fabric_name"@, jopt_str(fc.fabric_name), true), jline(d + 1, "supported_speeds"@, jopt_str(fc.supported_speeds), false));
            lemma_jobj(d, jline(d + 1, "transport_type"@, jstr("Fc"@), true) + jline(d + 1, "port_name"@, jstr(fc.port_name), true) + jline(d + 1, "node_name"@, jstr(fc.node_name), true) + jline(d + 1, "port_state"@, jstr(fc.port_state), true) + jline(d + 1, "port_type"@, jstr(fc.port_type), true) + jline(d + 1, "speed"@, jstr(fc.speed), true) + jline(d + 1, "fabric_name"@, jopt_str(fc.fabric_name), true) + jline(d + 1, "supported_speeds"@, jopt_str(fc.supported_speeds), false));
        },
        SpecTransportInfo::Sas(phys) => {
            lemma_jstr("Sas"@);
            lemma_jline(d + 1, "transport_type"@, jstr("Sas"@), true);
            assert forall|i: int| 0 <= i < phys.len() implies #[trigger] balanced(sas_phy_json()(phys[i], d + 2)) by { lemma_json_sas_phy(phys[i], d + 2); }
            lemma_jitems(phys, phys.len() as int, d + 2, sas_phy_json());
            lemma_jarr(d + 1, "phys"@, all_items(phys, d + 2, sas_phy_json()), false);
            lemma_balanced_concat(jline(d + 1, "transport_type"@, jstr("Sas"@), true), jarr(d + 1, "phys"@, all_items(phys, d + 2, sas_phy_json()), false));
            lemma_jobj(d, jline(d + 1, "transport_type"@, jstr("Sas"@), true) + jarr(d + 1, "phys"@, all_items(phys, d + 2, sas_phy_json()), false));
        },
        SpecTransportInfo::Iscsi(sessions) => {
            lemma_jstr("Iscsi"@);
            lemma_jline(d + 1, "transport_type"@, jstr("Iscsi"@), true);
            assert forall|i: int| 0 <= i < sessions.len() implies #[trigger] balanced(iscsi_session_json()(sessions[i], d + 2)) by { lemma_json_iscsi_session(sessions[i], d + 2); }
            lemma_jitems(sessions, sessions.len() as int, d + 2, iscsi_session_json());
            lemma_jarr(d + 1, "sessions"@, all_items(sessions, d + 2, iscsi_session_json()), false);
            lemma_balanced_concat(jline(d + 1, "transport_type"@, jstr("Iscsi"@), true), jarr(d + 1, "sessions"@, all_items(sessions, d + 2, iscsi_session_json()), false));
            lemma_jobj(d, jline(d + 1, "transport_type"@, jstr("Iscsi"@), true) + jarr(d + 1, "sessions"@, all_items(sessions, d + 2, iscsi_session_json()), false));
        },
    }
}

proof fn lemma_scsi_host_fields(h: SpecScsiHost, e: nat)
    ensures
        balanced(scsi_host_fields(h, e)),
{
    lemma_keys();
    reveal(scsi_host_fields);
    lemma_words_quiet();
    let tv = match h.transport {
        Some(t) => json_transport(t, e) + seq![',', '\n'],
        None => "null,\n"@,
    };
    match h.transport {
        Some(t) => {
            lemma_json_transport(t, e);
            lemma_quiet_one(',');
            lemma_quiet_one('\n');
            lemma_quiet_concat(seq![','], seq!['\n']);
            assert(seq![','] + seq!['\n'] =~= seq![',', '\n']);
            lemma_quiet_balanced(seq![',', '\n']);
            lemma_balanced_concat(json_transport(t, e), seq![',', '\n']);
        },
        None => lemma_quiet_balanced("null,\n"@),
    }
    lemma_dec_balanced(h.host_num as nat);
    lemma_jline(e, "host_num"@, dec(h.host_num as nat), true);
    lemma_jopt_str(h.proc_name);
    lemma_jline(e, "proc_name"@, jopt_str(h.proc_name), true);
    lemma_balanced_concat(jline(e, "host_num"@, dec(h.host_num as nat), true), jline(e, "proc_name"@, jopt_str(h.proc_name), true));
    lemma_jopt_str(h.ata_port);
    lemma_jline(e, "ata_port"@, jopt_str(h.ata_port), true);
    lemma_balanced_concat(jline(e, "host_num"@, dec(h.host_num as nat), true) + jline(e, "proc_name"@, jopt_str(h.proc_name), true), jline(e, "ata_port"@, jopt_str(h.ata_port), true));
    lemma_jkey(e, "transport"@);
    lemma_balanced_concat(jline(e, "host_num"@, dec(h.host_num as nat), true) + jline(e, "proc_name"@, jopt_str(h.proc_name), true) + jline(e, "ata_port"@, jopt_str(h.ata_port), true), jkey(e, "transport"@));
    lemma_balanced_concat(jline(e, "host_num"@, dec(h.host_num as nat), true) + jline(e, "proc_name"@, jopt_str(h.proc_name), true) + jline(e, "ata_port"@, jopt_str(h.ata_port), true) + jkey(e, "transport"@), tv);
    assert forall|i: int| 0 <= i < h.targets.len() implies #[trigger] balanced(scsi_target_json()(h.targets[i], e + 1)) by { lemma_json_scsi_target(h.targets[i], e + 1); }
    lemma_jitems(h.targets, h.targets.len() as int, e + 1, scsi_target_json());
    lemma_jarr(e, "targets"@, all_items(h.targets, e + 1, scsi_target_json()), false);
    lemma_balanced_concat(jline(e, "host_num"@, dec(h.host_num as nat), true) + jline(e, "proc_name"@, jopt_str(h.proc_name), true) + jline(e, "ata_port"@, jopt_str(h.ata_port), true) + jkey(e, "transport"@) + tv, jarr(e, "targets"@, all_items(h.targets, e + 1, scsi_target_json()), false));
    assert(scsi_host_fields(h, e) == jline(e, "host_num"@, dec(h.host_num as nat), true) + jline(e, "proc_name"@, jopt_str(h.proc_name), true) + jline(e, "ata_port"@, jopt_str(h.ata_port), true) + jkey(e, "transport"@) + tv + jarr(e, "targets"@, all_items(h.targets, e + 1, scsi_target_json()), false));
}

proof fn lemma_json_controller_child(c: SpecControllerChild, d: nat)
    ensures
        balanced(json_controller_child(c, d)),
{
    lemma_keys();
    reveal(json_controller_child);
    match c {
        SpecControllerChild::ScsiHost(h) => {
            lemma_jstr("ScsiHost"@);
            lemma_jline(d + 1, "type"@, jstr("ScsiHost"@), true);
            lemma_scsi_host_fields(h, d + 1);
            lemma_balanced_concat(jline(d + 1, "type"@, jstr("ScsiHost"@), true), scsi_host_fields(h, d + 1));
            lemma_jobj(d, jline(d + 1, "type"@, jstr("ScsiHost"@), true) + scsi_host_fields(h, d + 1));
        },
        SpecControllerChild::NvmeController(n) => {
            lemma_jstr("NvmeController"@);
            lemma_jline(d + 1, "type"@, jstr("NvmeController"@), true);
            lemma_nvme_ctrl_fields(n, d + 1);
            lemma_balanced_concat(jline(d + 1, "type"@, jstr("NvmeController"@), true), nvme_ctrl_fields(n, d + 1));
            lemma_jobj(d, jline(d + 1, "type"@, jstr("NvmeController"@), true) + nvme_ctrl_fields(n, d + 1));
        },
    }
}

proof fn lemma_json_storage_controller(c: SpecStorageController, d: nat)
    ensures
        balanced(json_storage_controller(c, d)),
{
    lemma_keys();
    reveal(json_storage_controller);
    lemma_jstr("StorageController"@);
    lemma_jline(d + 1, "type"@, jstr("StorageController"@), true);
    lemma_jstr(c.address);
    lemma_jline(d + 1, "address"@, jstr(c.address), true);
    lemma_balanced_concat(jline(d + 1, "type"@, jstr("StorageController"@), true), jline(d + 1, "address"@, jstr(c.address), true));
    lemma_jstr(c.vendor_id);
    lemma_jline(d + 1, "vendor_id"@, jstr(c.vendor_id), true);
    lemma_balanced_concat(jline(d + 1, "type"@, jstr("StorageController"@), true) + jline(d + 1, "address"@, jstr(c.address), true), jline(d + 1, "vendor_id"@, jstr(c.vendor_id), true));
    lemma_jstr(c.device_id);
    lemma_jline(d + 1, "device_id"@, jstr(c.device_id), true);
    lemma_balanced_concat(jline(d + 1, "type"@, jstr("StorageController"@), true) + jline(d + 1, "address"@, jstr(c.address), true) + jline(d + 1, "vendor_id"@, jstr(c.vendor_id), true), jline(d + 1, "device_id"@, jstr(c.device_id), true));
    lemma_jstr(c.class_code);
    lemma_jline(d + 1, "class_code"@, jstr(c.class_code), true);
    lemma_balanced_concat(jline(d + 1, "type"@, jstr("StorageController"@), true) + jline(d + 1, "address"@, jstr(c.address), true) + jline(d + 1, "vendor_id"@, jstr(c.vendor_id), true) + jline(d + 1, "device_id"@, jstr(c.device_id), true), jline(d + 1, "class_code"@, jstr(c.class_code), true));
    lemma_jopt_str(c.driver);
    lemma_jline(d + 1, "driver"@, jopt_str(c.driver), true);
    lemma_balanced_concat(jline(d + 1, "type"@, jstr("StorageController"@), true) + jline(d + 1, "address"@, jstr(c.address), true) + jline(d + 1, "vendor_id"@, jstr(c.vendor_id), true) + jline(d + 1, "device_id"@, jstr(c.device_id), true) + jline(d + 1, "class_code"@, jstr(c.class_code), true), jline(d + 1, "driver"@, jopt_str(c.driver), true));
    lemma_jopt_num(match c.numa_node { Some(v) => Some(v as int), None => None });
    lemma_jline(d + 1, "numa_node"@, jopt_num(match c.numa_node { Some(v) => Some(v as int), None => None }), true);
    lemma_balanced_concat(jline(d + 1, "type"@, jstr("StorageController"@), true) + jline(d + 1, "address"@, jstr(c.address), true) + jline(d + 1, "vendor_id"@, jstr(c.vendor_id), true) + jline(d + 1, "device_id"@, jstr(c.device_id), true) + jline(d + 1, "class_code"@, jstr(c.class_code), true) + jline(d + 1, "driver"@, jopt_str(c.driver), true), jline(d + 1, "numa_node"@, jopt_num(match c.numa_node { Some(v) => Some(v as int), None => None }), true));
    assert forall|i: int| 0 <= i < c.children.len() implies #[trigger] balanced(controller_child_json()(c.children[i], d + 2)) by { lemma_json_controller_child(c.children[i], d + 2); }
    lemma_jitems(c.children, c.children.len() as int, d + 2, controller_child_json());
    lemma_jarr(d + 1, "children"@, all_items(c.children, d + 2, controller_child_json()), false);
    lemma_balanced_concat(jline(d + 1, "type"@, jstr("StorageController"@), true) + jline(d + 1, "address"@, jstr(c.address), true) + jline(d + 1, "vendor_id"@, jstr(c.vendor_id), true) + jline(d + 1, "device_id"@, jstr(c.device_id), true) + jline(d + 1, "class_code"@, jstr(c.class_code), true) + jline(d + 1, "driver"@, jopt_str(c.driver), true) + jline(d + 1, "numa_node"@, jopt_num(match c.numa_node { Some(v) => Some(v as int), None => None }), true), jarr(d + 1, "children"@, all_items(c.children, d + 2, controller_child_json()), false));
    lemma_jobj(d, jline(d + 1, "type"@, jstr("StorageController"@), true) + jline(d + 1, "address"@, jstr(c.address), true) + jline(d + 1, "vendor_id"@, jstr(c.vendor_id), true) + jline(d + 1, "device_id"@, jstr(c.device_id), true) + jline(d + 1, "class_code"@, jstr(c.class_code), true) + jline(d + 1, "driver"@, jopt_str(c.driver), true) + jline(d + 1, "numa_node"@, jopt_num(match c.numa_node { Some(v) => Some(v as int), None => None }), true) + jarr(d + 1, "children"@, all_items(c.children, d + 2, controller_child_json()), false));
}

proof fn lemma_json_pci_node(n: SpecPciNode, d: nat)
    ensures
        balanced(json_pci_node(n, d)),
    decreases n,
{
    lemma_keys();
    match n {
        SpecPciNode::Bridge(b) => {
            lemma_jstr("Bridge"@);
            lemma_jline(d + 1, "type"@, jstr("Bridge"@), true);
            lemma_jstr(b.address);
            lemma_jline(d + 1, "address"@, jstr(b.address), true);
            lemma_balanced_concat(jline(d + 1, "type"@, jstr("Bridge"@), true), jline(d + 1, "address"@, jstr(b.address), true));
            lemma_jstr(b.vendor_id);
            lemma_jline(d + 1, "vendor_id"@, jstr(b.vendor_id), true);
            lemma_balanced_concat(jline(d + 1, "type"@, jstr("Bridge"@), true) + jline(d + 1, "address"@, jstr(b.address), true), jline(d + 1, "vendor_id"@, jstr(b.vendor_id), true));
            lemma_jstr(b.device_id);
            lemma_jline(d + 1, "device_id"@, jstr(b.device_id), true);
            lemma_balanced_concat(jline(d + 1, "type"@, jstr("Bridge"@), true) + jline(d + 1, "address"@, jstr(b.address), true) + jline(d + 1, "vendor_id"@, jstr(b.vendor_id), true), jline(d + 1, "device_id"@, jstr(b.device_id), true));
            lemma_jopt_str(b.driver);
            lemma_jline(d + 1, "driver"@, jopt_str(b.driver), true);
            lemma_balanced_concat(jline(d + 1, "type"@, jstr("Bridge"@), true) + jline(d + 1, "address"@, jstr(b.address), true) + jline(d + 1, "vendor_id"@, jstr(b.vendor_id), true) + jline(d + 1, "device_id"@, jstr(b.device_id), true), jline(d + 1, "driver"@, jopt_str(b.driver), true));
            lemma_json_pci_nodes(b.children, b.children.len() as int, d + 2);
            lemma_jarr(d + 1, "children"@, json_pci_nodes(b.children, b.children.len() as int, d + 2), false);
            lemma_balanced_concat(jline(d + 1, "type"@, jstr("Bridge"@), true) + jline(d + 1, "address"@, jstr(b.address), true) + jline(d + 1, "vendor_id"@, jstr(b.vendor_id), true) + jline(d + 1, "device_id"@, jstr(b.device_id), true) + jline(d + 1, "driver"@, jopt_str(b.driver), true), jarr(d + 1, "children"@, json_pci_nodes(b.children, b.children.len() as int, d + 2), false));
            lemma_jobj(d, jline(d + 1, "type"@, jstr("Bridge"@), true) + jline(d + 1, "address"@, jstr(b.address), true) + jline(d + 1, "vendor_id"@, jstr(b.vendor_id), true) + jline(d + 1, "device_id"@, jstr(b.device_id), true) + jline(d + 1, "driver"@, jopt_str(b.driver), true) + jarr(d + 1, "children"@, json_pci_nodes(b.children, b.children.len() as int, d + 2), false));
        },
        SpecPciNode::StorageController(c) => lemma_json_storage_controller(c, d),
    }
}

proof fn lemma_json_pci_nodes(s: Seq<SpecPciNode>, k: int, d: nat)
    ensures
        balanced(json_pci_nodes(s, k, d)),
    decreases s, k,
{
    if k <= 0 || k > s.len() {
        lemma_quiet_balanced(Seq::<char>::empty());
    } else {
        let a = json_pci_nodes(s, k - 1, d);
        lemma_json_pci_nodes(s, k - 1, d);
        lemma_json_pci_node(s[k - 1], d);
        lemma_ind_quiet(d);
        lemma_quiet_balanced(ind(d));
        lemma_comma_quiet(k < s.len());
        lemma_quiet_balanced(comma(k < s.len()) + seq!['\n']);
        lemma_balanced_concat(a, ind(d));
        lemma_balanced_concat(a + ind(d), json_pci_node(s[k - 1], d));
        lemma_balanced_concat(a + ind(d) + json_pci_node(s[k - 1], d), comma(k < s.len()) + seq!['\n']);
        assert(json_pci_nodes(s, k, d) =~= (a + ind(d) + json_pci_node(s[k - 1], d)) + (comma(k < s.len()) + seq!['\n']));
    }
}

proof fn lemma_json_pci_root(r: SpecPciRoot, d: nat)
    ensures
        balanced(json_pci_root(r, d)),
{
    lemma_keys();
    reveal(json_pci_root);
    lemma_jstr(r.domain);
    lemma_jline(d + 1, "domain"@, jstr(r.domain), true);
    lemma_json_pci_nodes(r.children, r.children.len() as int, d + 2);
    lemma_jarr(d + 1, "children"@, json_pci_nodes(r.children, r.children.len() as int, d + 2), false);
    lemma_balanced_concat(jline(d + 1, "domain"@, jstr(r.domain), true), jarr(d + 1, "children"@, json_pci_nodes(r.children, r.children.len() as int, d + 2), false));
    lemma_jobj(d, jline(d + 1, "domain"@, jstr(r.domain), true) + jarr(d + 1, "children"@, json_pci_nodes(r.children, r.children.len() as int, d + 2), false));
}

proof fn lemma_json_dm_slave(s: SpecDmSlave, d: nat)
    ensures
        balanced(json_dm_slave(s, d)),
{
    lemma_keys();
    reveal(json_dm_slave);
    lemma_jstr(s.device_name);
    lemma_jline(d + 1, "device_name"@, jstr(s.device_name), true);
    lemma_jopt_str(s.hctl);
    lemma_jline(d + 1, "hctl"@, jopt_str(s.hctl), true);
    lemma_balanced_concat(jline(d + 1, "device_name"@, jstr(s.device_name), true), jline(d + 1, "hctl"@, jopt_str(s.hctl), true));
    lemma_jopt_num(match s.host_num { Some(v) => Some(v as int), None => None });
    lemma_jline(d + 1, "host_num"@, jopt_num(match s.host_num { Some(v) => Some(v as int), None => None }), true);
    lemma_balanced_concat(jline(d + 1, "device_name"@, jstr(s.device_name), true) + jline(d + 1, "hctl"@, jopt_str(s.hctl), true), jline(d + 1, "host_num"@, jopt_num(match s.host_num { Some(v) => Some(v as int), None => None }), true));
    lemma_jopt_str(s.host_driver);
    lemma_jline(d + 1, "host_driver"@, jopt_str(s.host_driver), true);
    lemma_balanced_concat(jline(d + 1, "device_name"@, jstr(s.device_name), true) + jline(d + 1, "hctl"@, jopt_str(s.hctl), true) + jline(d + 1, "host_num"@, jopt_num(match s.host_num { Some(v) => Some(v as int), None => None }), true), jline(d + 1, "host_driver"@, jopt_str(s.host_driver), true));
    lemma_jopt_str(s.pci_address);
    lemma_jline(d + 1, "pci_address"@, jopt_str(s.pci_address), false);
    lemma_balanced_concat(jline(d + 1, "device_name"@, jstr(s.device_name), true) + jline(d + 1, "hctl"@, jopt_str(s.hctl), true) + jline(d + 1, "host_num"@, jopt_num(match s.host_num { Some(v) => Some(v as int), None => None }), true) + jline(d + 1, "host_driver"@, jopt_str(s.host_driver), true), jline(d + 1, "pci_address"@, jopt_str(s.pci_address), false));
    lemma_jobj(d, jline(d + 1, "device_name"@, jstr(s.device_name), true) + jline(d + 1, "hctl"@, jopt_str(s.hctl), true) + jline(d + 1, "host_num"@, jopt_num(match s.host_num { Some(v) => Some(v as int), None => None }), true) + jline(d + 1, "host_driver"@, jopt_str(s.host_driver), true) + jline(d + 1, "pci_address"@, jopt_str(s.pci_address), false));
}

proof fn lemma_json_dm_device(dm: SpecDmDevice, d: nat)
    ensures
        balanced(json_dm_device(dm, d)),
{
    lemma_keys();
    reveal(json_dm_device);
    lemma_jstr(dm.name);
    lemma_jline(d + 1, "name"@, jstr(dm.name), true);
    lemma_jstr(dm.dm_name);
    lemma_jline(d + 1, "dm_name"@, jstr(dm.dm_name), true);
    lemma_balanced_concat(jline(d + 1, "name"@, jstr(dm.name), true), jline(d + 1, "dm_name"@, jstr(dm.dm_name), true));
    lemma_jstr(dm.dm_uuid);
    lemma_jline(d + 1, "dm_uuid"@, jstr(dm.dm_uuid), true);
    lemma_balanced_concat(jline(d + 1, "name"@, jstr(dm.name), true) + jline(d + 1, "dm_name"@, jstr(dm.dm_name), true), jline(d + 1, "dm_uuid"@, jstr(dm.dm_uuid), true));
    lemma_jstr(dm.dm_type);
    lemma_jline(d + 1, "dm_type"@, jstr(dm.dm_type), true);
    lemma_balanced_concat(jline(d + 1, "name"@, jstr(dm.name), true) + jline(d + 1, "dm_name"@, jstr(dm.dm_name), true) + jline(d + 1, "dm_uuid"@, jstr(dm.dm_uuid), true), jline(d + 1, "dm_type"@, jstr(dm.dm_type), true));
    lemma_dec_balanced(dm.size_bytes as nat);
    lemma_jline(d + 1, "size_bytes"@, dec(dm.size_bytes as nat), true);
    lemma_balanced_concat(jline(d + 1, "name"@, jstr(dm.name), true) + jline(d + 1, "dm_name"@, jstr(dm.dm_name), true) + jline(d + 1, "dm_uuid"@, jstr(dm.dm_uuid), true) + jline(d + 1, "dm_type"@, jstr(dm.dm_type), true), jline(d + 1, "size_bytes"@, dec(dm.size_bytes as nat), true));
    assert forall|i: int| 0 <= i < dm.slaves.len() implies #[trigger] balanced(dm_slave_json()(dm.slaves[i], d + 2)) by { lemma_json_dm_slave(dm.slaves[i], d + 2); }
    lemma_jitems(dm.slaves, dm.slaves.len() as int, d + 2, dm_slave_json());
    lemma_jarr(d + 1, "slaves"@, all_items(dm.slaves, d + 2, dm_slave_json()), true);
    lemma_balanced_concat(jline(d + 1, "name"@, jstr(dm.name), true) + jline(d + 1, "dm_name"@, jstr(dm.dm_name), true) + jline(d + 1, "dm_uuid"@, jstr(dm.dm_uuid), true) + jline(d + 1, "dm_type"@, jstr(dm.dm_type), true) + jline(d + 1, "size_bytes"@, dec(dm.size_bytes as nat), true), jarr(d + 1, "slaves"@, all_items(dm.slaves, d + 2, dm_slave_json()), true));
    assert forall|i: int| 0 <= i < dm.partitions.len() implies #[trigger] balanced(partition_json()(dm.partitions[i], d + 2)) by { lemma_json_partition(dm.partitions[i], d + 2); }
    lemma_jitems(dm.partitions, dm.partitions.len() as int, d + 2, partition_json());
    lemma_jarr(d + 1, "partitions"@, all_items(dm.partitions, d + 2, partition_json()), false);
    lemma_balanced_concat(jline(d + 1, "name"@, jstr(dm.name), true) + jline(d + 1, "dm_name"@, jstr(dm.dm_name), true) + jline(d + 1, "dm_uuid"@, jstr(dm.dm_uuid), true) + jline(d + 1, "dm_type"@, jstr(dm.dm_type), true) + jline(d + 1, "size_bytes"@, dec(dm.size_bytes as nat), true) + jarr(d + 1, "slaves"@, all_items(dm.slaves, d + 2, dm_slave_json()), true), jarr(d + 1, "partitions"@, all_items(dm.partitions, d + 2, partition_json()), false));
    lemma_jobj(d, jline(d + 1, "name"@, jstr(dm.name), true) + jline(d + 1, "dm_name"@, jstr(dm.dm_name), true) + jline(d + 1, "dm_uuid"@, jstr(dm.dm_uuid), true) + jline(d + 1, "dm_type"@, jstr(dm.dm_type), true) + jline(d + 1, "size_bytes"@, dec(dm.size_bytes as nat), true) + jarr(d + 1, "slaves"@, all_items(dm.slaves, d + 2, dm_slave_json()), true) + jarr(d + 1, "partitions"@, all_items(dm.partitions, d + 2, partition_json()), false));
}

/// The JSON text of a topology is balanced: outside string literals every `{`
/// and `[` is closed by a later `}` or `]`, the depth never falls below where
/// the text starts, and the text ends outside any string.
pub proof fn lemma_json_topology(t: SpecTopology, d: nat)
    ensures
        balanced(json_topology(t, d)),
{
    lemma_keys();
    reveal(json_topology);
    assert forall|i: int| 0 <= i < t.pci_roots.len() implies #[trigger] balanced(pci_root_json()(t.pci_roots[i], d + 2)) by { lemma_json_pci_root(t.pci_roots[i], d + 2); }
    lemma_jitems(t.pci_roots, t.pci_roots.len() as int, d + 2, pci_root_json());
    lemma_jarr(d + 1, "pci_roots"@, all_items(t.pci_roots, d + 2, pci_root_json()), true);
    assert forall|i: int| 0 <= i < t.fabrics_controllers.len() implies #[trigger] balanced(nvme_ctrl_json()(t.fabrics_controllers[i], d + 2)) by { lemma_json_nvme_ctrl(t.fabrics_controllers[i], d + 2); }
    lemma_jitems(t.fabrics_controllers, t.fabrics_controllers.len() as int, d + 2, nvme_ctrl_json());
    lemma_jarr(d + 1, "fabrics_controllers"@, all_items(t.fabrics_controllers, d + 2, nvme_ctrl_json()), true);
    lemma_balanced_concat(jarr(d + 1, "pci_roots"@, all_items(t.pci_roots, d + 2, pci_root_json()), true), jarr(d + 1, "fabrics_controllers"@, all_items(t.fabrics_controllers, d + 2, nvme_ctrl_json()), true));
    assert forall|i: int| 0 <= i < t.nvme_subsystems.len() implies #[trigger] balanced(subsystem_json()(t.nvme_subsystems[i], d + 2)) by { lemma_json_subsystem(t.nvme_subsystems[i], d + 2); }
    lemma_jitems(t.nvme_subsystems, t.nvme_subsystems.len() as int, d + 2, subsystem_json());
    lemma_jarr(d + 1, "nvme_subsystems"@, all_items(t.nvme_subsystems, d + 2, subsystem_json()), true);
    lemma_balanced_concat(jarr(d + 1, "pci_roots"@, all_items(t.pci_roots, d + 2, pci_root_json()), true) + jarr(d + 1, "fabrics_controllers"@, all_items(t.fabrics_controllers, d + 2, nvme_ctrl_json()), true), jarr(d + 1, "nvme_subsystems"@, all_items(t.nvme_subsystems, d + 2, subsystem_json()), true));
    assert forall|i: int| 0 <= i < t.dm_devices.len() implies #[trigger] balanced(dm_device_json()(t.dm_devices[i], d + 2)) by { lemma_json_dm_device(t.dm_devices[i], d + 2); }
    lemma_jitems(t.dm_devices, t.dm_devices.len() as int, d + 2, dm_device_json());
    lemma_jarr(d + 1, "dm_devices"@, all_items(t.dm_devices, d + 2, dm_device_json()), false);
    lemma_balanced_concat(jarr(d + 1, "pci_roots"@, all_items(t.pci_roots, d + 2, pci_root_json()), true) + jarr(d + 1, "fabrics_controllers"@, all_items(t.fabrics_controllers, d + 2, nvme_ctrl_json()), true) + jarr(d + 1, "nvme_subsystems"@, all_items(t.nvme_subsystems, d + 2, subsystem_json()), true), jarr(d + 1, "dm_devices"@, all_items(t.dm_devices, d + 2, dm_device_json()), false));
    lemma_jobj(d, jarr(d + 1, "pci_roots"@, all_items(t.pci_roots, d + 2, pci_root_json()), true) + jarr(d + 1, "fabrics_controllers"@, all_items(t.fabrics_controllers, d + 2, nvme_ctrl_json()), true) + jarr(d + 1, "nvme_subsystems"@, all_items(t.nvme_subsystems, d + 2, subsystem_json()), true) + jarr(d + 1, "dm_devices"@, all_items(t.dm_devices, d + 2, dm_device_json()), false));
}

} // verus!
