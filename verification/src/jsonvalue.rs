//! The JSON text read as a value. Every type's text is the pretty-printed form
//! of a JSON value: an object whose members are named and ordered as the
//! type's fields, whose arrays hold the type's lists item for item, whose
//! strings are the type's strings and whose numbers are its numbers.
use vstd::prelude::*;
use crate::json::{
    all_items, comma, controller_child_json, dm_device_json, dm_slave_json, escape, escape_char, ind,
    iscsi_session_json, jarr, jbool, jitems, jkey, jline, jobj, jopt_block, jopt_num, jopt_str, jstr, jstr_array,
    json_block, json_controller_child, json_dm_device, json_dm_slave, json_iscsi_session, json_namespace,
    json_nvme_ctrl, json_partition, json_pci_node, json_pci_nodes, json_pci_root, json_sas_phy, json_scsi_device,
    json_scsi_target, json_storage_controller, json_subsystem, json_topology, json_transport, namespace_json,
    nvme_ctrl_fields, nvme_ctrl_json, partition_json, pci_root_json, sas_phy_json, scsi_device_json,
    scsi_host_fields, scsi_target_json, str_json, subsystem_json,
};
use crate::types::{
    SpecBlockDevice, SpecControllerChild, SpecDmDevice, SpecDmSlave, SpecFcHostInfo, SpecIscsiSessionInfo,
    SpecNvmeCtrl, SpecNvmeNamespace, SpecNvmeSubsystem, SpecPartition, SpecPciBridge, SpecPciNode, SpecPciRoot,
    SpecSasPhyInfo, SpecScsiDevice, SpecScsiHost, SpecScsiTarget, SpecStorageController, SpecTopology,
    SpecTransportInfo,
};
use crate::text::{dec, int_dec};

verus! {

// ---------------------------------------------------------------------------
// Values and their pretty-printed text
// ---------------------------------------------------------------------------
/// A JSON value; an object is the list of its members in order.
pub enum JsonValue {
    Null,
    Bool(bool),
    Number(int),
    Str(Seq<char>),
    Array(Seq<JsonValue>),
    Object(Seq<(Seq<char>, JsonValue)>),
}

/// The text of a value whose first line stands at level `d`: two spaces per
/// level, one element or member to a line, `[]` and `{}` for what is empty.
pub open spec fn pretty(v: JsonValue, d: nat) -> Seq<char>
    decreases v,
{
    match v {
        JsonValue::Null => "null"@,
        JsonValue::Bool(b) => jbool(b),
        JsonValue::Number(n) => int_dec(n),
        JsonValue::Str(s) => jstr(s),
        JsonValue::Array(items) => if items.len() == 0 {
            "[]"@
        } else {
            seq!['[', '\n'] + elems_text(items, items.len() as int, d + 1) + ind(d) + seq![']']
        },
        JsonValue::Object(ms) => if ms.len() == 0 {
            "{}"@
        } else {
            seq!['{', '\n'] + members_text(ms, ms.len() as int, d + 1) + ind(d) + seq!['}']
        },
    }
}

/// The first `k` elements of an array, one to a line at level `d`.
pub open spec fn elems_text(items: Seq<JsonValue>, k: int, d: nat) -> Seq<char>
    decreases items, k,
{
    if k <= 0 || k > items.len() {
        Seq::empty()
    } else {
        elems_text(items, k - 1, d) + ind(d) + pretty(items[k - 1], d) + comma(k < items.len()) + seq!['\n']
    }
}

/// The first `k` members of an object, one to a line at level `d`.
pub open spec fn members_text(ms: Seq<(Seq<char>, JsonValue)>, k: int, d: nat) -> Seq<char>
    decreases ms, k,
{
    if k <= 0 || k > ms.len() {
        Seq::empty()
    } else {
        members_text(ms, k - 1, d) + ind(d) + jstr(ms[k - 1].0) + seq![':', ' '] + pretty(ms[k - 1].1, d)
            + comma(k < ms.len()) + seq!['\n']
    }
}

/// One member on a line of its own at level `d`.
#[verifier::opaque]
pub open spec fn mline(name: Seq<char>, v: JsonValue, d: nat, tc: bool) -> Seq<char> {
    ind(d) + jstr(name) + seq![':', ' '] + pretty(v, d) + comma(tc) + seq!['\n']
}

pub open spec fn opt_str_value(o: Option<Seq<char>>) -> JsonValue {
    match o {
        Some(s) => JsonValue::Str(s),
        None => JsonValue::Null,
    }
}

pub open spec fn opt_num_value(o: Option<int>) -> JsonValue {
    match o {
        Some(n) => JsonValue::Number(n),
        None => JsonValue::Null,
    }
}

pub open spec fn strs_value(v: Seq<Seq<char>>) -> JsonValue {
    JsonValue::Array(v.map_values(|s: Seq<char>| JsonValue::Str(s)))
}

// ---------------------------------------------------------------------------
// Member names that need no escaping
// ---------------------------------------------------------------------------
pub open spec fn plain_char(c: char) -> bool {
    ('a' <= c && c <= 'z') || c == '_'
}

/// Lower-case letters and underscores only.
pub open spec fn plain(s: Seq<char>) -> bool
    decreases s.len(),
{
    if s.len() == 0 {
        true
    } else {
        plain(s.drop_last()) && plain_char(s.last())
    }
}

proof fn lemma_plain_escape(s: Seq<char>)
    requires
        plain(s),
    ensures
        escape(s) == s,
    decreases s.len(),
{
    if s.len() > 0 {
        lemma_plain_escape(s.drop_last());
        assert(escape_char(s.last()) == seq![s.last()]);
        assert(s =~= s.drop_last() + seq![s.last()]);
    } else {
        assert(escape(s) =~= s);
    }
}

// ---------------------------------------------------------------------------
// From the writer's pieces to values
// ---------------------------------------------------------------------------
proof fn lemma_line(e: nat, name: Seq<char>, v: JsonValue, text: Seq<char>, tc: bool)
    requires
        plain(name),
        pretty(v, e) == text,
    ensures
        jline(e, name, text, tc) == mline(name, v, e, tc),
{
    reveal(jline);
    reveal(mline);
    lemma_plain_escape(name);
    assert(jline(e, name, text, tc) =~= mline(name, v, e, tc));
}

proof fn lemma_elems_nonempty(items: Seq<JsonValue>, d: nat)
    ensures
        (elems_text(items, items.len() as int, d).len() == 0) == (items.len() == 0),
{
    if items.len() > 0 {
        let k = items.len() as int;
        assert(elems_text(items, k, d) == elems_text(items, k - 1, d) + ind(d) + pretty(items[k - 1], d) + comma(
            k < items.len(),
        ) + seq!['\n']);
    }
}

proof fn lemma_arr(e: nat, name: Seq<char>, items: Seq<JsonValue>, elems: Seq<char>, tc: bool)
    requires
        plain(name),
        elems == elems_text(items, items.len() as int, e + 1),
    ensures
        jarr(e, name, elems, tc) == mline(name, JsonValue::Array(items), e, tc),
{
    reveal(jarr);
    reveal(mline);
    lemma_plain_escape(name);
    lemma_elems_nonempty(items, e + 1);
    assert(jarr(e, name, elems, tc) =~= mline(name, JsonValue::Array(items), e, tc));
}

/// An array written item by item is the text of the array of the items' values.
proof fn lemma_items<T>(
    s: Seq<T>,
    k: int,
    d: nat,
    f: spec_fn(T, nat) -> Seq<char>,
    g: spec_fn(T) -> JsonValue,
)
    requires
        0 <= k <= s.len(),
        forall|i: int| 0 <= i < s.len() ==> #[trigger] f(s[i], d) == pretty(g(s[i]), d),
    ensures
        jitems(s, k, d, f) == elems_text(s.map_values(g), k, d),
    decreases k,
{
    if k > 0 {
        lemma_items(s, k - 1, d, f, g);
        assert(s.map_values(g)[k - 1] == g(s[k - 1]));
        assert(f(s[k - 1], d) == pretty(g(s[k - 1]), d));
    }
}

proof fn lemma_str_array(e: nat, name: Seq<char>, vals: Seq<Seq<char>>, tc: bool)
    requires
        plain(name),
    ensures
        jstr_array(e, name, vals, tc) == mline(name, strs_value(vals), e, tc),
{
    reveal(jstr_array);
    reveal(jarr);
    let g = |s: Seq<char>| JsonValue::Str(s);
    assert forall|i: int| 0 <= i < vals.len() implies #[trigger] str_json()(vals[i], e + 1) == pretty(
        g(vals[i]),
        e + 1,
    ) by {}
    lemma_items(vals, vals.len() as int, e + 1, str_json(), g);
    lemma_arr(e, name, vals.map_values(g), all_items(vals, e + 1, str_json()), tc);
    assert(jstr_array(e, name, vals, tc) == jarr(e, name, all_items(vals, e + 1, str_json()), tc));
}

proof fn lemma_members_step(ms: Seq<(Seq<char>, JsonValue)>, k: int, d: nat)
    requires
        0 < k <= ms.len(),
    ensures
        members_text(ms, k, d) == members_text(ms, k - 1, d) + mline(ms[k - 1].0, ms[k - 1].1, d, k < ms.len()),
{
    reveal(mline);
    assert(members_text(ms, k, d) =~= members_text(ms, k - 1, d) + mline(ms[k - 1].0, ms[k - 1].1, d, k < ms.len()));
}

proof fn lemma_obj(d: nat, ms: Seq<(Seq<char>, JsonValue)>, members: Seq<char>)
    requires
        ms.len() > 0,
        members == members_text(ms, ms.len() as int, d + 1),
    ensures
        jobj(d, members) == pretty(JsonValue::Object(ms), d),
{
    assert(jobj(d, members) =~= pretty(JsonValue::Object(ms), d));
}

proof fn lemma_number(n: nat, e: nat)
    ensures
        pretty(JsonValue::Number(n as int), e) == dec(n),
{
}

proof fn lemma_opt_str(o: Option<Seq<char>>, e: nat)
    ensures
        pretty(opt_str_value(o), e) == jopt_str(o),
{
}

proof fn lemma_opt_num(o: Option<int>, e: nat)
    ensures
        pretty(opt_num_value(o), e) == jopt_num(o),
{
}

/// An object with one more member in front.
proof fn lemma_members_cons(m: (Seq<char>, JsonValue), ms: Seq<(Seq<char>, JsonValue)>, k: int, d: nat)
    requires
        0 <= k <= ms.len(),
    ensures
        members_text(seq![m] + ms, k + 1, d) == mline(m.0, m.1, d, ms.len() > 0) + members_text(ms, k, d),
    decreases k,
{
    let c = seq![m] + ms;
    lemma_members_step(c, k + 1, d);
    if k == 0 {
        assert(c[0] == m);
        assert(members_text(c, 0, d) == Seq::<char>::empty());
        assert(members_text(ms, 0, d) == Seq::<char>::empty());
        assert(Seq::<char>::empty() + mline(m.0, m.1, d, ms.len() > 0) =~= mline(m.0, m.1, d, ms.len() > 0)
            + Seq::<char>::empty());
    } else {
        lemma_members_cons(m, ms, k - 1, d);
        lemma_members_step(ms, k, d);
        assert(c[k] == ms[k - 1]);
        assert(members_text(c, k + 1, d) =~= mline(m.0, m.1, d, ms.len() > 0) + members_text(ms, k, d));
    }
}

// ---------------------------------------------------------------------------
// The types as values
// ---------------------------------------------------------------------------
pub open spec fn opt_block_value(b: Option<SpecBlockDevice>) -> JsonValue {
    match b {
        Some(x) => block_value(x),
        None => JsonValue::Null,
    }
}

pub open spec fn nvme_ctrl_value(n: SpecNvmeCtrl) -> JsonValue {
    JsonValue::Object(nvme_ctrl_members(n))
}

pub open spec fn nvme_ctrl_value_fn() -> spec_fn(SpecNvmeCtrl) -> JsonValue {
    |n: SpecNvmeCtrl| nvme_ctrl_value(n)
}

pub open spec fn transport_value(t: SpecTransportInfo) -> JsonValue {
    match t {
        SpecTransportInfo::Fc(fc) => JsonValue::Object(fc_members(fc)),
        SpecTransportInfo::Sas(phys) => JsonValue::Object(sas_members(phys)),
        SpecTransportInfo::Iscsi(sessions) => JsonValue::Object(iscsi_members(sessions)),
    }
}

pub open spec fn opt_transport_value(t: Option<SpecTransportInfo>) -> JsonValue {
    match t {
        Some(x) => transport_value(x),
        None => JsonValue::Null,
    }
}

/// A controller's child: its members behind a `type` member naming its kind.
pub open spec fn controller_child_value(c: SpecControllerChild) -> JsonValue {
    match c {
        SpecControllerChild::ScsiHost(h) => JsonValue::Object(
            seq![("type"@, JsonValue::Str("ScsiHost"@))] + scsi_host_members(h),
        ),
        SpecControllerChild::NvmeController(n) => JsonValue::Object(
            seq![("type"@, JsonValue::Str("NvmeController"@))] + nvme_ctrl_members(n),
        ),
    }
}

pub open spec fn controller_child_value_fn() -> spec_fn(SpecControllerChild) -> JsonValue {
    |c: SpecControllerChild| controller_child_value(c)
}

/// A PCI node, through the tree below it.
pub open spec fn pci_node_value(n: SpecPciNode) -> JsonValue
    decreases n,
{
    match n {
        SpecPciNode::Bridge(b) => JsonValue::Object(bridge_members(b)),
        SpecPciNode::StorageController(c) => storage_controller_value(c),
    }
}

pub open spec fn bridge_members(b: SpecPciBridge) -> Seq<(Seq<char>, JsonValue)>
    decreases b,
{
    seq![
        ("type"@, JsonValue::Str("Bridge"@)),
        ("address"@, JsonValue::Str(b.address)),
        ("vendor_id"@, JsonValue::Str(b.vendor_id)),
        ("device_id"@, JsonValue::Str(b.device_id)),
        ("driver"@, opt_str_value(b.driver)),
        ("children"@, JsonValue::Array(pci_nodes_values(b.children, b.children.len() as int))),
    ]
}

/// The values of the first `k` nodes of `s`.
pub open spec fn pci_nodes_values(s: Seq<SpecPciNode>, k: int) -> Seq<JsonValue>
    decreases s, k,
{
    if k <= 0 || k > s.len() {
        Seq::empty()
    } else {
        pci_nodes_values(s, k - 1).push(pci_node_value(s[k - 1]))
    }
}

proof fn lemma_pci_nodes_values(s: Seq<SpecPciNode>, k: int)
    requires
        0 <= k <= s.len(),
    ensures
        pci_nodes_values(s, k).len() == k,
        forall|i: int| 0 <= i < k ==> #[trigger] pci_nodes_values(s, k)[i] == pci_node_value(s[i]),
    decreases k,
{
    if k > 0 {
        lemma_pci_nodes_values(s, k - 1);
    }
}

// ---------------------------------------------------------------------------
// The text of each type is the text of its value
// ---------------------------------------------------------------------------
proof fn lemma_opt_block(e: nat, b: Option<SpecBlockDevice>, tc: bool)
    ensures
        jopt_block(e, b, tc) == mline("block_device"@, opt_block_value(b), e, tc),
{
    reveal(jopt_block);
    reveal(mline);
    lemma_keys_plain();
    lemma_plain_escape("block_device"@);
    match b {
        Some(x) => lemma_block_value(x, e),
        None => {},
    }
    assert(jopt_block(e, b, tc) =~= mline("block_device"@, opt_block_value(b), e, tc));
}

proof fn lemma_transport_member(e: nat, t: Option<SpecTransportInfo>)
    ensures
        jkey(e, "transport"@) + match t {
            Some(x) => json_transport(x, e) + seq![',', '\n'],
            None => "null,\n"@,
        } == mline("transport"@, opt_transport_value(t), e, true),
{
    reveal(mline);
    lemma_keys_plain();
    lemma_plain_escape("transport"@);
    match t {
        Some(x) => {
            lemma_transport_value(x, e);
            assert(jkey(e, "transport"@) + (json_transport(x, e) + seq![',', '\n']) =~= mline(
                "transport"@,
                opt_transport_value(t),
                e,
                true,
            ));
        },
        None => {
            reveal_strlit("null,\n");
            reveal_strlit("null");
            assert(jkey(e, "transport"@) + "null,\n"@ =~= mline("transport"@, opt_transport_value(t), e, true));
        },
    }
}

proof fn lemma_nvme_ctrl_value(n: SpecNvmeCtrl, d: nat)
    ensures
        json_nvme_ctrl(n, d) == pretty(nvme_ctrl_value(n), d),
{
    reveal(json_nvme_ctrl);
    lemma_nvme_ctrl_fields(n, d + 1);
    lemma_obj(d, nvme_ctrl_members(n), nvme_ctrl_fields(n, d + 1));
}

proof fn lemma_controller_child_value(c: SpecControllerChild, d: nat)
    ensures
        json_controller_child(c, d) == pretty(controller_child_value(c), d),
{
    reveal(json_controller_child);
    lemma_keys_plain();
    let e = d + 1;
    match c {
        SpecControllerChild::ScsiHost(h) => {
            let m = ("type"@, JsonValue::Str("ScsiHost"@));
            let ms = scsi_host_members(h);
            lemma_line(e, "type"@, m.1, jstr("ScsiHost"@), true);
            lemma_scsi_host_fields(h, e);
            lemma_members_cons(m, ms, ms.len() as int, e);
            assert((seq![m] + ms).len() == ms.len() + 1);
            lemma_obj(d, seq![m] + ms, members_text(seq![m] + ms, ms.len() as int + 1, e));
        },
        SpecControllerChild::NvmeController(n) => {
            let m = ("type"@, JsonValue::Str("NvmeController"@));
            let ms = nvme_ctrl_members(n);
            lemma_line(e, "type"@, m.1, jstr("NvmeController"@), true);
            lemma_nvme_ctrl_fields(n, e);
            lemma_members_cons(m, ms, ms.len() as int, e);
            assert((seq![m] + ms).len() == ms.len() + 1);
            lemma_obj(d, seq![m] + ms, members_text(seq![m] + ms, ms.len() as int + 1, e));
        },
    }
}

proof fn lemma_pci_node_value(n: SpecPciNode, d: nat)
    ensures
        json_pci_node(n, d) == pretty(pci_node_value(n), d),
    decreases n,
{
    match n {
        SpecPciNode::Bridge(b) => {
            lemma_keys_plain();
            let e = d + 1;
            let ms = bridge_members(b);
            lemma_line(e, "type"@, JsonValue::Str("Bridge"@), jstr("Bridge"@), true);
            lemma_line(e, "address"@, JsonValue::Str(b.address), jstr(b.address), true);
            lemma_line(e, "vendor_id"@, JsonValue::Str(b.vendor_id), jstr(b.vendor_id), true);
            lemma_line(e, "device_id"@, JsonValue::Str(b.device_id), jstr(b.device_id), true);
            lemma_opt_str(b.driver, e);
            lemma_line(e, "driver"@, opt_str_value(b.driver), jopt_str(b.driver), true);
            lemma_pci_nodes_value(b.children, b.children.len() as int, e + 1);
            lemma_pci_nodes_values(b.children, b.children.len() as int);
            lemma_arr(e, "children"@, pci_nodes_values(b.children, b.children.len() as int), json_pci_nodes(b.children, b.children.len() as int, e + 1), false);
            lemma_members_step(ms, 1, e);
            lemma_members_step(ms, 2, e);
            lemma_members_step(ms, 3, e);
            lemma_members_step(ms, 4, e);
            lemma_members_step(ms, 5, e);
            lemma_members_step(ms, 6, e);
            assert(Seq::<char>::empty() + jline(e, "type"@, jstr("Bridge"@), true) =~= jline(e, "type"@, jstr("Bridge"@), true));
            lemma_obj(d, ms, members_text(ms, 6, e));
        },
        SpecPciNode::StorageController(c) => lemma_storage_controller_value(c, d),
    }
}

proof fn lemma_pci_nodes_value(s: Seq<SpecPciNode>, k: int, d: nat)
    requires
        0 <= k <= s.len(),
    ensures
        json_pci_nodes(s, k, d) == elems_text(pci_nodes_values(s, s.len() as int), k, d),
    decreases s, k,
{
    lemma_pci_nodes_values(s, s.len() as int);
    if k > 0 {
        lemma_pci_nodes_value(s, k - 1, d);
        lemma_pci_node_value(s[k - 1], d);
    }
}

pub open spec fn partition_members(p: SpecPartition) -> Seq<(Seq<char>, JsonValue)> {
    seq![
        ("name"@, JsonValue::Str(p.name)),
        ("number"@, JsonValue::Number(p.number as int)),
        ("size_bytes"@, JsonValue::Number(p.size_bytes as int)),
        ("holders"@, strs_value(p.holders)),
    ]
}

pub open spec fn partition_value(p: SpecPartition) -> JsonValue {
    JsonValue::Object(partition_members(p))
}

pub open spec fn partition_value_fn() -> spec_fn(SpecPartition) -> JsonValue {
    |p: SpecPartition| partition_value(p)
}

pub open spec fn block_members(b: SpecBlockDevice) -> Seq<(Seq<char>, JsonValue)> {
    seq![
        ("name"@, JsonValue::Str(b.name)),
        ("dev_path"@, JsonValue::Str(b.dev_path)),
        ("size_bytes"@, JsonValue::Number(b.size_bytes as int)),
        ("removable"@, JsonValue::Bool(b.removable)),
        ("read_only"@, JsonValue::Bool(b.read_only)),
        ("wwn"@, opt_str_value(b.wwn)),
        ("partitions"@, JsonValue::Array(b.partitions.map_values(partition_value_fn()))),
        ("holders"@, strs_value(b.holders)),
    ]
}

pub open spec fn block_value(b: SpecBlockDevice) -> JsonValue {
    JsonValue::Object(block_members(b))
}

pub open spec fn block_value_fn() -> spec_fn(SpecBlockDevice) -> JsonValue {
    |b: SpecBlockDevice| block_value(b)
}

pub open spec fn namespace_members(ns: SpecNvmeNamespace) -> Seq<(Seq<char>, JsonValue)> {
    seq![
        ("name"@, JsonValue::Str(ns.name)),
        ("nsid"@, opt_num_value(match ns.nsid { Some(v) => Some(v as int), None => None })),
        ("nguid"@, opt_str_value(ns.nguid)),
        ("size_bytes"@, JsonValue::Number(ns.size_bytes as int)),
        ("block_device"@, opt_block_value(ns.block_device)),
    ]
}

pub open spec fn namespace_value(ns: SpecNvmeNamespace) -> JsonValue {
    JsonValue::Object(namespace_members(ns))
}

pub open spec fn namespace_value_fn() -> spec_fn(SpecNvmeNamespace) -> JsonValue {
    |ns: SpecNvmeNamespace| namespace_value(ns)
}

pub open spec fn subsystem_members(s: SpecNvmeSubsystem) -> Seq<(Seq<char>, JsonValue)> {
    seq![
        ("name"@, JsonValue::Str(s.name)),
        ("nqn"@, opt_str_value(s.nqn)),
        ("model"@, JsonValue::Str(s.model)),
        ("serial"@, JsonValue::Str(s.serial)),
        ("controllers"@, strs_value(s.controllers)),
        ("namespaces"@, JsonValue::Array(s.namespaces.map_values(namespace_value_fn()))),
    ]
}

pub open spec fn subsystem_value(s: SpecNvmeSubsystem) -> JsonValue {
    JsonValue::Object(subsystem_members(s))
}

pub open spec fn subsystem_value_fn() -> spec_fn(SpecNvmeSubsystem) -> JsonValue {
    |s: SpecNvmeSubsystem| subsystem_value(s)
}

pub open spec fn scsi_device_members(x: SpecScsiDevice) -> Seq<(Seq<char>, JsonValue)> {
    seq![
        ("hctl"@, JsonValue::Str(x.hctl)),
        ("vendor"@, JsonValue::Str(x.vendor)),
        ("model"@, JsonValue::Str(x.model)),
        ("rev"@, JsonValue::Str(x.rev)),
        ("scsi_type"@, JsonValue::Number(x.scsi_type as int)),
        ("scsi_type_name"@, JsonValue::Str(x.scsi_type_name)),
        ("block_device"@, opt_block_value(x.block_device)),
        ("sg_device"@, opt_str_value(x.sg_device)),
    ]
}

pub open spec fn scsi_device_value(x: SpecScsiDevice) -> JsonValue {
    JsonValue::Object(scsi_device_members(x))
}

pub open spec fn scsi_device_value_fn() -> spec_fn(SpecScsiDevice) -> JsonValue {
    |x: SpecScsiDevice| scsi_device_value(x)
}

pub open spec fn scsi_target_members(t: SpecScsiTarget) -> Seq<(Seq<char>, JsonValue)> {
    seq![
        ("address"@, JsonValue::Str(t.address)),
        ("devices"@, JsonValue::Array(t.devices.map_values(scsi_device_value_fn()))),
    ]
}

pub open spec fn scsi_target_value(t: SpecScsiTarget) -> JsonValue {
    JsonValue::Object(scsi_target_members(t))
}

pub open spec fn scsi_target_value_fn() -> spec_fn(SpecScsiTarget) -> JsonValue {
    |t: SpecScsiTarget| scsi_target_value(t)
}

pub open spec fn sas_phy_members(p: SpecSasPhyInfo) -> Seq<(Seq<char>, JsonValue)> {
    seq![
        ("name"@, JsonValue::Str(p.name)),
        ("sas_address"@, JsonValue::Str(p.sas_address)),
        ("negotiated_linkrate"@, JsonValue::Str(p.negotiated_linkrate)),
        ("initiator_protocols"@, opt_str_value(p.initiator_protocols)),
        ("target_protocols"@, opt_str_value(p.target_protocols)),
    ]
}

pub open spec fn sas_phy_value(p: SpecSasPhyInfo) -> JsonValue {
    JsonValue::Object(sas_phy_members(p))
}

pub open spec fn sas_phy_value_fn() -> spec_fn(SpecSasPhyInfo) -> JsonValue {
    |p: SpecSasPhyInfo| sas_phy_value(p)
}

pub open spec fn iscsi_session_members(s: SpecIscsiSessionInfo) -> Seq<(Seq<char>, JsonValue)> {
    seq![
        ("target_name"@, JsonValue::Str(s.target_name)),
        ("state"@, JsonValue::Str(s.state)),
        ("target_address"@, opt_str_value(s.target_address)),
        ("target_port"@, opt_num_value(match s.target_port { Some(v) => Some(v as int), None => None })),
    ]
}

pub open spec fn iscsi_session_value(s: SpecIscsiSessionInfo) -> JsonValue {
    JsonValue::Object(iscsi_session_members(s))
}

pub open spec fn iscsi_session_value_fn() -> spec_fn(SpecIscsiSessionInfo) -> JsonValue {
    |s: SpecIscsiSessionInfo| iscsi_session_value(s)
}

pub open spec fn storage_controller_members(c: SpecStorageController) -> Seq<(Seq<char>, JsonValue)> {
    seq![
        ("type"@, JsonValue::Str("StorageController"@)),
        ("address"@, JsonValue::Str(c.address)),
        ("vendor_id"@, JsonValue::Str(c.vendor_id)),
        ("device_id"@, JsonValue::Str(c.device_id)),
        ("class_code"@, JsonValue::Str(c.class_code)),
        ("driver"@, opt_str_value(c.driver)),
        ("numa_node"@, opt_num_value(match c.numa_node { Some(v) => Some(v as int), None => None })),
        ("children"@, JsonValue::Array(c.children.map_values(controller_child_value_fn()))),
    ]
}

pub open spec fn storage_controller_value(c: SpecStorageController) -> JsonValue {
    JsonValue::Object(storage_controller_members(c))
}

pub open spec fn storage_controller_value_fn() -> spec_fn(SpecStorageController) -> JsonValue {
    |c: SpecStorageController| storage_controller_value(c)
}

pub open spec fn pci_root_members(r: SpecPciRoot) -> Seq<(Seq<char>, JsonValue)> {
    seq![
        ("domain"@, JsonValue::Str(r.domain)),
        ("children"@, JsonValue::Array(pci_nodes_values(r.children, r.children.len() as int))),
    ]
}

pub open spec fn pci_root_value(r: SpecPciRoot) -> JsonValue {
    JsonValue::Object(pci_root_members(r))
}

pub open spec fn pci_root_value_fn() -> spec_fn(SpecPciRoot) -> JsonValue {
    |r: SpecPciRoot| pci_root_value(r)
}

pub open spec fn dm_slave_members(s: SpecDmSlave) -> Seq<(Seq<char>, JsonValue)> {
    seq![
        ("device_name"@, JsonValue::Str(s.device_name)),
        ("hctl"@, opt_str_value(s.hctl)),
        ("host_num"@, opt_num_value(match s.host_num { Some(v) => Some(v as int), None => None })),
        ("host_driver"@, opt_str_value(s.host_driver)),
        ("pci_address"@, opt_str_value(s.pci_address)),
    ]
}

pub open spec fn dm_slave_value(s: SpecDmSlave) -> JsonValue {
    JsonValue::Object(dm_slave_members(s))
}

pub open spec fn dm_slave_value_fn() -> spec_fn(SpecDmSlave) -> JsonValue {
    |s: SpecDmSlave| dm_slave_value(s)
}

pub open spec fn dm_device_members(dm: SpecDmDevice) -> Seq<(Seq<char>, JsonValue)> {
    seq![
        ("name"@, JsonValue::Str(dm.name)),
        ("dm_name"@, JsonValue::Str(dm.dm_name)),
        ("dm_uuid"@, JsonValue::Str(dm.dm_uuid)),
        ("dm_type"@, JsonValue::Str(dm.dm_type)),
        ("size_bytes"@, JsonValue::Number(dm.size_bytes as int)),
        ("slaves"@, JsonValue::Array(dm.slaves.map_values(dm_slave_value_fn()))),
        ("partitions"@, JsonValue::Array(dm.partitions.map_values(partition_value_fn()))),
    ]
}

pub open spec fn dm_device_value(dm: SpecDmDevice) -> JsonValue {
    JsonValue::Object(dm_device_members(dm))
}

pub open spec fn dm_device_value_fn() -> spec_fn(SpecDmDevice) -> JsonValue {
    |dm: SpecDmDevice| dm_device_value(dm)
}

pub open spec fn topology_members(t: SpecTopology) -> Seq<(Seq<char>, JsonValue)> {
    seq![
        ("pci_roots"@, JsonValue::Array(t.pci_roots.map_values(pci_root_value_fn()))),
        ("fabrics_controllers"@, JsonValue::Array(t.fabrics_controllers.map_values(nvme_ctrl_value_fn()))),
        ("nvme_subsystems"@, JsonValue::Array(t.nvme_subsystems.map_values(subsystem_value_fn()))),
        ("dm_devices"@, JsonValue::Array(t.dm_devices.map_values(dm_device_value_fn()))),
    ]
}

pub open spec fn topology_value(t: SpecTopology) -> JsonValue {
    JsonValue::Object(topology_members(t))
}


pub open spec fn nvme_ctrl_members(n: SpecNvmeCtrl) -> Seq<(Seq<char>, JsonValue)> {
    seq![
        ("name"@, JsonValue::Str(n.name)),
        ("model"@, JsonValue::Str(n.model)),
        ("serial"@, JsonValue::Str(n.serial)),
        ("firmware_rev"@, JsonValue::Str(n.firmware_rev)),
        ("transport"@, JsonValue::Str(n.transport)),
        ("state"@, JsonValue::Str(n.state)),
        ("pci_address"@, opt_str_value(n.pci_address)),
        ("transport_address"@, opt_str_value(n.transport_address)),
        ("subsys_name"@, opt_str_value(n.subsys_name)),
        ("namespaces"@, JsonValue::Array(n.namespaces.map_values(namespace_value_fn()))),
    ]
}

pub open spec fn scsi_host_members(h: SpecScsiHost) -> Seq<(Seq<char>, JsonValue)> {
    seq![
        ("host_num"@, JsonValue::Number(h.host_num as int)),
        ("proc_name"@, opt_str_value(h.proc_name)),
        ("ata_port"@, opt_str_value(h.ata_port)),
        ("transport"@, opt_transport_value(h.transport)),
        ("targets"@, JsonValue::Array(h.targets.map_values(scsi_target_value_fn()))),
    ]
}

pub open spec fn fc_members(fc: SpecFcHostInfo) -> Seq<(Seq<char>, JsonValue)> {
    seq![
        ("transport_type"@, JsonValue::Str("Fc"@)),
        ("port_name"@, JsonValue::Str(fc.port_name)),
        ("node_name"@, JsonValue::Str(fc.node_name)),
        ("port_state"@, JsonValue::Str(fc.port_state)),
        ("port_type"@, JsonValue::Str(fc.port_type)),
        ("speed"@, JsonValue::Str(fc.speed)),
        ("fabric_name"@, opt_str_value(fc.fabric_name)),
        ("supported_speeds"@, opt_str_value(fc.supported_speeds)),
    ]
}

pub open spec fn sas_members(phys: Seq<SpecSasPhyInfo>) -> Seq<(Seq<char>, JsonValue)> {
    seq![
        ("transport_type"@, JsonValue::Str("Sas"@)),
        ("phys"@, JsonValue::Array(phys.map_values(sas_phy_value_fn()))),
    ]
}

pub open spec fn iscsi_members(sessions: Seq<SpecIscsiSessionInfo>) -> Seq<(Seq<char>, JsonValue)> {
    seq![
        ("transport_type"@, JsonValue::Str("Iscsi"@)),
        ("sessions"@, JsonValue::Array(sessions.map_values(iscsi_session_value_fn()))),
    ]
}

proof fn lemma_partition_value(p: SpecPartition, d: nat)
    ensures
        json_partition(p, d) == pretty(partition_value(p), d),
{
    reveal(json_partition);
    lemma_keys_plain();
    let e = d + 1;
    let ms = partition_members(p);
    lemma_line(e, "name"@, JsonValue::Str(p.name), jstr(p.name), true);
    lemma_number(p.number as nat, e);
    lemma_line(e, "number"@, JsonValue::Number(p.number as int), dec(p.number as nat), true);
    lemma_number(p.size_bytes as nat, e);
    lemma_line(e, "size_bytes"@, JsonValue::Number(p.size_bytes as int), dec(p.size_bytes as nat), true);
    lemma_str_array(e, "holders"@, p.holders, false);
    lemma_members_step(ms, 1, e);
    lemma_members_step(ms, 2, e);
    lemma_members_step(ms, 3, e);
    lemma_members_step(ms, 4, e);
    assert(Seq::<char>::empty() + jline(e, "name"@, jstr(p.name), true) =~= jline(e, "name"@, jstr(p.name), true));
    lemma_obj(d, ms, members_text(ms, 4, e));
}

proof fn lemma_block_value(b: SpecBlockDevice, d: nat)
    ensures
        json_block(b, d) == pretty(block_value(b), d),
{
    reveal(json_block);
    lemma_keys_plain();
    let e = d + 1;
    let ms = block_members(b);
    lemma_line(e, "name"@, JsonValue::Str(b.name), jstr(b.name), true);
    lemma_line(e, "dev_path"@, JsonValue::Str(b.dev_path), jstr(b.dev_path), true);
    lemma_number(b.size_bytes as nat, e);
    lemma_line(e, "size_bytes"@, JsonValue::Number(b.size_bytes as int), dec(b.size_bytes as nat), true);
    lemma_line(e, "removable"@, JsonValue::Bool(b.removable), jbool(b.removable), true);
    lemma_line(e, "read_only"@, JsonValue::Bool(b.read_only), jbool(b.read_only), true);
    lemma_opt_str(b.wwn, e);
    lemma_line(e, "wwn"@, opt_str_value(b.wwn), jopt_str(b.wwn), true);
    assert forall|i: int| 0 <= i < b.partitions.len() implies #[trigger] partition_json()(b.partitions[i], e + 1) == pretty(partition_value_fn()(b.partitions[i]), e + 1) by { lemma_partition_value(b.partitions[i], e + 1); }
    lemma_items(b.partitions, b.partitions.len() as int, e + 1, partition_json(), partition_value_fn());
    lemma_arr(e, "partitions"@, b.partitions.map_values(partition_value_fn()), all_items(b.partitions, e + 1, partition_json()), true);
    lemma_str_array(e, "holders"@, b.holders, false);
    lemma_members_step(ms, 1, e);
    lemma_members_step(ms, 2, e);
    lemma_members_step(ms, 3, e);
    lemma_members_step(ms, 4, e);
    lemma_members_step(ms, 5, e);
    lemma_members_step(ms, 6, e);
    lemma_members_step(ms, 7, e);
    lemma_members_step(ms, 8, e);
    assert(Seq::<char>::empty() + jline(e, "name"@, jstr(b.name), true) =~= jline(e, "name"@, jstr(b.name), true));
    lemma_obj(d, ms, members_text(ms, 8, e));
}

proof fn lemma_namespace_value(ns: SpecNvmeNamespace, d: nat)
    ensures
        json_namespace(ns, d) == pretty(namespace_value(ns), d),
{
    reveal(json_namespace);
    lemma_keys_plain();
    let e = d + 1;
    let ms = namespace_members(ns);
    lemma_line(e, "name"@, JsonValue::Str(ns.name), jstr(ns.name), true);
    lemma_opt_num(match ns.nsid { Some(v) => Some(v as int), None => None }, e);
    lemma_line(e, "nsid"@, opt_num_value(match ns.nsid { Some(v) => Some(v as int), None => None }), jopt_num(match ns.nsid { Some(v) => Some(v as int), None => None }), true);
    lemma_opt_str(ns.nguid, e);
    lemma_line(e, "nguid"@, opt_str_value(ns.nguid), jopt_str(ns.nguid), true);
    lemma_number(ns.size_bytes as nat, e);
    lemma_line(e, "size_bytes"@, JsonValue::Number(ns.size_bytes as int), dec(ns.size_bytes as nat), true);
    lemma_opt_block(e, ns.block_device, false);
    lemma_members_step(ms, 1, e);
    lemma_members_step(ms, 2, e);
    lemma_members_step(ms, 3, e);
    lemma_members_step(ms, 4, e);
    lemma_members_step(ms, 5, e);
    assert(Seq::<char>::empty() + jline(e, "name"@, jstr(ns.name), true) =~= jline(e, "name"@, jstr(ns.name), true));
    lemma_obj(d, ms, members_text(ms, 5, e));
}

proof fn lemma_subsystem_value(s: SpecNvmeSubsystem, d: nat)
    ensures
        json_subsystem(s, d) == pretty(subsystem_value(s), d),
{
    reveal(json_subsystem);
    lemma_keys_plain();
    let e = d + 1;
    let ms = subsystem_members(s);
    lemma_line(e, "name"@, JsonValue::Str(s.name), jstr(s.name), true);
    lemma_opt_str(s.nqn, e);
    lemma_line(e, "nqn"@, opt_str_value(s.nqn), jopt_str(s.nqn), true);
    lemma_line(e, "model"@, JsonValue::Str(s.model), jstr(s.model), true);
    lemma_line(e, "serial"@, JsonValue::Str(s.serial), jstr(s.serial), true);
    lemma_str_array(e, "controllers"@, s.controllers, true);
    assert forall|i: int| 0 <= i < s.namespaces.len() implies #[trigger] namespace_json()(s.namespaces[i], e + 1) == pretty(namespace_value_fn()(s.namespaces[i]), e + 1) by { lemma_namespace_value(s.namespaces[i], e + 1); }
    lemma_items(s.namespaces, s.namespaces.len() as int, e + 1, namespace_json(), namespace_value_fn());
    lemma_arr(e, "namespaces"@, s.namespaces.map_values(namespace_value_fn()), all_items(s.namespaces, e + 1, namespace_json()), false);
    lemma_members_step(ms, 1, e);
    lemma_members_step(ms, 2, e);
    lemma_members_step(ms, 3, e);
    lemma_members_step(ms, 4, e);
    lemma_members_step(ms, 5, e);
    lemma_members_step(ms, 6, e);
    assert(Seq::<char>::empty() + jline(e, "name"@, jstr(s.name), true) =~= jline(e, "name"@, jstr(s.name), true));
    lemma_obj(d, ms, members_text(ms, 6, e));
}

proof fn lemma_scsi_device_value(x: SpecScsiDevice, d: nat)
    ensures
        json_scsi_device(x, d) == pretty(scsi_device_value(x), d),
{
    reveal(json_scsi_device);
    lemma_keys_plain();
    let e = d + 1;
    let ms = scsi_device_members(x);
    lemma_line(e, "hctl"@, JsonValue::Str(x.hctl), jstr(x.hctl), true);
    lemma_line(e, "vendor"@, JsonValue::Str(x.vendor), jstr(x.vendor), true);
    lemma_line(e, "model"@, JsonValue::Str(x.model), jstr(x.model), true);
    lemma_line(e, "rev"@, JsonValue::Str(x.rev), jstr(x.rev), true);
    lemma_number(x.scsi_type as nat, e);
    lemma_line(e, "scsi_type"@, JsonValue::Number(x.scsi_type as int), dec(x.scsi_type as nat), true);
    lemma_line(e, "scsi_type_name"@, JsonValue::Str(x.scsi_type_name), jstr(x.scsi_type_name), true);
    lemma_opt_block(e, x.block_device, true);
    lemma_opt_str(x.sg_device, e);
    lemma_line(e, "sg_device"@, opt_str_value(x.sg_device), jopt_str(x.sg_device), false);
    lemma_members_step(ms, 1, e);
    lemma_members_step(ms, 2, e);
    lemma_members_step(ms, 3, e);
    lemma_members_step(ms, 4, e);
    lemma_members_step(ms, 5, e);
    lemma_members_step(ms, 6, e);
    lemma_members_step(ms, 7, e);
    lemma_members_step(ms, 8, e);
    assert(Seq::<char>::empty() + jline(e, "hctl"@, jstr(x.hctl), true) =~= jline(e, "hctl"@, jstr(x.hctl), true));
    lemma_obj(d, ms, members_text(ms, 8, e));
}

proof fn lemma_scsi_target_value(t: SpecScsiTarget, d: nat)
    ensures
        json_scsi_target(t, d) == pretty(scsi_target_value(t), d),
{
    reveal(json_scsi_target);
    lemma_keys_plain();
    let e = d + 1;
    let ms = scsi_target_members(t);
    lemma_line(e, "address"@, JsonValue::Str(t.address), jstr(t.address), true);
    assert forall|i: int| 0 <= i < t.devices.len() implies #[trigger] scsi_device_json()(t.devices[i], e + 1) == pretty(scsi_device_value_fn()(t.devices[i]), e + 1) by { lemma_scsi_device_value(t.devices[i], e + 1); }
    lemma_items(t.devices, t.devices.len() as int, e + 1, scsi_device_json(), scsi_device_value_fn());
    lemma_arr(e, "devices"@, t.devices.map_values(scsi_device_value_fn()), all_items(t.devices, e + 1, scsi_device_json()), false);
    lemma_members_step(ms, 1, e);
    lemma_members_step(ms, 2, e);
    assert(Seq::<char>::empty() + jline(e, "address"@, jstr(t.address), true) =~= jline(e, "address"@, jstr(t.address), true));
    lemma_obj(d, ms, members_text(ms, 2, e));
}

proof fn lemma_sas_phy_value(p: SpecSasPhyInfo, d: nat)
    ensures
        json_sas_phy(p, d) == pretty(sas_phy_value(p), d),
{
    reveal(json_sas_phy);
    lemma_keys_plain();
    let e = d + 1;
    let ms = sas_phy_members(p);
    lemma_line(e, "name"@, JsonValue::Str(p.name), jstr(p.name), true);
    lemma_line(e, "sas_address"@, JsonValue::Str(p.sas_address), jstr(p.sas_address), true);
    lemma_line(e, "negotiated_linkrate"@, JsonValue::Str(p.negotiated_linkrate), jstr(p.negotiated_linkrate), true);
    lemma_opt_str(p.initiator_protocols, e);
    lemma_line(e, "initiator_protocols"@, opt_str_value(p.initiator_protocols), jopt_str(p.initiator_protocols), true);
    lemma_opt_str(p.target_protocols, e);
    lemma_line(e, "target_protocols"@, opt_str_value(p.target_protocols), jopt_str(p.target_protocols), false);
    lemma_members_step(ms, 1, e);
    lemma_members_step(ms, 2, e);
    lemma_members_step(ms, 3, e);
    lemma_members_step(ms, 4, e);
    lemma_members_step(ms, 5, e);
    assert(Seq::<char>::empty() + jline(e, "name"@, jstr(p.name), true) =~= jline(e, "name"@, jstr(p.name), true));
    lemma_obj(d, ms, members_text(ms, 5, e));
}

proof fn lemma_iscsi_session_value(s: SpecIscsiSessionInfo, d: nat)
    ensures
        json_iscsi_session(s, d) == pretty(iscsi_session_value(s), d),
{
    reveal(json_iscsi_session);
    lemma_keys_plain();
    let e = d + 1;
    let ms = iscsi_session_members(s);
    lemma_line(e, "target_name"@, JsonValue::Str(s.target_name), jstr(s.target_name), true);
    lemma_line(e, "state"@, JsonValue::Str(s.state), jstr(s.state), true);
    lemma_opt_str(s.target_address, e);
    lemma_line(e, "target_address"@, opt_str_value(s.target_address), jopt_str(s.target_address), true);
    lemma_opt_num(match s.target_port { Some(v) => Some(v as int), None => None }, e);
    lemma_line(e, "target_port"@, opt_num_value(match s.target_port { Some(v) => Some(v as int), None => None }), jopt_num(match s.target_port { Some(v) => Some(v as int), None => None }), false);
    lemma_members_step(ms, 1, e);
    lemma_members_step(ms, 2, e);
    lemma_members_step(ms, 3, e);
    lemma_members_step(ms, 4, e);
    assert(Seq::<char>::empty() + jline(e, "target_name"@, jstr(s.target_name), true) =~= jline(e, "target_name"@, jstr(s.target_name), true));
    lemma_obj(d, ms, members_text(ms, 4, e));
}

proof fn lemma_storage_controller_value(c: SpecStorageController, d: nat)
    ensures
        json_storage_controller(c, d) == pretty(storage_controller_value(c), d),
{
    reveal(json_storage_controller);
    lemma_keys_plain();
    let e = d + 1;
    let ms = storage_controller_members(c);
    lemma_line(e, "type"@, JsonValue::Str("StorageController"@), jstr("StorageController"@), true);
    lemma_line(e, "address"@, JsonValue::Str(c.address), jstr(c.address), true);
    lemma_line(e, "vendor_id"@, JsonValue::Str(c.vendor_id), jstr(c.vendor_id), true);
    lemma_line(e, "device_id"@, JsonValue::Str(c.device_id), jstr(c.device_id), true);
    lemma_line(e, "class_code"@, JsonValue::Str(c.class_code), jstr(c.class_code), true);
    lemma_opt_str(c.driver, e);
    lemma_line(e, "driver"@, opt_str_value(c.driver), jopt_str(c.driver), true);
    lemma_opt_num(match c.numa_node { Some(v) => Some(v as int), None => None }, e);
    lemma_line(e, "numa_node"@, opt_num_value(match c.numa_node { Some(v) => Some(v as int), None => None }), jopt_num(match c.numa_node { Some(v) => Some(v as int), None => None }), true);
    assert forall|i: int| 0 <= i < c.children.len() implies #[trigger] controller_child_json()(c.children[i], e + 1) == pretty(controller_child_value_fn()(c.children[i]), e + 1) by { lemma_controller_child_value(c.children[i], e + 1); }
    lemma_items(c.children, c.children.len() as int, e + 1, controller_child_json(), controller_child_value_fn());
    lemma_arr(e, "children"@, c.children.map_values(controller_child_value_fn()), all_items(c.children, e + 1, controller_child_json()), false);
    lemma_members_step(ms, 1, e);
    lemma_members_step(ms, 2, e);
    lemma_members_step(ms, 3, e);
    lemma_members_step(ms, 4, e);
    lemma_members_step(ms, 5, e);
    lemma_members_step(ms, 6, e);
    lemma_members_step(ms, 7, e);
    lemma_members_step(ms, 8, e);
    assert(Seq::<char>::empty() + jline(e, "type"@, jstr("StorageController"@), true) =~= jline(e, "type"@, jstr("StorageController"@), true));
    lemma_obj(d, ms, members_text(ms, 8, e));
}

proof fn lemma_pci_root_value(r: SpecPciRoot, d: nat)
    ensures
        json_pci_root(r, d) == pretty(pci_root_value(r), d),
{
    reveal(json_pci_root);
    lemma_keys_plain();
    let e = d + 1;
    let ms = pci_root_members(r);
    lemma_line(e, "domain"@, JsonValue::Str(r.domain), jstr(r.domain), true);
    lemma_pci_nodes_value(r.children, r.children.len() as int, e + 1);
    lemma_pci_nodes_values(r.children, r.children.len() as int);
    lemma_arr(e, "children"@, pci_nodes_values(r.children, r.children.len() as int), json_pci_nodes(r.children, r.children.len() as int, e + 1), false);
    lemma_members_step(ms, 1, e);
    lemma_members_step(ms, 2, e);
    assert(Seq::<char>::empty() + jline(e, "domain"@, jstr(r.domain), true) =~= jline(e, "domain"@, jstr(r.domain), true));
    lemma_obj(d, ms, members_text(ms, 2, e));
}

proof fn lemma_dm_slave_value(s: SpecDmSlave, d: nat)
    ensures
        json_dm_slave(s, d) == pretty(dm_slave_value(s), d),
{
    reveal(json_dm_slave);
    lemma_keys_plain();
    let e = d + 1;
    let ms = dm_slave_members(s);
    lemma_line(e, "device_name"@, JsonValue::Str(s.device_name), jstr(s.device_name), true);
    lemma_opt_str(s.hctl, e);
    lemma_line(e, "hctl"@, opt_str_value(s.hctl), jopt_str(s.hctl), true);
    lemma_opt_num(match s.host_num { Some(v) => Some(v as int), None => None }, e);
    lemma_line(e, "host_num"@, opt_num_value(match s.host_num { Some(v) => Some(v as int), None => None }), jopt_num(match s.host_num { Some(v) => Some(v as int), None => None }), true);
    lemma_opt_str(s.host_driver, e);
    lemma_line(e, "host_driver"@, opt_str_value(s.host_driver), jopt_str(s.host_driver), true);
    lemma_opt_str(s.pci_address, e);
    lemma_line(e, "pci_address"@, opt_str_value(s.pci_address), jopt_str(s.pci_address), false);
    lemma_members_step(ms, 1, e);
    lemma_members_step(ms, 2, e);
    lemma_members_step(ms, 3, e);
    lemma_members_step(ms, 4, e);
    lemma_members_step(ms, 5, e);
    assert(Seq::<char>::empty() + jline(e, "device_name"@, jstr(s.device_name), true) =~= jline(e, "device_name"@, jstr(s.device_name), true));
    lemma_obj(d, ms, members_text(ms, 5, e));
}

proof fn lemma_dm_device_value(dm: SpecDmDevice, d: nat)
    ensures
        json_dm_device(dm, d) == pretty(dm_device_value(dm), d),
{
    reveal(json_dm_device);
    lemma_keys_plain();
    let e = d + 1;
    let ms = dm_device_members(dm);
    lemma_line(e, "name"@, JsonValue::Str(dm.name), jstr(dm.name), true);
    lemma_line(e, "dm_name"@, JsonValue::Str(dm.dm_name), jstr(dm.dm_name), true);
    lemma_line(e, "dm_uuid"@, JsonValue::Str(dm.dm_uuid), jstr(dm.dm_uuid), true);
    lemma_line(e, "dm_type"@, JsonValue::Str(dm.dm_type), jstr(dm.dm_type), true);
    lemma_number(dm.size_bytes as nat, e);
    lemma_line(e, "size_bytes"@, JsonValue::Number(dm.size_bytes as int), dec(dm.size_bytes as nat), true);
    assert forall|i: int| 0 <= i < dm.slaves.len() implies #[trigger] dm_slave_json()(dm.slaves[i], e + 1) == pretty(dm_slave_value_fn()(dm.slaves[i]), e + 1) by { lemma_dm_slave_value(dm.slaves[i], e + 1); }
    lemma_items(dm.slaves, dm.slaves.len() as int, e + 1, dm_slave_json(), dm_slave_value_fn());
    lemma_arr(e, "slaves"@, dm.slaves.map_values(dm_slave_value_fn()), all_items(dm.slaves, e + 1, dm_slave_json()), true);
    assert forall|i: int| 0 <= i < dm.partitions.len() implies #[trigger] partition_json()(dm.partitions[i], e + 1) == pretty(partition_value_fn()(dm.partitions[i]), e + 1) by { lemma_partition_value(dm.partitions[i], e + 1); }
    lemma_items(dm.partitions, dm.partitions.len() as int, e + 1, partition_json(), partition_value_fn());
    lemma_arr(e, "partitions"@, dm.partitions.map_values(partition_value_fn()), all_items(dm.partitions, e + 1, partition_json()), false);
    lemma_members_step(ms, 1, e);
    lemma_members_step(ms, 2, e);
    lemma_members_step(ms, 3, e);
    lemma_members_step(ms, 4, e);
    lemma_members_step(ms, 5, e);
    lemma_members_step(ms, 6, e);
    lemma_members_step(ms, 7, e);
    assert(Seq::<char>::empty() + jline(e, "name"@, jstr(dm.name), true) =~= jline(e, "name"@, jstr(dm.name), true));
    lemma_obj(d, ms, members_text(ms, 7, e));
}

/// The JSON text of a topology is the pretty-printed text of one JSON object:
/// its members are `pci_roots`, `fabrics_controllers`, `nvme_subsystems` and
/// `dm_devices`, in that order, arrays holding the value of each item of the
/// topology's lists in order, down to every field, each string the field's
/// string and each number the field's number.
pub proof fn lemma_topology_value(t: SpecTopology, d: nat)
    ensures
        json_topology(t, d) == pretty(topology_value(t), d),
{
    reveal(json_topology);
    lemma_keys_plain();
    let e = d + 1;
    let ms = topology_members(t);
    assert forall|i: int| 0 <= i < t.pci_roots.len() implies #[trigger] pci_root_json()(t.pci_roots[i], e + 1) == pretty(pci_root_value_fn()(t.pci_roots[i]), e + 1) by { lemma_pci_root_value(t.pci_roots[i], e + 1); }
    lemma_items(t.pci_roots, t.pci_roots.len() as int, e + 1, pci_root_json(), pci_root_value_fn());
    lemma_arr(e, "pci_roots"@, t.pci_roots.map_values(pci_root_value_fn()), all_items(t.pci_roots, e + 1, pci_root_json()), true);
    assert forall|i: int| 0 <= i < t.fabrics_controllers.len() implies #[trigger] nvme_ctrl_json()(t.fabrics_controllers[i], e + 1) == pretty(nvme_ctrl_value_fn()(t.fabrics_controllers[i]), e + 1) by { lemma_nvme_ctrl_value(t.fabrics_controllers[i], e + 1); }
    lemma_items(t.fabrics_controllers, t.fabrics_controllers.len() as int, e + 1, nvme_ctrl_json(), nvme_ctrl_value_fn());
    lemma_arr(e, "fabrics_controllers"@, t.fabrics_controllers.map_values(nvme_ctrl_value_fn()), all_items(t.fabrics_controllers, e + 1, nvme_ctrl_json()), true);
    assert forall|i: int| 0 <= i < t.nvme_subsystems.len() implies #[trigger] subsystem_json()(t.nvme_subsystems[i], e + 1) == pretty(subsystem_value_fn()(t.nvme_subsystems[i]), e + 1) by { lemma_subsystem_value(t.nvme_subsystems[i], e + 1); }
    lemma_items(t.nvme_subsystems, t.nvme_subsystems.len() as int, e + 1, subsystem_json(), subsystem_value_fn());
    lemma_arr(e, "nvme_subsystems"@, t.nvme_subsystems.map_values(subsystem_value_fn()), all_items(t.nvme_subsystems, e + 1, subsystem_json()), true);
    assert forall|i: int| 0 <= i < t.dm_devices.len() implies #[trigger] dm_device_json()(t.dm_devices[i], e + 1) == pretty(dm_device_value_fn()(t.dm_devices[i]), e + 1) by { lemma_dm_device_value(t.dm_devices[i], e + 1); }
    lemma_items(t.dm_devices, t.dm_devices.len() as int, e + 1, dm_device_json(), dm_device_value_fn());
    lemma_arr(e, "dm_devices"@, t.dm_devices.map_values(dm_device_value_fn()), all_items(t.dm_devices, e + 1, dm_device_json()), false);
    lemma_members_step(ms, 1, e);
    lemma_members_step(ms, 2, e);
    lemma_members_step(ms, 3, e);
    lemma_members_step(ms, 4, e);
    assert(Seq::<char>::empty() + jarr(e, "pci_roots"@, all_items(t.pci_roots, e + 1, pci_root_json()), true) =~= jarr(e, "pci_roots"@, all_items(t.pci_roots, e + 1, pci_root_json()), true));
    lemma_obj(d, ms, members_text(ms, 4, e));
}

proof fn lemma_nvme_ctrl_fields(n: SpecNvmeCtrl, e: nat)
    ensures
        nvme_ctrl_fields(n, e) == members_text(nvme_ctrl_members(n), 10, e),
{
    reveal(nvme_ctrl_fields);
    lemma_keys_plain();
    let ms = nvme_ctrl_members(n);
    lemma_line(e, "name"@, JsonValue::Str(n.name), jstr(n.name), true);
    lemma_line(e, "model"@, JsonValue::Str(n.model), jstr(n.model), true);
    lemma_line(e, "serial"@, JsonValue::Str(n.serial), jstr(n.serial), true);
    lemma_line(e, "firmware_rev"@, JsonValue::Str(n.firmware_rev), jstr(n.firmware_rev), true);
    lemma_line(e, "transport"@, JsonValue::Str(n.transport), jstr(n.transport), true);
    lemma_line(e, "state"@, JsonValue::Str(n.state), jstr(n.state), true);
    lemma_opt_str(n.pci_address, e);
    lemma_line(e, "pci_address"@, opt_str_value(n.pci_address), jopt_str(n.pci_address), true);
    lemma_opt_str(n.transport_address, e);
    lemma_line(e, "transport_address"@, opt_str_value(n.transport_address), jopt_str(n.transport_address), true);
    lemma_opt_str(n.subsys_name, e);
    lemma_line(e, "subsys_name"@, opt_str_value(n.subsys_name), jopt_str(n.subsys_name), true);
    assert forall|i: int| 0 <= i < n.namespaces.len() implies #[trigger] namespace_json()(n.namespaces[i], e + 1) == pretty(namespace_value_fn()(n.namespaces[i]), e + 1) by { lemma_namespace_value(n.namespaces[i], e + 1); }
    lemma_items(n.namespaces, n.namespaces.len() as int, e + 1, namespace_json(), namespace_value_fn());
    lemma_arr(e, "namespaces"@, n.namespaces.map_values(namespace_value_fn()), all_items(n.namespaces, e + 1, namespace_json()), false);
    lemma_members_step(ms, 1, e);
    lemma_members_step(ms, 2, e);
    lemma_members_step(ms, 3, e);
    lemma_members_step(ms, 4, e);
    lemma_members_step(ms, 5, e);
    lemma_members_step(ms, 6, e);
    lemma_members_step(ms, 7, e);
    lemma_members_step(ms, 8, e);
    lemma_members_step(ms, 9, e);
    lemma_members_step(ms, 10, e);
    assert(Seq::<char>::empty() + jline(e, "name"@, jstr(n.name), true) =~= jline(e, "name"@, jstr(n.name), true));
}

proof fn lemma_scsi_host_fields(h: SpecScsiHost, e: nat)
    ensures
        scsi_host_fields(h, e) == members_text(scsi_host_members(h), 5, e),
{
    reveal(scsi_host_fields);
    lemma_keys_plain();
    let ms = scsi_host_members(h);
    lemma_number(h.host_num as nat, e);
    lemma_line(e, "host_num"@, JsonValue::Number(h.host_num as int), dec(h.host_num as nat), true);
    lemma_opt_str(h.proc_name, e);
    lemma_line(e, "proc_name"@, opt_str_value(h.proc_name), jopt_str(h.proc_name), true);
    lemma_opt_str(h.ata_port, e);
    lemma_line(e, "ata_port"@, opt_str_value(h.ata_port), jopt_str(h.ata_port), true);
    lemma_transport_member(e, h.transport);
    assert forall|i: int| 0 <= i < h.targets.len() implies #[trigger] scsi_target_json()(h.targets[i], e + 1) == pretty(scsi_target_value_fn()(h.targets[i]), e + 1) by { lemma_scsi_target_value(h.targets[i], e + 1); }
    lemma_items(h.targets, h.targets.len() as int, e + 1, scsi_target_json(), scsi_target_value_fn());
    lemma_arr(e, "targets"@, h.targets.map_values(scsi_target_value_fn()), all_items(h.targets, e + 1, scsi_target_json()), false);
    lemma_members_step(ms, 1, e);
    lemma_members_step(ms, 2, e);
    lemma_members_step(ms, 3, e);
    lemma_members_step(ms, 4, e);
    lemma_members_step(ms, 5, e);
    assert(Seq::<char>::empty() + jline(e, "host_num"@, dec(h.host_num as nat), true) =~= jline(e, "host_num"@, dec(h.host_num as nat), true));
    assert(jline(e, "host_num"@, dec(h.host_num as nat), true) + jline(e, "proc_name"@, jopt_str(h.proc_name), true) + jline(e, "ata_port"@, jopt_str(h.ata_port), true) + jkey(e, "transport"@) + match h.transport { Some(t) => json_transport(t, e) + seq![',', '\n'], None => "null,\n"@ } + jarr(e, "targets"@, all_items(h.targets, e + 1, scsi_target_json()), false) =~= jline(e, "host_num"@, dec(h.host_num as nat), true) + jline(e, "proc_name"@, jopt_str(h.proc_name), true) + jline(e, "ata_port"@, jopt_str(h.ata_port), true) + (jkey(e, "transport"@) + match h.transport { Some(t) => json_transport(t, e) + seq![',', '\n'], None => "null,\n"@ }) + jarr(e, "targets"@, all_items(h.targets, e + 1, scsi_target_json()), false));
}

proof fn lemma_transport_value(t: SpecTransportInfo, d: nat)
    ensures
        json_transport(t, d) == pretty(transport_value(t), d),
{
    reveal(json_transport);
    lemma_keys_plain();
    let e = d + 1;
    match t {
        SpecTransportInfo::Fc(fc) => {
            let ms = fc_members(fc);
            lemma_line(e, "transport_type"@, JsonValue::Str("Fc"@), jstr("Fc"@), true);
            lemma_line(e, "port_name"@, JsonValue::Str(fc.port_name), jstr(fc.port_name), true);
            lemma_line(e, "node_name"@, JsonValue::Str(fc.node_name), jstr(fc.node_name), true);
            lemma_line(e, "port_state"@, JsonValue::Str(fc.port_state), jstr(fc.port_state), true);
            lemma_line(e, "port_type"@, JsonValue::Str(fc.port_type), jstr(fc.port_type), true);
            lemma_line(e, "speed"@, JsonValue::Str(fc.speed), jstr(fc.speed), true);
            lemma_opt_str(fc.fabric_name, e);
            lemma_line(e, "fabric_name"@, opt_str_value(fc.fabric_name), jopt_str(fc.fabric_name), true);
            lemma_opt_str(fc.supported_speeds, e);
            lemma_line(e, "supported_speeds"@, opt_str_value(fc.supported_speeds), jopt_str(fc.supported_speeds), false);
            lemma_members_step(ms, 1, e);
            lemma_members_step(ms, 2, e);
            lemma_members_step(ms, 3, e);
            lemma_members_step(ms, 4, e);
            lemma_members_step(ms, 5, e);
            lemma_members_step(ms, 6, e);
            lemma_members_step(ms, 7, e);
            lemma_members_step(ms, 8, e);
            assert(Seq::<char>::empty() + jline(e, "transport_type"@, jstr("Fc"@), true) =~= jline(e, "transport_type"@, jstr("Fc"@), true));
            lemma_obj(d, ms, members_text(ms, 8, e));
        },
        SpecTransportInfo::Sas(phys) => {
            let ms = sas_members(phys);
            lemma_line(e, "transport_type"@, JsonValue::Str("Sas"@), jstr("Sas"@), true);
            assert forall|i: int| 0 <= i < phys.len() implies #[trigger] sas_phy_json()(phys[i], e + 1) == pretty(sas_phy_value_fn()(phys[i]), e + 1) by { lemma_sas_phy_value(phys[i], e + 1); }
            lemma_items(phys, phys.len() as int, e + 1, sas_phy_json(), sas_phy_value_fn());
            lemma_arr(e, "phys"@, phys.map_values(sas_phy_value_fn()), all_items(phys, e + 1, sas_phy_json()), false);
            lemma_members_step(ms, 1, e);
            lemma_members_step(ms, 2, e);
            assert(Seq::<char>::empty() + jline(e, "transport_type"@, jstr("Sas"@), true) =~= jline(e, "transport_type"@, jstr("Sas"@), true));
            lemma_obj(d, ms, members_text(ms, 2, e));
        },
        SpecTransportInfo::Iscsi(sessions) => {
            let ms = iscsi_members(sessions);
            lemma_line(e, "transport_type"@, JsonValue::Str("Iscsi"@), jstr("Iscsi"@), true);
            assert forall|i: int| 0 <= i < sessions.len() implies #[trigger] iscsi_session_json()(sessions[i], e + 1) == pretty(iscsi_session_value_fn()(sessions[i]), e + 1) by { lemma_iscsi_session_value(sessions[i], e + 1); }
            lemma_items(sessions, sessions.len() as int, e + 1, iscsi_session_json(), iscsi_session_value_fn());
            lemma_arr(e, "sessions"@, sessions.map_values(iscsi_session_value_fn()), all_items(sessions, e + 1, iscsi_session_json()), false);
            lemma_members_step(ms, 1, e);
            lemma_members_step(ms, 2, e);
            assert(Seq::<char>::empty() + jline(e, "transport_type"@, jstr("Iscsi"@), true) =~= jline(e, "transport_type"@, jstr("Iscsi"@), true));
            lemma_obj(d, ms, members_text(ms, 2, e));
        },
    }
}

proof fn lemma_keys_plain_0()
    ensures
        plain("address"@),
        plain("ata_port"@),
        plain("block_device"@),
        plain("children"@),
        plain("class_code"@),
        plain("controllers"@),
        plain("dev_path"@),
        plain("device_id"@),
{
    reveal_strlit("address");
    reveal_strlit("ata_port");
    reveal_strlit("block_device");
    reveal_strlit("children");
    reveal_strlit("class_code");
    reveal_strlit("controllers");
    reveal_strlit("dev_path");
    reveal_strlit("device_id");
    reveal_with_fuel(plain, 20);
}

proof fn lemma_keys_plain_1()
    ensures
        plain("device_name"@),
        plain("devices"@),
        plain("dm_devices"@),
        plain("dm_name"@),
        plain("dm_type"@),
        plain("dm_uuid"@),
        plain("domain"@),
        plain("driver"@),
{
    reveal_strlit("device_name");
    reveal_strlit("devices");
    reveal_strlit("dm_devices");
    reveal_strlit("dm_name");
    reveal_strlit("dm_type");
    reveal_strlit("dm_uuid");
    reveal_strlit("domain");
    reveal_strlit("driver");
    reveal_with_fuel(plain, 20);
}

proof fn lemma_keys_plain_2()
    ensures
        plain("fabric_name"@),
        plain("fabrics_controllers"@),
        plain("firmware_rev"@),
        plain("hctl"@),
        plain("holders"@),
        plain("host_driver"@),
        plain("host_num"@),
        plain("initiator_protocols"@),
{
    reveal_strlit("fabric_name");
    reveal_strlit("fabrics_controllers");
    reveal_strlit("firmware_rev");
    reveal_strlit("hctl");
    reveal_strlit("holders");
    reveal_strlit("host_driver");
    reveal_strlit("host_num");
    reveal_strlit("initiator_protocols");
    reveal_with_fuel(plain, 20);
}

proof fn lemma_keys_plain_3()
    ensures
        plain("model"@),
        plain("name"@),
        plain("namespaces"@),
        plain("negotiated_linkrate"@),
        plain("nguid"@),
        plain("node_name"@),
        plain("nqn"@),
        plain("nsid"@),
{
    reveal_strlit("model");
    reveal_strlit("name");
    reveal_strlit("namespaces");
    reveal_strlit("negotiated_linkrate");
    reveal_strlit("nguid");
    reveal_strlit("node_name");
    reveal_strlit("nqn");
    reveal_strlit("nsid");
    reveal_with_fuel(plain, 20);
}

proof fn lemma_keys_plain_4()
    ensures
        plain("numa_node"@),
        plain("number"@),
        plain("nvme_subsystems"@),
        plain("partitions"@),
        plain("pci_address"@),
        plain("pci_roots"@),
        plain("phys"@),
        plain("port_name"@),
{
    reveal_strlit("numa_node");
    reveal_strlit("number");
    reveal_strlit("nvme_subsystems");
    reveal_strlit("partitions");
    reveal_strlit("pci_address");
    reveal_strlit("pci_roots");
    reveal_strlit("phys");
    reveal_strlit("port_name");
    reveal_with_fuel(plain, 20);
}

proof fn lemma_keys_plain_5()
    ensures
        plain("port_state"@),
        plain("port_type"@),
        plain("proc_name"@),
        plain("read_only"@),
        plain("removable"@),
        plain("rev"@),
        plain("sas_address"@),
        plain("scsi_type"@),
{
    reveal_strlit("port_state");
    reveal_strlit("port_type");
    reveal_strlit("proc_name");
    reveal_strlit("read_only");
    reveal_strlit("removable");
    reveal_strlit("rev");
    reveal_strlit("sas_address");
    reveal_strlit("scsi_type");
    reveal_with_fuel(plain, 20);
}

proof fn lemma_keys_plain_6()
    ensures
        plain("scsi_type_name"@),
        plain("serial"@),
        plain("sessions"@),
        plain("sg_device"@),
        plain("size_bytes"@),
        plain("slaves"@),
        plain("speed"@),
        plain("state"@),
{
    reveal_strlit("scsi_type_name");
    reveal_strlit("serial");
    reveal_strlit("sessions");
    reveal_strlit("sg_device");
    reveal_strlit("size_bytes");
    reveal_strlit("slaves");
    reveal_strlit("speed");
    reveal_strlit("state");
    reveal_with_fuel(plain, 20);
}

proof fn lemma_keys_plain_7()
    ensures
        plain("subsys_name"@),
        plain("supported_speeds"@),
        plain("target_address"@),
        plain("target_name"@),
        plain("target_port"@),
        plain("target_protocols"@),
        plain("targets"@),
        plain("transport"@),
{
    reveal_strlit("subsys_name");
    reveal_strlit("supported_speeds");
    reveal_strlit("target_address");
    reveal_strlit("target_name");
    reveal_strlit("target_port");
    reveal_strlit("target_protocols");
    reveal_strlit("targets");
    reveal_strlit("transport");
    reveal_with_fuel(plain, 20);
}

proof fn lemma_keys_plain_8()
    ensures
        plain("transport_address"@),
        plain("transport_type"@),
        plain("type"@),
        plain("vendor"@),
        plain("vendor_id"@),
        plain("wwn"@),
{
    reveal_strlit("transport_address");
    reveal_strlit("transport_type");
    reveal_strlit("type");
    reveal_strlit("vendor");
    reveal_strlit("vendor_id");
    reveal_strlit("wwn");
    reveal_with_fuel(plain, 20);
}

/// The member names need no escaping.
proof fn lemma_keys_plain()
    ensures
        plain("address"@),
        plain("ata_port"@),
        plain("block_device"@),
        plain("children"@),
        plain("class_code"@),
        plain("controllers"@),
        plain("dev_path"@),
        plain("device_id"@),
        plain("device_name"@),
        plain("devices"@),
        plain("dm_devices"@),
        plain("dm_name"@),
        plain("dm_type"@),
        plain("dm_uuid"@),
        plain("domain"@),
        plain("driver"@),
        plain("fabric_name"@),
        plain("fabrics_controllers"@),
        plain("firmware_rev"@),
        plain("hctl"@),
        plain("holders"@),
        plain("host_driver"@),
        plain("host_num"@),
        plain("initiator_protocols"@),
        plain("model"@),
        plain("name"@),
        plain("namespaces"@),
        plain("negotiated_linkrate"@),
        plain("nguid"@),
        plain("node_name"@),
        plain("nqn"@),
        plain("nsid"@),
        plain("numa_node"@),
        plain("number"@),
        plain("nvme_subsystems"@),
        plain("partitions"@),
        plain("pci_address"@),
        plain("pci_roots"@),
        plain("phys"@),
        plain("port_name"@),
        plain("port_state"@),
        plain("port_type"@),
        plain("proc_name"@),
        plain("read_only"@),
        plain("removable"@),
        plain("rev"@),
        plain("sas_address"@),
        plain("scsi_type"@),
        plain("scsi_type_name"@),
        plain("serial"@),
        plain("sessions"@),
        plain("sg_device"@),
        plain("size_bytes"@),
        plain("slaves"@),
        plain("speed"@),
        plain("state"@),
        plain("subsys_name"@),
        plain("supported_speeds"@),
        plain("target_address"@),
        plain("target_name"@),
        plain("target_port"@),
        plain("target_protocols"@),
        plain("targets"@),
        plain("transport"@),
        plain("transport_address"@),
        plain("transport_type"@),
        plain("type"@),
        plain("vendor"@),
        plain("vendor_id"@),
        plain("wwn"@),
{
    lemma_keys_plain_0();
    lemma_keys_plain_1();
    lemma_keys_plain_2();
    lemma_keys_plain_3();
    lemma_keys_plain_4();
    lemma_keys_plain_5();
    lemma_keys_plain_6();
    lemma_keys_plain_7();
    lemma_keys_plain_8();
}

} // verus!
