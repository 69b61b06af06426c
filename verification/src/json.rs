//! The topology as pretty-printed JSON: two spaces per level, one field per
//! line, strings escaped, `null` for what is absent.
use vstd::prelude::*;
use vstd::string::*;
use crate::text::{dec, int_dec, push_i64, push_u64};
use crate::types::{
    ctrl_children_view, ctrls_view, opt_block_view, devices_view, dms_view, namespaces_view, opt_view,
    partitions_view, phys_view, sessions_view, slaves_view, strs_view, subsystems_view,
    targets_view, roots_view, nodes_view, lemma_nodes_view, BlockDevice, PciBridge, PciNode,
    PciRoot, Topology, ControllerChild, DmDevice, DmSlave, IscsiSessionInfo, NvmeCtrl,
    NvmeNamespace, NvmeSubsystem, Partition, SasPhyInfo, ScsiDevice, ScsiHost, ScsiTarget,
    StorageController, TransportInfo, SpecBlockDevice,
    SpecControllerChild, SpecDmDevice, SpecDmSlave, SpecIscsiSessionInfo, SpecNvmeCtrl,
    SpecNvmeNamespace, SpecNvmeSubsystem, SpecPartition, SpecPciNode, SpecPciRoot, SpecSasPhyInfo,
    SpecScsiDevice, SpecScsiHost, SpecScsiTarget, SpecStorageController, SpecTopology,
    SpecTransportInfo
};

verus! {

// ---------------------------------------------------------------------------
// Text of the pieces
// ---------------------------------------------------------------------------
/// `d` levels of indentation, two spaces each.
pub open spec fn ind(d: nat) -> Seq<char>
    decreases d,
{
    if d == 0 {
        Seq::empty()
    } else {
        ind((d - 1) as nat) + "  "@
    }
}

pub open spec fn comma(tc: bool) -> Seq<char> {
    if tc {
        seq![',']
    } else {
        Seq::empty()
    }
}

pub open spec fn hex_lower(d: nat) -> char {
    if d < 10 {
        ('0' as int + d) as char
    } else {
        ('a' as int + d - 10) as char
    }
}

/// How one character stands inside a JSON string: the short escapes for quote,
/// backslash, newline, carriage return, tab, backspace and form feed, `\\u00XX` for
/// the other control characters.
pub open spec fn escape_char(c: char) -> Seq<char> {
    if c == '"' {
        seq!['\\', '"']
    } else if c == '\\' {
        seq!['\\', '\\']
    } else if c == '\n' {
        seq!['\\', 'n']
    } else if c == '\r' {
        seq!['\\', 'r']
    } else if c == '\t' {
        seq!['\\', 't']
    } else if c == '\x08' {
        seq!['\\', 'b']
    } else if c == '\x0c' {
        seq!['\\', 'f']
    } else if (c as u32) < 0x20 {
        seq!['\\', 'u', '0', '0', hex_lower((c as u32 / 16) as nat), hex_lower((c as u32 % 16) as nat)]
    } else {
        seq![c]
    }
}

pub open spec fn escape(s: Seq<char>) -> Seq<char>
    decreases s.len(),
{
    if s.len() == 0 {
        Seq::empty()
    } else {
        escape(s.drop_last()) + escape_char(s.last())
    }
}

/// A JSON string literal.
pub open spec fn jstr(s: Seq<char>) -> Seq<char> {
    seq!['"'] + escape(s) + seq!['"']
}

pub open spec fn jopt_str(o: Option<Seq<char>>) -> Seq<char> {
    match o {
        Some(s) => jstr(s),
        None => "null"@,
    }
}

pub open spec fn jopt_num(o: Option<int>) -> Seq<char> {
    match o {
        Some(n) => int_dec(n),
        None => "null"@,
    }
}

pub open spec fn jbool(b: bool) -> Seq<char> {
    if b {
        "true"@
    } else {
        "false"@
    }
}

/// The start of a member: indentation, the quoted name, a colon and a space.
pub open spec fn jkey(d: nat, name: Seq<char>) -> Seq<char> {
    ind(d) + seq!['"'] + name + seq!['"', ':', ' ']
}

/// A member on a line of its own.
#[verifier::opaque]
pub open spec fn jline(d: nat, name: Seq<char>, value: Seq<char>, tc: bool) -> Seq<char> {
    jkey(d, name) + value + comma(tc) + seq!['\n']
}

/// An object whose members, at level `d + 1`, are `members`.
pub open spec fn jobj(d: nat, members: Seq<char>) -> Seq<char> {
    seq!['{', '\n'] + members + ind(d) + seq!['}']
}

/// An array member whose elements, one per line at level `d + 1`, are `elems`;
/// `[]` where there is none.
#[verifier::opaque]
pub open spec fn jarr(d: nat, name: Seq<char>, elems: Seq<char>, tc: bool) -> Seq<char> {
    jkey(d, name) + (if elems.len() == 0 {
        "[]"@
    } else {
        seq!['[', '\n'] + elems + ind(d) + seq![']']
    }) + comma(tc) + seq!['\n']
}

/// The first `k` elements of an array, each at level `d` followed by a comma
/// unless it is the last element, then a line break.
pub open spec fn jitems<T>(s: Seq<T>, k: int, d: nat, f: spec_fn(T, nat) -> Seq<char>) -> Seq<
    char,
>
    decreases k,
{
    if k <= 0 {
        Seq::empty()
    } else {
        jitems(s, k - 1, d, f) + ind(d) + f(s[k - 1], d) + comma(k < s.len()) + seq!['\n']
    }
}

pub open spec fn all_items<T>(s: Seq<T>, d: nat, f: spec_fn(T, nat) -> Seq<char>) -> Seq<char> {
    jitems(s, s.len() as int, d, f)
}

/// An array of strings; `[]` where it is empty.
#[verifier::opaque]
pub open spec fn jstr_array(d: nat, name: Seq<char>, vals: Seq<Seq<char>>, tc: bool) -> Seq<char> {
    jkey(d, name) + (if vals.len() == 0 {
        "[]"@
    } else {
        seq!['[', '\n'] + all_items(vals, d + 1, str_json()) + ind(d) + seq![']']
    }) + comma(tc) + seq!['\n']
}

pub open spec fn str_json() -> spec_fn(Seq<char>, nat) -> Seq<char> {
    |s: Seq<char>, d: nat| jstr(s)
}

// ---------------------------------------------------------------------------
// Text of the types, `d` being the level of the line on which an object opens
// ---------------------------------------------------------------------------
#[verifier::opaque]
pub open spec fn json_partition(p: SpecPartition, d: nat) -> Seq<char> {
    jobj(
        d,
        jline(d + 1, "name"@, jstr(p.name), true) + jline(
            d + 1,
            "number"@,
            dec(p.number as nat),
            true,
        ) + jline(d + 1, "size_bytes"@, dec(p.size_bytes as nat), true) + jstr_array(
            d + 1,
            "holders"@,
            p.holders,
            false,
        ),
    )
}

pub open spec fn partition_json() -> spec_fn(SpecPartition, nat) -> Seq<char> {
    |p: SpecPartition, d: nat| json_partition(p, d)
}

#[verifier::opaque]
pub open spec fn json_block(b: SpecBlockDevice, d: nat) -> Seq<char> {
    jobj(
        d,
        jline(d + 1, "name"@, jstr(b.name), true) + jline(d + 1, "dev_path"@, jstr(b.dev_path), true)
            + jline(d + 1, "size_bytes"@, dec(b.size_bytes as nat), true) + jline(
            d + 1,
            "removable"@,
            jbool(b.removable),
            true,
        ) + jline(d + 1, "read_only"@, jbool(b.read_only), true) + jline(
            d + 1,
            "wwn"@,
            jopt_str(b.wwn),
            true,
        ) + jarr(d + 1, "partitions"@, all_items(b.partitions, d + 2, partition_json()), true)
            + jstr_array(d + 1, "holders"@, b.holders, false),
    )
}

/// A member holding a block device or `null`, followed by `tail`.
#[verifier::opaque]
pub open spec fn jopt_block(d: nat, b: Option<SpecBlockDevice>, tc: bool) -> Seq<char> {
    jkey(d, "block_device"@) + match b {
        Some(b) => json_block(b, d),
        None => "null"@,
    } + comma(tc) + seq!['\n']
}

#[verifier::opaque]
pub open spec fn json_namespace(ns: SpecNvmeNamespace, d: nat) -> Seq<char> {
    jobj(
        d,
        jline(d + 1, "name"@, jstr(ns.name), true) + jline(
            d + 1,
            "nsid"@,
            jopt_num(
                match ns.nsid {
                    Some(v) => Some(v as int),
                    None => None,
                },
            ),
            true,
        ) + jline(d + 1, "nguid"@, jopt_str(ns.nguid), true) + jline(
            d + 1,
            "size_bytes"@,
            dec(ns.size_bytes as nat),
            true,
        ) + jopt_block(d + 1, ns.block_device, false),
    )
}

pub open spec fn namespace_json() -> spec_fn(SpecNvmeNamespace, nat) -> Seq<char> {
    |n: SpecNvmeNamespace, d: nat| json_namespace(n, d)
}

/// The members of an NVMe controller, at level `e`.
#[verifier::opaque]
pub open spec fn nvme_ctrl_fields(n: SpecNvmeCtrl, e: nat) -> Seq<char> {
    jline(e, "name"@, jstr(n.name), true) + jline(e, "model"@, jstr(n.model), true) + jline(
        e,
        "serial"@,
        jstr(n.serial),
        true,
    ) + jline(e, "firmware_rev"@, jstr(n.firmware_rev), true) + jline(
        e,
        "transport"@,
        jstr(n.transport),
        true,
    ) + jline(e, "state"@, jstr(n.state), true) + jline(
        e,
        "pci_address"@,
        jopt_str(n.pci_address),
        true,
    ) + jline(e, "transport_address"@, jopt_str(n.transport_address), true) + jline(
        e,
        "subsys_name"@,
        jopt_str(n.subsys_name),
        true,
    ) + jarr(e, "namespaces"@, all_items(n.namespaces, e + 1, namespace_json()), false)
}

#[verifier::opaque]
pub open spec fn json_nvme_ctrl(n: SpecNvmeCtrl, d: nat) -> Seq<char> {
    jobj(d, nvme_ctrl_fields(n, d + 1))
}

pub open spec fn nvme_ctrl_json() -> spec_fn(SpecNvmeCtrl, nat) -> Seq<char> {
    |n: SpecNvmeCtrl, d: nat| json_nvme_ctrl(n, d)
}

#[verifier::opaque]
pub open spec fn json_subsystem(s: SpecNvmeSubsystem, d: nat) -> Seq<char> {
    jobj(
        d,
        jline(d + 1, "name"@, jstr(s.name), true) + jline(d + 1, "nqn"@, jopt_str(s.nqn), true)
            + jline(d + 1, "model"@, jstr(s.model), true) + jline(
            d + 1,
            "serial"@,
            jstr(s.serial),
            true,
        ) + jstr_array(d + 1, "controllers"@, s.controllers, true) + jarr(
            d + 1,
            "namespaces"@,
            all_items(s.namespaces, d + 2, namespace_json()),
            false,
        ),
    )
}

pub open spec fn subsystem_json() -> spec_fn(SpecNvmeSubsystem, nat) -> Seq<char> {
    |s: SpecNvmeSubsystem, d: nat| json_subsystem(s, d)
}

#[verifier::opaque]
pub open spec fn json_scsi_device(x: SpecScsiDevice, d: nat) -> Seq<char> {
    jobj(
        d,
        jline(d + 1, "hctl"@, jstr(x.hctl), true) + jline(d + 1, "vendor"@, jstr(x.vendor), true)
            + jline(d + 1, "model"@, jstr(x.model), true) + jline(d + 1, "rev"@, jstr(x.rev), true)
            + jline(d + 1, "scsi_type"@, dec(x.scsi_type as nat), true) + jline(
            d + 1,
            "scsi_type_name"@,
            jstr(x.scsi_type_name),
            true,
        ) + jopt_block(d + 1, x.block_device, true) + jline(
            d + 1,
            "sg_device"@,
            jopt_str(x.sg_device),
            false,
        ),
    )
}

pub open spec fn scsi_device_json() -> spec_fn(SpecScsiDevice, nat) -> Seq<char> {
    |x: SpecScsiDevice, d: nat| json_scsi_device(x, d)
}

#[verifier::opaque]
pub open spec fn json_scsi_target(t: SpecScsiTarget, d: nat) -> Seq<char> {
    jobj(
        d,
        jline(d + 1, "address"@, jstr(t.address), true) + jarr(
            d + 1,
            "devices"@,
            all_items(t.devices, d + 2, scsi_device_json()),
            false,
        ),
    )
}

pub open spec fn scsi_target_json() -> spec_fn(SpecScsiTarget, nat) -> Seq<char> {
    |t: SpecScsiTarget, d: nat| json_scsi_target(t, d)
}

#[verifier::opaque]
pub open spec fn json_sas_phy(p: SpecSasPhyInfo, d: nat) -> Seq<char> {
    jobj(
        d,
        jline(d + 1, "name"@, jstr(p.name), true) + jline(
            d + 1,
            "sas_address"@,
            jstr(p.sas_address),
            true,
        ) + jline(d + 1, "negotiated_linkrate"@, jstr(p.negotiated_linkrate), true) + jline(
            d + 1,
            "initiator_protocols"@,
            jopt_str(p.initiator_protocols),
            true,
        ) + jline(d + 1, "target_protocols"@, jopt_str(p.target_protocols), false),
    )
}

pub open spec fn sas_phy_json() -> spec_fn(SpecSasPhyInfo, nat) -> Seq<char> {
    |p: SpecSasPhyInfo, d: nat| json_sas_phy(p, d)
}

#[verifier::opaque]
pub open spec fn json_iscsi_session(s: SpecIscsiSessionInfo, d: nat) -> Seq<char> {
    jobj(
        d,
        jline(d + 1, "target_name"@, jstr(s.target_name), true) + jline(
            d + 1,
            "state"@,
            jstr(s.state),
            true,
        ) + jline(d + 1, "target_address"@, jopt_str(s.target_address), true) + jline(
            d + 1,
            "target_port"@,
            jopt_num(
                match s.target_port {
                    Some(p) => Some(p as int),
                    None => None,
                },
            ),
            false,
        ),
    )
}

pub open spec fn iscsi_session_json() -> spec_fn(SpecIscsiSessionInfo, nat) -> Seq<char> {
    |s: SpecIscsiSessionInfo, d: nat| json_iscsi_session(s, d)
}

#[verifier::opaque]
pub open spec fn json_transport(t: SpecTransportInfo, d: nat) -> Seq<char> {
    jobj(
        d,
        match t {
            SpecTransportInfo::Fc(fc) => jline(d + 1, "transport_type"@, jstr("Fc"@), true)
                + jline(d + 1, "port_name"@, jstr(fc.port_name), true) + jline(
                d + 1,
                "node_name"@,
                jstr(fc.node_name),
                true,
            ) + jline(d + 1, "port_state"@, jstr(fc.port_state), true) + jline(
                d + 1,
                "port_type"@,
                jstr(fc.port_type),
                true,
            ) + jline(d + 1, "speed"@, jstr(fc.speed), true) + jline(
                d + 1,
                "fabric_name"@,
                jopt_str(fc.fabric_name),
                true,
            ) + jline(d + 1, "supported_speeds"@, jopt_str(fc.supported_speeds), false),
            SpecTransportInfo::Sas(phys) => jline(d + 1, "transport_type"@, jstr("Sas"@), true)
                + jarr(d + 1, "phys"@, all_items(phys, d + 2, sas_phy_json()), false),
            SpecTransportInfo::Iscsi(sessions) => jline(
                d + 1,
                "transport_type"@,
                jstr("Iscsi"@),
                true,
            ) + jarr(d + 1, "sessions"@, all_items(sessions, d + 2, iscsi_session_json()), false),
        },
    )
}

/// The members of a SCSI host, at level `e`.
#[verifier::opaque]
pub open spec fn scsi_host_fields(h: SpecScsiHost, e: nat) -> Seq<char> {
    jline(e, "host_num"@, dec(h.host_num as nat), true) + jline(
        e,
        "proc_name"@,
        jopt_str(h.proc_name),
        true,
    ) + jline(e, "ata_port"@, jopt_str(h.ata_port), true) + jkey(e, "transport"@) + match h.transport {
        Some(t) => json_transport(t, e) + seq![',', '\n'],
        None => "null,\n"@,
    } + jarr(e, "targets"@, all_items(h.targets, e + 1, scsi_target_json()), false)
}

#[verifier::opaque]
pub open spec fn json_controller_child(c: SpecControllerChild, d: nat) -> Seq<char> {
    match c {
        SpecControllerChild::ScsiHost(h) => jobj(
            d,
            jline(d + 1, "type"@, jstr("ScsiHost"@), true) + scsi_host_fields(h, d + 1),
        ),
        SpecControllerChild::NvmeController(n) => jobj(
            d,
            jline(d + 1, "type"@, jstr("NvmeController"@), true) + nvme_ctrl_fields(n, d + 1),
        ),
    }
}

pub open spec fn controller_child_json() -> spec_fn(SpecControllerChild, nat) -> Seq<char> {
    |c: SpecControllerChild, d: nat| json_controller_child(c, d)
}

#[verifier::opaque]
pub open spec fn json_storage_controller(c: SpecStorageController, d: nat) -> Seq<char> {
    jobj(
        d,
        jline(d + 1, "type"@, jstr("StorageController"@), true) + jline(
            d + 1,
            "address"@,
            jstr(c.address),
            true,
        ) + jline(d + 1, "vendor_id"@, jstr(c.vendor_id), true) + jline(
            d + 1,
            "device_id"@,
            jstr(c.device_id),
            true,
        ) + jline(d + 1, "class_code"@, jstr(c.class_code), true) + jline(
            d + 1,
            "driver"@,
            jopt_str(c.driver),
            true,
        ) + jline(
            d + 1,
            "numa_node"@,
            jopt_num(
                match c.numa_node {
                    Some(v) => Some(v as int),
                    None => None,
                },
            ),
            true,
        ) + jarr(d + 1, "children"@, all_items(c.children, d + 2, controller_child_json()), false),
    )
}

/// The JSON of a PCI node, through the tree below it.
pub open spec fn json_pci_node(n: SpecPciNode, d: nat) -> Seq<char>
    decreases n,
{
    match n {
        SpecPciNode::Bridge(b) => jobj(
            d,
            jline(d + 1, "type"@, jstr("Bridge"@), true) + jline(
                d + 1,
                "address"@,
                jstr(b.address),
                true,
            ) + jline(d + 1, "vendor_id"@, jstr(b.vendor_id), true) + jline(
                d + 1,
                "device_id"@,
                jstr(b.device_id),
                true,
            ) + jline(d + 1, "driver"@, jopt_str(b.driver), true) + jarr(
                d + 1,
                "children"@,
                json_pci_nodes(b.children, b.children.len() as int, d + 2),
                false,
            ),
        ),
        SpecPciNode::StorageController(c) => json_storage_controller(c, d),
    }
}

/// The first `k` elements of an array of PCI nodes at level `d`.
pub open spec fn json_pci_nodes(s: Seq<SpecPciNode>, k: int, d: nat) -> Seq<char>
    decreases s, k,
{
    if k <= 0 || k > s.len() {
        Seq::empty()
    } else {
        json_pci_nodes(s, k - 1, d) + ind(d) + json_pci_node(s[k - 1], d) + comma(k < s.len())
            + seq!['\n']
    }
}

#[verifier::opaque]
pub open spec fn json_pci_root(r: SpecPciRoot, d: nat) -> Seq<char> {
    jobj(
        d,
        jline(d + 1, "domain"@, jstr(r.domain), true) + jarr(
            d + 1,
            "children"@,
            json_pci_nodes(r.children, r.children.len() as int, d + 2),
            false,
        ),
    )
}

pub open spec fn pci_root_json() -> spec_fn(SpecPciRoot, nat) -> Seq<char> {
    |r: SpecPciRoot, d: nat| json_pci_root(r, d)
}

#[verifier::opaque]
pub open spec fn json_dm_slave(s: SpecDmSlave, d: nat) -> Seq<char> {
    jobj(
        d,
        jline(d + 1, "device_name"@, jstr(s.device_name), true) + jline(
            d + 1,
            "hctl"@,
            jopt_str(s.hctl),
            true,
        ) + jline(
            d + 1,
            "host_num"@,
            jopt_num(
                match s.host_num {
                    Some(v) => Some(v as int),
                    None => None,
                },
            ),
            true,
        ) + jline(d + 1, "host_driver"@, jopt_str(s.host_driver), true) + jline(
            d + 1,
            "pci_address"@,
            jopt_str(s.pci_address),
            false,
        ),
    )
}

pub open spec fn dm_slave_json() -> spec_fn(SpecDmSlave, nat) -> Seq<char> {
    |s: SpecDmSlave, d: nat| json_dm_slave(s, d)
}

#[verifier::opaque]
pub open spec fn json_dm_device(dm: SpecDmDevice, d: nat) -> Seq<char> {
    jobj(
        d,
        jline(d + 1, "name"@, jstr(dm.name), true) + jline(d + 1, "dm_name"@, jstr(dm.dm_name), true)
            + jline(d + 1, "dm_uuid"@, jstr(dm.dm_uuid), true) + jline(
            d + 1,
            "dm_type"@,
            jstr(dm.dm_type),
            true,
        ) + jline(d + 1, "size_bytes"@, dec(dm.size_bytes as nat), true) + jarr(
            d + 1,
            "slaves"@,
            all_items(dm.slaves, d + 2, dm_slave_json()),
            true,
        ) + jarr(d + 1, "partitions"@, all_items(dm.partitions, d + 2, partition_json()), false),
    )
}

pub open spec fn dm_device_json() -> spec_fn(SpecDmDevice, nat) -> Seq<char> {
    |x: SpecDmDevice, d: nat| json_dm_device(x, d)
}

#[verifier::opaque]
pub open spec fn json_topology(t: SpecTopology, d: nat) -> Seq<char> {
    jobj(
        d,
        jarr(d + 1, "pci_roots"@, all_items(t.pci_roots, d + 2, pci_root_json()), true) + jarr(
            d + 1,
            "fabrics_controllers"@,
            all_items(t.fabrics_controllers, d + 2, nvme_ctrl_json()),
            true,
        ) + jarr(d + 1, "nvme_subsystems"@, all_items(t.nvme_subsystems, d + 2, subsystem_json()), true)
            + jarr(d + 1, "dm_devices"@, all_items(t.dm_devices, d + 2, dm_device_json()), false),
    )
}

// ---------------------------------------------------------------------------
// Depth of the PCI trees, which bounds the indentation
// ---------------------------------------------------------------------------
pub open spec fn pci_node_depth(n: SpecPciNode) -> nat
    decreases n,
{
    match n {
        SpecPciNode::Bridge(b) => 1 + pci_nodes_depth(b.children, b.children.len() as int),
        SpecPciNode::StorageController(_) => 1,
    }
}

pub open spec fn pci_nodes_depth(s: Seq<SpecPciNode>, k: int) -> nat
    decreases s, k,
{
    if k <= 0 || k > s.len() {
        0
    } else {
        let a = pci_nodes_depth(s, k - 1);
        let b = pci_node_depth(s[k - 1]);
        if a >= b {
            a
        } else {
            b
        }
    }
}

pub open spec fn roots_depth(s: Seq<SpecPciRoot>, k: int) -> nat
    decreases k,
{
    if k <= 0 || k > s.len() {
        0
    } else {
        let a = roots_depth(s, k - 1);
        let b = pci_nodes_depth(s[k - 1].children, s[k - 1].children.len() as int);
        if a >= b {
            a
        } else {
            b
        }
    }
}

/// How deep the PCI trees of a topology go.
pub open spec fn topology_depth(t: SpecTopology) -> nat {
    roots_depth(t.pci_roots, t.pci_roots.len() as int)
}

pub proof fn lemma_nodes_depth(s: Seq<SpecPciNode>, k: int, i: int)
    requires
        0 <= i < k <= s.len(),
    ensures
        pci_node_depth(s[i]) <= pci_nodes_depth(s, k),
    decreases k,
{
    if i < k - 1 {
        lemma_nodes_depth(s, k - 1, i);
    }
}

pub proof fn lemma_roots_depth(s: Seq<SpecPciRoot>, k: int, i: int)
    requires
        0 <= i < k <= s.len(),
    ensures
        pci_nodes_depth(s[i].children, s[i].children.len() as int) <= roots_depth(s, k),
    decreases k,
{
    if i < k - 1 {
        lemma_roots_depth(s, k - 1, i);
    }
}

// ---------------------------------------------------------------------------
// The writer
// ---------------------------------------------------------------------------
/// Room that the writers below need on the indentation counter, beyond the PCI trees.
pub open spec fn room(indent: usize, extra: nat) -> bool {
    indent + extra + 16 <= usize::MAX
}

pub struct JsonWriter {
    pub buf: String,
    pub indent: usize,
}

impl JsonWriter {
    pub fn new() -> (w: Self)
        ensures
            w.buf@ == Seq::<char>::empty(),
            w.indent == 0,
    {
        JsonWriter { buf: String::new(), indent: 0 }
    }

    pub fn indent(&mut self)
        ensures
            final(self).buf@ == old(self).buf@ + ind(old(self).indent as nat),
            final(self).indent == old(self).indent,
    {
        let ghost start = self.buf@;
        let mut i: usize = 0;
        while i < self.indent
            invariant
                i <= self.indent,
                self.indent == old(self).indent,
                self.buf@ == start + ind(i as nat),
            decreases self.indent - i,
        {
            self.buf.append("  ");
            i = i + 1;
            assert(self.buf@ =~= start + ind(i as nat));
        }
    }

    pub fn key(&mut self, name: &str)
        ensures
            final(self).buf@ == old(self).buf@ + jkey(old(self).indent as nat, name@),
            final(self).indent == old(self).indent,
    {
        self.indent();
        self.buf.push('"');
        self.buf.append(name);
        self.buf.push('"');
        self.buf.push(':');
        self.buf.push(' ');
        assert(self.buf@ =~= old(self).buf@ + jkey(old(self).indent as nat, name@));
    }

    fn push_hex_digit(&mut self, d: u32)
        requires
            d < 16,
        ensures
            final(self).buf@ == old(self).buf@.push(hex_lower(d as nat)),
            final(self).indent == old(self).indent,
    {
        let c: char = if d < 10 {
            ((48u32 + d) as u8) as char
        } else {
            ((87u32 + d) as u8) as char
        };
        self.buf.push(c);
    }

    pub fn str_val(&mut self, s: &str)
        ensures
            final(self).buf@ == old(self).buf@ + jstr(s@),
            final(self).indent == old(self).indent,
    {
        self.buf.push('"');
        let ghost start = self.buf@;
        let n = s.unicode_len();
        let mut i: usize = 0;
        while i < n
            invariant
                n == s@.len(),
                i <= n,
                self.buf@ == start + escape(s@.subrange(0, i as int)),
                self.indent == old(self).indent,
            decreases n - i,
        {
            let c = s.get_char(i);
            let ghost before = self.buf@;
            if c == '"' {
                self.buf.push('\\');
                self.buf.push('"');
            } else if c == '\\' {
                self.buf.push('\\');
                self.buf.push('\\');
            } else if c == '\n' {
                self.buf.push('\\');
                self.buf.push('n');
            } else if c == '\r' {
                self.buf.push('\\');
                self.buf.push('r');
            } else if c == '\t' {
                self.buf.push('\\');
                self.buf.push('t');
            } else if c == '\x08' {
                self.buf.push('\\');
                self.buf.push('b');
            } else if c == '\x0c' {
                self.buf.push('\\');
                self.buf.push('f');
            } else if (c as u32) < 0x20 {
                self.buf.push('\\');
                self.buf.push('u');
                self.buf.push('0');
                self.buf.push('0');
                self.push_hex_digit(c as u32 / 16);
                self.push_hex_digit(c as u32 % 16);
            } else {
                self.buf.push(c);
            }
            assert(self.buf@ =~= before + escape_char(c));
            assert(s@.subrange(0, i + 1).drop_last() =~= s@.subrange(0, i as int));
            i = i + 1;
            assert(self.buf@ =~= start + escape(s@.subrange(0, i as int)));
        }
        self.buf.push('"');
        assert(s@.subrange(0, n as int) =~= s@);
        assert(self.buf@ =~= old(self).buf@ + jstr(s@));
    }

    fn end_line(&mut self, trailing_comma: bool)
        ensures
            final(self).buf@ == old(self).buf@ + comma(trailing_comma) + seq!['\n'],
            final(self).indent == old(self).indent,
    {
        if trailing_comma {
            self.buf.push(',');
        }
        self.buf.push('\n');
        assert(self.buf@ =~= old(self).buf@ + comma(trailing_comma) + seq!['\n']);
    }

    pub fn opt_str(&mut self, key: &str, val: &Option<String>, trailing_comma: bool)
        ensures
            final(self).buf@ == old(self).buf@ + jline(
                old(self).indent as nat,
                key@,
                jopt_str(opt_view(*val)),
                trailing_comma,
            ),
            final(self).indent == old(self).indent,
    {
        proof {
            reveal(jline);
        }
        self.key(key);
        match val {
            Some(s) => self.str_val(s.as_str()),
            None => {
                self.buf.append("null");
            },
        }
        self.end_line(trailing_comma);
        assert(self.buf@ =~= old(self).buf@ + jline(
            old(self).indent as nat,
            key@,
            jopt_str(opt_view(*val)),
            trailing_comma,
        ));
    }

    pub fn str_field(&mut self, key: &str, val: &str, trailing_comma: bool)
        ensures
            final(self).buf@ == old(self).buf@ + jline(
                old(self).indent as nat,
                key@,
                jstr(val@),
                trailing_comma,
            ),
            final(self).indent == old(self).indent,
    {
        proof {
            reveal(jline);
        }
        self.key(key);
        self.str_val(val);
        self.end_line(trailing_comma);
        assert(self.buf@ =~= old(self).buf@ + jline(
            old(self).indent as nat,
            key@,
            jstr(val@),
            trailing_comma,
        ));
    }

    pub fn u32_field(&mut self, key: &str, val: u32, trailing_comma: bool)
        ensures
            final(self).buf@ == old(self).buf@ + jline(
                old(self).indent as nat,
                key@,
                dec(val as nat),
                trailing_comma,
            ),
            final(self).indent == old(self).indent,
    {
        proof {
            reveal(jline);
        }
        self.key(key);
        push_u64(&mut self.buf, val as u64);
        self.end_line(trailing_comma);
        assert(self.buf@ =~= old(self).buf@ + jline(
            old(self).indent as nat,
            key@,
            dec(val as nat),
            trailing_comma,
        ));
    }

    pub fn u64_field(&mut self, key: &str, val: u64, trailing_comma: bool)
        ensures
            final(self).buf@ == old(self).buf@ + jline(
                old(self).indent as nat,
                key@,
                dec(val as nat),
                trailing_comma,
            ),
            final(self).indent == old(self).indent,
    {
        proof {
            reveal(jline);
        }
        self.key(key);
        push_u64(&mut self.buf, val);
        self.end_line(trailing_comma);
        assert(self.buf@ =~= old(self).buf@ + jline(
            old(self).indent as nat,
            key@,
            dec(val as nat),
            trailing_comma,
        ));
    }

    pub fn bool_field(&mut self, key: &str, val: bool, trailing_comma: bool)
        ensures
            final(self).buf@ == old(self).buf@ + jline(
                old(self).indent as nat,
                key@,
                jbool(val),
                trailing_comma,
            ),
            final(self).indent == old(self).indent,
    {
        proof {
            reveal(jline);
        }
        self.key(key);
        if val {
            self.buf.append("true");
        } else {
            self.buf.append("false");
        }
        self.end_line(trailing_comma);
        assert(self.buf@ =~= old(self).buf@ + jline(
            old(self).indent as nat,
            key@,
            jbool(val),
            trailing_comma,
        ));
    }

    pub fn opt_u32(&mut self, key: &str, val: Option<u32>, trailing_comma: bool)
        ensures
            final(self).buf@ == old(self).buf@ + jline(
                old(self).indent as nat,
                key@,
                jopt_num(
                    match val {
                        Some(v) => Some(v as int),
                        None => None,
                    },
                ),
                trailing_comma,
            ),
            final(self).indent == old(self).indent,
    {
        proof {
            reveal(jline);
        }
        self.key(key);
        match val {
            Some(v) => push_u64(&mut self.buf, v as u64),
            None => self.buf.append("null"),
        }
        self.end_line(trailing_comma);
        assert(self.buf@ =~= old(self).buf@ + jline(
            old(self).indent as nat,
            key@,
            jopt_num(
                match val {
                    Some(v) => Some(v as int),
                    None => None,
                },
            ),
            trailing_comma,
        ));
    }

    pub fn opt_i32(&mut self, key: &str, val: Option<i32>, trailing_comma: bool)
        ensures
            final(self).buf@ == old(self).buf@ + jline(
                old(self).indent as nat,
                key@,
                jopt_num(
                    match val {
                        Some(v) => Some(v as int),
                        None => None,
                    },
                ),
                trailing_comma,
            ),
            final(self).indent == old(self).indent,
    {
        proof {
            reveal(jline);
        }
        self.key(key);
        match val {
            Some(v) => push_i64(&mut self.buf, v as i64),
            None => self.buf.append("null"),
        }
        self.end_line(trailing_comma);
        assert(self.buf@ =~= old(self).buf@ + jline(
            old(self).indent as nat,
            key@,
            jopt_num(
                match val {
                    Some(v) => Some(v as int),
                    None => None,
                },
            ),
            trailing_comma,
        ));
    }

    pub fn string_array(&mut self, key: &str, vals: &Vec<String>, trailing_comma: bool)
        requires
            old(self).indent < usize::MAX,
        ensures
            final(self).buf@ == old(self).buf@ + jstr_array(
                old(self).indent as nat,
                key@,
                strs_view(vals@),
                trailing_comma,
            ),
            final(self).indent == old(self).indent,
    {
        let ghost d = self.indent as nat;
        let ghost vs = strs_view(vals@);
        proof {
            reveal(jstr_array);
            reveal_strlit("[]");
            reveal_strlit("[\n");
        }
        self.key(key);
        let ghost after_key = self.buf@;
        if vals.len() == 0 {
            self.buf.append("[]");
        } else {
            self.buf.append("[\n");
            self.indent = self.indent + 1;
            let ghost start = self.buf@;
            let mut i: usize = 0;
            while i < vals.len()
                invariant
                    i <= vals@.len(),
                    self.indent == d + 1,
                    vs == strs_view(vals@),
                    self.buf@ == start + jitems(vs, i as int, d + 1, str_json()),
                decreases vals@.len() - i,
            {
                self.indent();
                self.str_val(vals[i].as_str());
                self.end_line(i + 1 < vals.len());
                i = i + 1;
                assert(self.buf@ =~= start + jitems(vs, i as int, d + 1, str_json()));
            }
            self.indent = self.indent - 1;
            self.indent();
            self.buf.push(']');
        }
        self.end_line(trailing_comma);
        assert(self.buf@ =~= old(self).buf@ + jstr_array(d, key@, vs, trailing_comma));
    }

    pub fn begin_obj(&mut self)
        requires
            old(self).indent < usize::MAX,
        ensures
            final(self).buf@ == old(self).buf@ + seq!['{', '\n'],
            final(self).indent == old(self).indent + 1,
    {
        proof {
            reveal_strlit("{\n");
        }
        self.buf.append("{\n");
        self.indent = self.indent + 1;
        assert(self.buf@ =~= old(self).buf@ + seq!['{', '\n']);
    }

    pub fn end_obj(&mut self)
        requires
            old(self).indent > 0,
        ensures
            final(self).buf@ == old(self).buf@ + ind((old(self).indent - 1) as nat) + seq!['}'],
            final(self).indent == old(self).indent - 1,
    {
        self.indent = self.indent - 1;
        self.indent();
        self.buf.push('}');
    }

    pub fn begin_arr(&mut self, key: &str)
        requires
            old(self).indent < usize::MAX,
        ensures
            final(self).buf@ == old(self).buf@ + jkey(old(self).indent as nat, key@) + seq![
                '[',
                '\n',
            ],
            final(self).indent == old(self).indent + 1,
    {
        proof {
            reveal_strlit("[\n");
        }
        self.key(key);
        self.buf.append("[\n");
        self.indent = self.indent + 1;
        assert(self.buf@ =~= old(self).buf@ + jkey(old(self).indent as nat, key@) + seq!['[', '\n']);
    }

    pub fn end_arr(&mut self, trailing_comma: bool)
        requires
            old(self).indent > 0,
        ensures
            final(self).buf@ == old(self).buf@ + ind((old(self).indent - 1) as nat) + seq![']']
                + comma(trailing_comma) + seq!['\n'],
            final(self).indent == old(self).indent - 1,
    {
        self.indent = self.indent - 1;
        self.indent();
        self.buf.push(']');
        self.end_line(trailing_comma);
        assert(self.buf@ =~= old(self).buf@ + ind((old(self).indent - 1) as nat) + seq![']']
            + comma(trailing_comma) + seq!['\n']);
    }

    /// An array member with no elements: `[]`.
    fn empty_arr(&mut self, key: &str, trailing_comma: bool)
        ensures
            final(self).buf@ == old(self).buf@ + jkey(old(self).indent as nat, key@) + "[]"@ + comma(
                trailing_comma,
            ) + seq!['\n'],
            final(self).indent == old(self).indent,
    {
        self.key(key);
        self.buf.append("[]");
        self.end_line(trailing_comma);
        assert(self.buf@ =~= old(self).buf@ + jkey(old(self).indent as nat, key@) + "[]"@ + comma(
            trailing_comma,
        ) + seq!['\n']);
    }

    pub fn write_partition(&mut self, p: &Partition)
        requires
            room(old(self).indent, 0),
        ensures
            final(self).buf@ == old(self).buf@ + json_partition(p@, old(self).indent as nat),
            final(self).indent == old(self).indent,
    {
        let ghost d = self.indent as nat;
        proof {
            reveal(json_partition);
        }
        self.begin_obj();
        self.str_field("name", p.name.as_str(), true);
        self.u32_field("number", p.number, true);
        self.u64_field("size_bytes", p.size_bytes, true);
        self.string_array("holders", &p.holders, false);
        self.end_obj();
        assert(self.buf@ =~= old(self).buf@ + json_partition(p@, d));
    }

    fn write_partitions(&mut self, key: &str, v: &Vec<Partition>, trailing_comma: bool)
        requires
            room(old(self).indent, 2),
        ensures
            final(self).buf@ == old(self).buf@ + jarr(
                old(self).indent as nat,
                key@,
                all_items(partitions_view(v@), old(self).indent as nat + 1, partition_json()),
                trailing_comma,
            ),
            final(self).indent == old(self).indent,
    {
        let ghost d = self.indent as nat;
        let ghost vs = partitions_view(v@);
        proof {
            reveal(jarr);
        }
        if v.len() == 0 {
            self.empty_arr(key, trailing_comma);
            assert(self.buf@ =~= old(self).buf@ + jarr(d, key@, all_items(vs, d + 1, partition_json()), trailing_comma));
        } else {
            self.begin_arr(key);
            let ghost start = self.buf@;
            let mut i: usize = 0;
            while i < v.len()
                invariant
                    i <= v@.len(),
                    self.indent == d + 1,
                    room(d as usize, 2),
                    vs == partitions_view(v@),
                    self.buf@ == start + jitems(vs, i as int, d + 1, partition_json()),
                decreases v@.len() - i,
            {
                self.indent();
                self.write_partition(&v[i]);
                self.end_line(i + 1 < v.len());
                i = i + 1;
                assert(self.buf@ =~= start + jitems(vs, i as int, d + 1, partition_json()));
            }
            self.end_arr(trailing_comma);
            assert(self.buf@ =~= old(self).buf@ + jarr(d, key@, all_items(vs, d + 1, partition_json()), trailing_comma));
        }
    }

    pub fn write_block_device(&mut self, bd: &BlockDevice)
        requires
            room(old(self).indent, 3),
        ensures
            final(self).buf@ == old(self).buf@ + json_block(bd@, old(self).indent as nat),
            final(self).indent == old(self).indent,
    {
        let ghost d = self.indent as nat;
        let ghost b = bd@;
        self.begin_obj();
        let ghost start = self.buf@;
        let ghost m1 = jline(d + 1, "name"@, jstr(b.name), true);
        self.str_field("name", bd.name.as_str(), true);
        let ghost m2 = m1 + jline(d + 1, "dev_path"@, jstr(b.dev_path), true);
        self.str_field("dev_path", bd.dev_path.as_str(), true);
        assert(self.buf@ =~= start + m2);
        let ghost m3 = m2 + jline(d + 1, "size_bytes"@, dec(b.size_bytes as nat), true);
        self.u64_field("size_bytes", bd.size_bytes, true);
        assert(self.buf@ =~= start + m3);
        let ghost m4 = m3 + jline(d + 1, "removable"@, jbool(b.removable), true);
        self.bool_field("removable", bd.removable, true);
        assert(self.buf@ =~= start + m4);
        let ghost m5 = m4 + jline(d + 1, "read_only"@, jbool(b.read_only), true);
        self.bool_field("read_only", bd.read_only, true);
        assert(self.buf@ =~= start + m5);
        let ghost m6 = m5 + jline(d + 1, "wwn"@, jopt_str(b.wwn), true);
        self.opt_str("wwn", &bd.wwn, true);
        assert(self.buf@ =~= start + m6);
        let ghost m7 = m6 + jarr(d + 1, "partitions"@, all_items(b.partitions, d + 2, partition_json()), true);
        self.write_partitions("partitions", &bd.partitions, true);
        assert(self.buf@ =~= start + m7);
        let ghost m8 = m7 + jstr_array(d + 1, "holders"@, b.holders, false);
        self.string_array("holders", &bd.holders, false);
        assert(self.buf@ =~= start + m8);
        let ghost before_end = self.buf@;
        self.end_obj();
        proof {
            reveal(json_block);
            assert(json_block(b, d) == jobj(d, m8));
        }
        assert(self.buf@ =~= old(self).buf@ + jobj(d, m8));
    }

    fn write_namespaces(&mut self, key: &str, v: &Vec<NvmeNamespace>, trailing_comma: bool)
        requires
            room(old(self).indent, 5),
        ensures
            final(self).buf@ == old(self).buf@ + jarr(
                old(self).indent as nat,
                key@,
                all_items(namespaces_view(v@), old(self).indent as nat + 1, namespace_json()),
                trailing_comma,
            ),
            final(self).indent == old(self).indent,
    {
        let ghost d = self.indent as nat;
        let ghost vs = namespaces_view(v@);
        proof {
            reveal(jarr);
        }
        if v.len() == 0 {
            self.empty_arr(key, trailing_comma);
            assert(self.buf@ =~= old(self).buf@ + jarr(d, key@, all_items(vs, d + 1, namespace_json()), trailing_comma));
        } else {
            self.begin_arr(key);
            let ghost start = self.buf@;
            let mut i: usize = 0;
            while i < v.len()
                invariant
                    i <= v@.len(),
                    self.indent == d + 1,
                    room(d as usize, 5),
                    vs == namespaces_view(v@),
                    self.buf@ == start + jitems(vs, i as int, d + 1, namespace_json()),
                decreases v@.len() - i,
            {
                self.indent();
                self.write_nvme_namespace(&v[i]);
                self.end_line(i + 1 < v.len());
                i = i + 1;
                assert(self.buf@ =~= start + jitems(vs, i as int, d + 1, namespace_json()));
            }
            self.end_arr(trailing_comma);
            assert(self.buf@ =~= old(self).buf@ + jarr(d, key@, all_items(vs, d + 1, namespace_json()), trailing_comma));
        }
    }

    fn write_fabrics(&mut self, key: &str, v: &Vec<NvmeCtrl>, trailing_comma: bool)
        requires
            room(old(self).indent, 7),
        ensures
            final(self).buf@ == old(self).buf@ + jarr(
                old(self).indent as nat,
                key@,
                all_items(ctrls_view(v@), old(self).indent as nat + 1, nvme_ctrl_json()),
                trailing_comma,
            ),
            final(self).indent == old(self).indent,
    {
        let ghost d = self.indent as nat;
        let ghost vs = ctrls_view(v@);
        proof {
            reveal(jarr);
        }
        if v.len() == 0 {
            self.empty_arr(key, trailing_comma);
            assert(self.buf@ =~= old(self).buf@ + jarr(d, key@, all_items(vs, d + 1, nvme_ctrl_json()), trailing_comma));
        } else {
            self.begin_arr(key);
            let ghost start = self.buf@;
            let mut i: usize = 0;
            while i < v.len()
                invariant
                    i <= v@.len(),
                    self.indent == d + 1,
                    room(d as usize, 7),
                    vs == ctrls_view(v@),
                    self.buf@ == start + jitems(vs, i as int, d + 1, nvme_ctrl_json()),
                decreases v@.len() - i,
            {
                self.indent();
                self.write_nvme_ctrl(&v[i]);
                self.end_line(i + 1 < v.len());
                i = i + 1;
                assert(self.buf@ =~= start + jitems(vs, i as int, d + 1, nvme_ctrl_json()));
            }
            self.end_arr(trailing_comma);
            assert(self.buf@ =~= old(self).buf@ + jarr(d, key@, all_items(vs, d + 1, nvme_ctrl_json()), trailing_comma));
        }
    }

    fn write_subsystems(&mut self, key: &str, v: &Vec<NvmeSubsystem>, trailing_comma: bool)
        requires
            room(old(self).indent, 7),
        ensures
            final(self).buf@ == old(self).buf@ + jarr(
                old(self).indent as nat,
                key@,
                all_items(subsystems_view(v@), old(self).indent as nat + 1, subsystem_json()),
                trailing_comma,
            ),
            final(self).indent == old(self).indent,
    {
        let ghost d = self.indent as nat;
        let ghost vs = subsystems_view(v@);
        proof {
            reveal(jarr);
        }
        if v.len() == 0 {
            self.empty_arr(key, trailing_comma);
            assert(self.buf@ =~= old(self).buf@ + jarr(d, key@, all_items(vs, d + 1, subsystem_json()), trailing_comma));
        } else {
            self.begin_arr(key);
            let ghost start = self.buf@;
            let mut i: usize = 0;
            while i < v.len()
                invariant
                    i <= v@.len(),
                    self.indent == d + 1,
                    room(d as usize, 7),
                    vs == subsystems_view(v@),
                    self.buf@ == start + jitems(vs, i as int, d + 1, subsystem_json()),
                decreases v@.len() - i,
            {
                self.indent();
                self.write_nvme_subsystem(&v[i]);
                self.end_line(i + 1 < v.len());
                i = i + 1;
                assert(self.buf@ =~= start + jitems(vs, i as int, d + 1, subsystem_json()));
            }
            self.end_arr(trailing_comma);
            assert(self.buf@ =~= old(self).buf@ + jarr(d, key@, all_items(vs, d + 1, subsystem_json()), trailing_comma));
        }
    }

    fn write_devices(&mut self, key: &str, v: &Vec<ScsiDevice>, trailing_comma: bool)
        requires
            room(old(self).indent, 5),
        ensures
            final(self).buf@ == old(self).buf@ + jarr(
                old(self).indent as nat,
                key@,
                all_items(devices_view(v@), old(self).indent as nat + 1, scsi_device_json()),
                trailing_comma,
            ),
            final(self).indent == old(self).indent,
    {
        let ghost d = self.indent as nat;
        let ghost vs = devices_view(v@);
        proof {
            reveal(jarr);
        }
        if v.len() == 0 {
            self.empty_arr(key, trailing_comma);
            assert(self.buf@ =~= old(self).buf@ + jarr(d, key@, all_items(vs, d + 1, scsi_device_json()), trailing_comma));
        } else {
            self.begin_arr(key);
            let ghost start = self.buf@;
            let mut i: usize = 0;
            while i < v.len()
                invariant
                    i <= v@.len(),
                    self.indent == d + 1,
                    room(d as usize, 5),
                    vs == devices_view(v@),
                    self.buf@ == start + jitems(vs, i as int, d + 1, scsi_device_json()),
                decreases v@.len() - i,
            {
                self.indent();
                self.write_scsi_device(&v[i]);
                self.end_line(i + 1 < v.len());
                i = i + 1;
                assert(self.buf@ =~= start + jitems(vs, i as int, d + 1, scsi_device_json()));
            }
            self.end_arr(trailing_comma);
            assert(self.buf@ =~= old(self).buf@ + jarr(d, key@, all_items(vs, d + 1, scsi_device_json()), trailing_comma));
        }
    }

    fn write_targets(&mut self, key: &str, v: &Vec<ScsiTarget>, trailing_comma: bool)
        requires
            room(old(self).indent, 7),
        ensures
            final(self).buf@ == old(self).buf@ + jarr(
                old(self).indent as nat,
                key@,
                all_items(targets_view(v@), old(self).indent as nat + 1, scsi_target_json()),
                trailing_comma,
            ),
            final(self).indent == old(self).indent,
    {
        let ghost d = self.indent as nat;
        let ghost vs = targets_view(v@);
        proof {
            reveal(jarr);
        }
        if v.len() == 0 {
            self.empty_arr(key, trailing_comma);
            assert(self.buf@ =~= old(self).buf@ + jarr(d, key@, all_items(vs, d + 1, scsi_target_json()), trailing_comma));
        } else {
            self.begin_arr(key);
            let ghost start = self.buf@;
            let mut i: usize = 0;
            while i < v.len()
                invariant
                    i <= v@.len(),
                    self.indent == d + 1,
                    room(d as usize, 7),
                    vs == targets_view(v@),
                    self.buf@ == start + jitems(vs, i as int, d + 1, scsi_target_json()),
                decreases v@.len() - i,
            {
                self.indent();
                self.write_scsi_target(&v[i]);
                self.end_line(i + 1 < v.len());
                i = i + 1;
                assert(self.buf@ =~= start + jitems(vs, i as int, d + 1, scsi_target_json()));
            }
            self.end_arr(trailing_comma);
            assert(self.buf@ =~= old(self).buf@ + jarr(d, key@, all_items(vs, d + 1, scsi_target_json()), trailing_comma));
        }
    }

    fn write_phys(&mut self, key: &str, v: &Vec<SasPhyInfo>, trailing_comma: bool)
        requires
            room(old(self).indent, 2),
        ensures
            final(self).buf@ == old(self).buf@ + jarr(
                old(self).indent as nat,
                key@,
                all_items(phys_view(v@), old(self).indent as nat + 1, sas_phy_json()),
                trailing_comma,
            ),
            final(self).indent == old(self).indent,
    {
        let ghost d = self.indent as nat;
        let ghost vs = phys_view(v@);
        proof {
            reveal(jarr);
        }
        if v.len() == 0 {
            self.empty_arr(key, trailing_comma);
            assert(self.buf@ =~= old(self).buf@ + jarr(d, key@, all_items(vs, d + 1, sas_phy_json()), trailing_comma));
        } else {
            self.begin_arr(key);
            let ghost start = self.buf@;
            let mut i: usize = 0;
            while i < v.len()
                invariant
                    i <= v@.len(),
                    self.indent == d + 1,
                    room(d as usize, 2),
                    vs == phys_view(v@),
                    self.buf@ == start + jitems(vs, i as int, d + 1, sas_phy_json()),
                decreases v@.len() - i,
            {
                self.indent();
                self.write_sas_phy(&v[i]);
                self.end_line(i + 1 < v.len());
                i = i + 1;
                assert(self.buf@ =~= start + jitems(vs, i as int, d + 1, sas_phy_json()));
            }
            self.end_arr(trailing_comma);
            assert(self.buf@ =~= old(self).buf@ + jarr(d, key@, all_items(vs, d + 1, sas_phy_json()), trailing_comma));
        }
    }

    fn write_sessions(&mut self, key: &str, v: &Vec<IscsiSessionInfo>, trailing_comma: bool)
        requires
            room(old(self).indent, 2),
        ensures
            final(self).buf@ == old(self).buf@ + jarr(
                old(self).indent as nat,
                key@,
                all_items(sessions_view(v@), old(self).indent as nat + 1, iscsi_session_json()),
                trailing_comma,
            ),
            final(self).indent == old(self).indent,
    {
        let ghost d = self.indent as nat;
        let ghost vs = sessions_view(v@);
        proof {
            reveal(jarr);
        }
        if v.len() == 0 {
            self.empty_arr(key, trailing_comma);
            assert(self.buf@ =~= old(self).buf@ + jarr(d, key@, all_items(vs, d + 1, iscsi_session_json()), trailing_comma));
        } else {
            self.begin_arr(key);
            let ghost start = self.buf@;
            let mut i: usize = 0;
            while i < v.len()
                invariant
                    i <= v@.len(),
                    self.indent == d + 1,
                    room(d as usize, 2),
                    vs == sessions_view(v@),
                    self.buf@ == start + jitems(vs, i as int, d + 1, iscsi_session_json()),
                decreases v@.len() - i,
            {
                self.indent();
                self.write_iscsi_session(&v[i]);
                self.end_line(i + 1 < v.len());
                i = i + 1;
                assert(self.buf@ =~= start + jitems(vs, i as int, d + 1, iscsi_session_json()));
            }
            self.end_arr(trailing_comma);
            assert(self.buf@ =~= old(self).buf@ + jarr(d, key@, all_items(vs, d + 1, iscsi_session_json()), trailing_comma));
        }
    }

    fn write_controller_children(&mut self, key: &str, v: &Vec<ControllerChild>, trailing_comma: bool)
        requires
            room(old(self).indent, 9),
        ensures
            final(self).buf@ == old(self).buf@ + jarr(
                old(self).indent as nat,
                key@,
                all_items(ctrl_children_view(v@), old(self).indent as nat + 1, controller_child_json()),
                trailing_comma,
            ),
            final(self).indent == old(self).indent,
    {
        let ghost d = self.indent as nat;
        let ghost vs = ctrl_children_view(v@);
        proof {
            reveal(jarr);
        }
        if v.len() == 0 {
            self.empty_arr(key, trailing_comma);
            assert(self.buf@ =~= old(self).buf@ + jarr(d, key@, all_items(vs, d + 1, controller_child_json()), trailing_comma));
        } else {
            self.begin_arr(key);
            let ghost start = self.buf@;
            let mut i: usize = 0;
            while i < v.len()
                invariant
                    i <= v@.len(),
                    self.indent == d + 1,
                    room(d as usize, 9),
                    vs == ctrl_children_view(v@),
                    self.buf@ == start + jitems(vs, i as int, d + 1, controller_child_json()),
                decreases v@.len() - i,
            {
                self.indent();
                self.write_controller_child(&v[i]);
                self.end_line(i + 1 < v.len());
                i = i + 1;
                assert(self.buf@ =~= start + jitems(vs, i as int, d + 1, controller_child_json()));
            }
            self.end_arr(trailing_comma);
            assert(self.buf@ =~= old(self).buf@ + jarr(d, key@, all_items(vs, d + 1, controller_child_json()), trailing_comma));
        }
    }

    fn write_dm_slaves(&mut self, key: &str, v: &Vec<DmSlave>, trailing_comma: bool)
        requires
            room(old(self).indent, 2),
        ensures
            final(self).buf@ == old(self).buf@ + jarr(
                old(self).indent as nat,
                key@,
                all_items(slaves_view(v@), old(self).indent as nat + 1, dm_slave_json()),
                trailing_comma,
            ),
            final(self).indent == old(self).indent,
    {
        let ghost d = self.indent as nat;
        let ghost vs = slaves_view(v@);
        proof {
            reveal(jarr);
        }
        if v.len() == 0 {
            self.empty_arr(key, trailing_comma);
            assert(self.buf@ =~= old(self).buf@ + jarr(d, key@, all_items(vs, d + 1, dm_slave_json()), trailing_comma));
        } else {
            self.begin_arr(key);
            let ghost start = self.buf@;
            let mut i: usize = 0;
            while i < v.len()
                invariant
                    i <= v@.len(),
                    self.indent == d + 1,
                    room(d as usize, 2),
                    vs == slaves_view(v@),
                    self.buf@ == start + jitems(vs, i as int, d + 1, dm_slave_json()),
                decreases v@.len() - i,
            {
                self.indent();
                self.write_dm_slave(&v[i]);
                self.end_line(i + 1 < v.len());
                i = i + 1;
                assert(self.buf@ =~= start + jitems(vs, i as int, d + 1, dm_slave_json()));
            }
            self.end_arr(trailing_comma);
            assert(self.buf@ =~= old(self).buf@ + jarr(d, key@, all_items(vs, d + 1, dm_slave_json()), trailing_comma));
        }
    }

    fn write_dm_devices(&mut self, key: &str, v: &Vec<DmDevice>, trailing_comma: bool)
        requires
            room(old(self).indent, 4),
        ensures
            final(self).buf@ == old(self).buf@ + jarr(
                old(self).indent as nat,
                key@,
                all_items(dms_view(v@), old(self).indent as nat + 1, dm_device_json()),
                trailing_comma,
            ),
            final(self).indent == old(self).indent,
    {
        let ghost d = self.indent as nat;
        let ghost vs = dms_view(v@);
        proof {
            reveal(jarr);
        }
        if v.len() == 0 {
            self.empty_arr(key, trailing_comma);
            assert(self.buf@ =~= old(self).buf@ + jarr(d, key@, all_items(vs, d + 1, dm_device_json()), trailing_comma));
        } else {
            self.begin_arr(key);
            let ghost start = self.buf@;
            let mut i: usize = 0;
            while i < v.len()
                invariant
                    i <= v@.len(),
                    self.indent == d + 1,
                    room(d as usize, 4),
                    vs == dms_view(v@),
                    self.buf@ == start + jitems(vs, i as int, d + 1, dm_device_json()),
                decreases v@.len() - i,
            {
                self.indent();
                self.write_dm_device(&v[i]);
                self.end_line(i + 1 < v.len());
                i = i + 1;
                assert(self.buf@ =~= start + jitems(vs, i as int, d + 1, dm_device_json()));
            }
            self.end_arr(trailing_comma);
            assert(self.buf@ =~= old(self).buf@ + jarr(d, key@, all_items(vs, d + 1, dm_device_json()), trailing_comma));
        }
    }

    fn write_opt_block(&mut self, b: &Option<BlockDevice>, trailing_comma: bool)
        requires
            room(old(self).indent, 3),
        ensures
            final(self).buf@ == old(self).buf@ + jopt_block(
                old(self).indent as nat,
                opt_block_view(*b),
                trailing_comma,
            ),
            final(self).indent == old(self).indent,
    {
        proof {
            reveal(jopt_block);
        }
        self.key("block_device");
        match b {
            Some(bd) => self.write_block_device(bd),
            None => self.buf.append("null"),
        }
        self.end_line(trailing_comma);
        assert(self.buf@ =~= old(self).buf@ + jopt_block(
            old(self).indent as nat,
            opt_block_view(*b),
            trailing_comma,
        ));
    }

    pub fn write_nvme_namespace(&mut self, ns: &NvmeNamespace)
        requires
            room(old(self).indent, 4),
        ensures
            final(self).buf@ == old(self).buf@ + json_namespace(ns@, old(self).indent as nat),
            final(self).indent == old(self).indent,
    {
        let ghost d = self.indent as nat;
        proof {
            reveal(json_namespace);
        }
        self.begin_obj();
        self.str_field("name", ns.name.as_str(), true);
        self.opt_u32("nsid", ns.nsid, true);
        self.opt_str("nguid", &ns.nguid, true);
        self.u64_field("size_bytes", ns.size_bytes, true);
        self.write_opt_block(&ns.block_device, false);
        self.end_obj();
        assert(self.buf@ =~= old(self).buf@ + json_namespace(ns@, d));
    }

    pub fn write_nvme_ctrl_fields(&mut self, n: &NvmeCtrl)
        requires
            room(old(self).indent, 5),
        ensures
            final(self).buf@ == old(self).buf@ + nvme_ctrl_fields(n@, old(self).indent as nat),
            final(self).indent == old(self).indent,
    {
        let ghost e = self.indent as nat;
        proof {
            reveal(nvme_ctrl_fields);
        }
        self.str_field("name", n.name.as_str(), true);
        self.str_field("model", n.model.as_str(), true);
        self.str_field("serial", n.serial.as_str(), true);
        self.str_field("firmware_rev", n.firmware_rev.as_str(), true);
        self.str_field("transport", n.transport.as_str(), true);
        self.str_field("state", n.state.as_str(), true);
        self.opt_str("pci_address", &n.pci_address, true);
        self.opt_str("transport_address", &n.transport_address, true);
        self.opt_str("subsys_name", &n.subsys_name, true);
        self.write_namespaces("namespaces", &n.namespaces, false);
        assert(self.buf@ =~= old(self).buf@ + nvme_ctrl_fields(n@, e));
    }

    pub fn write_nvme_ctrl(&mut self, n: &NvmeCtrl)
        requires
            room(old(self).indent, 6),
        ensures
            final(self).buf@ == old(self).buf@ + json_nvme_ctrl(n@, old(self).indent as nat),
            final(self).indent == old(self).indent,
    {
        let ghost d = self.indent as nat;
        proof {
            reveal(json_nvme_ctrl);
        }
        self.begin_obj();
        self.write_nvme_ctrl_fields(n);
        self.end_obj();
        assert(self.buf@ =~= old(self).buf@ + json_nvme_ctrl(n@, d));
    }

    pub fn write_nvme_subsystem(&mut self, s: &NvmeSubsystem)
        requires
            room(old(self).indent, 6),
        ensures
            final(self).buf@ == old(self).buf@ + json_subsystem(s@, old(self).indent as nat),
            final(self).indent == old(self).indent,
    {
        let ghost d = self.indent as nat;
        proof {
            reveal(json_subsystem);
        }
        self.begin_obj();
        self.str_field("name", s.name.as_str(), true);
        self.opt_str("nqn", &s.nqn, true);
        self.str_field("model", s.model.as_str(), true);
        self.str_field("serial", s.serial.as_str(), true);
        self.string_array("controllers", &s.controllers, true);
        self.write_namespaces("namespaces", &s.namespaces, false);
        self.end_obj();
        assert(self.buf@ =~= old(self).buf@ + json_subsystem(s@, d));
    }

    #[verifier::spinoff_prover]
    pub fn write_scsi_device(&mut self, x: &ScsiDevice)
        requires
            room(old(self).indent, 4),
        ensures
            final(self).buf@ == old(self).buf@ + json_scsi_device(x@, old(self).indent as nat),
            final(self).indent == old(self).indent,
    {
        let ghost d = self.indent as nat;
        proof {
            reveal(json_scsi_device);
        }
        self.begin_obj();
        self.str_field("hctl", x.hctl.as_str(), true);
        self.str_field("vendor", x.vendor.as_str(), true);
        self.str_field("model", x.model.as_str(), true);
        self.str_field("rev", x.rev.as_str(), true);
        self.u32_field("scsi_type", x.scsi_type, true);
        self.str_field("scsi_type_name", x.scsi_type_name.as_str(), true);
        self.write_opt_block(&x.block_device, true);
        self.opt_str("sg_device", &x.sg_device, false);
        self.end_obj();
        assert(self.buf@ =~= old(self).buf@ + json_scsi_device(x@, d));
    }

    pub fn write_scsi_target(&mut self, t: &ScsiTarget)
        requires
            room(old(self).indent, 6),
        ensures
            final(self).buf@ == old(self).buf@ + json_scsi_target(t@, old(self).indent as nat),
            final(self).indent == old(self).indent,
    {
        let ghost d = self.indent as nat;
        proof {
            reveal(json_scsi_target);
        }
        self.begin_obj();
        self.str_field("address", t.address.as_str(), true);
        self.write_devices("devices", &t.devices, false);
        self.end_obj();
        assert(self.buf@ =~= old(self).buf@ + json_scsi_target(t@, d));
    }

    pub fn write_sas_phy(&mut self, phy: &SasPhyInfo)
        requires
            room(old(self).indent, 0),
        ensures
            final(self).buf@ == old(self).buf@ + json_sas_phy(phy@, old(self).indent as nat),
            final(self).indent == old(self).indent,
    {
        let ghost d = self.indent as nat;
        proof {
            reveal(json_sas_phy);
        }
        self.begin_obj();
        self.str_field("name", phy.name.as_str(), true);
        self.str_field("sas_address", phy.sas_address.as_str(), true);
        self.str_field("negotiated_linkrate", phy.negotiated_linkrate.as_str(), true);
        self.opt_str("initiator_protocols", &phy.initiator_protocols, true);
        self.opt_str("target_protocols", &phy.target_protocols, false);
        self.end_obj();
        assert(self.buf@ =~= old(self).buf@ + json_sas_phy(phy@, d));
    }

    pub fn write_iscsi_session(&mut self, s: &IscsiSessionInfo)
        requires
            room(old(self).indent, 0),
        ensures
            final(self).buf@ == old(self).buf@ + json_iscsi_session(s@, old(self).indent as nat),
            final(self).indent == old(self).indent,
    {
        let ghost d = self.indent as nat;
        proof {
            reveal(json_iscsi_session);
        }
        self.begin_obj();
        self.str_field("target_name", s.target_name.as_str(), true);
        self.str_field("state", s.state.as_str(), true);
        self.opt_str("target_address", &s.target_address, true);
        let ghost before_key = self.buf@;
        self.key("target_port");
        match s.target_port {
            Some(p) => push_u64(&mut self.buf, p as u64),
            None => self.buf.append("null"),
        }
        self.buf.push('\n');
        assert(self.buf@ =~= before_key + jline(
            d + 1,
            "target_port"@,
            jopt_num(
                match s.target_port {
                    Some(p) => Some(p as int),
                    None => None,
                },
            ),
            false,
        )) by {
            reveal(jline);
        }
        assert(self.buf@ == before_key + jline(
            d + 1,
            "target_port"@,
            jopt_num(
                match s.target_port {
                    Some(p) => Some(p as int),
                    None => None,
                },
            ),
            false,
        ));
        self.end_obj();
        assert(self.buf@ =~= old(self).buf@ + json_iscsi_session(s@, d));
    }

    pub fn write_transport_info(&mut self, t: &TransportInfo)
        requires
            room(old(self).indent, 3),
        ensures
            final(self).buf@ == old(self).buf@ + json_transport(t@, old(self).indent as nat),
            final(self).indent == old(self).indent,
    {
        let ghost d = self.indent as nat;
        proof {
            reveal(json_transport);
        }
        self.begin_obj();
        match t {
            TransportInfo::Fc(fc) => {
                self.str_field("transport_type", "Fc", true);
                self.str_field("port_name", fc.port_name.as_str(), true);
                self.str_field("node_name", fc.node_name.as_str(), true);
                self.str_field("port_state", fc.port_state.as_str(), true);
                self.str_field("port_type", fc.port_type.as_str(), true);
                self.str_field("speed", fc.speed.as_str(), true);
                self.opt_str("fabric_name", &fc.fabric_name, true);
                self.opt_str("supported_speeds", &fc.supported_speeds, false);
            },
            TransportInfo::Sas(sas) => {
                self.str_field("transport_type", "Sas", true);
                self.write_phys("phys", &sas.phys, false);
            },
            TransportInfo::Iscsi(iscsi) => {
                self.str_field("transport_type", "Iscsi", true);
                self.write_sessions("sessions", &iscsi.sessions, false);
            },
        }
        self.end_obj();
        assert(self.buf@ =~= old(self).buf@ + json_transport(t@, d));
    }

    pub fn write_scsi_host_fields(&mut self, h: &ScsiHost)
        requires
            room(old(self).indent, 7),
        ensures
            final(self).buf@ == old(self).buf@ + scsi_host_fields(h@, old(self).indent as nat),
            final(self).indent == old(self).indent,
    {
        let ghost e = self.indent as nat;
        proof {
            reveal(scsi_host_fields);
            reveal_strlit(",\n");
            reveal_strlit("null,\n");
        }
        self.u32_field("host_num", h.host_num, true);
        self.opt_str("proc_name", &h.proc_name, true);
        self.opt_str("ata_port", &h.ata_port, true);
        self.key("transport");
        match &h.transport {
            Some(t) => {
                self.write_transport_info(t);
                self.buf.append(",\n");
            },
            None => self.buf.append("null,\n"),
        }
        self.write_targets("targets", &h.targets, false);
        assert(self.buf@ =~= old(self).buf@ + scsi_host_fields(h@, e));
    }

    pub fn write_controller_child(&mut self, child: &ControllerChild)
        requires
            room(old(self).indent, 8),
        ensures
            final(self).buf@ == old(self).buf@ + json_controller_child(child@, old(self).indent as nat),
            final(self).indent == old(self).indent,
    {
        let ghost d = self.indent as nat;
        proof {
            reveal(json_controller_child);
        }
        match child {
            ControllerChild::ScsiHost(h) => {
                self.begin_obj();
                self.str_field("type", "ScsiHost", true);
                self.write_scsi_host_fields(h);
                self.end_obj();
            },
            ControllerChild::NvmeController(n) => {
                self.begin_obj();
                self.str_field("type", "NvmeController", true);
                self.write_nvme_ctrl_fields(n);
                self.end_obj();
            },
        }
        assert(self.buf@ =~= old(self).buf@ + json_controller_child(child@, d));
    }

    #[verifier::rlimit(40)]
    pub fn write_storage_controller(&mut self, c: &StorageController)
        requires
            room(old(self).indent, 10),
        ensures
            final(self).buf@ == old(self).buf@ + json_storage_controller(c@, old(self).indent as nat),
            final(self).indent == old(self).indent,
    {
        let ghost d = self.indent as nat;
        proof {
            reveal(json_storage_controller);
        }
        self.begin_obj();
        self.str_field("type", "StorageController", true);
        self.str_field("address", c.address.as_str(), true);
        self.str_field("vendor_id", c.vendor_id.as_str(), true);
        self.str_field("device_id", c.device_id.as_str(), true);
        self.str_field("class_code", c.class_code.as_str(), true);
        self.opt_str("driver", &c.driver, true);
        self.opt_i32("numa_node", c.numa_node, true);
        self.write_controller_children("children", &c.children, false);
        self.end_obj();
        assert(self.buf@ =~= old(self).buf@ + json_storage_controller(c@, d));
    }

    pub fn write_dm_slave(&mut self, s: &DmSlave)
        requires
            room(old(self).indent, 0),
        ensures
            final(self).buf@ == old(self).buf@ + json_dm_slave(s@, old(self).indent as nat),
            final(self).indent == old(self).indent,
    {
        let ghost d = self.indent as nat;
        proof {
            reveal(json_dm_slave);
        }
        self.begin_obj();
        self.str_field("device_name", s.device_name.as_str(), true);
        self.opt_str("hctl", &s.hctl, true);
        self.opt_u32("host_num", s.host_num, true);
        self.opt_str("host_driver", &s.host_driver, true);
        self.opt_str("pci_address", &s.pci_address, false);
        self.end_obj();
        assert(self.buf@ =~= old(self).buf@ + json_dm_slave(s@, d));
    }

    pub fn write_dm_device(&mut self, dm: &DmDevice)
        requires
            room(old(self).indent, 3),
        ensures
            final(self).buf@ == old(self).buf@ + json_dm_device(dm@, old(self).indent as nat),
            final(self).indent == old(self).indent,
    {
        let ghost d = self.indent as nat;
        proof {
            reveal(json_dm_device);
        }
        self.begin_obj();
        self.str_field("name", dm.name.as_str(), true);
        self.str_field("dm_name", dm.dm_name.as_str(), true);
        self.str_field("dm_uuid", dm.dm_uuid.as_str(), true);
        self.str_field("dm_type", dm.dm_type.as_str(), true);
        self.u64_field("size_bytes", dm.size_bytes, true);
        self.write_dm_slaves("slaves", &dm.slaves, true);
        self.write_partitions("partitions", &dm.partitions, false);
        self.end_obj();
        assert(self.buf@ =~= old(self).buf@ + json_dm_device(dm@, d));
    }

    pub fn write_pci_node(&mut self, node: &PciNode)
        requires
            room(old(self).indent, 2 * pci_node_depth(node@) + 10),
        ensures
            final(self).buf@ == old(self).buf@ + json_pci_node(node@, old(self).indent as nat),
            final(self).indent == old(self).indent,
        decreases pci_node_depth(node@), 2nat,
    {
        match node {
            PciNode::Bridge(b) => {
                assert(node@ == SpecPciNode::Bridge(b@));
                self.write_pci_bridge(b);
            },
            PciNode::StorageController(c) => {
                proof {
                    reveal(json_storage_controller);
                }
                self.write_storage_controller(c);
            },
        }
    }

    pub fn write_pci_bridge(&mut self, b: &PciBridge)
        requires
            room(old(self).indent, 2 * pci_node_depth(SpecPciNode::Bridge(b@)) + 10),
        ensures
            final(self).buf@ == old(self).buf@ + json_pci_node(
                SpecPciNode::Bridge(b@),
                old(self).indent as nat,
            ),
            final(self).indent == old(self).indent,
        decreases pci_node_depth(SpecPciNode::Bridge(b@)), 1nat,
    {
        let ghost d = self.indent as nat;
        proof {
            lemma_nodes_view(b.children@, b.children@.len() as int);
        }
        self.begin_obj();
        self.str_field("type", "Bridge", true);
        self.str_field("address", b.address.as_str(), true);
        self.str_field("vendor_id", b.vendor_id.as_str(), true);
        self.str_field("device_id", b.device_id.as_str(), true);
        self.opt_str("driver", &b.driver, true);
        self.write_pci_nodes("children", &b.children, false);
        self.end_obj();
        assert(self.buf@ =~= old(self).buf@ + json_pci_node(SpecPciNode::Bridge(b@), d));
    }

    fn write_pci_nodes(&mut self, key: &str, v: &Vec<PciNode>, trailing_comma: bool)
        requires
            room(old(self).indent, 2 * pci_nodes_depth(nodes_view(v@), v@.len() as int) + 11),
        ensures
            final(self).buf@ == old(self).buf@ + jarr(
                old(self).indent as nat,
                key@,
                json_pci_nodes(nodes_view(v@), v@.len() as int, old(self).indent as nat + 1),
                trailing_comma,
            ),
            final(self).indent == old(self).indent,
        decreases pci_nodes_depth(nodes_view(v@), v@.len() as int), 3nat,
    {
        let ghost d = self.indent as nat;
        let ghost vs = nodes_view(v@);
        let ghost depth = pci_nodes_depth(vs, v@.len() as int);
        proof {
            reveal(jarr);
            lemma_nodes_view(v@, v@.len() as int);
        }
        if v.len() == 0 {
            self.empty_arr(key, trailing_comma);
            assert(self.buf@ =~= old(self).buf@ + jarr(
                d,
                key@,
                json_pci_nodes(vs, vs.len() as int, d + 1),
                trailing_comma,
            ));
        } else {
            self.begin_arr(key);
            let ghost start = self.buf@;
            let mut i: usize = 0;
            while i < v.len()
                invariant
                    i <= v@.len(),
                    self.indent == d + 1,
                    room(d as usize, 2 * depth + 11),
                    vs == nodes_view(v@),
                    vs.len() == v@.len(),
                    forall|k: int| 0 <= k < v@.len() ==> #[trigger] vs[k] == v@[k]@,
                    depth == pci_nodes_depth(vs, v@.len() as int),
                    self.buf@ == start + json_pci_nodes(vs, i as int, d + 1),
                decreases v@.len() - i,
            {
                proof {
                    lemma_nodes_depth(vs, vs.len() as int, i as int);
                }
                assert(vs[i as int] == v@[i as int]@);
                self.indent();
                self.write_pci_node(&v[i]);
                self.end_line(i + 1 < v.len());
                i = i + 1;
                assert(self.buf@ =~= start + json_pci_nodes(vs, i as int, d + 1));
            }
            self.end_arr(trailing_comma);
            assert(self.buf@ =~= old(self).buf@ + jarr(
                d,
                key@,
                json_pci_nodes(vs, vs.len() as int, d + 1),
                trailing_comma,
            ));
        }
    }

    pub fn write_pci_root(&mut self, r: &PciRoot)
        requires
            room(old(self).indent, 2 * pci_nodes_depth(r@.children, r@.children.len() as int) + 12),
        ensures
            final(self).buf@ == old(self).buf@ + json_pci_root(r@, old(self).indent as nat),
            final(self).indent == old(self).indent,
    {
        let ghost d = self.indent as nat;
        proof {
            reveal(json_pci_root);
            lemma_nodes_view(r.children@, r.children@.len() as int);
        }
        self.begin_obj();
        self.str_field("domain", r.domain.as_str(), true);
        self.write_pci_nodes("children", &r.children, false);
        self.end_obj();
        assert(self.buf@ =~= old(self).buf@ + json_pci_root(r@, d));
    }

    fn write_pci_roots(&mut self, key: &str, v: &Vec<PciRoot>, trailing_comma: bool)
        requires
            room(old(self).indent, 2 * roots_depth(roots_view(v@), v@.len() as int) + 13),
        ensures
            final(self).buf@ == old(self).buf@ + jarr(
                old(self).indent as nat,
                key@,
                all_items(roots_view(v@), old(self).indent as nat + 1, pci_root_json()),
                trailing_comma,
            ),
            final(self).indent == old(self).indent,
    {
        let ghost d = self.indent as nat;
        let ghost vs = roots_view(v@);
        let ghost depth = roots_depth(vs, v@.len() as int);
        proof {
            reveal(jarr);
        }
        if v.len() == 0 {
            self.empty_arr(key, trailing_comma);
            assert(self.buf@ =~= old(self).buf@ + jarr(d, key@, all_items(vs, d + 1, pci_root_json()), trailing_comma));
        } else {
            self.begin_arr(key);
            let ghost start = self.buf@;
            let mut i: usize = 0;
            while i < v.len()
                invariant
                    i <= v@.len(),
                    self.indent == d + 1,
                    room(d as usize, 2 * depth + 13),
                    vs == roots_view(v@),
                    depth == roots_depth(vs, v@.len() as int),
                    self.buf@ == start + jitems(vs, i as int, d + 1, pci_root_json()),
                decreases v@.len() - i,
            {
                proof {
                    lemma_roots_depth(vs, vs.len() as int, i as int);
                }
                self.indent();
                self.write_pci_root(&v[i]);
                self.end_line(i + 1 < v.len());
                i = i + 1;
                assert(self.buf@ =~= start + jitems(vs, i as int, d + 1, pci_root_json()));
            }
            self.end_arr(trailing_comma);
            assert(self.buf@ =~= old(self).buf@ + jarr(d, key@, all_items(vs, d + 1, pci_root_json()), trailing_comma));
        }
    }

    pub fn write_topology(&mut self, t: &Topology)
        requires
            room(old(self).indent, 2 * topology_depth(t@) + 14),
        ensures
            final(self).buf@ == old(self).buf@ + json_topology(t@, old(self).indent as nat),
            final(self).indent == old(self).indent,
    {
        let ghost d = self.indent as nat;
        proof {
            reveal(json_topology);
        }
        self.begin_obj();
        self.write_pci_roots("pci_roots", &t.pci_roots, true);
        self.write_fabrics("fabrics_controllers", &t.fabrics_controllers, true);
        self.write_subsystems("nvme_subsystems", &t.nvme_subsystems, true);
        self.write_dm_devices("dm_devices", &t.dm_devices, false);
        self.end_obj();
        assert(self.buf@ =~= old(self).buf@ + json_topology(t@, d));
    }
}

/// How deep the tree below a bridge goes, counting the bridge, or `cap` where
/// it goes that deep or deeper.
fn capped_bridge_depth(b: &PciBridge, cap: usize) -> (r: usize)
    requires
        cap >= 1,
    ensures
        r == (if pci_node_depth(SpecPciNode::Bridge(b@)) < cap {
            pci_node_depth(SpecPciNode::Bridge(b@))
        } else {
            cap as nat
        }),
    decreases pci_node_depth(SpecPciNode::Bridge(b@)), 1nat,
{
    proof {
        lemma_nodes_view(b.children@, b.children@.len() as int);
        assert(pci_node_depth(SpecPciNode::Bridge(b@)) == 1 + pci_nodes_depth(
            nodes_view(b.children@),
            b.children@.len() as int,
        ));
    }
    let c = capped_nodes_depth(&b.children, cap - 1);
    c + 1
}

/// How deep the trees below sibling PCI nodes go, or `cap` where they go that
/// deep or deeper.
fn capped_nodes_depth(v: &Vec<PciNode>, cap: usize) -> (r: usize)
    ensures
        r == (if pci_nodes_depth(nodes_view(v@), v@.len() as int) < cap {
            pci_nodes_depth(nodes_view(v@), v@.len() as int)
        } else {
            cap as nat
        }),
    decreases pci_nodes_depth(nodes_view(v@), v@.len() as int), 2nat,
{
    let ghost vs = nodes_view(v@);
    proof {
        lemma_nodes_view(v@, v@.len() as int);
    }
    let count = v.len();
    let mut r: usize = 0;
    let mut i: usize = 0;
    while i < count
        invariant
            count == v@.len(),
            i <= count,
            vs == nodes_view(v@),
            vs.len() == count,
            forall|k: int| 0 <= k < count ==> #[trigger] vs[k] == v@[k]@,
            r == (if pci_nodes_depth(vs, i as int) < cap {
                pci_nodes_depth(vs, i as int)
            } else {
                cap as nat
            }),
        decreases count - i,
    {
        assert(vs[i as int] == v@[i as int]@);
        let d: usize = if cap == 0 {
            0
        } else {
            match &v[i] {
                PciNode::Bridge(b) => {
                    proof {
                        lemma_nodes_depth(vs, count as int, i as int);
                    }
                    capped_bridge_depth(b, cap)
                },
                PciNode::StorageController(_) => 1,
            }
        };
        if d > r {
            r = d;
        }
        i = i + 1;
    }
    r
}

/// Whether the PCI trees of a topology are shallow enough for `to_json` to
/// indent its text.
pub fn json_depth_fits(t: &Topology) -> (b: bool)
    ensures
        b == (2 * topology_depth(t@) + 30 <= usize::MAX),
{
    let cap: usize = (usize::MAX - 30) / 2 + 1;
    let ghost rs = t@.pci_roots;
    let count = t.pci_roots.len();
    let mut r: usize = 0;
    let mut i: usize = 0;
    while i < count
        invariant
            count == t.pci_roots@.len(),
            i <= count,
            rs == t@.pci_roots,
            rs.len() == count,
            cap == (usize::MAX - 30) / 2 + 1,
            r == (if roots_depth(rs, i as int) < cap {
                roots_depth(rs, i as int)
            } else {
                cap as nat
            }),
        decreases count - i,
    {
        assert(rs[i as int] == t.pci_roots@[i as int]@);
        proof {
            lemma_nodes_view(t.pci_roots@[i as int].children@, t.pci_roots@[i as int].children@.len() as int);
        }
        assert(rs[i as int].children.len() == t.pci_roots@[i as int].children@.len());
        let d = capped_nodes_depth(&t.pci_roots[i].children, cap);
        if d > r {
            r = d;
        }
        i = i + 1;
    }
    r < cap
}

/// The topology as pretty-printed JSON.
pub fn to_json(topology: &Topology) -> (r: String)
    requires
        2 * topology_depth(topology@) + 30 <= usize::MAX,
    ensures
        r@ == json_topology(topology@, 0),
{
    let mut w = JsonWriter::new();
    w.write_topology(topology);
    assert(w.buf@ =~= json_topology(topology@, 0));
    w.buf
}

} // verus!
