//! Assembly of the topology: NVMe controllers and SCSI hosts are hung under
//! the storage controller whose PCI address they carry, NVMe-oF controllers are
//! set apart, and on request empty branches are pruned.
use vstd::prelude::*;
use vstd::string::*;
use crate::json::{lemma_nodes_depth, pci_node_depth, pci_nodes_depth};
use crate::sort::{by_name, lemma_by_name_total, lemma_sort_map, lemma_sort_stable_sorted_permutation, sorted_by, keyed_lt, sort_by_key, sort_stable, str_less, str_lt, Keyed};
use crate::text::str_eq;
use crate::types::{
    ctrl_children_view, ctrls_view, dms_view, hosts_view, lemma_nodes_view, nodes_view,
    roots_view, subsystems_view, targets_view, ControllerChild, DmDevice, NvmeCtrl,
    NvmeSubsystem, PciNode, PciRoot, ScsiHost, ScsiTarget, SpecControllerChild,
    SpecNvmeCtrl, SpecPciBridge, SpecPciNode, SpecPciRoot, SpecScsiHost, SpecScsiTarget,
    SpecStorageController, SpecTopology, StorageController, Topology,
};

verus! {

pub struct BuildArgs {
    pub no_empty: bool,
}

impl Keyed for NvmeCtrl {
    open spec fn key_lt(a: Self, b: Self) -> bool {
        str_lt(a.name@, b.name@)
    }

    fn less(&self, other: &Self) -> (r: bool) {
        str_less(self.name.as_str(), other.name.as_str())
    }
}

// ---------------------------------------------------------------------------
// Models of the lookup tables
// ---------------------------------------------------------------------------
/// SCSI hosts by the PCI address of the controller they sit on.
pub open spec fn host_map_view(v: Seq<(String, Vec<ScsiHost>)>) -> Seq<(Seq<char>, Seq<SpecScsiHost>)> {
    v.map_values(|e: (String, Vec<ScsiHost>)| (e.0@, hosts_view(e.1@)))
}

/// NVMe controllers by PCI address.
pub open spec fn nvme_map_view(v: Seq<(String, Vec<NvmeCtrl>)>) -> Seq<(Seq<char>, Seq<SpecNvmeCtrl>)> {
    v.map_values(|e: (String, Vec<NvmeCtrl>)| (e.0@, ctrls_view(e.1@)))
}

/// The first entry from `i` on whose key is `k`, or -1.
pub open spec fn first_key<V>(m: Seq<(Seq<char>, V)>, k: Seq<char>, i: int) -> int
    decreases m.len() - i,
{
    if i < 0 || i >= m.len() {
        -1
    } else if m[i].0 == k {
        i
    } else {
        first_key(m, k, i + 1)
    }
}

/// The SCSI hosts listed for an address, none where it is not listed.
pub open spec fn hosts_at(h: Seq<(Seq<char>, Seq<SpecScsiHost>)>, a: Seq<char>) -> Seq<SpecScsiHost> {
    let i = first_key(h, a, 0);
    if i >= 0 {
        h[i].1
    } else {
        Seq::empty()
    }
}

/// The NVMe controllers listed for an address, and the table without them.
pub open spec fn take_nvme(m: Seq<(Seq<char>, Seq<SpecNvmeCtrl>)>, a: Seq<char>) -> (
    Seq<SpecNvmeCtrl>,
    Seq<(Seq<char>, Seq<SpecNvmeCtrl>)>,
) {
    let i = first_key(m, a, 0);
    if i >= 0 {
        (m[i].1, m.remove(i))
    } else {
        (Seq::empty(), m)
    }
}

/// The controllers with a PCI address, grouped by it in order of first appearance.
pub open spec fn nvme_groups(cs: Seq<SpecNvmeCtrl>) -> Seq<(Seq<char>, Seq<SpecNvmeCtrl>)>
    decreases cs.len(),
{
    if cs.len() == 0 {
        Seq::empty()
    } else {
        let g = nvme_groups(cs.drop_last());
        let c = cs.last();
        match c.pci_address {
            Some(a) => {
                let i = first_key(g, a, 0);
                if i >= 0 {
                    g.update(i, (a, g[i].1.push(c)))
                } else {
                    g.push((a, seq![c]))
                }
            },
            None => g,
        }
    }
}

/// The controllers without a PCI address (NVMe over fabrics), in order.
pub open spec fn fabrics_of(cs: Seq<NvmeCtrl>) -> Seq<NvmeCtrl>
    decreases cs.len(),
{
    if cs.len() == 0 {
        Seq::empty()
    } else {
        let r = fabrics_of(cs.drop_last());
        if cs.last().pci_address is None {
            r.push(cs.last())
        } else {
            r
        }
    }
}

// ---------------------------------------------------------------------------
// Attaching
// ---------------------------------------------------------------------------
/// The targets that have devices.
pub open spec fn nonempty_targets(ts: Seq<SpecScsiTarget>) -> Seq<SpecScsiTarget>
    decreases ts.len(),
{
    if ts.len() == 0 {
        Seq::empty()
    } else {
        let r = nonempty_targets(ts.drop_last());
        if ts.last().devices.len() > 0 {
            r.push(ts.last())
        } else {
            r
        }
    }
}

pub open spec fn trim_host(h: SpecScsiHost, no_empty: bool) -> SpecScsiHost {
    if no_empty {
        SpecScsiHost { targets: nonempty_targets(h.targets), ..h }
    } else {
        h
    }
}

/// The hosts hung under a controller: all of them, or with `no_empty` those
/// that keep a target once the targets without devices are dropped.
pub open spec fn host_children(hs: Seq<SpecScsiHost>, no_empty: bool) -> Seq<SpecControllerChild>
    decreases hs.len(),
{
    if hs.len() == 0 {
        Seq::empty()
    } else {
        let r = host_children(hs.drop_last(), no_empty);
        let t = trim_host(hs.last(), no_empty);
        if !no_empty || t.targets.len() > 0 {
            r.push(SpecControllerChild::ScsiHost(t))
        } else {
            r
        }
    }
}

pub open spec fn nvme_children(cs: Seq<SpecNvmeCtrl>) -> Seq<SpecControllerChild> {
    cs.map_values(|c: SpecNvmeCtrl| SpecControllerChild::NvmeController(c))
}

pub open spec fn attach_controller(
    c: SpecStorageController,
    m: Seq<(Seq<char>, Seq<SpecNvmeCtrl>)>,
    h: Seq<(Seq<char>, Seq<SpecScsiHost>)>,
    no_empty: bool,
) -> (SpecStorageController, Seq<(Seq<char>, Seq<SpecNvmeCtrl>)>) {
    let (nv, m2) = take_nvme(m, c.address);
    (
        SpecStorageController {
            children: c.children + nvme_children(nv) + host_children(hosts_at(h, c.address), no_empty),
            ..c
        },
        m2,
    )
}

/// A PCI node with the NVMe controllers and SCSI hosts hung under its storage
/// controllers; the NVMe table without the controllers used.
pub open spec fn attach_node(
    n: SpecPciNode,
    m: Seq<(Seq<char>, Seq<SpecNvmeCtrl>)>,
    h: Seq<(Seq<char>, Seq<SpecScsiHost>)>,
    no_empty: bool,
) -> (SpecPciNode, Seq<(Seq<char>, Seq<SpecNvmeCtrl>)>)
    decreases n,
{
    match n {
        SpecPciNode::Bridge(b) => {
            let (cs, m2) = attach_nodes(b.children, b.children.len() as int, m, h, no_empty);
            (SpecPciNode::Bridge(SpecPciBridge { children: cs, ..b }), m2)
        },
        SpecPciNode::StorageController(c) => {
            let (c2, m2) = attach_controller(c, m, h, no_empty);
            (SpecPciNode::StorageController(c2), m2)
        },
    }
}

/// The first `k` nodes of `s`, attached in order.
pub open spec fn attach_nodes(
    s: Seq<SpecPciNode>,
    k: int,
    m: Seq<(Seq<char>, Seq<SpecNvmeCtrl>)>,
    h: Seq<(Seq<char>, Seq<SpecScsiHost>)>,
    no_empty: bool,
) -> (Seq<SpecPciNode>, Seq<(Seq<char>, Seq<SpecNvmeCtrl>)>)
    decreases s, k,
{
    if k <= 0 || k > s.len() {
        (Seq::empty(), m)
    } else {
        let (prev, m1) = attach_nodes(s, k - 1, m, h, no_empty);
        let (x, m2) = attach_node(s[k - 1], m1, h, no_empty);
        (prev.push(x), m2)
    }
}

pub open spec fn attach_roots(
    rs: Seq<SpecPciRoot>,
    k: int,
    m: Seq<(Seq<char>, Seq<SpecNvmeCtrl>)>,
    h: Seq<(Seq<char>, Seq<SpecScsiHost>)>,
    no_empty: bool,
) -> (Seq<SpecPciRoot>, Seq<(Seq<char>, Seq<SpecNvmeCtrl>)>)
    decreases k,
{
    if k <= 0 || k > rs.len() {
        (Seq::empty(), m)
    } else {
        let (prev, m1) = attach_roots(rs, k - 1, m, h, no_empty);
        let r = rs[k - 1];
        let (cs, m2) = attach_nodes(r.children, r.children.len() as int, m1, h, no_empty);
        (prev.push(SpecPciRoot { children: cs, ..r }), m2)
    }
}

// ---------------------------------------------------------------------------
// Pruning
// ---------------------------------------------------------------------------
pub open spec fn has_children(n: SpecPciNode) -> bool {
    match n {
        SpecPciNode::Bridge(b) => b.children.len() > 0,
        SpecPciNode::StorageController(c) => c.children.len() > 0,
    }
}

/// A node with the empty branches below it pruned.
pub open spec fn pruned(n: SpecPciNode) -> SpecPciNode
    decreases n,
{
    match n {
        SpecPciNode::Bridge(b) => SpecPciNode::Bridge(
            SpecPciBridge { children: prune_nodes(b.children, b.children.len() as int), ..b },
        ),
        SpecPciNode::StorageController(c) => n,
    }
}

/// The first `k` nodes of `s`, pruned, without those left with no children.
pub open spec fn prune_nodes(s: Seq<SpecPciNode>, k: int) -> Seq<SpecPciNode>
    decreases s, k,
{
    if k <= 0 || k > s.len() {
        Seq::empty()
    } else {
        let r = prune_nodes(s, k - 1);
        let x = pruned(s[k - 1]);
        if has_children(x) {
            r.push(x)
        } else {
            r
        }
    }
}

/// The roots with their trees pruned, without those left empty.
pub open spec fn prune_roots(rs: Seq<SpecPciRoot>) -> Seq<SpecPciRoot>
    decreases rs.len(),
{
    if rs.len() == 0 {
        Seq::empty()
    } else {
        let r = prune_roots(rs.drop_last());
        let last = rs.last();
        let cs = prune_nodes(last.children, last.children.len() as int);
        if cs.len() > 0 {
            r.push(SpecPciRoot { children: cs, ..last })
        } else {
            r
        }
    }
}

/// The topology that `build` assembles.
pub open spec fn spec_build(
    pci_roots: Seq<SpecPciRoot>,
    nvme_controllers: Seq<NvmeCtrl>,
    scsi_hosts_by_pci: Seq<(Seq<char>, Seq<SpecScsiHost>)>,
    nvme_subsystems: Seq<NvmeSubsystem>,
    dm_devices: Seq<DmDevice>,
    no_empty: bool,
) -> SpecTopology {
    let m = nvme_groups(ctrls_view(nvme_controllers));
    let attached = attach_roots(pci_roots, pci_roots.len() as int, m, scsi_hosts_by_pci, no_empty).0;
    SpecTopology {
        pci_roots: if no_empty {
            prune_roots(attached)
        } else {
            attached
        },
        fabrics_controllers: ctrls_view(
            sort_stable(fabrics_of(nvme_controllers), keyed_lt::<NvmeCtrl>()),
        ),
        nvme_subsystems: subsystems_view(nvme_subsystems),
        dm_devices: dms_view(dm_devices),
    }
}


// ---------------------------------------------------------------------------
// The executable side
// ---------------------------------------------------------------------------
/// Splits the NVMe controllers into those reached over PCI, grouped by address,
/// and the others (NVMe over fabrics).
fn group_nvme(nvme_controllers: Vec<NvmeCtrl>) -> (r: (Vec<(String, Vec<NvmeCtrl>)>, Vec<NvmeCtrl>))
    ensures
        nvme_map_view(r.0@) == nvme_groups(ctrls_view(nvme_controllers@)),
        r.1@ == fabrics_of(nvme_controllers@),
{
    let ghost orig = nvme_controllers@;
    let mut input = nvme_controllers;
    let mut by_pci: Vec<(String, Vec<NvmeCtrl>)> = Vec::new();
    let mut fabrics: Vec<NvmeCtrl> = Vec::new();
    let n = input.len();
    let mut i: usize = 0;
    while input.len() > 0
        invariant
            i + input@.len() == n,
            n == orig.len(),
            input@ == orig.skip(i as int),
            nvme_map_view(by_pci@) == nvme_groups(ctrls_view(orig.take(i as int))),
            fabrics@ == fabrics_of(orig.take(i as int)),
        decreases input@.len(),
    {
        let ctrl = input.remove(0);
        assert(orig.take(i + 1).drop_last() =~= orig.take(i as int));
        assert(orig.take(i + 1).last() == ctrl);
        assert(ctrls_view(orig.take(i + 1)).drop_last() =~= ctrls_view(orig.take(i as int)));
        assert(ctrls_view(orig.take(i + 1)).last() == ctrl@);
        assert(input@ =~= orig.skip(i + 1));
        let ghost g = nvme_map_view(by_pci@);
        match &ctrl.pci_address {
            Some(addr) => {
                let a = addr.clone();
                let mut j: usize = 0;
                while j < by_pci.len() && !str_eq(by_pci[j].0.as_str(), a.as_str())
                    invariant
                        j <= by_pci@.len(),
                        g == nvme_map_view(by_pci@),
                        first_key(g, a@, 0) == first_key(g, a@, j as int),
                    decreases by_pci@.len() - j,
                {
                    j = j + 1;
                }
                if j < by_pci.len() {
                    assert(first_key(g, a@, j as int) == j);
                    let (key, mut list) = by_pci.remove(j);
                    let ghost before = ctrls_view(list@);
                    let ghost cv = ctrl@;
                    list.push(ctrl);
                    assert(ctrls_view(list@) =~= before.push(cv));
                    by_pci.insert(j, (key, list));
                    assert(nvme_map_view(by_pci@) =~= g.update(j as int, (a@, g[j as int].1.push(cv))));
                } else {
                    assert(first_key(g, a@, j as int) == -1);
                    let ghost cv = ctrl@;
                    let mut list: Vec<NvmeCtrl> = Vec::new();
                    list.push(ctrl);
                    assert(ctrls_view(list@) =~= seq![cv]);
                    by_pci.push((a, list));
                    assert(nvme_map_view(by_pci@) =~= g.push((a@, seq![cv])));
                }
            },
            None => {
                fabrics.push(ctrl);
            },
        }
        i = i + 1;
    }
    assert(orig.take(n as int) =~= orig);
    (by_pci, fabrics)
}

/// Takes the NVMe controllers listed for `addr` out of the table.
fn take_nvme_exec(m: &mut Vec<(String, Vec<NvmeCtrl>)>, addr: &str) -> (r: Vec<NvmeCtrl>)
    ensures
        (ctrls_view(r@), nvme_map_view(final(m)@)) == take_nvme(nvme_map_view(old(m)@), addr@),
{
    let ghost g = nvme_map_view(m@);
    let mut j: usize = 0;
    while j < m.len() && !str_eq(m[j].0.as_str(), addr)
        invariant
            j <= m@.len(),
            g == nvme_map_view(m@),
            first_key(g, addr@, 0) == first_key(g, addr@, j as int),
        decreases m@.len() - j,
    {
        j = j + 1;
    }
    if j < m.len() {
        assert(first_key(g, addr@, j as int) == j);
        let (_key, list) = m.remove(j);
        assert(nvme_map_view(m@) =~= g.remove(j as int));
        list
    } else {
        assert(first_key(g, addr@, j as int) == -1);
        Vec::new()
    }
}

fn hosts_index(h: &Vec<(String, Vec<ScsiHost>)>, addr: &str) -> (r: Option<usize>)
    ensures
        match r {
            Some(i) => i < h@.len() && first_key(host_map_view(h@), addr@, 0) == i,
            None => first_key(host_map_view(h@), addr@, 0) == -1,
        },
{
    let ghost g = host_map_view(h@);
    let mut j: usize = 0;
    while j < h.len() && !str_eq(h[j].0.as_str(), addr)
        invariant
            j <= h@.len(),
            g == host_map_view(h@),
            first_key(g, addr@, 0) == first_key(g, addr@, j as int),
        decreases h@.len() - j,
    {
        j = j + 1;
    }
    if j < h.len() {
        assert(first_key(g, addr@, j as int) == j);
        Some(j)
    } else {
        assert(first_key(g, addr@, j as int) == -1);
        None
    }
}

fn keep_nonempty_targets(targets: Vec<ScsiTarget>) -> (r: Vec<ScsiTarget>)
    ensures
        targets_view(r@) == nonempty_targets(targets_view(targets@)),
{
    let ghost orig = targets@;
    let mut input = targets;
    let mut out: Vec<ScsiTarget> = Vec::new();
    let n = input.len();
    let mut i: usize = 0;
    while input.len() > 0
        invariant
            i + input@.len() == n,
            n == orig.len(),
            input@ == orig.skip(i as int),
            targets_view(out@) == nonempty_targets(targets_view(orig.take(i as int))),
        decreases input@.len(),
    {
        let t = input.remove(0);
        assert(targets_view(orig.take(i + 1)).drop_last() =~= targets_view(orig.take(i as int)));
        assert(orig.take(i + 1)[i as int] == t);
        assert(input@ =~= orig.skip(i + 1));
        if t.devices.len() > 0 {
            let ghost before = targets_view(out@);
            out.push(t);
            assert(targets_view(out@) =~= before.push(t@));
        }
        i = i + 1;
    }
    assert(orig.take(n as int) =~= orig);
    out
}

/// Hangs under a storage controller the NVMe controllers and the SCSI hosts
/// that carry its PCI address; the NVMe controllers used leave the table.
fn attach_to_controller(
    ctrl: &mut StorageController,
    nvme_by_pci: &mut Vec<(String, Vec<NvmeCtrl>)>,
    scsi_hosts_by_pci: &Vec<(String, Vec<ScsiHost>)>,
    args: &BuildArgs,
)
    ensures
        (final(ctrl)@, nvme_map_view(final(nvme_by_pci)@)) == attach_controller(
            old(ctrl)@,
            nvme_map_view(old(nvme_by_pci)@),
            host_map_view(scsi_hosts_by_pci@),
            args.no_empty,
        ),
{
    let ghost c0 = ctrl@;
    let ghost hv = host_map_view(scsi_hosts_by_pci@);
    let mut nvme_ctrls = take_nvme_exec(nvme_by_pci, ctrl.address.as_str());
    let ghost list = nvme_ctrls@;
    let ghost nv = ctrls_view(list);
    let ghost base = ctrl_children_view(ctrl.children@);
    let n = nvme_ctrls.len();
    let mut i: usize = 0;
    while nvme_ctrls.len() > 0
        invariant
            i + nvme_ctrls@.len() == n,
            n == list.len(),
            nv == ctrls_view(list),
            nvme_ctrls@ == list.skip(i as int),
            ctrl_children_view(ctrl.children@) == base + nvme_children(nv.take(i as int)),
            ctrl@.address == c0.address,
            ctrl@.vendor_id == c0.vendor_id,
            ctrl@.device_id == c0.device_id,
            ctrl@.class_code == c0.class_code,
            ctrl@.driver == c0.driver,
            ctrl@.numa_node == c0.numa_node,
        decreases nvme_ctrls@.len(),
    {
        let nvme_ctrl = nvme_ctrls.remove(0);
        assert(list.skip(i as int)[0] == nvme_ctrl);
        assert(nv[i as int] == nvme_ctrl@);
        assert(nvme_ctrls@ =~= list.skip(i + 1));
        let ghost before = ctrl_children_view(ctrl.children@);
        ctrl.children.push(ControllerChild::NvmeController(nvme_ctrl));
        assert(ctrl_children_view(ctrl.children@) =~= before.push(
            SpecControllerChild::NvmeController(nv[i as int]),
        ));
        assert(nvme_children(nv.take(i + 1)) =~= nvme_children(nv.take(i as int)).push(
            SpecControllerChild::NvmeController(nv[i as int]),
        ));
        assert(ctrl_children_view(ctrl.children@) =~= base + nvme_children(nv.take(i + 1)));
        i = i + 1;
    }
    assert(nv.take(n as int) =~= nv);
    let ghost after_nvme = ctrl_children_view(ctrl.children@);
    match hosts_index(scsi_hosts_by_pci, ctrl.address.as_str()) {
        Some(k) => {
            let hosts = &scsi_hosts_by_pci[k].1;
            let ghost hs = hosts_view(hosts@);
            assert(hs == hosts_at(hv, c0.address));
            let mut j: usize = 0;
            while j < hosts.len()
                invariant
                    j <= hosts@.len(),
                    hs == hosts_view(hosts@),
                    ctrl_children_view(ctrl.children@) == after_nvme + host_children(
                        hs.take(j as int),
                        args.no_empty,
                    ),
                    ctrl@.address == c0.address,
                    ctrl@.vendor_id == c0.vendor_id,
                    ctrl@.device_id == c0.device_id,
                    ctrl@.class_code == c0.class_code,
                    ctrl@.driver == c0.driver,
                    ctrl@.numa_node == c0.numa_node,
                decreases hosts@.len() - j,
            {
                assert(hs.take(j + 1).drop_last() =~= hs.take(j as int));
                assert(hs.take(j + 1).last() == hosts@[j as int]@);
                let mut host_clone = hosts[j].clone();
                if args.no_empty {
                    let mut targets: Vec<ScsiTarget> = Vec::new();
                    std::mem::swap(&mut targets, &mut host_clone.targets);
                    host_clone.targets = keep_nonempty_targets(targets);
                }
                assert(host_clone@ == trim_host(hs[j as int], args.no_empty));
                if !args.no_empty || host_clone.targets.len() > 0 {
                    let ghost before = ctrl_children_view(ctrl.children@);
                    let ghost hcv = host_clone@;
                    ctrl.children.push(ControllerChild::ScsiHost(host_clone));
                    assert(ctrl_children_view(ctrl.children@) =~= before.push(
                        SpecControllerChild::ScsiHost(hcv),
                    ));
                }
                j = j + 1;
                assert(ctrl_children_view(ctrl.children@) =~= after_nvme + host_children(
                    hs.take(j as int),
                    args.no_empty,
                ));
            }
            assert(hs.take(hosts@.len() as int) =~= hs);
        },
        None => {
            assert(host_children(hosts_at(hv, c0.address), args.no_empty) =~= Seq::<SpecControllerChild>::empty());
            assert(ctrl_children_view(ctrl.children@) =~= after_nvme + host_children(hosts_at(hv, c0.address), args.no_empty));
        },
    }
    assert(ctrl@ =~= attach_controller(c0, nvme_map_view(old(nvme_by_pci)@), hv, args.no_empty).0);
}

/// Attaches NVMe controllers and SCSI hosts throughout a list of PCI nodes, in order.
fn attach_children_to_tree(
    nodes: &mut Vec<PciNode>,
    nvme_by_pci: &mut Vec<(String, Vec<NvmeCtrl>)>,
    scsi_hosts_by_pci: &Vec<(String, Vec<ScsiHost>)>,
    args: &BuildArgs,
)
    ensures
        (nodes_view(final(nodes)@), nvme_map_view(final(nvme_by_pci)@)) == attach_nodes(
            nodes_view(old(nodes)@),
            old(nodes)@.len() as int,
            nvme_map_view(old(nvme_by_pci)@),
            host_map_view(scsi_hosts_by_pci@),
            args.no_empty,
        ),
    decreases pci_nodes_depth(nodes_view(old(nodes)@), old(nodes)@.len() as int),
{
    let ghost orig = nodes@;
    let ghost ov = nodes_view(orig);
    let ghost m0 = nvme_map_view(nvme_by_pci@);
    let ghost hv = host_map_view(scsi_hosts_by_pci@);
    let ghost depth = pci_nodes_depth(ov, orig.len() as int);
    proof {
        lemma_nodes_view(orig, orig.len() as int);
    }
    let mut input: Vec<PciNode> = Vec::new();
    std::mem::swap(&mut input, nodes);
    let n = input.len();
    let mut i: usize = 0;
    while input.len() > 0
        invariant
            i + input@.len() == n,
            n == orig.len(),
            input@ == orig.skip(i as int),
            orig == old(nodes)@,
            ov == nodes_view(orig),
            ov.len() == n,
            forall|k: int| 0 <= k < n ==> #[trigger] ov[k] == orig[k]@,
            depth == pci_nodes_depth(ov, n as int),
            hv == host_map_view(scsi_hosts_by_pci@),
            (nodes_view(nodes@), nvme_map_view(nvme_by_pci@)) == attach_nodes(ov, i as int, m0, hv, args.no_empty),
        decreases input@.len(),
    {
        let node = input.remove(0);
        assert(orig.skip(i as int)[0] == node);
        assert(input@ =~= orig.skip(i + 1));
        assert(ov[i as int] == node@);
        proof {
            lemma_nodes_depth(ov, n as int, i as int);
        }
        let ghost before = nodes@;
        let ghost m1 = nvme_map_view(nvme_by_pci@);
        let ghost step = attach_node(ov[i as int], m1, hv, args.no_empty);
        assert(attach_nodes(ov, i + 1, m0, hv, args.no_empty) == (nodes_view(before).push(step.0), step.1));
        match node {
            PciNode::Bridge(bridge) => {
                let mut b = bridge;
                proof {
                    lemma_nodes_view(b.children@, b.children@.len() as int);
                }
                assert(pci_node_depth(ov[i as int]) == 1 + pci_nodes_depth(
                    nodes_view(b.children@),
                    b.children@.len() as int,
                ));
                attach_children_to_tree(&mut b.children, nvme_by_pci, scsi_hosts_by_pci, args);
                proof {
                    lemma_nodes_view(b.children@, b.children@.len() as int);
                }
                let x = PciNode::Bridge(b);
                assert(x@ == step.0);
                assert(nvme_map_view(nvme_by_pci@) == step.1);
                nodes.push(x);
                proof {
                    crate::types::lemma_nodes_view_pushed(before, x);
                }
            },
            PciNode::StorageController(c) => {
                let mut c = c;
                attach_to_controller(&mut c, nvme_by_pci, scsi_hosts_by_pci, args);
                let x = PciNode::StorageController(c);
                assert(x@ == step.0);
                assert(nvme_map_view(nvme_by_pci@) == step.1);
                nodes.push(x);
                proof {
                    crate::types::lemma_nodes_view_pushed(before, x);
                }
            },
        }
        i = i + 1;
    }
}

/// Drops the PCI nodes left without children once the bridges below them are pruned.
fn prune_empty(nodes: &mut Vec<PciNode>)
    ensures
        nodes_view(final(nodes)@) == prune_nodes(nodes_view(old(nodes)@), old(nodes)@.len() as int),
    decreases pci_nodes_depth(nodes_view(old(nodes)@), old(nodes)@.len() as int),
{
    let ghost orig = nodes@;
    let ghost ov = nodes_view(orig);
    let ghost depth = pci_nodes_depth(ov, orig.len() as int);
    proof {
        lemma_nodes_view(orig, orig.len() as int);
    }
    let mut input: Vec<PciNode> = Vec::new();
    std::mem::swap(&mut input, nodes);
    let n = input.len();
    let mut i: usize = 0;
    while input.len() > 0
        invariant
            i + input@.len() == n,
            n == orig.len(),
            input@ == orig.skip(i as int),
            orig == old(nodes)@,
            ov == nodes_view(orig),
            ov.len() == n,
            forall|k: int| 0 <= k < n ==> #[trigger] ov[k] == orig[k]@,
            depth == pci_nodes_depth(ov, n as int),
            nodes_view(nodes@) == prune_nodes(ov, i as int),
        decreases input@.len(),
    {
        let node = input.remove(0);
        assert(orig.skip(i as int)[0] == node);
        assert(input@ =~= orig.skip(i + 1));
        assert(ov[i as int] == node@);
        proof {
            lemma_nodes_depth(ov, n as int, i as int);
        }
        let ghost before = nodes@;
        let x = match node {
            PciNode::Bridge(bridge) => {
                let mut b = bridge;
                proof {
                    lemma_nodes_view(b.children@, b.children@.len() as int);
                }
                assert(pci_node_depth(ov[i as int]) == 1 + pci_nodes_depth(
                    nodes_view(b.children@),
                    b.children@.len() as int,
                ));
                prune_empty(&mut b.children);
                proof {
                    lemma_nodes_view(b.children@, b.children@.len() as int);
                }
                PciNode::Bridge(b)
            },
            PciNode::StorageController(c) => PciNode::StorageController(c),
        };
        assert(x@ == pruned(ov[i as int]));
        let keep = match &x {
            PciNode::Bridge(b) => b.children.len() > 0,
            PciNode::StorageController(c) => c.children.len() > 0,
        };
        proof {
            match &x {
                PciNode::Bridge(b) => {
                    lemma_nodes_view(b.children@, b.children@.len() as int);
                },
                _ => {},
            }
        }
        assert(keep == has_children(x@));
        if keep {
            nodes.push(x);
            proof {
                crate::types::lemma_nodes_view_pushed(before, x);
            }
        }
        i = i + 1;
    }
}

/// Assembles the topology: NVMe controllers and SCSI hosts under the storage
/// controllers whose PCI address they carry (an address that no controller in
/// the tree has is dropped); NVMe controllers without a PCI address apart, by
/// name; with `no_empty`, hosts without devices and empty branches and roots left out.
pub fn build(
    pci_roots: Vec<PciRoot>,
    nvme_controllers: Vec<NvmeCtrl>,
    scsi_hosts_by_pci: Vec<(String, Vec<ScsiHost>)>,
    nvme_subsystems: Vec<NvmeSubsystem>,
    dm_devices: Vec<DmDevice>,
    args: &BuildArgs,
) -> (r: Topology)
    ensures
        r@ == spec_build(
            roots_view(pci_roots@),
            nvme_controllers@,
            host_map_view(scsi_hosts_by_pci@),
            nvme_subsystems@,
            dm_devices@,
            args.no_empty,
        ),
{
    let ghost rv = roots_view(pci_roots@);
    let ghost hv = host_map_view(scsi_hosts_by_pci@);
    let ghost ctrls = nvme_controllers@;
    let (mut nvme_by_pci, fabrics_controllers) = group_nvme(nvme_controllers);
    let ghost m0 = nvme_map_view(nvme_by_pci@);
    let mut input = pci_roots;
    let mut roots: Vec<PciRoot> = Vec::new();
    let n = input.len();
    let mut i: usize = 0;
    while input.len() > 0
        invariant
            i + input@.len() == n,
            n == rv.len(),
            forall|k: int| 0 <= k < input@.len() ==> #[trigger] input@[k]@ == rv[i + k],
            (roots_view(roots@), nvme_map_view(nvme_by_pci@)) == attach_roots(rv, i as int, m0, hv, args.no_empty),
            hv == host_map_view(scsi_hosts_by_pci@),
        decreases input@.len(),
    {
        let ghost old_input = input@;
        let mut root = input.remove(0);
        assert(root@ == rv[i as int]) by {
            assert(old_input[0] == root);
        }
        assert forall|k: int| 0 <= k < input@.len() implies #[trigger] input@[k]@ == rv[i + 1 + k] by {
            assert(input@[k] == old_input[k + 1]);
        }
        proof {
            lemma_nodes_view(root.children@, root.children@.len() as int);
        }
        attach_children_to_tree(&mut root.children, &mut nvme_by_pci, &scsi_hosts_by_pci, args);
        let ghost before = roots_view(roots@);
        roots.push(root);
        assert(roots_view(roots@) =~= before.push(roots@.last()@));
        i = i + 1;
    }
    let ghost attached = roots_view(roots@);
    if args.no_empty {
        let mut input = roots;
        let mut kept: Vec<PciRoot> = Vec::new();
        let n = input.len();
        let mut i: usize = 0;
        while input.len() > 0
            invariant
                i + input@.len() == n,
                n == attached.len(),
                forall|k: int| 0 <= k < input@.len() ==> #[trigger] input@[k]@ == attached[i + k],
                roots_view(kept@) == prune_roots(attached.take(i as int)),
            decreases input@.len(),
        {
            let ghost old_input = input@;
            let mut root = input.remove(0);
            assert(root@ == attached[i as int]) by {
                assert(old_input[0] == root);
            }
            assert forall|k: int| 0 <= k < input@.len() implies #[trigger] input@[k]@ == attached[i + 1 + k] by {
                assert(input@[k] == old_input[k + 1]);
            }
            assert(attached.take(i + 1).drop_last() =~= attached.take(i as int));
            proof {
                lemma_nodes_view(root.children@, root.children@.len() as int);
            }
            prune_empty(&mut root.children);
            if root.children.len() > 0 {
                let ghost before = roots_view(kept@);
                kept.push(root);
                assert(roots_view(kept@) =~= before.push(kept@.last()@));
            }
            i = i + 1;
        }
        assert(attached.take(n as int) =~= attached);
        roots = kept;
    }
    let sorted = sort_by_key(fabrics_controllers);
    let t = Topology {
        pci_roots: roots,
        fabrics_controllers: sorted,
        nvme_subsystems,
        dm_devices,
    };
    assert(t@ =~= spec_build(rv, ctrls, hv, nvme_subsystems@, dm_devices@, args.no_empty));
    t
}

// ---------------------------------------------------------------------------
// What `--no-empty` leaves
// ---------------------------------------------------------------------------
/// A node that has children, and, for a bridge, whose children are all so.
pub open spec fn node_full(n: SpecPciNode) -> bool
    decreases n,
{
    has_children(n) && match n {
        SpecPciNode::Bridge(b) => nodes_full(b.children, b.children.len() as int),
        SpecPciNode::StorageController(_) => true,
    }
}

/// The first `k` nodes of `s` are full.
pub open spec fn nodes_full(s: Seq<SpecPciNode>, k: int) -> bool
    decreases s, k,
{
    if k <= 0 || k > s.len() {
        true
    } else {
        nodes_full(s, k - 1) && node_full(s[k - 1])
    }
}

proof fn lemma_nodes_full(s: Seq<SpecPciNode>, k: int)
    requires
        0 <= k <= s.len(),
    ensures
        nodes_full(s, k) <==> forall|i: int| 0 <= i < k ==> #[trigger] node_full(s[i]),
    decreases k,
{
    if k > 0 {
        lemma_nodes_full(s, k - 1);
        if nodes_full(s, k) {
            assert forall|i: int| 0 <= i < k implies #[trigger] node_full(s[i]) by {
                if i < k - 1 {
                    assert(nodes_full(s, k - 1));
                }
            }
        }
        if forall|i: int| 0 <= i < k ==> #[trigger] node_full(s[i]) {
            assert(node_full(s[k - 1]));
            assert forall|i: int| 0 <= i < k - 1 implies #[trigger] node_full(s[i]) by {
                assert(node_full(s[i]));
            }
        }
    }
}

/// A SCSI host with a target, and every target with a device.
pub open spec fn host_has_devices(h: SpecScsiHost) -> bool {
    h.targets.len() > 0 && forall|j: int| 0 <= j < h.targets.len() ==> #[trigger] h.targets[j].devices.len() > 0
}

pub open spec fn child_shown(c: SpecControllerChild) -> bool {
    match c {
        SpecControllerChild::ScsiHost(h) => host_has_devices(h),
        SpecControllerChild::NvmeController(_) => true,
    }
}

/// Every SCSI host below the node has a target with devices.
pub open spec fn hosts_shown(n: SpecPciNode) -> bool
    decreases n,
{
    match n {
        SpecPciNode::Bridge(b) => nodes_shown(b.children, b.children.len() as int),
        SpecPciNode::StorageController(c) => forall|i: int|
            0 <= i < c.children.len() ==> #[trigger] child_shown(c.children[i]),
    }
}

/// Every SCSI host below the first `k` nodes of `s` has a target with devices.
pub open spec fn nodes_shown(s: Seq<SpecPciNode>, k: int) -> bool
    decreases s, k,
{
    if k <= 0 || k > s.len() {
        true
    } else {
        nodes_shown(s, k - 1) && hosts_shown(s[k - 1])
    }
}

proof fn lemma_nodes_shown(s: Seq<SpecPciNode>, k: int)
    requires
        0 <= k <= s.len(),
    ensures
        nodes_shown(s, k) <==> forall|i: int| 0 <= i < k ==> #[trigger] hosts_shown(s[i]),
    decreases k,
{
    if k > 0 {
        lemma_nodes_shown(s, k - 1);
        if nodes_shown(s, k) {
            assert forall|i: int| 0 <= i < k implies #[trigger] hosts_shown(s[i]) by {
                if i < k - 1 {
                    assert(nodes_shown(s, k - 1));
                }
            }
        }
        if forall|i: int| 0 <= i < k ==> #[trigger] hosts_shown(s[i]) {
            assert(hosts_shown(s[k - 1]));
            assert forall|i: int| 0 <= i < k - 1 implies #[trigger] hosts_shown(s[i]) by {
                assert(hosts_shown(s[i]));
            }
        }
    }
}

proof fn lemma_nonempty_targets(ts: Seq<SpecScsiTarget>)
    ensures
        forall|j: int| 0 <= j < nonempty_targets(ts).len() ==> #[trigger] nonempty_targets(ts)[j].devices.len() > 0,
    decreases ts.len(),
{
    if ts.len() > 0 {
        let r = nonempty_targets(ts.drop_last());
        lemma_nonempty_targets(ts.drop_last());
        assert forall|j: int| 0 <= j < nonempty_targets(ts).len() implies #[trigger] nonempty_targets(ts)[j].devices.len() > 0 by {
            if j < r.len() {
                assert(nonempty_targets(ts)[j] == r[j]);
            }
        }
    }
}

proof fn lemma_host_children_shown(hs: Seq<SpecScsiHost>)
    ensures
        forall|j: int| 0 <= j < host_children(hs, true).len() ==> #[trigger] child_shown(host_children(hs, true)[j]),
    decreases hs.len(),
{
    if hs.len() > 0 {
        let r = host_children(hs.drop_last(), true);
        lemma_host_children_shown(hs.drop_last());
        lemma_nonempty_targets(hs.last().targets);
        assert forall|j: int| 0 <= j < host_children(hs, true).len() implies #[trigger] child_shown(host_children(hs, true)[j]) by {
            if j < r.len() {
                assert(host_children(hs, true)[j] == r[j]);
            } else {
                let t = trim_host(hs.last(), true);
                assert(host_children(hs, true)[j] == SpecControllerChild::ScsiHost(t));
                assert forall|q: int| 0 <= q < t.targets.len() implies #[trigger] t.targets[q].devices.len() > 0 by {
                    assert(t.targets[q] == nonempty_targets(hs.last().targets)[q]);
                }
            }
        }
    }
}

proof fn lemma_attach_node_shown(
    n: SpecPciNode,
    m: Seq<(Seq<char>, Seq<SpecNvmeCtrl>)>,
    h: Seq<(Seq<char>, Seq<SpecScsiHost>)>,
)
    requires
        hosts_shown(n),
    ensures
        hosts_shown(attach_node(n, m, h, true).0),
    decreases n,
{
    match n {
        SpecPciNode::Bridge(b) => {
            lemma_nodes_shown(b.children, b.children.len() as int);
            lemma_attach_nodes_shown(b.children, b.children.len() as int, m, h);
            let (cs, m2) = attach_nodes(b.children, b.children.len() as int, m, h, true);
            lemma_nodes_shown(cs, cs.len() as int);
        },
        SpecPciNode::StorageController(c) => {
            let (nv, m2) = take_nvme(m, c.address);
            let hc = host_children(hosts_at(h, c.address), true);
            lemma_host_children_shown(hosts_at(h, c.address));
            let all = c.children + nvme_children(nv) + hc;
            assert forall|i: int| 0 <= i < all.len() implies #[trigger] child_shown(all[i]) by {
                if i < c.children.len() {
                    assert(all[i] == c.children[i]);
                } else if i < c.children.len() + nv.len() {
                    assert(all[i] == nvme_children(nv)[i - c.children.len()]);
                } else {
                    assert(all[i] == hc[i - c.children.len() - nv.len()]);
                }
            }
        },
    }
}

proof fn lemma_attach_nodes_shown(
    s: Seq<SpecPciNode>,
    k: int,
    m: Seq<(Seq<char>, Seq<SpecNvmeCtrl>)>,
    h: Seq<(Seq<char>, Seq<SpecScsiHost>)>,
)
    requires
        forall|i: int| 0 <= i < s.len() ==> #[trigger] hosts_shown(s[i]),
    ensures
        forall|i: int|
            0 <= i < attach_nodes(s, k, m, h, true).0.len() ==> #[trigger] hosts_shown(
                attach_nodes(s, k, m, h, true).0[i],
            ),
    decreases s, k,
{
    if k > 0 && k <= s.len() {
        let (prev, m1) = attach_nodes(s, k - 1, m, h, true);
        lemma_attach_nodes_shown(s, k - 1, m, h);
        lemma_attach_node_shown(s[k - 1], m1, h);
        let out = attach_nodes(s, k, m, h, true).0;
        assert forall|i: int| 0 <= i < out.len() implies #[trigger] hosts_shown(out[i]) by {
            if i < prev.len() {
                assert(out[i] == prev[i]);
            }
        }
    }
}

proof fn lemma_pruned_full(n: SpecPciNode)
    ensures
        has_children(pruned(n)) ==> node_full(pruned(n)),
    decreases n,
{
    match n {
        SpecPciNode::Bridge(b) => {
            lemma_prune_nodes_full(b.children, b.children.len() as int);
            let cs = prune_nodes(b.children, b.children.len() as int);
            lemma_nodes_full(cs, cs.len() as int);
        },
        SpecPciNode::StorageController(_) => {},
    }
}

proof fn lemma_prune_nodes_full(s: Seq<SpecPciNode>, k: int)
    ensures
        forall|i: int| 0 <= i < prune_nodes(s, k).len() ==> #[trigger] node_full(prune_nodes(s, k)[i]),
    decreases s, k,
{
    if k > 0 && k <= s.len() {
        let r = prune_nodes(s, k - 1);
        lemma_prune_nodes_full(s, k - 1);
        lemma_pruned_full(s[k - 1]);
        assert forall|i: int| 0 <= i < prune_nodes(s, k).len() implies #[trigger] node_full(prune_nodes(s, k)[i]) by {
            if i < r.len() {
                assert(prune_nodes(s, k)[i] == r[i]);
            }
        }
    }
}

proof fn lemma_pruned_shown(n: SpecPciNode)
    requires
        hosts_shown(n),
    ensures
        hosts_shown(pruned(n)),
    decreases n,
{
    match n {
        SpecPciNode::Bridge(b) => {
            lemma_nodes_shown(b.children, b.children.len() as int);
            lemma_prune_nodes_shown(b.children, b.children.len() as int);
            let cs = prune_nodes(b.children, b.children.len() as int);
            lemma_nodes_shown(cs, cs.len() as int);
        },
        SpecPciNode::StorageController(_) => {},
    }
}

proof fn lemma_prune_nodes_shown(s: Seq<SpecPciNode>, k: int)
    requires
        forall|i: int| 0 <= i < s.len() ==> #[trigger] hosts_shown(s[i]),
    ensures
        forall|i: int| 0 <= i < prune_nodes(s, k).len() ==> #[trigger] hosts_shown(prune_nodes(s, k)[i]),
    decreases s, k,
{
    if k > 0 && k <= s.len() {
        let r = prune_nodes(s, k - 1);
        lemma_prune_nodes_shown(s, k - 1);
        lemma_pruned_shown(s[k - 1]);
        assert forall|i: int| 0 <= i < prune_nodes(s, k).len() implies #[trigger] hosts_shown(prune_nodes(s, k)[i]) by {
            if i < r.len() {
                assert(prune_nodes(s, k)[i] == r[i]);
            }
        }
    }
}

/// Every node under every root has its SCSI hosts shown.
pub open spec fn roots_shown(rs: Seq<SpecPciRoot>) -> bool {
    forall|i: int, j: int|
        0 <= i < rs.len() && 0 <= j < rs[i].children.len() ==> #[trigger] hosts_shown(rs[i].children[j])
}

proof fn lemma_attach_roots_shown(
    rs: Seq<SpecPciRoot>,
    k: int,
    m: Seq<(Seq<char>, Seq<SpecNvmeCtrl>)>,
    h: Seq<(Seq<char>, Seq<SpecScsiHost>)>,
)
    requires
        roots_shown(rs),
    ensures
        roots_shown(attach_roots(rs, k, m, h, true).0),
    decreases k,
{
    if k > 0 && k <= rs.len() {
        let (prev, m1) = attach_roots(rs, k - 1, m, h, true);
        lemma_attach_roots_shown(rs, k - 1, m, h);
        let r = rs[k - 1];
        assert forall|j: int| 0 <= j < r.children.len() implies #[trigger] hosts_shown(r.children[j]) by {
            assert(hosts_shown(rs[k - 1].children[j]));
        }
        lemma_attach_nodes_shown(r.children, r.children.len() as int, m1, h);
        let out = attach_roots(rs, k, m, h, true).0;
        assert forall|i: int, j: int| 0 <= i < out.len() && 0 <= j < out[i].children.len() implies #[trigger] hosts_shown(
            out[i].children[j],
        ) by {
            if i < prev.len() {
                assert(out[i] == prev[i]);
            }
        }
    }
}

/// Every root has children, all nodes below are full, and all hosts shown.
pub open spec fn roots_full(rs: Seq<SpecPciRoot>) -> bool {
    forall|i: int|
        0 <= i < rs.len() ==> #[trigger] rs[i].children.len() > 0 && forall|j: int|
            0 <= j < rs[i].children.len() ==> #[trigger] node_full(rs[i].children[j]) && hosts_shown(
                rs[i].children[j],
            )
}

proof fn lemma_prune_roots(rs: Seq<SpecPciRoot>)
    requires
        roots_shown(rs),
    ensures
        roots_full(prune_roots(rs)),
    decreases rs.len(),
{
    if rs.len() > 0 {
        let t = rs.drop_last();
        assert(roots_shown(t)) by {
            assert forall|i: int, j: int| 0 <= i < t.len() && 0 <= j < t[i].children.len() implies #[trigger] hosts_shown(
                t[i].children[j],
            ) by {
                assert(t[i] == rs[i]);
            }
        }
        lemma_prune_roots(t);
        let last = rs.last();
        assert forall|j: int| 0 <= j < last.children.len() implies #[trigger] hosts_shown(last.children[j]) by {
            assert(hosts_shown(rs[rs.len() - 1].children[j]));
        }
        lemma_prune_nodes_full(last.children, last.children.len() as int);
        lemma_prune_nodes_shown(last.children, last.children.len() as int);
    }
}

/// With `no_empty`, the assembled topology has no PCI root, bridge or storage
/// controller without children, and no SCSI host without a target, nor a target
/// without a device (given controllers that come without such hosts, as the
/// PCI discovery gives them, with no children at all).
pub proof fn lemma_build_no_empty(
    pci_roots: Seq<SpecPciRoot>,
    nvme_controllers: Seq<NvmeCtrl>,
    scsi_hosts_by_pci: Seq<(Seq<char>, Seq<SpecScsiHost>)>,
    nvme_subsystems: Seq<NvmeSubsystem>,
    dm_devices: Seq<DmDevice>,
)
    requires
        roots_shown(pci_roots),
    ensures
        roots_full(
            spec_build(pci_roots, nvme_controllers, scsi_hosts_by_pci, nvme_subsystems, dm_devices, true).pci_roots,
        ),
{
    let m = nvme_groups(ctrls_view(nvme_controllers));
    lemma_attach_roots_shown(pci_roots, pci_roots.len() as int, m, scsi_hosts_by_pci);
    lemma_prune_roots(attach_roots(pci_roots, pci_roots.len() as int, m, scsi_hosts_by_pci, true).0);
}

// ---------------------------------------------------------------------------
// The NVMe-oF section
// ---------------------------------------------------------------------------
/// The NVMe-oF section holds exactly the controllers without a PCI address,
/// each as often as given, in the byte order of their names.
pub proof fn lemma_build_fabrics(
    pci_roots: Seq<SpecPciRoot>,
    nvme_controllers: Seq<NvmeCtrl>,
    scsi_hosts_by_pci: Seq<(Seq<char>, Seq<SpecScsiHost>)>,
    nvme_subsystems: Seq<NvmeSubsystem>,
    dm_devices: Seq<DmDevice>,
    no_empty: bool,
)
    ensures
        ({
            let f = spec_build(
                pci_roots,
                nvme_controllers,
                scsi_hosts_by_pci,
                nvme_subsystems,
                dm_devices,
                no_empty,
            ).fabrics_controllers;
            &&& f.to_multiset() == ctrls_view(fabrics_of(nvme_controllers)).to_multiset()
            &&& sorted_by(f, by_name(|c: SpecNvmeCtrl| c.name))
        }),
{
    let fs = fabrics_of(nvme_controllers);
    let view = |c: NvmeCtrl| c@;
    let lt = by_name(|c: SpecNvmeCtrl| c.name);
    lemma_sort_map(fs, keyed_lt::<NvmeCtrl>(), view, lt);
    assert(ctrls_view(sort_stable(fs, keyed_lt::<NvmeCtrl>())) =~= sort_stable(fs, keyed_lt::<NvmeCtrl>()).map_values(view));
    assert(ctrls_view(fs) =~= fs.map_values(view));
    lemma_by_name_total(|c: SpecNvmeCtrl| c.name);
    lemma_sort_stable_sorted_permutation(ctrls_view(fs), lt);
}

// ---------------------------------------------------------------------------
// Pruning twice
// ---------------------------------------------------------------------------
proof fn lemma_pruned_same(n: SpecPciNode)
    requires
        node_full(n),
    ensures
        pruned(n) == n,
    decreases n,
{
    match n {
        SpecPciNode::Bridge(b) => {
            lemma_prune_nodes_same(b.children, b.children.len() as int);
            assert(b.children.take(b.children.len() as int) =~= b.children);
            assert(SpecPciBridge { children: b.children, ..b } == b);
        },
        SpecPciNode::StorageController(_) => {},
    }
}

proof fn lemma_prune_nodes_same(s: Seq<SpecPciNode>, k: int)
    requires
        0 <= k <= s.len(),
        nodes_full(s, s.len() as int),
    ensures
        prune_nodes(s, k) == s.take(k),
    decreases s, k,
{
    if k == 0 {
        assert(s.take(0) =~= Seq::<SpecPciNode>::empty());
    } else {
        lemma_prune_nodes_same(s, k - 1);
        lemma_nodes_full(s, s.len() as int);
        assert(node_full(s[k - 1]));
        lemma_pruned_same(s[k - 1]);
        assert(s.take(k - 1).push(s[k - 1]) =~= s.take(k));
    }
}

/// After pruning, every root left has children, and so has every bridge and
/// storage controller below it.
pub proof fn lemma_prune_roots_nodes(rs: Seq<SpecPciRoot>)
    ensures
        forall|i: int|
            0 <= i < prune_roots(rs).len() ==> #[trigger] prune_roots(rs)[i].children.len() > 0 && nodes_full(
                prune_roots(rs)[i].children,
                prune_roots(rs)[i].children.len() as int,
            ),
    decreases rs.len(),
{
    if rs.len() > 0 {
        let p = prune_roots(rs.drop_last());
        lemma_prune_roots_nodes(rs.drop_last());
        let last = rs.last();
        let cs = prune_nodes(last.children, last.children.len() as int);
        lemma_prune_nodes_full(last.children, last.children.len() as int);
        lemma_nodes_full(cs, cs.len() as int);
        assert forall|i: int| 0 <= i < prune_roots(rs).len() implies #[trigger] prune_roots(rs)[i].children.len() > 0
            && nodes_full(prune_roots(rs)[i].children, prune_roots(rs)[i].children.len() as int) by {
            if i < p.len() {
                assert(prune_roots(rs)[i] == p[i]);
            }
        }
    }
}

proof fn lemma_prune_roots_same(rs: Seq<SpecPciRoot>)
    requires
        forall|i: int|
            0 <= i < rs.len() ==> #[trigger] rs[i].children.len() > 0 && nodes_full(
                rs[i].children,
                rs[i].children.len() as int,
            ),
    ensures
        prune_roots(rs) == rs,
    decreases rs.len(),
{
    if rs.len() > 0 {
        let t = rs.drop_last();
        assert forall|i: int| 0 <= i < t.len() implies #[trigger] t[i].children.len() > 0 && nodes_full(
            t[i].children,
            t[i].children.len() as int,
        ) by {
            assert(t[i] == rs[i]);
        }
        lemma_prune_roots_same(t);
        let last = rs.last();
        assert(last.children.len() > 0 && nodes_full(last.children, last.children.len() as int));
        lemma_prune_nodes_same(last.children, last.children.len() as int);
        assert(last.children.take(last.children.len() as int) =~= last.children);
        assert(SpecPciRoot { children: last.children, ..last } == last);
        assert(t.push(last) =~= rs);
    }
}

/// Pruning leaves nothing more to prune: pruning the pruned roots again
/// changes nothing.
pub proof fn lemma_prune_idempotent(rs: Seq<SpecPciRoot>)
    ensures
        prune_roots(prune_roots(rs)) == prune_roots(rs),
{
    lemma_prune_roots_nodes(rs);
    lemma_prune_roots_same(prune_roots(rs));
}

/// Where the nodes that pruning keeps stand in the list: the positions, among
/// the first `k`, of the nodes left with children once pruned.
pub open spec fn kept_nodes(s: Seq<SpecPciNode>, k: int) -> Seq<int>
    decreases k,
{
    if k <= 0 || k > s.len() {
        Seq::empty()
    } else {
        let r = kept_nodes(s, k - 1);
        if has_children(pruned(s[k - 1])) {
            r.push(k - 1)
        } else {
            r
        }
    }
}

/// Pruning keeps, in their order, exactly the nodes left with children once
/// their own branches are pruned, each one pruned.
pub proof fn lemma_prune_nodes_kept(s: Seq<SpecPciNode>, k: int)
    requires
        0 <= k <= s.len(),
    ensures
        kept_nodes(s, k).len() == prune_nodes(s, k).len(),
        forall|j: int|
            0 <= j < kept_nodes(s, k).len() ==> 0 <= #[trigger] kept_nodes(s, k)[j] < k && prune_nodes(s, k)[j]
                == pruned(s[kept_nodes(s, k)[j]]),
        forall|a: int, b: int|
            0 <= a < b < kept_nodes(s, k).len() ==> #[trigger] kept_nodes(s, k)[a] < #[trigger] kept_nodes(s, k)[b],
        forall|i: int| 0 <= i < k ==> (#[trigger] kept_nodes(s, k).contains(i) <==> has_children(pruned(s[i]))),
    decreases k,
{
    if k > 0 {
        lemma_prune_nodes_kept(s, k - 1);
        let r = kept_nodes(s, k - 1);
        assert forall|i: int| 0 <= i < k implies (#[trigger] kept_nodes(s, k).contains(i) <==> has_children(
            pruned(s[i]),
        )) by {
            if i < k - 1 {
                if r.contains(i) {
                    let j = choose|j: int| 0 <= j < r.len() && r[j] == i;
                    assert(kept_nodes(s, k)[j] == i);
                }
                if kept_nodes(s, k).contains(i) {
                    let j = choose|j: int| 0 <= j < kept_nodes(s, k).len() && kept_nodes(s, k)[j] == i;
                    assert(j < r.len());
                    assert(r[j] == i);
                }
            } else {
                if has_children(pruned(s[i])) {
                    assert(kept_nodes(s, k)[r.len() as int] == i);
                } else {
                    if kept_nodes(s, k).contains(i) {
                        let j = choose|j: int| 0 <= j < kept_nodes(s, k).len() && kept_nodes(s, k)[j] == i;
                        assert(r[j] == i);
                    }
                }
            }
        }
    }
}

/// Where the roots that pruning keeps stand in the list.
pub open spec fn kept_roots(rs: Seq<SpecPciRoot>) -> Seq<int>
    decreases rs.len(),
{
    if rs.len() == 0 {
        Seq::empty()
    } else {
        let r = kept_roots(rs.drop_last());
        let last = rs.last();
        if prune_nodes(last.children, last.children.len() as int).len() > 0 {
            r.push(rs.len() - 1)
        } else {
            r
        }
    }
}

/// Pruning keeps, in their order, exactly the roots whose trees keep a node,
/// each one with its tree pruned.
pub proof fn lemma_prune_roots_kept(rs: Seq<SpecPciRoot>)
    ensures
        kept_roots(rs).len() == prune_roots(rs).len(),
        forall|j: int|
            0 <= j < kept_roots(rs).len() ==> 0 <= #[trigger] kept_roots(rs)[j] < rs.len() && prune_roots(rs)[j]
                == (SpecPciRoot {
                children: prune_nodes(rs[kept_roots(rs)[j]].children, rs[kept_roots(rs)[j]].children.len() as int),
                ..rs[kept_roots(rs)[j]]
            }),
        forall|a: int, b: int|
            0 <= a < b < kept_roots(rs).len() ==> #[trigger] kept_roots(rs)[a] < #[trigger] kept_roots(rs)[b],
        forall|i: int|
            0 <= i < rs.len() ==> (#[trigger] kept_roots(rs).contains(i) <==> prune_nodes(
                rs[i].children,
                rs[i].children.len() as int,
            ).len() > 0),
    decreases rs.len(),
{
    if rs.len() > 0 {
        let t = rs.drop_last();
        lemma_prune_roots_kept(t);
        let r = kept_roots(t);
        let k = rs.len() as int;
        assert forall|j: int| 0 <= j < r.len() implies rs[r[j]] == t[r[j]] by {}
        assert forall|i: int| 0 <= i < k implies (#[trigger] kept_roots(rs).contains(i) <==> prune_nodes(
            rs[i].children,
            rs[i].children.len() as int,
        ).len() > 0) by {
            if i < k - 1 {
                assert(rs[i] == t[i]);
                if r.contains(i) {
                    let j = choose|j: int| 0 <= j < r.len() && r[j] == i;
                    assert(kept_roots(rs)[j] == i);
                }
                if kept_roots(rs).contains(i) {
                    let j = choose|j: int| 0 <= j < kept_roots(rs).len() && kept_roots(rs)[j] == i;
                    assert(j < r.len());
                    assert(r[j] == i);
                }
            } else {
                if prune_nodes(rs[i].children, rs[i].children.len() as int).len() > 0 {
                    assert(kept_roots(rs)[r.len() as int] == i);
                } else {
                    if kept_roots(rs).contains(i) {
                        let j = choose|j: int| 0 <= j < kept_roots(rs).len() && kept_roots(rs)[j] == i;
                        assert(r[j] == i);
                    }
                }
            }
        }
    }
}

} // verus!
