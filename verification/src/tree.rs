//! The topology as an ASCII tree: one line per device, box-drawing connectors,
//! each child indented under its parent.
use vstd::prelude::*;
use vstd::string::*;
use crate::sysfs::{format_size, spec_format_size};
use crate::json::{lemma_nodes_depth, pci_node_depth, pci_nodes_depth};
use crate::text::{dec, has_prefix, push_u64, starts_with, str_eq, to_string};
use crate::types::{
    ctrl_children_view, ctrls_view, devices_view, dms_view, lemma_nodes_view,
    namespaces_view, nodes_view, opt_view, partitions_view, phys_view, roots_view,
    sessions_view, slaves_view, strs_view, subsystems_view, targets_view, BlockDevice,
    ControllerChild, DmDevice, DmSlave, IscsiSessionInfo, NvmeCtrl, NvmeNamespace, NvmeSubsystem,
    Partition, PciNode, SasPhyInfo, ScsiDevice, ScsiHost, ScsiTarget, SpecBlockDevice,
    SpecControllerChild, SpecDmDevice, SpecDmSlave, SpecIscsiSessionInfo, SpecNvmeCtrl,
    SpecNvmeNamespace, SpecNvmeSubsystem, SpecPartition, SpecPciNode, SpecPciRoot,
    SpecSasPhyInfo, SpecScsiDevice, SpecScsiHost, SpecScsiTarget, SpecStorageController,
    SpecTopology, SpecTransportInfo, StorageController, Topology, TransportInfo,
};

verus! {

// ---------------------------------------------------------------------------
// Connectors and lists
// ---------------------------------------------------------------------------
pub open spec fn conn(is_last: bool) -> Seq<char> {
    if is_last {
        "\u{2514}\u{2500}\u{2500} "@
    } else {
        "\u{251c}\u{2500}\u{2500} "@
    }
}

pub open spec fn cont(is_last: bool) -> Seq<char> {
    if is_last {
        "    "@
    } else {
        "\u{2502}   "@
    }
}

/// The connector in front of an entry: a corner for the last one, a tee otherwise.
pub fn connector(is_last: bool) -> (r: &'static str)
    ensures
        r@ == conn(is_last),
{
    if is_last {
        "\u{2514}\u{2500}\u{2500} "
    } else {
        "\u{251c}\u{2500}\u{2500} "
    }
}

/// What stands under an entry in front of its children: blank under the last
/// one, a vertical bar otherwise.
pub fn continuation(is_last: bool) -> (r: &'static str)
    ensures
        r@ == cont(is_last),
{
    if is_last {
        "    "
    } else {
        "\u{2502}   "
    }
}

fn child_prefix(prefix: &str, is_last: bool) -> (r: String)
    ensures
        r@ == prefix@ + cont(is_last),
{
    let mut r = to_string(prefix);
    r.append(continuation(is_last));
    r
}

/// The first `k` entries of a list, each drawn by `f` under `p`, the last one
/// with the corner connector.
pub open spec fn tree_items<T>(
    s: Seq<T>,
    k: int,
    p: Seq<char>,
    f: spec_fn(T, Seq<char>, bool) -> Seq<char>,
) -> Seq<char>
    decreases k,
{
    if k <= 0 {
        Seq::empty()
    } else {
        tree_items(s, k - 1, p, f) + f(s[k - 1], p, k == s.len())
    }
}

pub open spec fn tree_all<T>(s: Seq<T>, p: Seq<char>, f: spec_fn(T, Seq<char>, bool) -> Seq<char>) -> Seq<char> {
    tree_items(s, s.len() as int, p, f)
}

/// `items` joined by `sep`.
pub open spec fn join(items: Seq<Seq<char>>, sep: Seq<char>) -> Seq<char>
    decreases items.len(),
{
    if items.len() == 0 {
        Seq::empty()
    } else if items.len() == 1 {
        items[0]
    } else {
        join(items.drop_last(), sep) + sep + items.last()
    }
}

fn push_join(out: &mut String, items: &Vec<String>, sep: &str)
    ensures
        final(out)@ == old(out)@ + join(strs_view(items@), sep@),
{
    let ghost v = strs_view(items@);
    let ghost start = out@;
    let mut i: usize = 0;
    while i < items.len()
        invariant
            i <= items@.len(),
            v == strs_view(items@),
            out@ == start + join(v.take(i as int), sep@),
        decreases items@.len() - i,
    {
        assert(v.take(i + 1).drop_last() =~= v.take(i as int));
        if i > 0 {
            out.append(sep);
        }
        out.append(items[i].as_str());
        i = i + 1;
        assert(out@ =~= start + join(v.take(i as int), sep@));
    }
    assert(v.take(items@.len() as int) =~= v);
}

/// " (...)" around `s` where it is there, nothing otherwise.
pub open spec fn opt_wrap(o: Option<Seq<char>>, open: Seq<char>, close: Seq<char>) -> Seq<char> {
    match o {
        Some(s) => open + s + close,
        None => Seq::empty(),
    }
}

fn push_opt_wrap(out: &mut String, o: &Option<String>, open: &str, close: &str)
    ensures
        final(out)@ == old(out)@ + opt_wrap(opt_view(*o), open@, close@),
{
    match o {
        Some(s) => {
            out.append(open);
            out.append(s.as_str());
            out.append(close);
        },
        None => {},
    }
    assert(out@ =~= old(out)@ + opt_wrap(opt_view(*o), open@, close@));
}

/// A "→ holder" line for each holder, under `p`.
pub open spec fn tree_holder(h: Seq<char>, p: Seq<char>, is_last: bool) -> Seq<char> {
    p + conn(is_last) + "\u{2192} "@ + h + "\n"@
}

pub open spec fn holder_tree() -> spec_fn(Seq<char>, Seq<char>, bool) -> Seq<char> {
    |h: Seq<char>, p: Seq<char>, l: bool| tree_holder(h, p, l)
}

fn render_holders(out: &mut String, holders: &Vec<String>, prefix: &str)
    ensures
        final(out)@ == old(out)@ + tree_all(strs_view(holders@), prefix@, holder_tree()),
{
    let ghost v = strs_view(holders@);
    let ghost start = out@;
    let mut i: usize = 0;
    while i < holders.len()
        invariant
            i <= holders@.len(),
            v == strs_view(holders@),
            out@ == start + tree_items(v, i as int, prefix@, holder_tree()),
        decreases holders@.len() - i,
    {
        let ghost before = out@;
        out.append(prefix);
        out.append(connector(i + 1 == holders.len()));
        out.append("\u{2192} ");
        out.append(holders[i].as_str());
        out.append("\n");
        assert(out@ =~= before + tree_holder(v[i as int], prefix@, i + 1 == holders@.len()));
        i = i + 1;
        assert(out@ =~= start + tree_items(v, i as int, prefix@, holder_tree()));
    }
}

/// "name (size)" on a line of its own.
pub open spec fn sized_line(p: Seq<char>, is_last: bool, name: Seq<char>, size: u64) -> Seq<char> {
    p + conn(is_last) + name + " ("@ + spec_format_size(size) + ")\n"@
}

fn push_sized_line(out: &mut String, prefix: &str, is_last: bool, name: &str, size: u64)
    ensures
        final(out)@ == old(out)@ + sized_line(prefix@, is_last, name@, size),
{
    let size_str = format_size(size);
    out.append(prefix);
    out.append(connector(is_last));
    out.append(name);
    out.append(" (");
    out.append(size_str.as_str());
    out.append(")\n");
    assert(out@ =~= old(out)@ + sized_line(prefix@, is_last, name@, size));
}

// ---------------------------------------------------------------------------
// Block devices
// ---------------------------------------------------------------------------
#[verifier::opaque]
pub open spec fn tree_partition(part: SpecPartition, p: Seq<char>, is_last: bool) -> Seq<char> {
    sized_line(p, is_last, part.name, part.size_bytes) + (if part.holders.len() > 0 {
        tree_all(part.holders, p + cont(is_last), holder_tree())
    } else {
        Seq::empty()
    })
}

pub open spec fn partition_tree() -> spec_fn(SpecPartition, Seq<char>, bool) -> Seq<char> {
    |x: SpecPartition, p: Seq<char>, l: bool| tree_partition(x, p, l)
}

fn render_partition(out: &mut String, part: &Partition, prefix: &str, is_last: bool)
    ensures
        final(out)@ == old(out)@ + tree_partition(part@, prefix@, is_last),
{
    proof {
        reveal(tree_partition);
    }
    push_sized_line(out, prefix, is_last, part.name.as_str(), part.size_bytes);
    if part.holders.len() > 0 {
        let holder_prefix = child_prefix(prefix, is_last);
        render_holders(out, &part.holders, holder_prefix.as_str());
    }
    assert(out@ =~= old(out)@ + tree_partition(part@, prefix@, is_last));
}

/// Each partition with its size, and under it what holds it.
pub fn render_partitions(out: &mut String, partitions: &Vec<Partition>, prefix: &str)
    ensures
        final(out)@ == old(out)@ + tree_all(partitions_view(partitions@), prefix@, partition_tree()),
{
    let ghost v = partitions_view(partitions@);
    let ghost start = out@;
    let mut i: usize = 0;
    while i < partitions.len()
        invariant
            i <= partitions@.len(),
            v == partitions_view(partitions@),
            out@ == start + tree_items(v, i as int, prefix@, partition_tree()),
        decreases partitions@.len() - i,
    {
        render_partition(out, &partitions[i], prefix, i + 1 == partitions.len());
        i = i + 1;
        assert(out@ =~= start + tree_items(v, i as int, prefix@, partition_tree()));
    }
}

#[verifier::opaque]
pub open spec fn tree_block(b: SpecBlockDevice, p: Seq<char>, is_last: bool) -> Seq<char> {
    let cp = p + cont(is_last);
    sized_line(p, is_last, b.name, b.size_bytes) + tree_all(b.partitions, cp, partition_tree()) + (
    if b.holders.len() > 0 && b.partitions.len() == 0 {
        tree_all(b.holders, cp, holder_tree())
    } else {
        Seq::empty()
    })
}

/// A list drawn entry by entry is the entries' drawings one after the other,
/// the last one drawn as the last.
pub proof fn lemma_tree_items_flatten<T>(s: Seq<T>, k: int, p: Seq<char>, f: spec_fn(T, Seq<char>, bool) -> Seq<char>)
    requires
        0 <= k <= s.len(),
    ensures
        tree_items(s, k, p, f) == Seq::new(k as nat, |j: int| f(s[j], p, j + 1 == s.len())).flatten(),
    decreases k,
{
    let lines = Seq::new(k as nat, |j: int| f(s[j], p, j + 1 == s.len()));
    lines.lemma_flatten_and_flatten_alt_are_equivalent();
    if k == 0 {
        assert(lines =~= Seq::<Seq<char>>::empty());
        assert(lines.flatten_alt() =~= Seq::<char>::empty());
    } else {
        lemma_tree_items_flatten(s, k - 1, p, f);
        let prev = Seq::new((k - 1) as nat, |j: int| f(s[j], p, j + 1 == s.len()));
        prev.lemma_flatten_and_flatten_alt_are_equivalent();
        assert(lines.drop_last() =~= prev);
        assert(lines.last() == f(s[k - 1], p, k == s.len()));
    }
}

/// The lines drawn for a partition: its own line with its size, then under it
/// one "→ holder" line for each device that holds it, in order, the last one
/// with the corner connector.
pub proof fn lemma_partition_lines(part: SpecPartition, p: Seq<char>, is_last: bool)
    ensures
        tree_partition(part, p, is_last) == p + conn(is_last) + part.name + " ("@ + spec_format_size(part.size_bytes)
            + ")\n"@ + Seq::new(
            part.holders.len(),
            |j: int| p + cont(is_last) + conn(j + 1 == part.holders.len()) + "\u{2192} "@ + part.holders[j] + "\n"@,
        ).flatten(),
{
    reveal(tree_partition);
    let n = part.holders.len();
    let cp = p + cont(is_last);
    lemma_tree_items_flatten(part.holders, n as int, cp, holder_tree());
    let a = Seq::new(n, |j: int| holder_tree()(part.holders[j], cp, j + 1 == part.holders.len()));
    let b = Seq::new(n, |j: int| p + cont(is_last) + conn(j + 1 == part.holders.len()) + "\u{2192} "@ + part.holders[j] + "\n"@);
    assert(a =~= b) by {
        assert forall|j: int| 0 <= j < n implies a[j] == b[j] by {
            assert(a[j] =~= b[j]);
        }
    }
    if n == 0 {
        assert(b =~= Seq::<Seq<char>>::empty());
        b.lemma_flatten_and_flatten_alt_are_equivalent();
        assert(b.flatten_alt() =~= Seq::<char>::empty());
    }
    assert(tree_partition(part, p, is_last) =~= p + conn(is_last) + part.name + " ("@ + spec_format_size(part.size_bytes)
        + ")\n"@ + b.flatten());
}

/// The lines drawn for a block device: its own line with its size; under it
/// each partition's lines in order; and where it has no partitions, one
/// "→ holder" line for each device that holds it, in order.
pub proof fn lemma_block_lines(b: SpecBlockDevice, p: Seq<char>, is_last: bool)
    ensures
        tree_block(b, p, is_last) == p + conn(is_last) + b.name + " ("@ + spec_format_size(b.size_bytes) + ")\n"@
            + Seq::new(
            b.partitions.len(),
            |j: int| tree_partition(b.partitions[j], p + cont(is_last), j + 1 == b.partitions.len()),
        ).flatten() + (if b.partitions.len() == 0 {
            Seq::new(
                b.holders.len(),
                |j: int| p + cont(is_last) + conn(j + 1 == b.holders.len()) + "\u{2192} "@ + b.holders[j] + "\n"@,
            ).flatten()
        } else {
            Seq::empty()
        }),
{
    reveal(tree_block);
    let cp = p + cont(is_last);
    lemma_tree_items_flatten(b.partitions, b.partitions.len() as int, cp, partition_tree());
    let a1 = Seq::new(b.partitions.len(), |j: int| partition_tree()(b.partitions[j], cp, j + 1 == b.partitions.len()));
    let b1 = Seq::new(b.partitions.len(), |j: int| tree_partition(b.partitions[j], p + cont(is_last), j + 1 == b.partitions.len()));
    assert(a1 =~= b1);
    lemma_tree_items_flatten(b.holders, b.holders.len() as int, cp, holder_tree());
    let a2 = Seq::new(b.holders.len(), |j: int| holder_tree()(b.holders[j], cp, j + 1 == b.holders.len()));
    let b2 = Seq::new(b.holders.len(), |j: int| p + cont(is_last) + conn(j + 1 == b.holders.len()) + "\u{2192} "@ + b.holders[j] + "\n"@);
    assert(a2 =~= b2) by {
        assert forall|j: int| 0 <= j < b.holders.len() implies a2[j] == b2[j] by {
            assert(a2[j] =~= b2[j]);
        }
    }
    if b.holders.len() == 0 {
        assert(b2 =~= Seq::<Seq<char>>::empty());
        b2.lemma_flatten_and_flatten_alt_are_equivalent();
        assert(b2.flatten_alt() =~= Seq::<char>::empty());
    }
    assert(tree_block(b, p, is_last) =~= p + conn(is_last) + b.name + " ("@ + spec_format_size(b.size_bytes) + ")\n"@
        + b1.flatten() + (if b.partitions.len() == 0 { b2.flatten() } else { Seq::empty() }));
}

pub fn render_block_device(out: &mut String, bd: &BlockDevice, prefix: &str, is_last: bool)
    ensures
        final(out)@ == old(out)@ + tree_block(bd@, prefix@, is_last),
{
    proof {
        reveal(tree_block);
    }
    push_sized_line(out, prefix, is_last, bd.name.as_str(), bd.size_bytes);
    let cp = child_prefix(prefix, is_last);
    render_partitions(out, &bd.partitions, cp.as_str());
    if bd.holders.len() > 0 && bd.partitions.len() == 0 {
        render_holders(out, &bd.holders, cp.as_str());
    }
    assert(out@ =~= old(out)@ + tree_block(bd@, prefix@, is_last));
}

// ---------------------------------------------------------------------------
// NVMe
// ---------------------------------------------------------------------------
#[verifier::opaque]
pub open spec fn tree_namespace(ns: SpecNvmeNamespace, p: Seq<char>, is_last: bool) -> Seq<char> {
    sized_line(p, is_last, ns.name, ns.size_bytes) + match ns.block_device {
        Some(bd) => if bd.name == ns.name {
            tree_all(bd.partitions, p + cont(is_last), partition_tree())
        } else {
            Seq::empty()
        },
        None => Seq::empty(),
    }
}

pub open spec fn namespace_tree() -> spec_fn(SpecNvmeNamespace, Seq<char>, bool) -> Seq<char> {
    |x: SpecNvmeNamespace, p: Seq<char>, l: bool| tree_namespace(x, p, l)
}

pub fn render_namespace(out: &mut String, ns: &NvmeNamespace, prefix: &str, is_last: bool)
    ensures
        final(out)@ == old(out)@ + tree_namespace(ns@, prefix@, is_last),
{
    proof {
        reveal(tree_namespace);
    }
    push_sized_line(out, prefix, is_last, ns.name.as_str(), ns.size_bytes);
    match &ns.block_device {
        Some(bd) => {
            if str_eq(bd.name.as_str(), ns.name.as_str()) {
                let cp = child_prefix(prefix, is_last);
                render_partitions(out, &bd.partitions, cp.as_str());
            }
        },
        None => {},
    }
    assert(out@ =~= old(out)@ + tree_namespace(ns@, prefix@, is_last));
}

fn render_namespaces(out: &mut String, v: &Vec<NvmeNamespace>, prefix: &str)
    ensures
        final(out)@ == old(out)@ + tree_all(namespaces_view(v@), prefix@, namespace_tree()),
{
    let ghost vs = namespaces_view(v@);
    let ghost start = out@;
    let mut i: usize = 0;
    while i < v.len()
        invariant
            i <= v@.len(),
            vs == namespaces_view(v@),
            out@ == start + tree_items(vs, i as int, prefix@, namespace_tree()),
        decreases v@.len() - i,
    {
        render_namespace(out, &v[i], prefix, i + 1 == v.len());
        i = i + 1;
        assert(out@ =~= start + tree_items(vs, i as int, prefix@, namespace_tree()));
    }
}

/// " (S/N: ..., FW: ...)" where the serial number is known.
pub open spec fn serial_suffix(serial: Seq<char>, fw: Seq<char>) -> Seq<char> {
    if serial.len() == 0 {
        Seq::empty()
    } else {
        " (S/N: "@ + serial + ", FW: "@ + fw + ")"@
    }
}

pub open spec fn ctrl_line(c: SpecNvmeCtrl, p: Seq<char>, is_last: bool) -> Seq<char> {
    p + conn(is_last) + c.name + ": "@ + c.model + serial_suffix(c.serial, c.firmware_rev) + "\n"@
}

fn push_ctrl_line(out: &mut String, ctrl: &NvmeCtrl, prefix: &str, is_last: bool)
    ensures
        final(out)@ == old(out)@ + ctrl_line(ctrl@, prefix@, is_last),
{
    out.append(prefix);
    out.append(connector(is_last));
    out.append(ctrl.name.as_str());
    out.append(": ");
    out.append(ctrl.model.as_str());
    if ctrl.serial.as_str().unicode_len() > 0 {
        out.append(" (S/N: ");
        out.append(ctrl.serial.as_str());
        out.append(", FW: ");
        out.append(ctrl.firmware_rev.as_str());
        out.append(")");
    }
    out.append("\n");
    assert(out@ =~= old(out)@ + ctrl_line(ctrl@, prefix@, is_last));
}

#[verifier::opaque]
pub open spec fn tree_nvme_ctrl(c: SpecNvmeCtrl, p: Seq<char>, is_last: bool) -> Seq<char> {
    ctrl_line(c, p, is_last) + tree_all(c.namespaces, p + cont(is_last), namespace_tree())
}

pub fn render_nvme_controller(out: &mut String, ctrl: &NvmeCtrl, prefix: &str, is_last: bool)
    ensures
        final(out)@ == old(out)@ + tree_nvme_ctrl(ctrl@, prefix@, is_last),
{
    proof {
        reveal(tree_nvme_ctrl);
    }
    push_ctrl_line(out, ctrl, prefix, is_last);
    let cp = child_prefix(prefix, is_last);
    render_namespaces(out, &ctrl.namespaces, cp.as_str());
    assert(out@ =~= old(out)@ + tree_nvme_ctrl(ctrl@, prefix@, is_last));
}

#[verifier::opaque]
pub open spec fn tree_fabrics_ctrl(c: SpecNvmeCtrl, p: Seq<char>, is_last: bool) -> Seq<char> {
    let cp = p + cont(is_last);
    ctrl_line(c, p, is_last) + cp + "transport: "@ + c.transport + opt_wrap(
        c.transport_address,
        "  addr: "@,
        ""@,
    ) + "\n"@ + tree_all(c.namespaces, cp, namespace_tree())
}

pub open spec fn fabrics_tree() -> spec_fn(SpecNvmeCtrl, Seq<char>, bool) -> Seq<char> {
    |x: SpecNvmeCtrl, p: Seq<char>, l: bool| tree_fabrics_ctrl(x, p, l)
}

/// An NVMe-oF controller, its transport, then its namespaces.
pub fn render_fabrics_controller(out: &mut String, ctrl: &NvmeCtrl, prefix: &str, is_last: bool)
    ensures
        final(out)@ == old(out)@ + tree_fabrics_ctrl(ctrl@, prefix@, is_last),
{
    proof {
        reveal(tree_fabrics_ctrl);
    }
    push_ctrl_line(out, ctrl, prefix, is_last);
    let cp = child_prefix(prefix, is_last);
    out.append(cp.as_str());
    out.append("transport: ");
    out.append(ctrl.transport.as_str());
    push_opt_wrap(out, &ctrl.transport_address, "  addr: ", "");
    out.append("\n");
    render_namespaces(out, &ctrl.namespaces, cp.as_str());
    assert(out@ =~= old(out)@ + tree_fabrics_ctrl(ctrl@, prefix@, is_last));
}

pub open spec fn subsys_ns_line(ns: SpecNvmeNamespace, p: Seq<char>, is_last: bool) -> Seq<char> {
    p + conn(is_last) + ns.name + " ("@ + spec_format_size(ns.size_bytes) + ")"@ + opt_wrap(
        ns.nguid,
        " [nguid: "@,
        "]"@,
    ) + "\n"@
}

pub open spec fn subsys_ns_tree() -> spec_fn(SpecNvmeNamespace, Seq<char>, bool) -> Seq<char> {
    |x: SpecNvmeNamespace, p: Seq<char>, l: bool| subsys_ns_line(x, p, l)
}

pub open spec fn subsys_line(s: SpecNvmeSubsystem, p: Seq<char>, is_last: bool) -> Seq<char> {
    p + conn(is_last) + s.name + ": "@ + s.model + " (S/N: "@ + s.serial + ")"@ + opt_wrap(
        s.nqn,
        " ["@,
        "]"@,
    ) + "\n"@
}

pub open spec fn subsys_ctrls_line(s: SpecNvmeSubsystem, cp: Seq<char>) -> Seq<char> {
    if s.controllers.len() > 0 {
        cp + conn(s.namespaces.len() == 0) + "controllers: "@ + join(
            s.controllers,
            ", "@,
        ) + "\n"@
    } else {
        Seq::empty()
    }
}

#[verifier::opaque]
pub open spec fn tree_subsystem(s: SpecNvmeSubsystem, p: Seq<char>, is_last: bool) -> Seq<char> {
    let cp = p + cont(is_last);
    subsys_line(s, p, is_last) + subsys_ctrls_line(s, cp) + tree_all(s.namespaces, cp, subsys_ns_tree())
}

pub open spec fn subsystem_tree() -> spec_fn(SpecNvmeSubsystem, Seq<char>, bool) -> Seq<char> {
    |x: SpecNvmeSubsystem, p: Seq<char>, l: bool| tree_subsystem(x, p, l)
}

fn push_subsys_line(out: &mut String, subsys: &NvmeSubsystem, prefix: &str, is_last: bool)
    ensures
        final(out)@ == old(out)@ + subsys_line(subsys@, prefix@, is_last),
{
    out.append(prefix);
    out.append(connector(is_last));
    out.append(subsys.name.as_str());
    out.append(": ");
    out.append(subsys.model.as_str());
    out.append(" (S/N: ");
    out.append(subsys.serial.as_str());
    out.append(")");
    push_opt_wrap(out, &subsys.nqn, " [", "]");
    out.append("\n");
    assert(out@ =~= old(out)@ + subsys_line(subsys@, prefix@, is_last));
}

fn push_subsys_ctrls(out: &mut String, subsys: &NvmeSubsystem, cp: &str)
    ensures
        final(out)@ == old(out)@ + subsys_ctrls_line(subsys@, cp@),
{
    if subsys.controllers.len() > 0 {
        let item_is_last = subsys.namespaces.len() == 0;
        out.append(cp);
        out.append(connector(item_is_last));
        out.append("controllers: ");
        push_join(out, &subsys.controllers, ", ");
        out.append("\n");
    }
    assert(out@ =~= old(out)@ + subsys_ctrls_line(subsys@, cp@));
}

fn push_subsys_ns(out: &mut String, ns: &NvmeNamespace, cp: &str, is_last: bool)
    ensures
        final(out)@ == old(out)@ + subsys_ns_line(ns@, cp@, is_last),
{
    let size_str = format_size(ns.size_bytes);
    out.append(cp);
    out.append(connector(is_last));
    out.append(ns.name.as_str());
    out.append(" (");
    out.append(size_str.as_str());
    out.append(")");
    push_opt_wrap(out, &ns.nguid, " [nguid: ", "]");
    out.append("\n");
    assert(out@ =~= old(out)@ + subsys_ns_line(ns@, cp@, is_last));
}

/// An NVMe subsystem: its controllers on one line, then its namespaces.
pub fn render_subsystem(out: &mut String, subsys: &NvmeSubsystem, prefix: &str, is_last: bool)
    ensures
        final(out)@ == old(out)@ + tree_subsystem(subsys@, prefix@, is_last),
{
    proof {
        reveal(tree_subsystem);
    }
    push_subsys_line(out, subsys, prefix, is_last);
    let cp = child_prefix(prefix, is_last);
    push_subsys_ctrls(out, subsys, cp.as_str());
    let ghost after_ctrls = out@;
    let ghost vs = namespaces_view(subsys.namespaces@);
    let mut i: usize = 0;
    while i < subsys.namespaces.len()
        invariant
            i <= subsys.namespaces@.len(),
            vs == namespaces_view(subsys.namespaces@),
            out@ == after_ctrls + tree_items(vs, i as int, cp@, subsys_ns_tree()),
        decreases subsys.namespaces@.len() - i,
    {
        push_subsys_ns(out, &subsys.namespaces[i], cp.as_str(), i + 1 == subsys.namespaces.len());
        i = i + 1;
        assert(out@ =~= after_ctrls + tree_items(vs, i as int, cp@, subsys_ns_tree()));
    }
    assert(out@ =~= old(out)@ + tree_subsystem(subsys@, prefix@, is_last));
}

// ---------------------------------------------------------------------------
// SCSI
// ---------------------------------------------------------------------------
pub open spec fn phy_line(phy: SpecSasPhyInfo, p: Seq<char>, is_last: bool) -> Seq<char> {
    p + phy.name + ": addr="@ + phy.sas_address + "  rate="@ + phy.negotiated_linkrate + "\n"@
}

pub open spec fn phy_tree() -> spec_fn(SpecSasPhyInfo, Seq<char>, bool) -> Seq<char> {
    |x: SpecSasPhyInfo, p: Seq<char>, l: bool| phy_line(x, p, l)
}

pub open spec fn port_suffix(port: Option<u16>) -> Seq<char> {
    match port {
        Some(n) => seq![':'] + dec(n as nat),
        None => Seq::empty(),
    }
}

pub open spec fn session_lines(s: SpecIscsiSessionInfo, p: Seq<char>, is_last: bool) -> Seq<char> {
    p + "session: "@ + s.target_name + " ("@ + s.state + ")\n"@ + match s.target_address {
        Some(a) => p + "portal: "@ + a + port_suffix(s.target_port) + "\n"@,
        None => Seq::empty(),
    }
}

pub open spec fn session_tree() -> spec_fn(SpecIscsiSessionInfo, Seq<char>, bool) -> Seq<char> {
    |x: SpecIscsiSessionInfo, p: Seq<char>, l: bool| session_lines(x, p, l)
}

#[verifier::opaque]
pub open spec fn tree_transport(t: SpecTransportInfo, p: Seq<char>) -> Seq<char> {
    match t {
        SpecTransportInfo::Fc(fc) => p + "WWPN: "@ + fc.port_name + "  WWNN: "@ + fc.node_name
            + "\n"@ + p + "state: "@ + fc.port_state + "  speed: "@ + fc.speed + opt_wrap(
            fc.fabric_name,
            "  fabric: "@,
            ""@,
        ) + "\n"@,
        SpecTransportInfo::Sas(phys) => tree_all(phys, p, phy_tree()),
        SpecTransportInfo::Iscsi(sessions) => tree_all(sessions, p, session_tree()),
    }
}

fn push_phy(out: &mut String, phy: &SasPhyInfo, prefix: &str, is_last: bool)
    ensures
        final(out)@ == old(out)@ + phy_line(phy@, prefix@, is_last),
{
    out.append(prefix);
    out.append(phy.name.as_str());
    out.append(": addr=");
    out.append(phy.sas_address.as_str());
    out.append("  rate=");
    out.append(phy.negotiated_linkrate.as_str());
    out.append("\n");
    assert(out@ =~= old(out)@ + phy_line(phy@, prefix@, is_last));
}

fn push_session(out: &mut String, s: &IscsiSessionInfo, prefix: &str, is_last: bool)
    ensures
        final(out)@ == old(out)@ + session_lines(s@, prefix@, is_last),
{
    out.append(prefix);
    out.append("session: ");
    out.append(s.target_name.as_str());
    out.append(" (");
    out.append(s.state.as_str());
    out.append(")\n");
    let ghost mid = out@;
    match &s.target_address {
        Some(a) => {
            out.append(prefix);
            out.append("portal: ");
            out.append(a.as_str());
            match s.target_port {
                Some(port) => {
                    out.push(':');
                    push_u64(out, port as u64);
                },
                None => {},
            }
            out.append("\n");
        },
        None => {},
    }
    assert(out@ =~= old(out)@ + session_lines(s@, prefix@, is_last));
}

/// The lines that describe a host's transport, each under `prefix`.
pub fn render_transport_info(out: &mut String, transport: &TransportInfo, prefix: &str)
    ensures
        final(out)@ == old(out)@ + tree_transport(transport@, prefix@),
{
    proof {
        reveal(tree_transport);
    }
    match transport {
        TransportInfo::Fc(fc) => {
            out.append(prefix);
            out.append("WWPN: ");
            out.append(fc.port_name.as_str());
            out.append("  WWNN: ");
            out.append(fc.node_name.as_str());
            out.append("\n");
            out.append(prefix);
            out.append("state: ");
            out.append(fc.port_state.as_str());
            out.append("  speed: ");
            out.append(fc.speed.as_str());
            push_opt_wrap(out, &fc.fabric_name, "  fabric: ", "");
            out.append("\n");
        },
        TransportInfo::Sas(sas) => {
            let ghost vs = phys_view(sas.phys@);
            let ghost start = out@;
            let mut i: usize = 0;
            while i < sas.phys.len()
                invariant
                    i <= sas.phys@.len(),
                    vs == phys_view(sas.phys@),
                    out@ == start + tree_items(vs, i as int, prefix@, phy_tree()),
                decreases sas.phys@.len() - i,
            {
                push_phy(out, &sas.phys[i], prefix, i + 1 == sas.phys.len());
                i = i + 1;
                assert(out@ =~= start + tree_items(vs, i as int, prefix@, phy_tree()));
            }
        },
        TransportInfo::Iscsi(iscsi) => {
            let ghost vs = sessions_view(iscsi.sessions@);
            let ghost start = out@;
            let mut i: usize = 0;
            while i < iscsi.sessions.len()
                invariant
                    i <= iscsi.sessions@.len(),
                    vs == sessions_view(iscsi.sessions@),
                    out@ == start + tree_items(vs, i as int, prefix@, session_tree()),
                decreases iscsi.sessions@.len() - i,
            {
                push_session(out, &iscsi.sessions[i], prefix, i + 1 == iscsi.sessions.len());
                i = i + 1;
                assert(out@ =~= start + tree_items(vs, i as int, prefix@, session_tree()));
            }
        },
    }
    assert(out@ =~= old(out)@ + tree_transport(transport@, prefix@));
}

pub open spec fn type_label(d: SpecScsiDevice) -> Seq<char> {
    match d.sg_device {
        Some(sg) => d.scsi_type_name + ", "@ + sg,
        None => d.scsi_type_name,
    }
}

pub open spec fn device_line(d: SpecScsiDevice, p: Seq<char>, is_last: bool) -> Seq<char> {
    p + conn(is_last) + seq!['['] + d.hctl + "] "@ + d.vendor + " "@ + d.model + " ("@ + type_label(d)
        + ")\n"@
}

#[verifier::opaque]
pub open spec fn tree_scsi_device(d: SpecScsiDevice, p: Seq<char>, is_last: bool) -> Seq<char> {
    device_line(d, p, is_last) + match d.block_device {
        Some(bd) => tree_block(bd, p + cont(is_last), true),
        None => Seq::empty(),
    }
}

pub open spec fn device_tree() -> spec_fn(SpecScsiDevice, Seq<char>, bool) -> Seq<char> {
    |x: SpecScsiDevice, p: Seq<char>, l: bool| tree_scsi_device(x, p, l)
}

fn push_device_line(out: &mut String, device: &ScsiDevice, prefix: &str, is_last: bool)
    ensures
        final(out)@ == old(out)@ + device_line(device@, prefix@, is_last),
{
    out.append(prefix);
    out.append(connector(is_last));
    out.push('[');
    out.append(device.hctl.as_str());
    out.append("] ");
    out.append(device.vendor.as_str());
    out.append(" ");
    out.append(device.model.as_str());
    out.append(" (");
    out.append(device.scsi_type_name.as_str());
    match &device.sg_device {
        Some(sg) => {
            out.append(", ");
            out.append(sg.as_str());
        },
        None => {},
    }
    out.append(")\n");
    assert(out@ =~= old(out)@ + device_line(device@, prefix@, is_last));
}

/// A SCSI device, and under it its block device.
pub fn render_scsi_device(out: &mut String, device: &ScsiDevice, prefix: &str, is_last: bool)
    ensures
        final(out)@ == old(out)@ + tree_scsi_device(device@, prefix@, is_last),
{
    proof {
        reveal(tree_scsi_device);
    }
    push_device_line(out, device, prefix, is_last);
    match &device.block_device {
        Some(bd) => {
            let cp = child_prefix(prefix, is_last);
            render_block_device(out, bd, cp.as_str(), true);
        },
        None => {},
    }
    assert(out@ =~= old(out)@ + tree_scsi_device(device@, prefix@, is_last));
}

#[verifier::opaque]
pub open spec fn tree_scsi_target(t: SpecScsiTarget, p: Seq<char>, is_last: bool) -> Seq<char> {
    p + conn(is_last) + "target "@ + t.address + "\n"@ + tree_all(
        t.devices,
        p + cont(is_last),
        device_tree(),
    )
}

pub open spec fn target_tree() -> spec_fn(SpecScsiTarget, Seq<char>, bool) -> Seq<char> {
    |x: SpecScsiTarget, p: Seq<char>, l: bool| tree_scsi_target(x, p, l)
}

/// A SCSI target, then its devices.
pub fn render_scsi_target(out: &mut String, target: &ScsiTarget, prefix: &str, is_last: bool)
    ensures
        final(out)@ == old(out)@ + tree_scsi_target(target@, prefix@, is_last),
{
    proof {
        reveal(tree_scsi_target);
    }
    out.append(prefix);
    out.append(connector(is_last));
    out.append("target ");
    out.append(target.address.as_str());
    out.append("\n");
    let cp = child_prefix(prefix, is_last);
    let ghost after = out@;
    let ghost vs = devices_view(target.devices@);
    let mut i: usize = 0;
    while i < target.devices.len()
        invariant
            i <= target.devices@.len(),
            vs == devices_view(target.devices@),
            out@ == after + tree_items(vs, i as int, cp@, device_tree()),
        decreases target.devices@.len() - i,
    {
        render_scsi_device(out, &target.devices[i], cp.as_str(), i + 1 == target.devices.len());
        i = i + 1;
        assert(out@ =~= after + tree_items(vs, i as int, cp@, device_tree()));
    }
    assert(out@ =~= old(out)@ + tree_scsi_target(target@, prefix@, is_last));
}

/// The labels in parentheses after a host: its driver, its ATA port, its transport.
pub open spec fn host_details(h: SpecScsiHost) -> Seq<Seq<char>> {
    (match h.proc_name {
        Some(n) => seq![n],
        None => Seq::empty(),
    }) + (match h.ata_port {
        Some(a) => seq![a],
        None => Seq::empty(),
    }) + (match h.transport {
        Some(SpecTransportInfo::Fc(_)) => seq!["FC"@],
        Some(SpecTransportInfo::Sas(_)) => seq!["SAS"@],
        Some(SpecTransportInfo::Iscsi(_)) => seq!["iSCSI"@],
        None => Seq::empty(),
    })
}

/// The label of a transport in a host line.
pub open spec fn transport_label(t: SpecTransportInfo) -> Seq<char> {
    match t {
        SpecTransportInfo::Fc(_) => "FC"@,
        SpecTransportInfo::Sas(_) => "SAS"@,
        SpecTransportInfo::Iscsi(_) => "iSCSI"@,
    }
}

/// The details of a host line name each of the host's driver, ATA port and
/// transport that it has, once, in that order, each whether or not the others
/// are there: the driver first, the ATA port after the driver where there is
/// one, the transport's label last.
pub proof fn lemma_host_details(h: SpecScsiHost)
    ensures
        host_details(h).len() == (if h.proc_name is Some { 1int } else { 0 }) + (if h.ata_port is Some {
            1int
        } else {
            0
        }) + (if h.transport is Some { 1int } else { 0 }),
        h.proc_name is Some ==> host_details(h)[0] == h.proc_name->0,
        h.ata_port is Some ==> host_details(h)[if h.proc_name is Some { 1int } else { 0 }] == h.ata_port->0,
        h.transport is Some ==> host_details(h)[host_details(h).len() - 1] == transport_label(h.transport->0),
{
}

pub open spec fn host_line(h: SpecScsiHost, p: Seq<char>, is_last: bool) -> Seq<char> {
    let details = host_details(h);
    p + conn(is_last) + "host"@ + dec(h.host_num as nat) + (if details.len() == 0 {
        Seq::empty()
    } else {
        " ("@ + join(details, ", "@) + ")"@
    }) + "\n"@
}

/// The line of a host that has a driver and an ATA port names both, the driver
/// first, then its transport where it has one, in parentheses after the host's
/// number: "host0 (ahci, ata1)".
pub proof fn lemma_host_line_driver_port(h: SpecScsiHost, p: Seq<char>, is_last: bool)
    requires
        h.proc_name is Some,
        h.ata_port is Some,
    ensures
        host_line(h, p, is_last) == p + conn(is_last) + "host"@ + dec(h.host_num as nat) + " ("@ + h.proc_name->0
            + ", "@ + h.ata_port->0 + (match h.transport {
            Some(t) => ", "@ + transport_label(t),
            None => Seq::empty(),
        }) + ")\n"@,
{
    reveal_strlit(")\n");
    reveal_strlit(")");
    reveal_strlit("\n");
    let d = host_details(h);
    lemma_host_details(h);
    let n = h.proc_name->0;
    let a = h.ata_port->0;
    let d1 = seq![n];
    let d2 = seq![n, a];
    assert(join(d1, ", "@) == n);
    assert(d2.drop_last() =~= d1);
    assert(join(d2, ", "@) == join(d1, ", "@) + ", "@ + a);
    match h.transport {
        Some(t) => {
            assert(d =~= seq![h.proc_name->0, h.ata_port->0, transport_label(t)]);
            assert(d.drop_last() =~= d2);
            assert(join(d, ", "@) == join(d2, ", "@) + ", "@ + transport_label(t));
        },
        None => {
            assert(d =~= d2);
        },
    }
    assert(host_line(h, p, is_last) =~= p + conn(is_last) + "host"@ + dec(h.host_num as nat) + " ("@
        + h.proc_name->0 + ", "@ + h.ata_port->0 + (match h.transport {
        Some(t) => ", "@ + transport_label(t),
        None => Seq::empty(),
    }) + ")\n"@);
}

#[verifier::opaque]
pub open spec fn tree_scsi_host(h: SpecScsiHost, p: Seq<char>, is_last: bool) -> Seq<char> {
    let cp = p + cont(is_last);
    host_line(h, p, is_last) + match h.transport {
        Some(t) => tree_transport(t, cp),
        None => Seq::empty(),
    } + tree_all(h.targets, cp, target_tree())
}

fn push_host_line(out: &mut String, host: &ScsiHost, prefix: &str, is_last: bool)
    ensures
        final(out)@ == old(out)@ + host_line(host@, prefix@, is_last),
{
    let mut details: Vec<String> = Vec::new();
    match &host.proc_name {
        Some(n) => details.push(n.clone()),
        None => {},
    }
    match &host.ata_port {
        Some(a) => details.push(a.clone()),
        None => {},
    }
    match &host.transport {
        Some(TransportInfo::Fc(_)) => details.push(to_string("FC")),
        Some(TransportInfo::Sas(_)) => details.push(to_string("SAS")),
        Some(TransportInfo::Iscsi(_)) => details.push(to_string("iSCSI")),
        None => {},
    }
    assert(strs_view(details@) =~= host_details(host@));
    out.append(prefix);
    out.append(connector(is_last));
    out.append("host");
    push_u64(out, host.host_num as u64);
    if details.len() > 0 {
        out.append(" (");
        push_join(out, &details, ", ");
        out.append(")");
    }
    out.append("\n");
    assert(out@ =~= old(out)@ + host_line(host@, prefix@, is_last));
}

/// A SCSI host with its transport details, then its targets.
pub fn render_scsi_host(out: &mut String, host: &ScsiHost, prefix: &str, is_last: bool)
    ensures
        final(out)@ == old(out)@ + tree_scsi_host(host@, prefix@, is_last),
{
    proof {
        reveal(tree_scsi_host);
    }
    push_host_line(out, host, prefix, is_last);
    let cp = child_prefix(prefix, is_last);
    match &host.transport {
        Some(t) => render_transport_info(out, t, cp.as_str()),
        None => {},
    }
    let ghost after = out@;
    let ghost vs = targets_view(host.targets@);
    let mut i: usize = 0;
    while i < host.targets.len()
        invariant
            i <= host.targets@.len(),
            vs == targets_view(host.targets@),
            out@ == after + tree_items(vs, i as int, cp@, target_tree()),
        decreases host.targets@.len() - i,
    {
        render_scsi_target(out, &host.targets[i], cp.as_str(), i + 1 == host.targets.len());
        i = i + 1;
        assert(out@ =~= after + tree_items(vs, i as int, cp@, target_tree()));
    }
    assert(out@ =~= old(out)@ + tree_scsi_host(host@, prefix@, is_last));
}

// ---------------------------------------------------------------------------
// PCI
// ---------------------------------------------------------------------------
/// The kind of a storage controller, from the leading digits of its class code.
pub open spec fn class_desc(c: Seq<char>) -> Seq<char> {
    if has_prefix(c, "0x0106"@) {
        "SATA controller"@
    } else if has_prefix(c, "0x0108"@) {
        "NVMe controller"@
    } else if has_prefix(c, "0x0107"@) {
        "SAS controller"@
    } else if has_prefix(c, "0x0104"@) {
        "RAID controller"@
    } else if has_prefix(c, "0x0100"@) {
        "SCSI controller"@
    } else if has_prefix(c, "0x0101"@) {
        "IDE controller"@
    } else if has_prefix(c, "0x0102"@) {
        "Floppy controller"@
    } else if has_prefix(c, "0x0105"@) {
        "ATA controller"@
    } else if has_prefix(c, "0x01"@) {
        "storage controller"@
    } else {
        "device"@
    }
}

pub open spec fn spec_describe_pci_device(v: Seq<char>, d: Seq<char>, c: Seq<char>) -> Seq<char> {
    class_desc(c) + " ["@ + v + " "@ + d + "]"@
}

fn class_desc_exec(c: &str) -> (r: &'static str)
    ensures
        r@ == class_desc(c@),
{
    if starts_with(c, "0x0106") {
        "SATA controller"
    } else if starts_with(c, "0x0108") {
        "NVMe controller"
    } else if starts_with(c, "0x0107") {
        "SAS controller"
    } else if starts_with(c, "0x0104") {
        "RAID controller"
    } else if starts_with(c, "0x0100") {
        "SCSI controller"
    } else if starts_with(c, "0x0101") {
        "IDE controller"
    } else if starts_with(c, "0x0102") {
        "Floppy controller"
    } else if starts_with(c, "0x0105") {
        "ATA controller"
    } else if starts_with(c, "0x01") {
        "storage controller"
    } else {
        "device"
    }
}

/// A label for a PCI device: its kind from the class code, then the raw vendor and device ids.
pub fn describe_pci_device(vendor_id: &str, device_id: &str, class_code: &str) -> (r: String)
    ensures
        r@ == spec_describe_pci_device(vendor_id@, device_id@, class_code@),
{
    let mut r = to_string(class_desc_exec(class_code));
    r.append(" [");
    r.append(vendor_id);
    r.append(" ");
    r.append(device_id);
    r.append("]");
    assert(r@ =~= spec_describe_pci_device(vendor_id@, device_id@, class_code@));
    r
}

pub open spec fn ctrl_child_tree() -> spec_fn(SpecControllerChild, Seq<char>, bool) -> Seq<char> {
    |c: SpecControllerChild, p: Seq<char>, l: bool|
        match c {
            SpecControllerChild::NvmeController(n) => tree_nvme_ctrl(n, p, l),
            SpecControllerChild::ScsiHost(h) => tree_scsi_host(h, p, l),
        }
}

pub open spec fn controller_line(c: SpecStorageController, p: Seq<char>, is_last: bool) -> Seq<char> {
    p + conn(is_last) + seq!['['] + c.address + "] "@ + spec_describe_pci_device(
        c.vendor_id,
        c.device_id,
        c.class_code,
    ) + opt_wrap(c.driver, " (driver: "@, ")"@) + "\n"@
}

#[verifier::opaque]
pub open spec fn tree_storage_controller(c: SpecStorageController, p: Seq<char>, is_last: bool) -> Seq<
    char,
> {
    controller_line(c, p, is_last) + tree_all(c.children, p + cont(is_last), ctrl_child_tree())
}

/// A storage controller, then the SCSI hosts and NVMe controllers behind it.
pub fn render_storage_controller(
    out: &mut String,
    ctrl: &StorageController,
    prefix: &str,
    is_last: bool,
)
    ensures
        final(out)@ == old(out)@ + tree_storage_controller(ctrl@, prefix@, is_last),
{
    proof {
        reveal(tree_storage_controller);
    }
    let label = describe_pci_device(
        ctrl.vendor_id.as_str(),
        ctrl.device_id.as_str(),
        ctrl.class_code.as_str(),
    );
    out.append(prefix);
    out.append(connector(is_last));
    out.push('[');
    out.append(ctrl.address.as_str());
    out.append("] ");
    out.append(label.as_str());
    push_opt_wrap(out, &ctrl.driver, " (driver: ", ")");
    out.append("\n");
    assert(out@ =~= old(out)@ + controller_line(ctrl@, prefix@, is_last));
    let cp = child_prefix(prefix, is_last);
    let ghost after = out@;
    let ghost vs = ctrl_children_view(ctrl.children@);
    let mut i: usize = 0;
    while i < ctrl.children.len()
        invariant
            i <= ctrl.children@.len(),
            vs == ctrl_children_view(ctrl.children@),
            out@ == after + tree_items(vs, i as int, cp@, ctrl_child_tree()),
        decreases ctrl.children@.len() - i,
    {
        let child_is_last = i + 1 == ctrl.children.len();
        match &ctrl.children[i] {
            ControllerChild::NvmeController(nvme) => {
                render_nvme_controller(out, nvme, cp.as_str(), child_is_last);
            },
            ControllerChild::ScsiHost(host) => {
                render_scsi_host(out, host, cp.as_str(), child_is_last);
            },
        }
        i = i + 1;
        assert(out@ =~= after + tree_items(vs, i as int, cp@, ctrl_child_tree()));
    }
    assert(out@ =~= old(out)@ + tree_storage_controller(ctrl@, prefix@, is_last));
}

/// A PCI node drawn under `p`, and the tree below it.
pub open spec fn tree_pci_node(n: SpecPciNode, p: Seq<char>, is_last: bool) -> Seq<char>
    decreases n,
{
    match n {
        SpecPciNode::Bridge(b) => p + conn(is_last) + seq!['['] + b.address + "] bridge"@ + opt_wrap(
            b.driver,
            " (driver: "@,
            ")"@,
        ) + "\n"@ + tree_pci_nodes(b.children, b.children.len() as int, p + cont(is_last)),
        SpecPciNode::StorageController(c) => tree_storage_controller(c, p, is_last),
    }
}

/// The first `k` of the sibling PCI nodes `s`, under `p`.
pub open spec fn tree_pci_nodes(s: Seq<SpecPciNode>, k: int, p: Seq<char>) -> Seq<char>
    decreases s, k,
{
    if k <= 0 || k > s.len() {
        Seq::empty()
    } else {
        tree_pci_nodes(s, k - 1, p) + tree_pci_node(s[k - 1], p, k == s.len())
    }
}

/// A bridge, and the tree below it.
fn render_bridge(out: &mut String, bridge: &crate::types::PciBridge, prefix: &str, is_last: bool)
    ensures
        final(out)@ == old(out)@ + tree_pci_node(SpecPciNode::Bridge(bridge@), prefix@, is_last),
    decreases pci_node_depth(SpecPciNode::Bridge(bridge@)), 1nat,
{
    proof {
        lemma_nodes_view(bridge.children@, bridge.children@.len() as int);
    }
    out.append(prefix);
    out.append(connector(is_last));
    out.push('[');
    out.append(bridge.address.as_str());
    out.append("] bridge");
    push_opt_wrap(out, &bridge.driver, " (driver: ", ")");
    out.append("\n");
    let cp = child_prefix(prefix, is_last);
    render_pci_children(out, &bridge.children, cp.as_str());
    assert(out@ =~= old(out)@ + tree_pci_node(SpecPciNode::Bridge(bridge@), prefix@, is_last));
}

/// Sibling PCI nodes under `prefix`: bridges with the tree below them, and storage controllers.
pub fn render_pci_children(out: &mut String, children: &Vec<PciNode>, prefix: &str)
    ensures
        final(out)@ == old(out)@ + tree_pci_nodes(
            nodes_view(children@),
            children@.len() as int,
            prefix@,
        ),
    decreases pci_nodes_depth(nodes_view(children@), children@.len() as int), 2nat,
{
    let ghost vs = nodes_view(children@);
    proof {
        lemma_nodes_view(children@, children@.len() as int);
    }
    let ghost start = out@;
    let count = children.len();
    let mut i: usize = 0;
    while i < count
        invariant
            count == children@.len(),
            i <= count,
            vs == nodes_view(children@),
            vs.len() == count,
            forall|k: int| 0 <= k < count ==> #[trigger] vs[k] == children@[k]@,
            out@ == start + tree_pci_nodes(vs, i as int, prefix@),
        decreases count - i,
    {
        let is_last = i + 1 == count;
        let ghost before = out@;
        assert(vs[i as int] == children@[i as int]@);
        match &children[i] {
            PciNode::Bridge(bridge) => {
                proof {
                    lemma_nodes_depth(vs, count as int, i as int);
                }
                render_bridge(out, bridge, prefix, is_last);
            },
            PciNode::StorageController(ctrl) => {
                render_storage_controller(out, ctrl, prefix, is_last);
            },
        }
        assert(out@ =~= before + tree_pci_node(vs[i as int], prefix@, is_last));
        i = i + 1;
        assert(out@ =~= start + tree_pci_nodes(vs, i as int, prefix@));
    }
}

// ---------------------------------------------------------------------------
// Device mapper
// ---------------------------------------------------------------------------
/// The HBAs behind the paths of a device-mapper device: each host number once,
/// in order of first appearance.
pub open spec fn distinct_hosts(s: Seq<SpecDmSlave>) -> Seq<u32>
    decreases s.len(),
{
    if s.len() == 0 {
        Seq::empty()
    } else {
        let d = distinct_hosts(s.drop_last());
        match s.last().host_num {
            Some(h) => if d.contains(h) {
                d
            } else {
                d.push(h)
            },
            None => d,
        }
    }
}

pub open spec fn spec_multipath_summary(s: Seq<SpecDmSlave>) -> Seq<char> {
    let n = s.len();
    let nh = distinct_hosts(s).len();
    if n < 2 || nh == 0 {
        Seq::empty()
    } else if nh == 1 {
        ", "@ + dec(n) + " paths via 1 HBA, multi-port"@
    } else {
        ", "@ + dec(n) + " paths via "@ + dec(nh) + " HBAs"@
    }
}

/// ", N paths via M HBAs" for a device with two or more paths, at least one of
/// them through a known host; "multi-port" where all go through one host.
pub fn multipath_summary(slaves: &Vec<DmSlave>) -> (r: String)
    ensures
        r@ == spec_multipath_summary(slaves_view(slaves@)),
{
    let ghost vs = slaves_view(slaves@);
    let num_paths = slaves.len();
    if num_paths < 2 {
        return String::new();
    }
    let mut unique_hosts: Vec<u32> = Vec::new();
    let mut i: usize = 0;
    while i < slaves.len()
        invariant
            i <= slaves@.len(),
            vs == slaves_view(slaves@),
            unique_hosts@ == distinct_hosts(vs.take(i as int)),
            unique_hosts@.len() <= i,
        decreases slaves@.len() - i,
    {
        assert(vs.take(i + 1).drop_last() =~= vs.take(i as int));
        match slaves[i].host_num {
            Some(h) => {
                let mut found = false;
                let mut j: usize = 0;
                while j < unique_hosts.len()
                    invariant
                        j <= unique_hosts@.len(),
                        found == exists|k: int| 0 <= k < j && unique_hosts@[k] == h,
                    decreases unique_hosts@.len() - j,
                {
                    if unique_hosts[j] == h {
                        found = true;
                    }
                    j = j + 1;
                }
                if !found {
                    unique_hosts.push(h);
                }
            },
            None => {},
        }
        i = i + 1;
    }
    assert(vs.take(num_paths as int) =~= vs);
    let num_hosts = unique_hosts.len();
    let mut r = String::new();
    if num_hosts == 0 {
        return r;
    }
    r.append(", ");
    push_u64(&mut r, num_paths as u64);
    if num_hosts == 1 {
        r.append(" paths via 1 HBA, multi-port");
    } else {
        r.append(" paths via ");
        push_u64(&mut r, num_hosts as u64);
        r.append(" HBAs");
    }
    assert(r@ =~= spec_multipath_summary(vs));
    r
}

/// The HBAs that the multipath summary counts are the hosts of the paths,
/// each counted once.
pub proof fn lemma_distinct_hosts(s: Seq<SpecDmSlave>)
    ensures
        distinct_hosts(s).no_duplicates(),
        forall|h: u32|
            #[trigger] distinct_hosts(s).contains(h) <==> exists|i: int|
                0 <= i < s.len() && #[trigger] s[i].host_num == Some(h),
    decreases s.len(),
{
    if s.len() > 0 {
        let t = s.drop_last();
        let d = distinct_hosts(t);
        lemma_distinct_hosts(t);
        assert forall|h: u32| #[trigger] distinct_hosts(s).contains(h) <==> exists|i: int|
            0 <= i < s.len() && #[trigger] s[i].host_num == Some(h) by {
            if distinct_hosts(s).contains(h) {
                if d.contains(h) {
                    let i = choose|i: int| 0 <= i < t.len() && #[trigger] t[i].host_num == Some(h);
                    assert(s[i] == t[i]);
                } else {
                    assert(s[s.len() - 1].host_num == Some(h));
                }
            }
            if exists|i: int| 0 <= i < s.len() && #[trigger] s[i].host_num == Some(h) {
                let i = choose|i: int| 0 <= i < s.len() && #[trigger] s[i].host_num == Some(h);
                if i < t.len() {
                    assert(t[i] == s[i]);
                    assert(d.contains(h));
                    let j = choose|j: int| 0 <= j < d.len() && d[j] == h;
                    assert(distinct_hosts(s)[j] == h);
                } else {
                    if !d.contains(h) {
                        assert(distinct_hosts(s)[d.len() as int] == h);
                    }
                }
            }
        }
        match s.last().host_num {
            Some(h) => {
                if !d.contains(h) {
                    let e = d.push(h);
                    assert forall|i: int, j: int| 0 <= i < e.len() && 0 <= j < e.len() && i != j implies e[i] != e[j] by {
                        if i < d.len() && j < d.len() {
                            assert(e[i] == d[i] && e[j] == d[j]);
                        } else if i < d.len() {
                            assert(e[i] == d[i]);
                        } else {
                            assert(e[j] == d[j]);
                        }
                    }
                }
            },
            None => {},
        }
    }
}

/// What the paths of a device-mapper device are grouped by: the host with its
/// driver and PCI address, or nothing where the host is not known.
pub open spec fn host_key(s: SpecDmSlave) -> Option<(u32, Option<Seq<char>>, Option<Seq<char>>)> {
    match s.host_num {
        Some(n) => Some((n, s.host_driver, s.pci_address)),
        None => None,
    }
}

pub open spec fn find_group(
    g: Seq<(Option<(u32, Option<Seq<char>>, Option<Seq<char>>)>, Seq<SpecDmSlave>)>,
    k: Option<(u32, Option<Seq<char>>, Option<Seq<char>>)>,
    i: int,
) -> int
    decreases g.len() - i,
{
    if i >= g.len() || i < 0 {
        -1
    } else if g[i].0 == k {
        i
    } else {
        find_group(g, k, i + 1)
    }
}

/// The paths grouped by host key, groups in order of first appearance, paths in order.
pub open spec fn slave_groups(s: Seq<SpecDmSlave>) -> Seq<
    (Option<(u32, Option<Seq<char>>, Option<Seq<char>>)>, Seq<SpecDmSlave>),
>
    decreases s.len(),
{
    if s.len() == 0 {
        Seq::empty()
    } else {
        let g = slave_groups(s.drop_last());
        let k = host_key(s.last());
        let j = find_group(g, k, 0);
        if j >= 0 {
            g.update(j, (k, g[j].1.push(s.last())))
        } else {
            g.push((k, seq![s.last()]))
        }
    }
}

/// The paths whose host key is `k`.
pub open spec fn key_is(k: Option<(u32, Option<Seq<char>>, Option<Seq<char>>)>) -> spec_fn(SpecDmSlave) -> bool {
    |x: SpecDmSlave| host_key(x) == k
}

proof fn lemma_find_group(
    g: Seq<(Option<(u32, Option<Seq<char>>, Option<Seq<char>>)>, Seq<SpecDmSlave>)>,
    k: Option<(u32, Option<Seq<char>>, Option<Seq<char>>)>,
    i: int,
)
    requires
        0 <= i <= g.len(),
    ensures
        find_group(g, k, i) >= 0 ==> i <= find_group(g, k, i) < g.len() && g[find_group(g, k, i)].0 == k,
        find_group(g, k, i) < 0 ==> forall|q: int| i <= q < g.len() ==> g[q].0 != k,
    decreases g.len() - i,
{
    if i < g.len() {
        lemma_find_group(g, k, i + 1);
    }
}

proof fn lemma_filter_none(s: Seq<SpecDmSlave>, p: spec_fn(SpecDmSlave) -> bool)
    requires
        forall|i: int| 0 <= i < s.len() ==> !p(#[trigger] s[i]),
    ensures
        s.filter(p) == Seq::<SpecDmSlave>::empty(),
    decreases s.len(),
{
    reveal(Seq::filter);
    if s.len() > 0 {
        lemma_filter_none(s.drop_last(), p);
        assert(!p(s[s.len() - 1]));
    }
}

/// The paths of a device-mapper device are grouped by host: no two groups
/// share a host key, every path has the group of its key, and each group holds
/// exactly the paths with its key, in their order.
pub proof fn lemma_slave_groups(s: Seq<SpecDmSlave>)
    ensures
        forall|i: int, j: int|
            0 <= i < j < slave_groups(s).len() ==> #[trigger] slave_groups(s)[i].0 != #[trigger] slave_groups(s)[j].0,
        forall|i: int|
            0 <= i < slave_groups(s).len() ==> #[trigger] slave_groups(s)[i].1 == s.filter(
                key_is(slave_groups(s)[i].0),
            ),
        forall|j: int|
            0 <= j < s.len() ==> exists|i: int|
                0 <= i < slave_groups(s).len() && #[trigger] slave_groups(s)[i].0 == host_key(#[trigger] s[j]),
    decreases s.len(),
{
    reveal(Seq::filter);
    if s.len() > 0 {
        let t = s.drop_last();
        let x = s.last();
        let k = host_key(x);
        let g0 = slave_groups(t);
        lemma_slave_groups(t);
        lemma_find_group(g0, k, 0);
        let j = find_group(g0, k, 0);
        let g = slave_groups(s);
        if j >= 0 {
            assert(g == g0.update(j, (k, g0[j].1.push(x))));
            assert forall|a: int, b: int| 0 <= a < b < g.len() implies #[trigger] g[a].0 != #[trigger] g[b].0 by {
                assert(g[a].0 == g0[a].0 && g[b].0 == g0[b].0);
                assert(g0[a].0 != g0[b].0);
            }
            assert forall|a: int| 0 <= a < g.len() implies #[trigger] g[a].1 == s.filter(key_is(g[a].0)) by {
                assert(s.filter(key_is(g[a].0)) == {
                    let sub = t.filter(key_is(g[a].0));
                    if key_is(g[a].0)(x) {
                        sub.push(x)
                    } else {
                        sub
                    }
                });
                if a == j {
                } else {
                    assert(g0[a].0 != g0[j].0);
                }
            }
            assert forall|q: int| 0 <= q < s.len() implies exists|i: int|
                0 <= i < g.len() && #[trigger] g[i].0 == host_key(#[trigger] s[q]) by {
                if q < t.len() {
                    assert(s[q] == t[q]);
                    let i = choose|i: int| 0 <= i < g0.len() && #[trigger] g0[i].0 == host_key(t[q]);
                    assert(g[i].0 == g0[i].0);
                } else {
                    assert(g[j].0 == host_key(s[q]));
                }
            }
        } else {
            assert(g == g0.push((k, seq![x])));
            assert forall|a: int, b: int| 0 <= a < b < g.len() implies #[trigger] g[a].0 != #[trigger] g[b].0 by {
                if b < g0.len() {
                    assert(g0[a].0 != g0[b].0);
                } else {
                    assert(g0[a].0 != k);
                }
            }
            assert forall|a: int| 0 <= a < g.len() implies #[trigger] g[a].1 == s.filter(key_is(g[a].0)) by {
                assert(s.filter(key_is(g[a].0)) == {
                    let sub = t.filter(key_is(g[a].0));
                    if key_is(g[a].0)(x) {
                        sub.push(x)
                    } else {
                        sub
                    }
                });
                if a < g0.len() {
                    assert(g0[a].0 != k);
                } else {
                    assert forall|q: int| 0 <= q < t.len() implies !key_is(k)(#[trigger] t[q]) by {
                        let i = choose|i: int| 0 <= i < g0.len() && #[trigger] g0[i].0 == host_key(t[q]);
                        assert(g0[i].0 != k);
                    }
                    lemma_filter_none(t, key_is(k));
                    assert(seq![x] =~= Seq::<SpecDmSlave>::empty().push(x));
                }
            }
            assert forall|q: int| 0 <= q < s.len() implies exists|i: int|
                0 <= i < g.len() && #[trigger] g[i].0 == host_key(#[trigger] s[q]) by {
                if q < t.len() {
                    assert(s[q] == t[q]);
                    let i = choose|i: int| 0 <= i < g0.len() && #[trigger] g0[i].0 == host_key(t[q]);
                    assert(g[i].0 == g0[i].0);
                } else {
                    assert(g[g0.len() as int].0 == host_key(s[q]));
                }
            }
        }
    }
}

/// The paths of a device-mapper device behind one host (or behind no known host).
pub struct SlaveGroup {
    pub host_num: Option<u32>,
    pub host_driver: Option<String>,
    pub pci_address: Option<String>,
    pub slaves: Vec<DmSlave>,
}

impl View for SlaveGroup {
    type V = (Option<(u32, Option<Seq<char>>, Option<Seq<char>>)>, Seq<SpecDmSlave>);

    open spec fn view(&self) -> Self::V {
        (
            match self.host_num {
                Some(n) => Some((n, opt_view(self.host_driver), opt_view(self.pci_address))),
                None => None,
            },
            slaves_view(self.slaves@),
        )
    }
}

pub open spec fn groups_view(v: Seq<SlaveGroup>) -> Seq<
    (Option<(u32, Option<Seq<char>>, Option<Seq<char>>)>, Seq<SpecDmSlave>),
> {
    v.map_values(|g: SlaveGroup| g@)
}

fn opt_str_eq(a: &Option<String>, b: &Option<String>) -> (r: bool)
    ensures
        r == (opt_view(*a) == opt_view(*b)),
{
    match (a, b) {
        (Some(x), Some(y)) => str_eq(x.as_str(), y.as_str()),
        (None, None) => true,
        _ => false,
    }
}

fn same_key(g: &SlaveGroup, s: &DmSlave) -> (r: bool)
    ensures
        r == (g@.0 == host_key(s@)),
{
    match (g.host_num, s.host_num) {
        (Some(a), Some(b)) => a == b && opt_str_eq(&g.host_driver, &s.host_driver) && opt_str_eq(
            &g.pci_address,
            &s.pci_address,
        ),
        (None, None) => true,
        _ => false,
    }
}

/// Groups the paths of a device-mapper device by the host they go through.
pub fn group_slaves_by_host(slaves: &Vec<DmSlave>) -> (r: Vec<SlaveGroup>)
    ensures
        groups_view(r@) == slave_groups(slaves_view(slaves@)),
{
    let ghost vs = slaves_view(slaves@);
    let mut groups: Vec<SlaveGroup> = Vec::new();
    let mut i: usize = 0;
    while i < slaves.len()
        invariant
            i <= slaves@.len(),
            vs == slaves_view(slaves@),
            groups_view(groups@) == slave_groups(vs.take(i as int)),
        decreases slaves@.len() - i,
    {
        let ghost g = groups_view(groups@);
        let slave = &slaves[i];
        assert(vs.take(i + 1).drop_last() =~= vs.take(i as int));
        assert(vs.take(i + 1).last() == slave@);
        let mut j: usize = 0;
        while j < groups.len() && !same_key(&groups[j], slave)
            invariant
                j <= groups@.len(),
                g == groups_view(groups@),
                find_group(g, host_key(slave@), 0) == find_group(g, host_key(slave@), j as int),
            decreases groups@.len() - j,
        {
            j = j + 1;
        }
        if j < groups.len() {
            assert(find_group(g, host_key(slave@), j as int) == j);
            let mut grp = groups.remove(j);
            assert(grp@ == g[j as int]);
            let ghost before_members = slaves_view(grp.slaves@);
            let copy = slave.clone();
            grp.slaves.push(copy);
            assert(slaves_view(grp.slaves@) =~= before_members.push(slave@));
            assert(grp@ == (host_key(slave@), g[j as int].1.push(slave@)));
            groups.insert(j, grp);
            assert(groups_view(groups@) =~= g.update(j as int, (host_key(slave@), g[j as int].1.push(slave@))));
        } else {
            assert(find_group(g, host_key(slave@), j as int) == -1);
            let mut members: Vec<DmSlave> = Vec::new();
            members.push(slave.clone());
            let grp = SlaveGroup {
                host_num: slave.host_num,
                host_driver: match &slave.host_driver {
                    Some(s) => Some(s.clone()),
                    None => None,
                },
                pci_address: match &slave.pci_address {
                    Some(s) => Some(s.clone()),
                    None => None,
                },
                slaves: members,
            };
            assert(slaves_view(grp.slaves@) =~= seq![slave@]);
            assert(grp@ == (host_key(slave@), seq![slave@]));
            groups.push(grp);
            assert(groups_view(groups@) =~= g.push((host_key(slave@), seq![slave@])));
        }
        i = i + 1;
    }
    assert(vs.take(slaves@.len() as int) =~= vs);
    groups
}

pub open spec fn slave_line(s: SpecDmSlave, p: Seq<char>, is_last: bool) -> Seq<char> {
    p + conn(is_last) + s.device_name + opt_wrap(s.hctl, " ["@, "]"@) + "\n"@
}

pub open spec fn slave_tree() -> spec_fn(SpecDmSlave, Seq<char>, bool) -> Seq<char> {
    |x: SpecDmSlave, p: Seq<char>, l: bool| slave_line(x, p, l)
}

/// A path of a device-mapper device with its H:C:T:L address.
pub fn render_dm_slave(out: &mut String, slave: &DmSlave, prefix: &str, is_last: bool)
    ensures
        final(out)@ == old(out)@ + slave_line(slave@, prefix@, is_last),
{
    out.append(prefix);
    out.append(connector(is_last));
    out.append(slave.device_name.as_str());
    push_opt_wrap(out, &slave.hctl, " [", "]");
    out.append("\n");
    assert(out@ =~= old(out)@ + slave_line(slave@, prefix@, is_last));
}

/// The paths of an unknown host, each as "← name", the last one closing the
/// device's children where `group_is_last`.
pub open spec fn loose_slaves(s: Seq<SpecDmSlave>, k: int, p: Seq<char>, group_is_last: bool) -> Seq<char>
    decreases k,
{
    if k <= 0 {
        Seq::empty()
    } else {
        loose_slaves(s, k - 1, p, group_is_last) + p + conn(k == s.len() && group_is_last) + "\u{2190} "@
            + s[k - 1].device_name + "\n"@
    }
}

#[verifier::opaque]
pub open spec fn tree_dm_group(
    g: (Option<(u32, Option<Seq<char>>, Option<Seq<char>>)>, Seq<SpecDmSlave>),
    p: Seq<char>,
    is_last: bool,
) -> Seq<char> {
    match g.0 {
        Some((n, drv, pci)) => p + conn(is_last) + "host"@ + dec(n as nat) + opt_wrap(drv, " ("@, ")"@)
            + opt_wrap(pci, " ["@, "]"@) + "\n"@ + tree_all(g.1, p + cont(is_last), slave_tree()),
        None => loose_slaves(g.1, g.1.len() as int, p, is_last),
    }
}

/// The first `k` host groups of a device-mapper device, which has `total` children.
pub open spec fn tree_dm_groups(
    g: Seq<(Option<(u32, Option<Seq<char>>, Option<Seq<char>>)>, Seq<SpecDmSlave>)>,
    k: int,
    p: Seq<char>,
    total: int,
) -> Seq<char>
    decreases k,
{
    if k <= 0 {
        Seq::empty()
    } else {
        tree_dm_groups(g, k - 1, p, total) + tree_dm_group(g[k - 1], p, k == total)
    }
}

/// The first `k` partitions of a device-mapper device, after its `before` host groups.
pub open spec fn tree_dm_parts(parts: Seq<SpecPartition>, k: int, p: Seq<char>, before: int, total: int) -> Seq<
    char,
>
    decreases k,
{
    if k <= 0 {
        Seq::empty()
    } else {
        tree_dm_parts(parts, k - 1, p, before, total) + sized_line(
            p,
            before + k == total,
            parts[k - 1].name,
            parts[k - 1].size_bytes,
        )
    }
}

pub open spec fn dm_line(dm: SpecDmDevice, p: Seq<char>, is_last: bool) -> Seq<char> {
    p + conn(is_last) + dm.dm_name + " ("@ + dm.dm_type + ", "@ + dm.name + ", "@ + spec_format_size(
        dm.size_bytes,
    ) + spec_multipath_summary(dm.slaves) + ")\n"@
}

#[verifier::opaque]
pub open spec fn tree_dm_device(dm: SpecDmDevice, p: Seq<char>, is_last: bool) -> Seq<char> {
    let cp = p + cont(is_last);
    let groups = slave_groups(dm.slaves);
    let total = (groups.len() + dm.partitions.len()) as int;
    dm_line(dm, p, is_last) + tree_dm_groups(groups, groups.len() as int, cp, total)
        + tree_dm_parts(dm.partitions, dm.partitions.len() as int, cp, groups.len() as int, total)
}

pub open spec fn dm_tree() -> spec_fn(SpecDmDevice, Seq<char>, bool) -> Seq<char> {
    |x: SpecDmDevice, p: Seq<char>, l: bool| tree_dm_device(x, p, l)
}

fn render_dm_group(out: &mut String, g: &SlaveGroup, prefix: &str, group_is_last: bool)
    ensures
        final(out)@ == old(out)@ + tree_dm_group(g@, prefix@, group_is_last),
{
    proof {
        reveal(tree_dm_group);
    }
    let ghost members = slaves_view(g.slaves@);
    match g.host_num {
        Some(host_num) => {
            out.append(prefix);
            out.append(connector(group_is_last));
            out.append("host");
            push_u64(out, host_num as u64);
            push_opt_wrap(out, &g.host_driver, " (", ")");
            push_opt_wrap(out, &g.pci_address, " [", "]");
            out.append("\n");
            let gp = child_prefix(prefix, group_is_last);
            let ghost after = out@;
            let mut i: usize = 0;
            while i < g.slaves.len()
                invariant
                    i <= g.slaves@.len(),
                    members == slaves_view(g.slaves@),
                    out@ == after + tree_items(members, i as int, gp@, slave_tree()),
                decreases g.slaves@.len() - i,
            {
                render_dm_slave(out, &g.slaves[i], gp.as_str(), i + 1 == g.slaves.len());
                i = i + 1;
                assert(out@ =~= after + tree_items(members, i as int, gp@, slave_tree()));
            }
        },
        None => {
            let ghost start = out@;
            let mut i: usize = 0;
            while i < g.slaves.len()
                invariant
                    i <= g.slaves@.len(),
                    members == slaves_view(g.slaves@),
                    out@ == start + loose_slaves(members, i as int, prefix@, group_is_last),
                decreases g.slaves@.len() - i,
            {
                out.append(prefix);
                out.append(connector(i + 1 == g.slaves.len() && group_is_last));
                out.append("\u{2190} ");
                out.append(g.slaves[i].device_name.as_str());
                out.append("\n");
                i = i + 1;
                assert(out@ =~= start + loose_slaves(members, i as int, prefix@, group_is_last));
            }
        },
    }
    assert(out@ =~= old(out)@ + tree_dm_group(g@, prefix@, group_is_last));
}

fn push_dm_line(out: &mut String, dm: &DmDevice, prefix: &str, is_last: bool)
    ensures
        final(out)@ == old(out)@ + dm_line(dm@, prefix@, is_last),
{
    let size_str = format_size(dm.size_bytes);
    let path_str = multipath_summary(&dm.slaves);
    out.append(prefix);
    out.append(connector(is_last));
    out.append(dm.dm_name.as_str());
    out.append(" (");
    out.append(dm.dm_type.as_str());
    out.append(", ");
    out.append(dm.name.as_str());
    out.append(", ");
    out.append(size_str.as_str());
    out.append(path_str.as_str());
    out.append(")\n");
    assert(out@ =~= old(out)@ + dm_line(dm@, prefix@, is_last));
}

/// A device-mapper device: its paths grouped by host, then its partitions.
pub fn render_dm_device(out: &mut String, dm: &DmDevice, prefix: &str, is_last: bool)
    ensures
        final(out)@ == old(out)@ + tree_dm_device(dm@, prefix@, is_last),
{
    proof {
        reveal(tree_dm_device);
    }
    push_dm_line(out, dm, prefix, is_last);
    let cp = child_prefix(prefix, is_last);
    let host_groups = group_slaves_by_host(&dm.slaves);
    let ghost gs = groups_view(host_groups@);
    let ghost parts = partitions_view(dm.partitions@);
    let ghost total: int = (gs.len() + parts.len()) as int;
    let ghost after_line = out@;
    let mut gi: usize = 0;
    while gi < host_groups.len()
        invariant
            gi <= host_groups@.len(),
            gs == groups_view(host_groups@),
            parts == partitions_view(dm.partitions@),
            total == gs.len() + parts.len(),
            out@ == after_line + tree_dm_groups(gs, gi as int, cp@, total),
        decreases host_groups@.len() - gi,
    {
        let group_is_last = gi + 1 == host_groups.len() && dm.partitions.len() == 0;
        render_dm_group(out, &host_groups[gi], cp.as_str(), group_is_last);
        gi = gi + 1;
        assert(out@ =~= after_line + tree_dm_groups(gs, gi as int, cp@, total));
    }
    let ghost after_groups = out@;
    let mut i: usize = 0;
    while i < dm.partitions.len()
        invariant
            i <= dm.partitions@.len(),
            gs.len() == host_groups@.len(),
            parts == partitions_view(dm.partitions@),
            total == gs.len() + parts.len(),
            out@ == after_groups + tree_dm_parts(parts, i as int, cp@, gs.len() as int, total),
        decreases dm.partitions@.len() - i,
    {
        let part = &dm.partitions[i];
        push_sized_line(out, cp.as_str(), i + 1 == dm.partitions.len(), part.name.as_str(), part.size_bytes);
        i = i + 1;
        assert(out@ =~= after_groups + tree_dm_parts(parts, i as int, cp@, gs.len() as int, total));
    }
    assert(out@ =~= old(out)@ + tree_dm_device(dm@, prefix@, is_last));
}

// ---------------------------------------------------------------------------
// The whole topology
// ---------------------------------------------------------------------------
pub open spec fn tree_roots(rs: Seq<SpecPciRoot>, k: int) -> Seq<char>
    decreases k,
{
    if k <= 0 {
        Seq::empty()
    } else {
        tree_roots(rs, k - 1) + (if k > 1 {
            "\n"@
        } else {
            Seq::empty()
        }) + "PCI "@ + rs[k - 1].domain + "\n"@ + tree_pci_nodes(
            rs[k - 1].children,
            rs[k - 1].children.len() as int,
            ""@,
        )
    }
}

/// Whether to show the NVMe Multipath section: where some subsystem has more
/// than one controller, or where there are subsystems at all.
pub open spec fn spec_interesting(subsystems: Seq<SpecNvmeSubsystem>) -> bool {
    subsystems.len() > 0 || exists|i: int|
        0 <= i < subsystems.len() && #[trigger] subsystems[i].controllers.len() > 1
}

/// Whether to show the NVMe Multipath section.
pub fn has_interesting_subsystems(subsystems: &Vec<NvmeSubsystem>) -> (r: bool)
    ensures
        r == spec_interesting(subsystems_view(subsystems@)),
{
    subsystems.len() > 0
}

/// The whole tree: the PCI roots, then the NVMe-oF controllers, the NVMe
/// subsystems where there are any, and the device-mapper devices,
/// each section that is shown separated from the one before by an empty line.
pub open spec fn tree_topology(t: SpecTopology) -> Seq<char> {
    let show_roots = t.pci_roots.len() > 0;
    let show_fabrics = t.fabrics_controllers.len() > 0;
    let show_multipath = spec_interesting(t.nvme_subsystems);
    let show_dm = t.dm_devices.len() > 0;
    tree_roots(t.pci_roots, t.pci_roots.len() as int) + (if show_fabrics {
        (if show_roots {
            "\n"@
        } else {
            Seq::empty()
        }) + "NVMe Fabrics\n"@ + tree_all(t.fabrics_controllers, ""@, fabrics_tree())
    } else {
        Seq::empty()
    }) + (if show_multipath {
        (if show_roots || show_fabrics {
            "\n"@
        } else {
            Seq::empty()
        }) + "NVMe Multipath\n"@ + tree_all(t.nvme_subsystems, ""@, subsystem_tree())
    } else {
        Seq::empty()
    }) + (if show_dm {
        (if show_roots || show_fabrics || show_multipath {
            "\n"@
        } else {
            Seq::empty()
        }) + "Device Mapper\n"@ + tree_all(t.dm_devices, ""@, dm_tree())
    } else {
        Seq::empty()
    })
}

fn render_roots(out: &mut String, roots: &Vec<crate::types::PciRoot>)
    ensures
        final(out)@ == old(out)@ + tree_roots(roots_view(roots@), roots@.len() as int),
{
    let ghost vs = roots_view(roots@);
    let ghost start = out@;
    let mut i: usize = 0;
    while i < roots.len()
        invariant
            i <= roots@.len(),
            vs == roots_view(roots@),
            out@ == start + tree_roots(vs, i as int),
        decreases roots@.len() - i,
    {
        let root = &roots[i];
        let ghost before = out@;
        proof {
            lemma_nodes_view(root.children@, root.children@.len() as int);
        }
        if i > 0 {
            out.append("\n");
        }
        out.append("PCI ");
        out.append(root.domain.as_str());
        out.append("\n");
        render_pci_children(out, &root.children, "");
        i = i + 1;
        assert(out@ =~= start + tree_roots(vs, i as int));
    }
}

fn render_fabrics(out: &mut String, v: &Vec<NvmeCtrl>)
    ensures
        final(out)@ == old(out)@ + tree_all(ctrls_view(v@), ""@, fabrics_tree()),
{
    let ghost vs = ctrls_view(v@);
    let ghost start = out@;
    let mut i: usize = 0;
    while i < v.len()
        invariant
            i <= v@.len(),
            vs == ctrls_view(v@),
            out@ == start + tree_items(vs, i as int, ""@, fabrics_tree()),
        decreases v@.len() - i,
    {
        render_fabrics_controller(out, &v[i], "", i + 1 == v.len());
        i = i + 1;
        assert(out@ =~= start + tree_items(vs, i as int, ""@, fabrics_tree()));
    }
}

fn render_subsystems(out: &mut String, v: &Vec<NvmeSubsystem>)
    ensures
        final(out)@ == old(out)@ + tree_all(subsystems_view(v@), ""@, subsystem_tree()),
{
    let ghost vs = subsystems_view(v@);
    let ghost start = out@;
    let mut i: usize = 0;
    while i < v.len()
        invariant
            i <= v@.len(),
            vs == subsystems_view(v@),
            out@ == start + tree_items(vs, i as int, ""@, subsystem_tree()),
        decreases v@.len() - i,
    {
        render_subsystem(out, &v[i], "", i + 1 == v.len());
        i = i + 1;
        assert(out@ =~= start + tree_items(vs, i as int, ""@, subsystem_tree()));
    }
}

fn render_dm_devices(out: &mut String, v: &Vec<DmDevice>)
    ensures
        final(out)@ == old(out)@ + tree_all(dms_view(v@), ""@, dm_tree()),
{
    let ghost vs = dms_view(v@);
    let ghost start = out@;
    let mut i: usize = 0;
    while i < v.len()
        invariant
            i <= v@.len(),
            vs == dms_view(v@),
            out@ == start + tree_items(vs, i as int, ""@, dm_tree()),
        decreases v@.len() - i,
    {
        render_dm_device(out, &v[i], "", i + 1 == v.len());
        i = i + 1;
        assert(out@ =~= start + tree_items(vs, i as int, ""@, dm_tree()));
    }
}

/// The topology as an ASCII tree.
#[verifier::spinoff_prover]
pub fn render(topology: &Topology) -> (r: String)
    ensures
        r@ == tree_topology(topology@),
{
    let mut out = String::new();
    render_roots(&mut out, &topology.pci_roots);
    let ghost after_roots = out@;
    let show_fabrics = topology.fabrics_controllers.len() > 0;
    if show_fabrics {
        if topology.pci_roots.len() > 0 {
            out.append("\n");
        }
        out.append("NVMe Fabrics\n");
        render_fabrics(&mut out, &topology.fabrics_controllers);
    }
    let ghost after_fabrics = out@;
    let show_multipath = has_interesting_subsystems(&topology.nvme_subsystems);
    if show_multipath {
        if topology.pci_roots.len() > 0 || show_fabrics {
            out.append("\n");
        }
        out.append("NVMe Multipath\n");
        render_subsystems(&mut out, &topology.nvme_subsystems);
    }
    let ghost after_multipath = out@;
    if topology.dm_devices.len() > 0 {
        if topology.pci_roots.len() > 0 || show_fabrics || show_multipath {
            out.append("\n");
        }
        out.append("Device Mapper\n");
        render_dm_devices(&mut out, &topology.dm_devices);
    }
    assert(out@ =~= tree_topology(topology@));
    out
}

} // verus!
