//! The PCI hierarchy above the storage controllers: each controller's chain of
//! PCI devices from its root complex, merged into one tree per root.
use vstd::prelude::*;
use vstd::string::*;
use crate::sort::{lemma_sorted_strings_view, seq_lt, sort_stable, sort_strings, str_lt};
use crate::sysfs::{
    collect_pci_ancestors, find_pci_root, first_pci_root, is_pci_address, path_components,
    read_driver_of, read_hex_u32_of, read_i32_of, spec_is_pci_address, spec_pci_ancestors,
    spec_read_driver, spec_read_hex_u32, spec_read_i32,
};
use crate::text::{str_eq, to_string};
use crate::types::{
    clone_opt_string, clone_strings, lemma_nodes_view, lemma_nodes_view_pushed, nodes_view,
    opt_view, roots_view, strs_view, PciBridge, PciNode, PciRoot, SpecPciBridge, SpecPciNode,
    SpecPciRoot, SpecStorageController, StorageController,
};

verus! {

/// What sysfs holds for one entry of /sys/bus/pci/devices: the entry's name,
/// where its link resolves to, the trimmed contents of its `vendor`, `device`,
/// `class` and `numa_node` attributes, and the target of its `driver` link.
pub struct PciDeviceEntry {
    pub name: String,
    pub canonical: Option<String>,
    pub vendor: Option<String>,
    pub device: Option<String>,
    pub class: Option<String>,
    pub driver_link: Option<String>,
    pub numa_node: Option<String>,
}

/// What is known of one PCI device.
pub struct PciDeviceInfo {
    pub vendor_id: String,
    pub device_id: String,
    pub class_code: u32,
    pub driver: Option<String>,
    pub numa_node: Option<i32>,
}

pub struct SpecPciInfo {
    pub vendor_id: Seq<char>,
    pub device_id: Seq<char>,
    pub class_code: u32,
    pub driver: Option<Seq<char>>,
    pub numa_node: Option<i32>,
}

impl View for PciDeviceInfo {
    type V = SpecPciInfo;

    open spec fn view(&self) -> SpecPciInfo {
        SpecPciInfo {
            vendor_id: self.vendor_id@,
            device_id: self.device_id@,
            class_code: self.class_code,
            driver: opt_view(self.driver),
            numa_node: self.numa_node,
        }
    }
}

// ---------------------------------------------------------------------------
// Devices
// ---------------------------------------------------------------------------
/// The first entry from `i` on named `a`, or -1.
pub open spec fn find_entry(devs: Seq<PciDeviceEntry>, a: Seq<char>, i: int) -> int
    decreases devs.len() - i,
{
    if i < 0 || i >= devs.len() {
        -1
    } else if devs[i].name@ == a {
        i
    } else {
        find_entry(devs, a, i + 1)
    }
}

pub open spec fn or_zero_id(o: Option<Seq<char>>) -> Seq<char> {
    match o {
        Some(s) => s,
        None => "0x0000"@,
    }
}

/// What is known of the device at address `a`; ids "0x0000" and class 0 where unknown.
pub open spec fn pci_info(devs: Seq<PciDeviceEntry>, a: Seq<char>) -> SpecPciInfo {
    let i = find_entry(devs, a, 0);
    if i >= 0 {
        let e = devs[i];
        SpecPciInfo {
            vendor_id: or_zero_id(opt_view(e.vendor)),
            device_id: or_zero_id(opt_view(e.device)),
            class_code: match spec_read_hex_u32(opt_view(e.class)) {
                Some(c) => c,
                None => 0,
            },
            driver: spec_read_driver(opt_view(e.driver_link)),
            numa_node: spec_read_i32(opt_view(e.numa_node)),
        }
    } else {
        SpecPciInfo {
            vendor_id: "0x0000"@,
            device_id: "0x0000"@,
            class_code: 0,
            driver: None,
            numa_node: None,
        }
    }
}

fn find_entry_exec(devices: &Vec<PciDeviceEntry>, addr: &str) -> (r: Option<usize>)
    ensures
        match r {
            Some(i) => i < devices@.len() && find_entry(devices@, addr@, 0) == i,
            None => find_entry(devices@, addr@, 0) == -1,
        },
{
    let mut j: usize = 0;
    while j < devices.len() && !str_eq(devices[j].name.as_str(), addr)
        invariant
            j <= devices@.len(),
            find_entry(devices@, addr@, 0) == find_entry(devices@, addr@, j as int),
        decreases devices@.len() - j,
    {
        j = j + 1;
    }
    if j < devices.len() {
        Some(j)
    } else {
        None
    }
}

fn or_zero_id_exec(o: &Option<String>) -> (r: String)
    ensures
        r@ == or_zero_id(opt_view(*o)),
{
    match o {
        Some(s) => s.clone(),
        None => to_string("0x0000"),
    }
}

/// Reads what is known of the device at address `addr`.
pub fn read_pci_device_info(addr: &str, devices: &Vec<PciDeviceEntry>) -> (r: PciDeviceInfo)
    ensures
        r@ == pci_info(devices@, addr@),
{
    match find_entry_exec(devices, addr) {
        Some(i) => {
            let e = &devices[i];
            PciDeviceInfo {
                vendor_id: or_zero_id_exec(&e.vendor),
                device_id: or_zero_id_exec(&e.device),
                class_code: match read_hex_u32_of(&e.class) {
                    Some(c) => c,
                    None => 0,
                },
                driver: read_driver_of(&e.driver_link),
                numa_node: read_i32_of(&e.numa_node),
            }
        },
        None => PciDeviceInfo {
            vendor_id: to_string("0x0000"),
            device_id: to_string("0x0000"),
            class_code: 0,
            driver: None,
            numa_node: None,
        },
    }
}

pub open spec fn spec_is_bridge(class_code: u32) -> bool {
    class_code / 256 == 0x0604
}

pub open spec fn spec_is_storage_controller(class_code: u32) -> bool {
    0x0100 <= class_code / 256 <= 0x0108
}

/// Whether a PCI class code is that of a PCI-to-PCI bridge (class 0x0604xx).
pub fn is_bridge(class_code: u32) -> (r: bool)
    ensures
        r == spec_is_bridge(class_code),
{
    assert(class_code >> 8 == class_code / 256) by (bit_vector);
    (class_code >> 8) == 0x0604
}

/// Whether a PCI class code is that of a mass storage controller (class 0x0100xx to 0x0108xx).
pub fn is_storage_controller(class_code: u32) -> (r: bool)
    ensures
        r == spec_is_storage_controller(class_code),
{
    assert(class_code >> 8 == class_code / 256) by (bit_vector);
    let class_base = class_code >> 8;
    0x0100 <= class_base && class_base <= 0x0108
}

// ---------------------------------------------------------------------------
// Class codes in hex
// ---------------------------------------------------------------------------
pub open spec fn hex_char(d: nat) -> char {
    if d < 10 {
        ('0' as int + d) as char
    } else {
        ('a' as int + d - 10) as char
    }
}

/// Lower-case hexadecimal digits of `n`, without leading zeros.
pub open spec fn hex_digits(n: nat) -> Seq<char>
    decreases n,
{
    if n < 16 {
        seq![hex_char(n)]
    } else {
        hex_digits(n / 16).push(hex_char(n % 16))
    }
}

pub open spec fn zeros(k: int) -> Seq<char>
    decreases k,
{
    if k <= 0 {
        Seq::empty()
    } else {
        zeros(k - 1).push('0')
    }
}

/// A class code as "0x" and at least six lower-case hex digits.
pub open spec fn class_hex(c: u32) -> Seq<char> {
    let h = hex_digits(c as nat);
    "0x"@ + zeros(6 - h.len()) + h
}

fn hex_digits_exec(n: u32) -> (r: Vec<char>)
    ensures
        r@ == hex_digits(n as nat),
    decreases n,
{
    let mut r = if n >= 16 {
        hex_digits_exec(n / 16)
    } else {
        Vec::new()
    };
    let d = n % 16;
    let c: char = if d < 10 {
        ((48u32 + d) as u8) as char
    } else {
        ((87u32 + d) as u8) as char
    };
    r.push(c);
    r
}

/// Formats a class code as "0x" and six or more lower-case hex digits.
pub fn format_class_code(c: u32) -> (r: String)
    ensures
        r@ == class_hex(c),
{
    let digits = hex_digits_exec(c);
    let mut r = to_string("0x");
    proof {
        reveal_strlit("0x");
    }
    let mut k: usize = digits.len();
    let ghost start = r@;
    while k < 6
        invariant
            digits.len() <= k <= 6 || (digits.len() > 6 && k == digits.len()),
            r@ == start + zeros(k - digits@.len()),
        decreases 6 - k,
    {
        r.push('0');
        k = k + 1;
        assert(r@ =~= start + zeros(k - digits@.len()));
    }
    let ghost mid = r@;
    let mut i: usize = 0;
    while i < digits.len()
        invariant
            i <= digits@.len(),
            r@ == mid + digits@.take(i as int),
        decreases digits@.len() - i,
    {
        r.push(digits[i]);
        i = i + 1;
        assert(r@ =~= mid + digits@.take(i as int));
    }
    assert(digits@.take(digits@.len() as int) =~= digits@);
    assert(r@ =~= class_hex(c));
    r
}

// ---------------------------------------------------------------------------
// Merging chains into a tree
// ---------------------------------------------------------------------------
/// The addresses at position `depth` of the chains, each once, in order of first appearance.
pub open spec fn addrs_at(chains: Seq<Seq<Seq<char>>>, depth: nat) -> Seq<Seq<char>>
    decreases chains.len(),
{
    if chains.len() == 0 {
        Seq::empty()
    } else {
        let d = addrs_at(chains.drop_last(), depth);
        let c = chains.last();
        if depth < c.len() && !d.contains(c[depth as int]) {
            d.push(c[depth as int])
        } else {
            d
        }
    }
}

/// The chains that have `a` at position `depth`, in order.
pub open spec fn matching(chains: Seq<Seq<Seq<char>>>, depth: nat, a: Seq<char>) -> Seq<Seq<Seq<char>>>
    decreases chains.len(),
{
    if chains.len() == 0 {
        Seq::empty()
    } else {
        let r = matching(chains.drop_last(), depth, a);
        let c = chains.last();
        if depth < c.len() && c[depth as int] == a {
            r.push(c)
        } else {
            r
        }
    }
}

/// No chain goes on past position `depth`.
pub open spec fn all_end(chains: Seq<Seq<Seq<char>>>, depth: nat) -> bool {
    forall|i: int| 0 <= i < chains.len() ==> #[trigger] chains[i].len() <= depth + 1
}

pub open spec fn make_bridge(a: Seq<char>, info: SpecPciInfo, children: Seq<SpecPciNode>) -> SpecPciNode {
    SpecPciNode::Bridge(
        SpecPciBridge {
            address: a,
            vendor_id: info.vendor_id,
            device_id: info.device_id,
            driver: info.driver,
            children,
        },
    )
}

pub open spec fn make_controller(a: Seq<char>, info: SpecPciInfo) -> SpecPciNode {
    SpecPciNode::StorageController(
        SpecStorageController {
            address: a,
            vendor_id: info.vendor_id,
            device_id: info.device_id,
            class_code: class_hex(info.class_code),
            driver: info.driver,
            numa_node: info.numa_node,
            children: Seq::empty(),
        },
    )
}

/// The PCI nodes at position `depth` of the chains, which are no longer than
/// `bound`: one per address, in address order. An address where every chain ends
/// is a leaf: a bridge or a storage controller by its class. An address with
/// chains going on is a bridge over the nodes below it, unless it is a storage
/// controller: then the nodes below it follow it as its siblings.
pub open spec fn children_at(
    chains: Seq<Seq<Seq<char>>>,
    depth: nat,
    bound: nat,
    devs: Seq<PciDeviceEntry>,
) -> Seq<SpecPciNode>
    decreases bound - depth, 1nat, 0int,
{
    if depth >= bound {
        Seq::empty()
    } else {
        let order = sort_stable(addrs_at(chains, depth), seq_lt());
        nodes_for(order, order.len() as int, chains, depth, bound, devs)
    }
}

pub open spec fn nodes_for(
    order: Seq<Seq<char>>,
    k: int,
    chains: Seq<Seq<Seq<char>>>,
    depth: nat,
    bound: nat,
    devs: Seq<PciDeviceEntry>,
) -> Seq<SpecPciNode>
    decreases bound - depth, 0nat, k,
{
    if k <= 0 || depth >= bound {
        Seq::empty()
    } else {
        nodes_for(order, k - 1, chains, depth, bound, devs) + node_group(
            order[k - 1],
            chains,
            depth,
            bound,
            devs,
        )
    }
}

pub open spec fn node_group(
    a: Seq<char>,
    chains: Seq<Seq<Seq<char>>>,
    depth: nat,
    bound: nat,
    devs: Seq<PciDeviceEntry>,
) -> Seq<SpecPciNode>
    decreases bound - depth, 0nat, 0int,
{
    let sub = matching(chains, depth, a);
    let info = pci_info(devs, a);
    if depth >= bound {
        Seq::empty()
    } else if all_end(sub, depth) {
        if spec_is_bridge(info.class_code) {
            seq![make_bridge(a, info, Seq::empty())]
        } else {
            seq![make_controller(a, info)]
        }
    } else {
        let children = children_at(sub, depth + 1, bound, devs);
        if spec_is_bridge(info.class_code) {
            seq![make_bridge(a, info, children)]
        } else if spec_is_storage_controller(info.class_code) {
            seq![make_controller(a, info)] + children
        } else {
            seq![make_bridge(a, info, children)]
        }
    }
}

pub open spec fn chains_view(v: Seq<Vec<String>>) -> Seq<Seq<Seq<char>>> {
    v.map_values(|c: Vec<String>| strs_view(c@))
}

pub open spec fn within(chains: Seq<Seq<Seq<char>>>, bound: nat) -> bool {
    forall|i: int| 0 <= i < chains.len() ==> #[trigger] chains[i].len() <= bound
}

proof fn lemma_matching_within(chains: Seq<Seq<Seq<char>>>, depth: nat, a: Seq<char>, bound: nat)
    requires
        within(chains, bound),
    ensures
        within(matching(chains, depth, a), bound),
    decreases chains.len(),
{
    if chains.len() > 0 {
        lemma_matching_within(chains.drop_last(), depth, a, bound);
        assert(chains.drop_last().len() < chains.len());
        assert(within(chains.drop_last(), bound)) by {
            assert forall|i: int| 0 <= i < chains.drop_last().len() implies #[trigger] chains.drop_last()[i].len()
                <= bound by {
                assert(chains.drop_last()[i] == chains[i]);
            }
        }
    }
}

fn chain_addr_eq(chain: &Vec<String>, depth: usize, addr: &str) -> (r: bool)
    ensures
        r == (depth < chain@.len() && strs_view(chain@)[depth as int] == addr@),
{
    depth < chain.len() && str_eq(chain[depth].as_str(), addr)
}

/// The distinct addresses at position `depth`, in order of first appearance.
fn collect_order(chains: &Vec<Vec<String>>, depth: usize) -> (r: Vec<String>)
    ensures
        strs_view(r@) == addrs_at(chains_view(chains@), depth as nat),
{
    let ghost cv = chains_view(chains@);
    let mut order: Vec<String> = Vec::new();
    let mut i: usize = 0;
    while i < chains.len()
        invariant
            i <= chains@.len(),
            cv == chains_view(chains@),
            strs_view(order@) == addrs_at(cv.take(i as int), depth as nat),
        decreases chains@.len() - i,
    {
        let ghost ov = strs_view(order@);
        assert(cv.take(i + 1).drop_last() =~= cv.take(i as int));
        assert(cv.take(i + 1).last() == strs_view(chains@[i as int]@));
        let chain = &chains[i];
        if depth < chain.len() {
            let addr = chain[depth].as_str();
            let mut found = false;
            let mut j: usize = 0;
            while j < order.len()
                invariant
                    j <= order@.len(),
                    ov == strs_view(order@),
                    found == exists|k: int| 0 <= k < j && ov[k] == addr@,
                decreases order@.len() - j,
            {
                assert(ov[j as int] == order@[j as int]@);
                if str_eq(order[j].as_str(), addr) {
                    found = true;
                }
                j = j + 1;
            }
            assert(found == ov.contains(addr@));
            if !found {
                order.push(to_string(addr));
                assert(strs_view(order@) =~= ov.push(addr@));
            }
        }
        i = i + 1;
    }
    assert(cv.take(chains@.len() as int) =~= cv);
    order
}

/// The chains that have `addr` at position `depth`.
fn collect_matching(chains: &Vec<Vec<String>>, depth: usize, addr: &str) -> (r: Vec<Vec<String>>)
    ensures
        chains_view(r@) == matching(chains_view(chains@), depth as nat, addr@),
{
    let ghost cv = chains_view(chains@);
    let mut sub: Vec<Vec<String>> = Vec::new();
    let mut i: usize = 0;
    while i < chains.len()
        invariant
            i <= chains@.len(),
            cv == chains_view(chains@),
            chains_view(sub@) == matching(cv.take(i as int), depth as nat, addr@),
        decreases chains@.len() - i,
    {
        assert(cv.take(i + 1).drop_last() =~= cv.take(i as int));
        assert(cv.take(i + 1).last() == strs_view(chains@[i as int]@));
        if chain_addr_eq(&chains[i], depth, addr) {
            let ghost before = chains_view(sub@);
            let c = clone_strings(&chains[i]);
            sub.push(c);
            assert(chains_view(sub@) =~= before.push(strs_view(chains@[i as int]@)));
        }
        i = i + 1;
    }
    assert(cv.take(chains@.len() as int) =~= cv);
    sub
}

fn all_end_exec(chains: &Vec<Vec<String>>, depth: usize) -> (r: bool)
    ensures
        r == all_end(chains_view(chains@), depth as nat),
{
    let ghost cv = chains_view(chains@);
    let mut i: usize = 0;
    while i < chains.len()
        invariant
            i <= chains@.len(),
            cv == chains_view(chains@),
            forall|k: int| 0 <= k < i ==> #[trigger] cv[k].len() <= depth + 1,
        decreases chains@.len() - i,
    {
        assert(cv[i as int].len() == chains@[i as int]@.len());
        if chains[i].len() > depth && chains[i].len() - depth > 1 {
            return false;
        }
        i = i + 1;
    }
    true
}

fn make_bridge_exec(addr: &str, info: &PciDeviceInfo, children: Vec<PciNode>) -> (r: PciNode)
    ensures
        r@ == make_bridge(addr@, info@, nodes_view(children@)),
{
    proof {
        lemma_nodes_view(children@, children@.len() as int);
    }
    PciNode::Bridge(
        PciBridge {
            address: to_string(addr),
            vendor_id: info.vendor_id.clone(),
            device_id: info.device_id.clone(),
            driver: clone_opt_string(&info.driver),
            children,
        },
    )
}

fn make_controller_exec(addr: &str, info: &PciDeviceInfo) -> (r: PciNode)
    ensures
        r@ == make_controller(addr@, info@),
{
    let r = PciNode::StorageController(
        StorageController {
            address: to_string(addr),
            vendor_id: info.vendor_id.clone(),
            device_id: info.device_id.clone(),
            class_code: format_class_code(info.class_code),
            driver: clone_opt_string(&info.driver),
            numa_node: info.numa_node,
            children: Vec::new(),
        },
    );
    assert(r@ =~= make_controller(addr@, info@));
    r
}

/// Builds the PCI nodes at position `depth` of the chains (see `children_at`).
fn build_children_at_depth(
    chains: &Vec<Vec<String>>,
    depth: usize,
    devices: &Vec<PciDeviceEntry>,
    Ghost(bound): Ghost<nat>,
) -> (r: Vec<PciNode>)
    requires
        within(chains_view(chains@), bound),
    ensures
        nodes_view(r@) == children_at(chains_view(chains@), depth as nat, bound, devices@),
    decreases bound - depth, 1nat, 0int,
{
    let ghost cv = chains_view(chains@);
    let order0 = collect_order(chains, depth);
    proof {
        if depth >= bound {
            lemma_addrs_past_end(cv, depth as nat, bound);
        }
    }
    let order = sort_strings(order0);
    proof {
        lemma_sorted_strings_view(order0@);
    }
    let ghost ov = strs_view(order@);
    let mut nodes: Vec<PciNode> = Vec::new();
    let mut k: usize = 0;
    while k < order.len()
        invariant
            k <= order@.len(),
            k > 0 ==> depth < bound,
            depth >= bound ==> order@.len() == 0,
            ov == strs_view(order@),
            ov == sort_stable(addrs_at(cv, depth as nat), seq_lt()),
            cv == chains_view(chains@),
            within(cv, bound),
            nodes_view(nodes@) == nodes_for(ov, k as int, cv, depth as nat, bound, devices@),
        decreases order@.len() - k,
    {
        let addr = order[k].as_str();
        assert(depth < bound);
        let sub = collect_matching(chains, depth, addr);
        proof {
            lemma_matching_within(cv, depth as nat, addr@, bound);
        }
        let info = read_pci_device_info(addr, devices);
        let ghost group = node_group(ov[k as int], cv, depth as nat, bound, devices@);
        let ghost before = nodes@;
        if all_end_exec(&sub, depth) {
            let x = if is_bridge(info.class_code) {
                make_bridge_exec(addr, &info, Vec::new())
            } else {
                make_controller_exec(addr, &info)
            };
            proof {
                lemma_nodes_view(Seq::<PciNode>::empty(), 0);
                assert(nodes_view(Seq::<PciNode>::empty()) =~= Seq::<SpecPciNode>::empty());
            }
            nodes.push(x);
            proof {
                lemma_nodes_view_pushed(before, x);
            }
            assert(nodes_view(nodes@) =~= nodes_view(before) + group);
        } else {
            let ghost sv = chains_view(sub@);
            assert(depth + 1 < bound && depth + 1 < usize::MAX) by {
                let i = choose|i: int| 0 <= i < sv.len() && !(#[trigger] sv[i].len() <= depth + 1);
                assert(sv[i].len() <= bound);
                assert(sv[i].len() == sub@[i]@.len());
                assert(sub@[i].len() == sub@[i]@.len());
            }
            let children = build_children_at_depth(&sub, depth + 1, devices, Ghost(bound));
            if is_bridge(info.class_code) {
                let x = make_bridge_exec(addr, &info, children);
                nodes.push(x);
                proof {
                    lemma_nodes_view_pushed(before, x);
                }
                assert(nodes_view(nodes@) =~= nodes_view(before) + group);
            } else if is_storage_controller(info.class_code) {
                let x = make_controller_exec(addr, &info);
                nodes.push(x);
                proof {
                    lemma_nodes_view_pushed(before, x);
                    lemma_nodes_view(children@, children@.len() as int);
                }
                let ghost mid = nodes@;
                let ghost chv = nodes_view(children@);
                let mut rest = children;
                let n = rest.len();
                let mut j: usize = 0;
                while rest.len() > 0
                    invariant
                        j + rest@.len() == n,
                        n == chv.len(),
                        forall|m: int| 0 <= m < rest@.len() ==> #[trigger] rest@[m]@ == chv[j + m],
                        nodes_view(nodes@) == nodes_view(mid) + chv.take(j as int),
                    decreases rest@.len(),
                {
                    let ghost old_rest = rest@;
                    let ghost bn = nodes@;
                    let y = rest.remove(0);
                    assert(y@ == chv[j as int]) by {
                        assert(old_rest[0] == y);
                    }
                    assert forall|m: int| 0 <= m < rest@.len() implies #[trigger] rest@[m]@ == chv[j + 1 + m] by {
                        assert(rest@[m] == old_rest[m + 1]);
                    }
                    nodes.push(y);
                    proof {
                        lemma_nodes_view_pushed(bn, y);
                    }
                    j = j + 1;
                    assert(nodes_view(nodes@) =~= nodes_view(mid) + chv.take(j as int));
                }
                assert(chv.take(n as int) =~= chv);
                assert(nodes_view(nodes@) =~= nodes_view(before) + group);
            } else {
                let x = make_bridge_exec(addr, &info, children);
                nodes.push(x);
                proof {
                    lemma_nodes_view_pushed(before, x);
                }
                assert(nodes_view(nodes@) =~= nodes_view(before) + group);
            }
        }
        k = k + 1;
    }
    nodes
}

proof fn lemma_addrs_past_end(chains: Seq<Seq<Seq<char>>>, depth: nat, bound: nat)
    requires
        within(chains, bound),
        depth >= bound,
    ensures
        addrs_at(chains, depth).len() == 0,
        sort_stable(addrs_at(chains, depth), seq_lt()).len() == 0,
    decreases chains.len(),
{
    if chains.len() > 0 {
        assert(within(chains.drop_last(), bound)) by {
            assert forall|i: int| 0 <= i < chains.drop_last().len() implies #[trigger] chains.drop_last()[i].len()
                <= bound by {
                assert(chains.drop_last()[i] == chains[i]);
            }
        }
        lemma_addrs_past_end(chains.drop_last(), depth, bound);
        assert(chains[chains.len() - 1].len() <= bound);
    }
}

/// Builds the tree of one PCI root from the chains that lead to it.
fn build_pci_tree(chains: &Vec<Vec<String>>, devices: &Vec<PciDeviceEntry>, Ghost(bound): Ghost<nat>) -> (r: Vec<PciNode>)
    requires
        within(chains_view(chains@), bound),
    ensures
        nodes_view(r@) == children_at(chains_view(chains@), 0, bound, devices@),
{
    build_children_at_depth(chains, 0, devices, Ghost(bound))
}


// ---------------------------------------------------------------------------
// From the known controllers to the roots
// ---------------------------------------------------------------------------
impl crate::sort::Keyed for PciDeviceEntry {
    open spec fn key_lt(a: Self, b: Self) -> bool {
        crate::sort::str_lt(a.name@, b.name@)
    }

    fn less(&self, other: &Self) -> (r: bool) {
        crate::sort::str_less(self.name.as_str(), other.name.as_str())
    }
}

/// The storage-class devices among the listed ones (class 0x0100xx to 0x0108xx), in order.
pub open spec fn storage_class_addrs(devs: Seq<PciDeviceEntry>) -> Seq<Seq<char>>
    decreases devs.len(),
{
    if devs.len() == 0 {
        Seq::empty()
    } else {
        let r = storage_class_addrs(devs.drop_last());
        let e = devs.last();
        if spec_is_pci_address(e.name@) && match spec_read_hex_u32(opt_view(e.class)) {
            Some(c) => spec_is_storage_controller(c),
            None => false,
        } {
            r.push(e.name@)
        } else {
            r
        }
    }
}

/// Each element once, in order of first appearance.
pub open spec fn dedup(s: Seq<Seq<char>>) -> Seq<Seq<char>>
    decreases s.len(),
{
    if s.len() == 0 {
        Seq::empty()
    } else {
        let d = dedup(s.drop_last());
        if d.contains(s.last()) {
            d
        } else {
            d.push(s.last())
        }
    }
}

/// The chain of PCI devices from the root complex to the device at `a`, with
/// the root's domain: `None` where the device is not listed or its path names
/// no PCI device or no root.
pub open spec fn chain_of(devs: Seq<PciDeviceEntry>, a: Seq<char>) -> Option<(Seq<char>, Seq<Seq<char>>)> {
    let i = find_entry(devs, a, 0);
    if i < 0 {
        None
    } else {
        match opt_view(devs[i].canonical) {
            None => None,
            Some(c) => {
                let anc = spec_pci_ancestors(c);
                if anc.len() == 0 {
                    None
                } else {
                    match first_pci_root(path_components(c)) {
                        Some(d) => Some((d, anc)),
                        None => None,
                    }
                }
            },
        }
    }
}

pub open spec fn chains_of(devs: Seq<PciDeviceEntry>, addrs: Seq<Seq<char>>) -> Seq<(Seq<char>, Seq<Seq<char>>)>
    decreases addrs.len(),
{
    if addrs.len() == 0 {
        Seq::empty()
    } else {
        let r = chains_of(devs, addrs.drop_last());
        match chain_of(devs, addrs.last()) {
            Some(c) => r.push(c),
            None => r,
        }
    }
}

/// The root domains of the chains, each once, in order of first appearance.
pub open spec fn domains_of(chains: Seq<(Seq<char>, Seq<Seq<char>>)>) -> Seq<Seq<char>> {
    dedup(chains.map_values(|c: (Seq<char>, Seq<Seq<char>>)| c.0))
}

/// The chains under the root with domain `d`, in order.
pub open spec fn chains_in(chains: Seq<(Seq<char>, Seq<Seq<char>>)>, d: Seq<char>) -> Seq<Seq<Seq<char>>>
    decreases chains.len(),
{
    if chains.len() == 0 {
        Seq::empty()
    } else {
        let r = chains_in(chains.drop_last(), d);
        if chains.last().0 == d {
            r.push(chains.last().1)
        } else {
            r
        }
    }
}

pub open spec fn max_len(cs: Seq<Seq<Seq<char>>>) -> nat
    decreases cs.len(),
{
    if cs.len() == 0 {
        0
    } else {
        let m = max_len(cs.drop_last());
        if cs.last().len() > m {
            cs.last().len()
        } else {
            m
        }
    }
}

pub open spec fn roots_for(
    ds: Seq<Seq<char>>,
    k: int,
    chains: Seq<(Seq<char>, Seq<Seq<char>>)>,
    devs: Seq<PciDeviceEntry>,
) -> Seq<SpecPciRoot>
    decreases k,
{
    if k <= 0 || k > ds.len() {
        Seq::empty()
    } else {
        let d = ds[k - 1];
        let cs = chains_in(chains, d);
        roots_for(ds, k - 1, chains, devs).push(
            SpecPciRoot { domain: d, children: children_at(cs, 0, max_len(cs), devs) },
        )
    }
}

/// The PCI roots above the known NVMe and SCSI controllers and the listed
/// storage-class devices, in domain order.
pub open spec fn spec_pci_hierarchy(
    nvme_pci_addrs: Seq<Seq<char>>,
    scsi_pci_addrs: Seq<Seq<char>>,
    devs: Seq<PciDeviceEntry>,
) -> Seq<SpecPciRoot> {
    let extra = storage_class_addrs(sort_stable(devs, crate::sort::keyed_lt::<PciDeviceEntry>()));
    let addrs = dedup(nvme_pci_addrs + scsi_pci_addrs + extra);
    let chains = chains_of(devs, addrs);
    let ds = sort_stable(domains_of(chains), seq_lt());
    roots_for(ds, ds.len() as int, chains, devs)
}

/// Lists the storage-class PCI devices (class 0x0100xx to 0x0108xx) in name
/// order, which catches controllers that no NVMe or SCSI driver claims, such as
/// those passed through to virtual machines.
pub fn scan_storage_class_devices(devices: &Vec<PciDeviceEntry>) -> (r: Vec<String>)
    ensures
        strs_view(r@) == storage_class_addrs(
            sort_stable(devices@, crate::sort::keyed_lt::<PciDeviceEntry>()),
        ),
{
    let mut listing: Vec<PciDeviceEntry> = Vec::new();
    let mut i: usize = 0;
    while i < devices.len()
        invariant
            i <= devices@.len(),
            listing@.len() == i,
            forall|k: int| 0 <= k < i ==> #[trigger] listing@[k] == devices@[k],
        decreases devices@.len() - i,
    {
        let d = &devices[i];
        listing.push(
            PciDeviceEntry {
                name: d.name.clone(),
                canonical: clone_opt_string(&d.canonical),
                vendor: clone_opt_string(&d.vendor),
                device: clone_opt_string(&d.device),
                class: clone_opt_string(&d.class),
                driver_link: clone_opt_string(&d.driver_link),
                numa_node: clone_opt_string(&d.numa_node),
            },
        );
        assert(listing@[i as int] == devices@[i as int]) by {
            assert(listing@[i as int].name == devices@[i as int].name);
        }
        i = i + 1;
    }
    assert(listing@ =~= devices@);
    let sorted = crate::sort::sort_by_key(listing);
    let ghost sv = sorted@;
    let mut addrs: Vec<String> = Vec::new();
    let mut j: usize = 0;
    while j < sorted.len()
        invariant
            j <= sorted@.len(),
            sv == sorted@,
            strs_view(addrs@) == storage_class_addrs(sv.take(j as int)),
        decreases sorted@.len() - j,
    {
        assert(sv.take(j + 1).drop_last() =~= sv.take(j as int));
        assert(sv.take(j + 1).last() == sorted@[j as int]);
        let entry = &sorted[j];
        if is_pci_address(entry.name.as_str()) {
            match read_hex_u32_of(&entry.class) {
                Some(class_code) => {
                    if is_storage_controller(class_code) {
                        let ghost before = strs_view(addrs@);
                        addrs.push(entry.name.clone());
                        assert(strs_view(addrs@) =~= before.push(entry.name@));
                    }
                },
                None => {},
            }
        }
        j = j + 1;
    }
    assert(sv.take(sorted@.len() as int) =~= sv);
    addrs
}

/// Appends `x` unless it is there already.
fn push_distinct(v: &mut Vec<String>, x: &str)
    ensures
        strs_view(final(v)@) == if strs_view(old(v)@).contains(x@) {
            strs_view(old(v)@)
        } else {
            strs_view(old(v)@).push(x@)
        },
{
    let ghost ov = strs_view(v@);
    let mut found = false;
    let mut j: usize = 0;
    while j < v.len()
        invariant
            j <= v@.len(),
            ov == strs_view(v@),
            found == exists|k: int| 0 <= k < j && ov[k] == x@,
        decreases v@.len() - j,
    {
        assert(ov[j as int] == v@[j as int]@);
        if str_eq(v[j].as_str(), x) {
            found = true;
        }
        j = j + 1;
    }
    if !found {
        v.push(to_string(x));
        assert(strs_view(v@) =~= ov.push(x@));
    }
}

/// The chain of PCI devices from the root complex to `addr` (a PCI address), with the root's domain.
pub struct PciChain {
    pub root_domain: String,
    pub devices: Vec<String>,
}

/// Traces a PCI device back to its root complex through its canonical sysfs path.
pub fn trace_pci_chain(addr: &str, devices: &Vec<PciDeviceEntry>) -> (r: Option<PciChain>)
    ensures
        match r {
            Some(c) => chain_of(devices@, addr@) == Some((c.root_domain@, strs_view(c.devices@))),
            None => chain_of(devices@, addr@) is None,
        },
{
    let i = match find_entry_exec(devices, addr) {
        Some(i) => i,
        None => return None,
    };
    let canonical = match &devices[i].canonical {
        Some(c) => c.as_str(),
        None => return None,
    };
    let pci_addrs = collect_pci_ancestors(canonical);
    assert(strs_view(pci_addrs@) =~= pci_addrs@.map_values(|x: String| x@));
    if pci_addrs.len() == 0 {
        return None;
    }
    let root_domain = match find_pci_root(canonical) {
        Some(d) => d,
        None => return None,
    };
    Some(PciChain { root_domain, devices: pci_addrs })
}

/// The PCI roots above the known NVMe and SCSI controllers (and the other
/// storage-class devices listed), each with the tree of devices down to them.
pub fn discover_pci_hierarchy(
    nvme_pci_addrs: &[String],
    scsi_pci_addrs: &[String],
    devices: &Vec<PciDeviceEntry>,
) -> (r: Vec<PciRoot>)
    ensures
        roots_view(r@) == spec_pci_hierarchy(
            strs_view(nvme_pci_addrs@),
            strs_view(scsi_pci_addrs@),
            devices@,
        ),
{
    let extra = scan_storage_class_devices(devices);
    let ghost src = strs_view(nvme_pci_addrs@) + strs_view(scsi_pci_addrs@) + strs_view(extra@);
    let mut all_addrs: Vec<String> = Vec::new();
    let mut i: usize = 0;
    while i < nvme_pci_addrs.len()
        invariant
            i <= nvme_pci_addrs@.len(),
            src == strs_view(nvme_pci_addrs@) + strs_view(scsi_pci_addrs@) + strs_view(extra@),
            strs_view(all_addrs@) == dedup(src.take(i as int)),
        decreases nvme_pci_addrs@.len() - i,
    {
        assert(src.take(i + 1).drop_last() =~= src.take(i as int));
        assert(src.take(i + 1).last() == nvme_pci_addrs@[i as int]@);
        push_distinct(&mut all_addrs, nvme_pci_addrs[i].as_str());
        i = i + 1;
    }
    let n1 = nvme_pci_addrs.len();
    let mut i: usize = 0;
    while i < scsi_pci_addrs.len()
        invariant
            i <= scsi_pci_addrs@.len(),
            n1 == nvme_pci_addrs@.len(),
            src == strs_view(nvme_pci_addrs@) + strs_view(scsi_pci_addrs@) + strs_view(extra@),
            strs_view(all_addrs@) == dedup(src.take(n1 + i)),
        decreases scsi_pci_addrs@.len() - i,
    {
        assert(src.take(n1 + i + 1).drop_last() =~= src.take(n1 + i));
        assert(src.take(n1 + i + 1).last() == scsi_pci_addrs@[i as int]@);
        push_distinct(&mut all_addrs, scsi_pci_addrs[i].as_str());
        i = i + 1;
    }
    let n2 = scsi_pci_addrs.len();
    let mut i: usize = 0;
    while i < extra.len()
        invariant
            i <= extra@.len(),
            n1 == nvme_pci_addrs@.len(),
            n2 == scsi_pci_addrs@.len(),
            src == strs_view(nvme_pci_addrs@) + strs_view(scsi_pci_addrs@) + strs_view(extra@),
            strs_view(all_addrs@) == dedup(src.take(n1 + n2 + i)),
        decreases extra@.len() - i,
    {
        assert(src.take(n1 + n2 + i + 1).drop_last() =~= src.take(n1 + n2 + i));
        assert(src.take(n1 + n2 + i + 1).last() == extra@[i as int]@);
        push_distinct(&mut all_addrs, extra[i].as_str());
        i = i + 1;
    }
    assert(src.take(n1 + n2 + extra@.len()) =~= src);
    let ghost addrs = strs_view(all_addrs@);
    let ghost chains_spec = chains_of(devices@, addrs);
    if all_addrs.len() == 0 {
        assert(spec_pci_hierarchy(strs_view(nvme_pci_addrs@), strs_view(scsi_pci_addrs@), devices@) =~= Seq::<SpecPciRoot>::empty()) by {
            assert(chains_spec =~= Seq::<(Seq<char>, Seq<Seq<char>>)>::empty());
            assert(domains_of(chains_spec) =~= Seq::<Seq<char>>::empty()) by {
                assert(chains_spec.map_values(|c: (Seq<char>, Seq<Seq<char>>)| c.0) =~= Seq::<Seq<char>>::empty());
            }
        }
        return Vec::new();
    }
    // Trace each address back to its root, then group the chains by root domain.
    let mut chains: Vec<PciChain> = Vec::new();
    let mut i: usize = 0;
    while i < all_addrs.len()
        invariant
            i <= all_addrs@.len(),
            addrs == strs_view(all_addrs@),
            chains@.len() == chains_of(devices@, addrs.take(i as int)).len(),
            forall|k: int| 0 <= k < chains@.len() ==> (#[trigger] chains@[k]).root_domain@ == chains_of(devices@, addrs.take(i as int))[k].0
                && strs_view(chains@[k].devices@) == chains_of(devices@, addrs.take(i as int))[k].1,
        decreases all_addrs@.len() - i,
    {
        assert(addrs.take(i + 1).drop_last() =~= addrs.take(i as int));
        assert(addrs.take(i + 1).last() == all_addrs@[i as int]@);
        match trace_pci_chain(all_addrs[i].as_str(), devices) {
            Some(chain) => {
                chains.push(chain);
            },
            None => {},
        }
        i = i + 1;
    }
    assert(addrs.take(all_addrs@.len() as int) =~= addrs);
    let ghost cs = chains_of(devices@, addrs);
    assert(chains@.len() == cs.len());
    // The domains, then the chains under each.
    let ghost dom_src = cs.map_values(|c: (Seq<char>, Seq<Seq<char>>)| c.0);
    let mut domains: Vec<String> = Vec::new();
    let mut i: usize = 0;
    while i < chains.len()
        invariant
            i <= chains@.len(),
            chains@.len() == cs.len(),
            dom_src == cs.map_values(|c: (Seq<char>, Seq<Seq<char>>)| c.0),
            forall|k: int| 0 <= k < chains@.len() ==> (#[trigger] chains@[k]).root_domain@ == cs[k].0
                && strs_view(chains@[k].devices@) == cs[k].1,
            strs_view(domains@) == dedup(dom_src.take(i as int)),
        decreases chains@.len() - i,
    {
        assert(dom_src.take(i + 1).drop_last() =~= dom_src.take(i as int));
        assert(dom_src.take(i + 1).last() == chains@[i as int].root_domain@);
        push_distinct(&mut domains, chains[i].root_domain.as_str());
        i = i + 1;
    }
    assert(dom_src.take(chains@.len() as int) =~= dom_src);
    let sorted = sort_strings(domains);
    proof {
        lemma_sorted_strings_view(domains@);
    }
    let ghost ds = strs_view(sorted@);
    let mut roots: Vec<PciRoot> = Vec::new();
    let mut k: usize = 0;
    while k < sorted.len()
        invariant
            k <= sorted@.len(),
            ds == strs_view(sorted@),
            ds == sort_stable(domains_of(cs), seq_lt()),
            chains@.len() == cs.len(),
            forall|m: int| 0 <= m < chains@.len() ==> (#[trigger] chains@[m]).root_domain@ == cs[m].0
                && strs_view(chains@[m].devices@) == cs[m].1,
            roots_view(roots@) == roots_for(ds, k as int, cs, devices@),
        decreases sorted@.len() - k,
    {
        let domain = sorted[k].as_str();
        let mut domain_chains: Vec<Vec<String>> = Vec::new();
        let mut j: usize = 0;
        while j < chains.len()
            invariant
                j <= chains@.len(),
                chains@.len() == cs.len(),
                forall|m: int| 0 <= m < chains@.len() ==> (#[trigger] chains@[m]).root_domain@ == cs[m].0
                    && strs_view(chains@[m].devices@) == cs[m].1,
                chains_view(domain_chains@) == chains_in(cs.take(j as int), domain@),
                within(chains_view(domain_chains@), max_len(chains_in(cs.take(j as int), domain@))),
            decreases chains@.len() - j,
        {
            assert(cs.take(j + 1).drop_last() =~= cs.take(j as int));
            assert(cs.take(j + 1).last() == cs[j as int]);
            let ghost before = chains_view(domain_chains@);
            let ghost old_ci = chains_in(cs.take(j as int), domain@);
            let ghost old_m = max_len(old_ci);
            proof {
                let x = cs[j as int].1;
                assert(old_ci.push(x).drop_last() =~= old_ci);
                assert(max_len(old_ci.push(x)) >= old_m);
                assert(max_len(old_ci.push(x)) >= x.len());
            }
            if str_eq(chains[j].root_domain.as_str(), domain) {
                domain_chains.push(clone_strings(&chains[j].devices));
                assert(chains_view(domain_chains@) =~= before.push(cs[j as int].1));
            }
            j = j + 1;
            assert(within(chains_view(domain_chains@), max_len(chains_in(cs.take(j as int), domain@)))) by {
                let w = chains_view(domain_chains@);
                let m = max_len(chains_in(cs.take(j as int), domain@));
                assert(m >= old_m);
                assert forall|q: int| 0 <= q < w.len() implies #[trigger] w[q].len() <= m by {
                    if q < before.len() {
                        assert(w[q] == before[q]);
                        assert(before[q].len() <= old_m);
                    }
                }
            }
        }
        assert(cs.take(chains@.len() as int) =~= cs);
        let ghost dcs = chains_in(cs, domain@);
        let children = build_pci_tree(&domain_chains, devices, Ghost(max_len(dcs)));
        proof {
            lemma_nodes_view(children@, children@.len() as int);
        }
        let ghost before = roots_view(roots@);
        roots.push(PciRoot { domain: to_string(domain), children });
        assert(roots_view(roots@) =~= before.push(
            SpecPciRoot { domain: ds[k as int], children: children_at(dcs, 0, max_len(dcs), devices@) },
        ));
        k = k + 1;
    }
    roots
}

// ---------------------------------------------------------------------------
// One root per domain
// ---------------------------------------------------------------------------
proof fn lemma_dedup_no_duplicates(s: Seq<Seq<char>>)
    ensures
        dedup(s).no_duplicates(),
    decreases s.len(),
{
    if s.len() > 0 {
        lemma_dedup_no_duplicates(s.drop_last());
        let d = dedup(s.drop_last());
        if !d.contains(s.last()) {
            let e = d.push(s.last());
            assert forall|i: int, j: int| 0 <= i < e.len() && 0 <= j < e.len() && i != j implies e[i] != e[j] by {
                if i < d.len() && j < d.len() {
                    assert(e[i] == d[i] && e[j] == d[j]);
                } else if i < d.len() {
                    assert(e[i] == d[i]);
                } else {
                    assert(e[j] == d[j]);
                }
            }
        }
    }
}

proof fn lemma_roots_for_domains(
    ds: Seq<Seq<char>>,
    k: int,
    chains: Seq<(Seq<char>, Seq<Seq<char>>)>,
    devs: Seq<PciDeviceEntry>,
)
    requires
        0 <= k <= ds.len(),
    ensures
        roots_for(ds, k, chains, devs).len() == k,
        forall|i: int| 0 <= i < k ==> #[trigger] roots_for(ds, k, chains, devs)[i].domain == ds[i],
    decreases k,
{
    if k > 0 {
        lemma_roots_for_domains(ds, k - 1, chains, devs);
        let r = roots_for(ds, k, chains, devs);
        let p = roots_for(ds, k - 1, chains, devs);
        assert forall|i: int| 0 <= i < k implies #[trigger] r[i].domain == ds[i] by {
            if i < k - 1 {
                assert(r[i] == p[i]);
            }
        }
    }
}

/// The PCI roots come one per domain, in increasing byte order of the domains.
pub proof fn lemma_pci_roots_ordered(
    nvme_pci_addrs: Seq<Seq<char>>,
    scsi_pci_addrs: Seq<Seq<char>>,
    devs: Seq<PciDeviceEntry>,
)
    ensures
        forall|i: int, j: int|
            0 <= i < j < spec_pci_hierarchy(nvme_pci_addrs, scsi_pci_addrs, devs).len() ==> str_lt(
                #[trigger] spec_pci_hierarchy(nvme_pci_addrs, scsi_pci_addrs, devs)[i].domain,
                #[trigger] spec_pci_hierarchy(nvme_pci_addrs, scsi_pci_addrs, devs)[j].domain,
            ),
{
    let extra = storage_class_addrs(sort_stable(devs, crate::sort::keyed_lt::<PciDeviceEntry>()));
    let addrs = dedup(nvme_pci_addrs + scsi_pci_addrs + extra);
    let chains = chains_of(devs, addrs);
    let dom = domains_of(chains);
    let ds = sort_stable(dom, seq_lt());
    let r = spec_pci_hierarchy(nvme_pci_addrs, scsi_pci_addrs, devs);
    assert(r == roots_for(ds, ds.len() as int, chains, devs));
    lemma_dedup_no_duplicates(chains.map_values(|c: (Seq<char>, Seq<Seq<char>>)| c.0));
    crate::sort::lemma_by_name_total(|x: Seq<char>| x);
    assert(crate::sort::by_name(|x: Seq<char>| x) =~= seq_lt());
    crate::sort::lemma_sort_stable_sorted_permutation(dom, seq_lt());
    dom.lemma_multiset_has_no_duplicates();
    ds.lemma_multiset_has_no_duplicates_conv();
    lemma_roots_for_domains(ds, ds.len() as int, chains, devs);
    assert forall|i: int, j: int| 0 <= i < j < r.len() implies str_lt(#[trigger] r[i].domain, #[trigger] r[j].domain) by {
        assert(r[i].domain == ds[i] && r[j].domain == ds[j]);
        assert(!str_lt(ds[j], ds[i]));
        assert(ds[i] != ds[j]);
        crate::sort::lemma_str_lt_total(ds[i], ds[j]);
    }
}

// ---------------------------------------------------------------------------
// The ids of the nodes
// ---------------------------------------------------------------------------
/// Whether a node carries what the sysfs entry of its own address holds: its
/// vendor and device ids and its driver, and for a storage controller its class
/// code and NUMA node; and so does every node below it.
pub open spec fn ids_from_sysfs(n: SpecPciNode, devs: Seq<PciDeviceEntry>) -> bool
    decreases n,
{
    match n {
        SpecPciNode::Bridge(b) => {
            let info = pci_info(devs, b.address);
            &&& b.vendor_id == info.vendor_id
            &&& b.device_id == info.device_id
            &&& b.driver == info.driver
            &&& all_ids_from_sysfs(b.children, b.children.len() as int, devs)
        },
        SpecPciNode::StorageController(c) => {
            let info = pci_info(devs, c.address);
            &&& c.vendor_id == info.vendor_id
            &&& c.device_id == info.device_id
            &&& c.driver == info.driver
            &&& c.class_code == class_hex(info.class_code)
            &&& c.numa_node == info.numa_node
        },
    }
}

/// Whether the first `k` nodes of `s` carry the ids of their sysfs entries.
pub open spec fn all_ids_from_sysfs(s: Seq<SpecPciNode>, k: int, devs: Seq<PciDeviceEntry>) -> bool
    decreases s, k,
{
    if k <= 0 || k > s.len() {
        true
    } else {
        all_ids_from_sysfs(s, k - 1, devs) && ids_from_sysfs(s[k - 1], devs)
    }
}

proof fn lemma_all_ids(s: Seq<SpecPciNode>, k: int, devs: Seq<PciDeviceEntry>)
    requires
        0 <= k <= s.len(),
    ensures
        all_ids_from_sysfs(s, k, devs) <==> forall|i: int| 0 <= i < k ==> #[trigger] ids_from_sysfs(s[i], devs),
    decreases k,
{
    if k > 0 {
        lemma_all_ids(s, k - 1, devs);
        if all_ids_from_sysfs(s, k, devs) {
            assert forall|i: int| 0 <= i < k implies #[trigger] ids_from_sysfs(s[i], devs) by {
                if i < k - 1 {
                    assert(all_ids_from_sysfs(s, k - 1, devs));
                }
            }
        }
        if forall|i: int| 0 <= i < k ==> #[trigger] ids_from_sysfs(s[i], devs) {
            assert(ids_from_sysfs(s[k - 1], devs));
            assert forall|i: int| 0 <= i < k - 1 implies #[trigger] ids_from_sysfs(s[i], devs) by {
                assert(ids_from_sysfs(s[i], devs));
            }
        }
    }
}

proof fn lemma_node_group_ids(
    a: Seq<char>,
    chains: Seq<Seq<Seq<char>>>,
    depth: nat,
    bound: nat,
    devs: Seq<PciDeviceEntry>,
)
    ensures
        forall|i: int|
            0 <= i < node_group(a, chains, depth, bound, devs).len() ==> #[trigger] ids_from_sysfs(
                node_group(a, chains, depth, bound, devs)[i],
                devs,
            ),
    decreases bound - depth, 0nat, 0int,
{
    let sub = matching(chains, depth, a);
    let info = pci_info(devs, a);
    let g = node_group(a, chains, depth, bound, devs);
    if depth < bound && !all_end(sub, depth) {
        let children = children_at(sub, depth + 1, bound, devs);
        lemma_children_at_ids(sub, depth + 1, bound, devs);
        lemma_all_ids(children, children.len() as int, devs);
        if spec_is_bridge(info.class_code) || !spec_is_storage_controller(info.class_code) {
            assert(ids_from_sysfs(make_bridge(a, info, children), devs));
        } else {
            assert(g == seq![make_controller(a, info)] + children);
            assert forall|i: int| 0 <= i < g.len() implies #[trigger] ids_from_sysfs(g[i], devs) by {
                if i > 0 {
                    assert(g[i] == children[i - 1]);
                }
            }
        }
    } else if depth < bound {
        assert(ids_from_sysfs(make_bridge(a, info, Seq::empty()), devs));
        assert(ids_from_sysfs(make_controller(a, info), devs));
    }
}

proof fn lemma_nodes_for_ids(
    order: Seq<Seq<char>>,
    k: int,
    chains: Seq<Seq<Seq<char>>>,
    depth: nat,
    bound: nat,
    devs: Seq<PciDeviceEntry>,
)
    ensures
        forall|i: int|
            0 <= i < nodes_for(order, k, chains, depth, bound, devs).len() ==> #[trigger] ids_from_sysfs(
                nodes_for(order, k, chains, depth, bound, devs)[i],
                devs,
            ),
    decreases bound - depth, 0nat, k,
{
    if k > 0 && depth < bound {
        let prev = nodes_for(order, k - 1, chains, depth, bound, devs);
        let g = node_group(order[k - 1], chains, depth, bound, devs);
        lemma_nodes_for_ids(order, k - 1, chains, depth, bound, devs);
        lemma_node_group_ids(order[k - 1], chains, depth, bound, devs);
        let r = nodes_for(order, k, chains, depth, bound, devs);
        assert(r == prev + g);
        assert forall|i: int| 0 <= i < r.len() implies #[trigger] ids_from_sysfs(r[i], devs) by {
            if i < prev.len() {
                assert(r[i] == prev[i]);
            } else {
                assert(r[i] == g[i - prev.len()]);
            }
        }
    }
}

proof fn lemma_children_at_ids(chains: Seq<Seq<Seq<char>>>, depth: nat, bound: nat, devs: Seq<PciDeviceEntry>)
    ensures
        forall|i: int|
            0 <= i < children_at(chains, depth, bound, devs).len() ==> #[trigger] ids_from_sysfs(
                children_at(chains, depth, bound, devs)[i],
                devs,
            ),
    decreases bound - depth, 1nat, 0int,
{
    if depth < bound {
        let order = sort_stable(addrs_at(chains, depth), seq_lt());
        lemma_nodes_for_ids(order, order.len() as int, chains, depth, bound, devs);
        assert(children_at(chains, depth, bound, devs) == nodes_for(order, order.len() as int, chains, depth, bound, devs));
    }
}

/// Every node of the PCI hierarchy, bridge or storage controller, at any depth,
/// carries the vendor and device ids, the driver and (for a controller) the
/// class code and NUMA node read from the sysfs entry named by its own address.
pub proof fn lemma_pci_hierarchy_ids(
    nvme_pci_addrs: Seq<Seq<char>>,
    scsi_pci_addrs: Seq<Seq<char>>,
    devs: Seq<PciDeviceEntry>,
)
    ensures
        forall|r: int, i: int|
            0 <= r < spec_pci_hierarchy(nvme_pci_addrs, scsi_pci_addrs, devs).len() && 0 <= i
                < spec_pci_hierarchy(nvme_pci_addrs, scsi_pci_addrs, devs)[r].children.len() ==> ids_from_sysfs(
                #[trigger] spec_pci_hierarchy(nvme_pci_addrs, scsi_pci_addrs, devs)[r].children[i],
                devs,
            ),
{
    let extra = storage_class_addrs(sort_stable(devs, crate::sort::keyed_lt::<PciDeviceEntry>()));
    let addrs = dedup(nvme_pci_addrs + scsi_pci_addrs + extra);
    let chains = chains_of(devs, addrs);
    let ds = sort_stable(domains_of(chains), seq_lt());
    lemma_roots_for_ids(ds, ds.len() as int, chains, devs);
}

proof fn lemma_roots_for_ids(
    ds: Seq<Seq<char>>,
    k: int,
    chains: Seq<(Seq<char>, Seq<Seq<char>>)>,
    devs: Seq<PciDeviceEntry>,
)
    ensures
        forall|r: int, i: int|
            0 <= r < roots_for(ds, k, chains, devs).len() && 0 <= i < roots_for(ds, k, chains, devs)[r].children.len()
                ==> ids_from_sysfs(#[trigger] roots_for(ds, k, chains, devs)[r].children[i], devs),
    decreases k,
{
    if k > 0 && k <= ds.len() {
        let p = roots_for(ds, k - 1, chains, devs);
        lemma_roots_for_ids(ds, k - 1, chains, devs);
        let cs = chains_in(chains, ds[k - 1]);
        lemma_children_at_ids(cs, 0, max_len(cs), devs);
        let rs = roots_for(ds, k, chains, devs);
        assert forall|r: int, i: int| 0 <= r < rs.len() && 0 <= i < rs[r].children.len() implies ids_from_sysfs(
            #[trigger] rs[r].children[i],
            devs,
        ) by {
            if r < p.len() {
                assert(rs[r] == p[r]);
            }
        }
    }
}

} // verus!
