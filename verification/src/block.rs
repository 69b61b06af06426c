//! Block devices and device-mapper devices, from the entries of /sys/class/block.
use vstd::prelude::*;
use vstd::string::*;
use crate::scsi::{find_pci_parent, or_else, spec_pci_parent, ScsiHostEntry};
use crate::sort::{lemma_sorted_strings_view, seq_lt, keyed_lt, lemma_sort_map, sort_by_key, sort_stable, sort_strings, str_less, str_lt, Keyed};
use crate::sysfs::{file_name, read_u64_of, spec_file_name, spec_read_u64, split_exec, split_on};
use crate::text::{concat, contains_char, dec, has_prefix, or_empty, parse_u32, push_u64, spec_parse_u32, starts_with, str_eq, to_string};
use crate::types::{
    clone_opt_string, clone_strings, dms_view, opt_block_view, opt_view, partitions_view, slaves_view, strs_view,
    BlockDevice, DmDevice, DmSlave, Partition, SpecBlockDevice, SpecDmDevice, SpecDmSlave, SpecPartition,
};

verus! {

// ---------------------------------------------------------------------------
// Looking a block device up by name
// ---------------------------------------------------------------------------
/// The index of the first block device from `i` on named `name`, or -1.
pub open spec fn block_index(bs: Seq<BlockDevice>, name: Seq<char>, i: int) -> int
    decreases bs.len() - i,
{
    if i < 0 || i >= bs.len() {
        -1
    } else if bs[i].name@ == name {
        i
    } else {
        block_index(bs, name, i + 1)
    }
}

/// The block device named `name`, if there is one.
pub open spec fn block_named(bs: Seq<BlockDevice>, name: Seq<char>) -> Option<SpecBlockDevice> {
    let i = block_index(bs, name, 0);
    if i >= 0 {
        Some(bs[i]@)
    } else {
        None
    }
}

/// A copy of the block device named `name`.
pub fn get_block(bs: &Vec<BlockDevice>, name: &str) -> (r: Option<BlockDevice>)
    ensures
        opt_block_view(r) == block_named(bs@, name@),
{
    let mut j: usize = 0;
    while j < bs.len() && !str_eq(bs[j].name.as_str(), name)
        invariant
            j <= bs@.len(),
            block_index(bs@, name@, 0) == block_index(bs@, name@, j as int),
        decreases bs@.len() - j,
    {
        j = j + 1;
    }
    if j < bs.len() {
        Some(bs[j].clone())
    } else {
        None
    }
}

// ---------------------------------------------------------------------------
// What sysfs lists
// ---------------------------------------------------------------------------
/// An entry of a block device's sysfs directory: its name, the trimmed
/// `partition` and `size` attributes read under it (there where it is a
/// partition), and the names listed (unordered) in its `holders` directory.
pub struct PartitionEntry {
    pub name: String,
    pub partition: Option<String>,
    pub size: Option<String>,
    pub holders: Vec<String>,
}

/// An entry of /sys/class/block: where its link resolves to; whether a
/// `partition` file is there; the trimmed attributes read there (`size`,
/// `removable`, `ro`, `device/wwid`, `wwid`, `dm/name`, `dm/uuid`); the names
/// listed (unordered) in its `holders` and `slaves` directories; the entries of
/// its directory; and the target of the `device` link of the class entry.
pub struct BlockEntry {
    pub name: String,
    pub canonical: Option<String>,
    pub is_partition: bool,
    pub size: Option<String>,
    pub removable: Option<String>,
    pub ro: Option<String>,
    pub device_wwid: Option<String>,
    pub wwid: Option<String>,
    pub dm_name: Option<String>,
    pub dm_uuid: Option<String>,
    pub holders: Vec<String>,
    pub slaves: Vec<String>,
    pub children: Vec<PartitionEntry>,
    pub device_link: Option<String>,
}

impl Keyed for PartitionEntry {
    open spec fn key_lt(a: Self, b: Self) -> bool {
        str_lt(a.name@, b.name@)
    }

    fn less(&self, other: &Self) -> (r: bool) {
        str_less(self.name.as_str(), other.name.as_str())
    }
}

impl Keyed for BlockEntry {
    open spec fn key_lt(a: Self, b: Self) -> bool {
        str_lt(a.name@, b.name@)
    }

    fn less(&self, other: &Self) -> (r: bool) {
        str_less(self.name.as_str(), other.name.as_str())
    }
}

// ---------------------------------------------------------------------------
// Numbers
// ---------------------------------------------------------------------------
/// A size in 512-byte sectors as bytes, modulo 2^64 (as `u64` multiplication
/// wraps in a release build).
pub open spec fn sectors_to_bytes(sectors: u64) -> u64 {
    ((sectors as nat * 512) % 0x1_0000_0000_0000_0000) as u64
}

/// The size of a device from its `size` attribute: 0 where it is missing or no number.
pub open spec fn size_of(size: Option<String>) -> u64 {
    match spec_read_u64(opt_view(size)) {
        Some(v) => sectors_to_bytes(v),
        None => 0,
    }
}

fn size_exec(size: &Option<String>) -> (r: u64)
    ensures
        r == size_of(*size),
{
    match read_u64_of(size) {
        Some(v) => v.wrapping_mul(512),
        None => 0,
    }
}

/// A flag attribute: set where it reads as a nonzero number.
pub open spec fn flag_of(a: Option<String>) -> bool {
    match spec_read_u64(opt_view(a)) {
        Some(v) => v != 0,
        None => false,
    }
}

fn flag_exec(a: &Option<String>) -> (r: bool)
    ensures
        r == flag_of(*a),
{
    match read_u64_of(a) {
        Some(v) => v != 0,
        None => false,
    }
}

/// A copy of the names, in byte order.
fn sorted_names(v: &Vec<String>) -> (r: Vec<String>)
    ensures
        strs_view(r@) == sort_stable(strs_view(v@), seq_lt()),
{
    let c = clone_strings(v);
    let ghost cv = c@;
    let r = sort_strings(c);
    proof {
        lemma_sorted_strings_view(cv);
    }
    r
}

// ---------------------------------------------------------------------------
// Partitions
// ---------------------------------------------------------------------------
/// Whether an entry of a device's directory is one of its partitions: named
/// after the device and with a `partition` number.
pub open spec fn partition_kept(p: PartitionEntry, parent: Seq<char>) -> bool {
    has_prefix(p.name@, parent) && spec_read_u64(opt_view(p.partition)) is Some
}

pub open spec fn partition_info(p: PartitionEntry) -> SpecPartition {
    SpecPartition {
        name: p.name@,
        number: (match spec_read_u64(opt_view(p.partition)) {
            Some(v) => v,
            None => 0,
        }) as u32,
        size_bytes: size_of(p.size),
        holders: sort_stable(strs_view(p.holders@), seq_lt()),
    }
}

/// The partitions among the entries `ps`, in their order.
pub open spec fn partitions_in(ps: Seq<PartitionEntry>, parent: Seq<char>) -> Seq<SpecPartition>
    decreases ps.len(),
{
    if ps.len() == 0 {
        Seq::empty()
    } else {
        let r = partitions_in(ps.drop_last(), parent);
        if partition_kept(ps.last(), parent) {
            r.push(partition_info(ps.last()))
        } else {
            r
        }
    }
}

/// Partitions in the order of their numbers.
pub open spec fn partition_lt() -> spec_fn(SpecPartition, SpecPartition) -> bool {
    |a: SpecPartition, b: SpecPartition| a.number < b.number
}

/// The partitions of the device named `parent`: its directory's entries taken
/// in name order, then ordered by partition number (equal numbers in name order).
pub open spec fn spec_partitions(children: Seq<PartitionEntry>, parent: Seq<char>) -> Seq<SpecPartition> {
    sort_stable(partitions_in(sort_stable(children, keyed_lt::<PartitionEntry>()), parent), partition_lt())
}

impl Keyed for Partition {
    open spec fn key_lt(a: Self, b: Self) -> bool {
        a.number < b.number
    }

    fn less(&self, other: &Self) -> (r: bool) {
        self.number < other.number
    }
}

/// Finds the partitions of the device named `parent` among the entries of its directory.
pub fn discover_partitions(children: Vec<PartitionEntry>, parent: &str) -> (r: Vec<Partition>)
    ensures
        partitions_view(r@) == spec_partitions(children@, parent@),
{
    let sorted = sort_by_key(children);
    let mut r: Vec<Partition> = Vec::new();
    let mut j: usize = 0;
    while j < sorted.len()
        invariant
            j <= sorted@.len(),
            partitions_view(r@) == partitions_in(sorted@.take(j as int), parent@),
        decreases sorted@.len() - j,
    {
        let e = &sorted[j];
        assert(sorted@.take(j + 1).drop_last() =~= sorted@.take(j as int));
        assert(sorted@.take(j + 1).last() == *e);
        if starts_with(e.name.as_str(), parent) {
            match read_u64_of(&e.partition) {
                Some(v) => {
                    let holders = sorted_names(&e.holders);
                    let p = Partition {
                        name: e.name.clone(),
                        number: v as u32,
                        size_bytes: size_exec(&e.size),
                        holders,
                    };
                    let ghost before = partitions_view(r@);
                    r.push(p);
                    assert(partitions_view(r@) =~= before.push(partition_info(*e)));
                },
                None => {},
            }
        }
        j = j + 1;
        assert(partitions_view(r@) =~= partitions_in(sorted@.take(j as int), parent@));
    }
    assert(sorted@.take(sorted@.len() as int) =~= sorted@);
    let ghost unsorted = r@;
    let out = sort_by_key(r);
    proof {
        let f = |p: Partition| p@;
        lemma_sort_map(unsorted, keyed_lt::<Partition>(), f, partition_lt());
        assert(partitions_view(out@) =~= out@.map_values(f));
        assert(partitions_view(unsorted) =~= unsorted.map_values(f));
    }
    out
}

// ---------------------------------------------------------------------------
// Device-mapper devices
// ---------------------------------------------------------------------------
/// The kind of a device-mapper device, from the prefix of its UUID.
pub open spec fn spec_dm_type(uuid: Seq<char>) -> Seq<char> {
    if has_prefix(uuid, "LVM-"@) {
        "LVM"@
    } else if has_prefix(uuid, "mpath-"@) {
        "Multipath"@
    } else if has_prefix(uuid, "CRYPT-"@) {
        "Crypt"@
    } else if uuid.len() == 0 {
        "Unknown"@
    } else {
        "Other"@
    }
}

/// Classifies a device-mapper device by the prefix of its UUID.
pub fn classify_dm_type(uuid: &str) -> (r: String)
    ensures
        r@ == spec_dm_type(uuid@),
{
    if starts_with(uuid, "LVM-") {
        to_string("LVM")
    } else if starts_with(uuid, "mpath-") {
        to_string("Multipath")
    } else if starts_with(uuid, "CRYPT-") {
        to_string("Crypt")
    } else if uuid.unicode_len() == 0 {
        to_string("Unknown")
    } else {
        to_string("Other")
    }
}

/// Each entry's name with the target of its `device` link.
pub open spec fn spec_links(es: Seq<BlockEntry>) -> Seq<(Seq<char>, Option<Seq<char>>)> {
    es.map_values(|e: BlockEntry| (e.name@, opt_view(e.device_link)))
}

pub open spec fn links_view(v: Seq<(String, Option<String>)>) -> Seq<(Seq<char>, Option<Seq<char>>)> {
    v.map_values(|p: (String, Option<String>)| (p.0@, opt_view(p.1)))
}

/// The index of the first link from `i` on of the device named `name`, or -1.
pub open spec fn link_index(links: Seq<(Seq<char>, Option<Seq<char>>)>, name: Seq<char>, i: int) -> int
    decreases links.len() - i,
{
    if i < 0 || i >= links.len() {
        -1
    } else if links[i].0 == name {
        i
    } else {
        link_index(links, name, i + 1)
    }
}

/// The "h:c:t:l" address of the SCSI device under a block device: the file
/// name of its `device` link, where that holds a ':'.
pub open spec fn slave_hctl(links: Seq<(Seq<char>, Option<Seq<char>>)>, name: Seq<char>) -> Option<Seq<char>> {
    let i = link_index(links, name, 0);
    if i >= 0 {
        match links[i].1 {
            Some(l) => match spec_file_name(l) {
                Some(f) => if f.contains(':') {
                    Some(f)
                } else {
                    None
                },
                None => None,
            },
            None => None,
        }
    } else {
        None
    }
}

/// The host number of an "h:c:t:l" address: its first piece, as a `u32`.
pub open spec fn hctl_host(hctl: Seq<char>) -> Option<u32> {
    spec_parse_u32(split_on(hctl, ':')[0])
}

/// The index of the first SCSI host entry from `i` on named `name`, or -1.
pub open spec fn host_entry_index(hs: Seq<ScsiHostEntry>, name: Seq<char>, i: int) -> int
    decreases hs.len() - i,
{
    if i < 0 || i >= hs.len() {
        -1
    } else if hs[i].name@ == name {
        i
    } else {
        host_entry_index(hs, name, i + 1)
    }
}

/// What is known of the device under a device-mapper device: its SCSI
/// address, and the number, driver and PCI address of the host it is on.
pub open spec fn spec_slave(
    links: Seq<(Seq<char>, Option<Seq<char>>)>,
    hosts: Seq<ScsiHostEntry>,
    name: Seq<char>,
) -> SpecDmSlave {
    let hctl = slave_hctl(links, name);
    let num = match hctl {
        Some(h) => hctl_host(h),
        None => None,
    };
    match num {
        Some(n) => {
            let k = host_entry_index(hosts, "host"@ + dec(n as nat), 0);
            SpecDmSlave {
                device_name: name,
                hctl,
                host_num: Some(n),
                host_driver: if k >= 0 {
                    opt_view(hosts[k].proc_name)
                } else {
                    None
                },
                pci_address: if k >= 0 {
                    match hosts[k].canonical {
                        Some(c) => spec_pci_parent(c@),
                        None => None,
                    }
                } else {
                    None
                },
            }
        },
        None => SpecDmSlave { device_name: name, hctl, host_num: None, host_driver: None, pci_address: None },
    }
}

/// Finds what is known of the device named `name` under a device-mapper device.
pub fn discover_slave(
    links: &Vec<(String, Option<String>)>,
    hosts: &Vec<ScsiHostEntry>,
    name: &str,
) -> (r: DmSlave)
    ensures
        r@ == spec_slave(links_view(links@), hosts@, name@),
{
    let ghost lv = links_view(links@);
    let mut j: usize = 0;
    while j < links.len() && !str_eq(links[j].0.as_str(), name)
        invariant
            j <= links@.len(),
            lv == links_view(links@),
            link_index(lv, name@, 0) == link_index(lv, name@, j as int),
        decreases links@.len() - j,
    {
        j = j + 1;
    }
    let hctl: Option<String> = if j < links.len() {
        assert(lv[j as int] == (links@[j as int].0@, opt_view(links@[j as int].1)));
        match &links[j].1 {
            Some(l) => match file_name(l.as_str()) {
                Some(f) => if contains_char(f.as_str(), ':') {
                    Some(f)
                } else {
                    None
                },
                None => None,
            },
            None => None,
        }
    } else {
        None
    };
    assert(opt_view(hctl) == slave_hctl(lv, name@));
    let num: Option<u32> = match &hctl {
        Some(h) => {
            let pieces = split_exec(h.as_str(), ':');
            proof {
                crate::sysfs::lemma_split_nonempty(h@, ':');
            }
            assert(pieces@.map_values(|x: String| x@)[0] == pieces@[0]@);
            parse_u32(pieces[0].as_str())
        },
        None => None,
    };
    match num {
        Some(n) => {
            let mut hn = concat("host", "");
            push_u64(&mut hn, n as u64);
            proof {
                reveal_strlit("host");
                reveal_strlit("");
            }
            assert(hn@ =~= "host"@ + dec(n as nat));
            let mut k: usize = 0;
            while k < hosts.len() && !str_eq(hosts[k].name.as_str(), hn.as_str())
                invariant
                    k <= hosts@.len(),
                    host_entry_index(hosts@, hn@, 0) == host_entry_index(hosts@, hn@, k as int),
                decreases hosts@.len() - k,
            {
                k = k + 1;
            }
            let (driver, pci) = if k < hosts.len() {
                let e = &hosts[k];
                let pci = match &e.canonical {
                    Some(c) => find_pci_parent(c.as_str()),
                    None => None,
                };
                (clone_opt_string(&e.proc_name), pci)
            } else {
                (None, None)
            };
            DmSlave { device_name: to_string(name), hctl, host_num: Some(n), host_driver: driver, pci_address: pci }
        },
        None => DmSlave { device_name: to_string(name), hctl, host_num: None, host_driver: None, pci_address: None },
    }
}

// ---------------------------------------------------------------------------
// Discovery
// ---------------------------------------------------------------------------
pub open spec fn blocks_view(v: Seq<BlockDevice>) -> Seq<SpecBlockDevice> {
    v.map_values(|b: BlockDevice| b@)
}

pub open spec fn is_dm(e: BlockEntry) -> bool {
    has_prefix(e.name@, "dm-"@)
}

pub open spec fn block_info(e: BlockEntry) -> SpecBlockDevice {
    SpecBlockDevice {
        name: e.name@,
        dev_path: "/dev/"@ + e.name@,
        size_bytes: size_of(e.size),
        removable: flag_of(e.removable),
        read_only: flag_of(e.ro),
        wwn: or_else(opt_view(e.device_wwid), opt_view(e.wwid)),
        partitions: spec_partitions(e.children@, e.name@),
        holders: sort_stable(strs_view(e.holders@), seq_lt()),
    }
}

pub open spec fn dm_info(
    e: BlockEntry,
    links: Seq<(Seq<char>, Option<Seq<char>>)>,
    hosts: Seq<ScsiHostEntry>,
) -> SpecDmDevice {
    let uuid = or_empty(opt_view(e.dm_uuid));
    SpecDmDevice {
        name: e.name@,
        dm_name: or_empty(opt_view(e.dm_name)),
        dm_uuid: uuid,
        dm_type: spec_dm_type(uuid),
        size_bytes: size_of(e.size),
        slaves: sort_stable(strs_view(e.slaves@), seq_lt()).map_values(
            |n: Seq<char>| spec_slave(links, hosts, n),
        ),
        partitions: spec_partitions(e.children@, e.name@),
    }
}

/// The whole-disk block devices among the entries: those that resolve and are
/// neither partitions nor device-mapper devices, in order.
pub open spec fn spec_blocks(es: Seq<BlockEntry>) -> Seq<SpecBlockDevice>
    decreases es.len(),
{
    if es.len() == 0 {
        Seq::empty()
    } else {
        let r = spec_blocks(es.drop_last());
        let e = es.last();
        if e.canonical is Some && !e.is_partition && !is_dm(e) {
            r.push(block_info(e))
        } else {
            r
        }
    }
}

/// The device-mapper devices among the entries: those named "dm-..." that resolve, in order.
pub open spec fn spec_dms(
    es: Seq<BlockEntry>,
    links: Seq<(Seq<char>, Option<Seq<char>>)>,
    hosts: Seq<ScsiHostEntry>,
) -> Seq<SpecDmDevice>
    decreases es.len(),
{
    if es.len() == 0 {
        Seq::empty()
    } else {
        let r = spec_dms(es.drop_last(), links, hosts);
        let e = es.last();
        if e.canonical is Some && is_dm(e) {
            r.push(dm_info(e, links, hosts))
        } else {
            r
        }
    }
}

/// Device-mapper devices in the byte order of their names.
pub open spec fn dm_lt() -> spec_fn(SpecDmDevice, SpecDmDevice) -> bool {
    |a: SpecDmDevice, b: SpecDmDevice| str_lt(a.name, b.name)
}

/// The block devices and device-mapper devices of the entries of
/// /sys/class/block, each list in the byte order of the names.
pub open spec fn spec_discover(es: Seq<BlockEntry>, hosts: Seq<ScsiHostEntry>) -> (
    Seq<SpecBlockDevice>,
    Seq<SpecDmDevice>,
) {
    let t = sort_stable(es, keyed_lt::<BlockEntry>());
    (spec_blocks(t), sort_stable(spec_dms(t, spec_links(t), hosts), dm_lt()))
}

impl Keyed for DmDevice {
    open spec fn key_lt(a: Self, b: Self) -> bool {
        str_lt(a.name@, b.name@)
    }

    fn less(&self, other: &Self) -> (r: bool) {
        str_less(self.name.as_str(), other.name.as_str())
    }
}

fn dm_slaves(
    names: &Vec<String>,
    links: &Vec<(String, Option<String>)>,
    hosts: &Vec<ScsiHostEntry>,
) -> (r: Vec<DmSlave>)
    ensures
        slaves_view(r@) == sort_stable(strs_view(names@), seq_lt()).map_values(
            |n: Seq<char>| spec_slave(links_view(links@), hosts@, n),
        ),
{
    let sorted = sorted_names(names);
    let ghost sv = strs_view(sorted@);
    let mut r: Vec<DmSlave> = Vec::new();
    let mut k: usize = 0;
    while k < sorted.len()
        invariant
            k <= sorted@.len(),
            sv == strs_view(sorted@),
            r@.len() == k,
            forall|q: int| 0 <= q < k ==> #[trigger] r@[q]@ == spec_slave(links_view(links@), hosts@, sv[q]),
        decreases sorted@.len() - k,
    {
        assert(sv[k as int] == sorted@[k as int]@);
        let s = discover_slave(links, hosts, sorted[k].as_str());
        r.push(s);
        k = k + 1;
    }
    assert(slaves_view(r@) =~= sv.map_values(|n: Seq<char>| spec_slave(links_view(links@), hosts@, n)));
    r
}

/// Discovers the block devices and the device-mapper devices from the entries
/// of /sys/class/block; `scsi_hosts` are the entries of /sys/class/scsi_host.
pub fn discover(entries: Vec<BlockEntry>, scsi_hosts: &Vec<ScsiHostEntry>) -> (r: (
    Vec<BlockDevice>,
    Vec<DmDevice>,
))
    ensures
        (blocks_view(r.0@), dms_view(r.1@)) == spec_discover(entries@, scsi_hosts@),
{
    let sorted = sort_by_key(entries);
    let ghost t = sorted@;
    let mut links: Vec<(String, Option<String>)> = Vec::new();
    let mut j: usize = 0;
    while j < sorted.len()
        invariant
            j <= sorted@.len(),
            t == sorted@,
            links_view(links@) == spec_links(t.take(j as int)),
        decreases sorted@.len() - j,
    {
        let ghost before = links_view(links@);
        links.push((sorted[j].name.clone(), clone_opt_string(&sorted[j].device_link)));
        assert(links_view(links@) =~= before.push((t[j as int].name@, opt_view(t[j as int].device_link))));
        j = j + 1;
        assert(spec_links(t.take(j as int)) =~= before.push((t[j - 1].name@, opt_view(t[j - 1].device_link))));
    }
    assert(t.take(t.len() as int) =~= t);
    let ghost lv = links_view(links@);
    let mut input = sorted;
    let mut blocks: Vec<BlockDevice> = Vec::new();
    let mut dms: Vec<DmDevice> = Vec::new();
    let n = input.len();
    let mut i: usize = 0;
    while input.len() > 0
        invariant
            i + input@.len() == n,
            n == t.len(),
            input@ == t.skip(i as int),
            lv == links_view(links@),
            lv == spec_links(t),
            blocks_view(blocks@) == spec_blocks(t.take(i as int)),
            dms_view(dms@) == spec_dms(t.take(i as int), lv, scsi_hosts@),
        decreases input@.len(),
    {
        let e = input.remove(0);
        assert(t.take(i + 1).drop_last() =~= t.take(i as int));
        assert(t[i as int] == e);
        assert(t.take(i + 1).last() == e);
        assert(input@ =~= t.skip(i + 1));
        let ghost ev = e;
        let BlockEntry {
            name,
            canonical,
            is_partition,
            size,
            removable,
            ro,
            device_wwid,
            wwid,
            dm_name,
            dm_uuid,
            holders,
            slaves,
            children,
            device_link: _,
        } = e;
        proof {
            reveal_strlit("dm-");
        }
        if canonical.is_some() {
            if starts_with(name.as_str(), "dm-") {
                let uuid = match dm_uuid {
                    Some(u) => u,
                    None => String::new(),
                };
                let dm_type = classify_dm_type(uuid.as_str());
                let dm = DmDevice {
                    dm_name: or_empty_exec(dm_name),
                    dm_type,
                    size_bytes: size_exec(&size),
                    slaves: dm_slaves(&slaves, &links, scsi_hosts),
                    partitions: discover_partitions(children, name.as_str()),
                    dm_uuid: uuid,
                    name,
                };
                assert(dm@ == dm_info(ev, lv, scsi_hosts@));
                let ghost before = dms_view(dms@);
                dms.push(dm);
                assert(dms_view(dms@) =~= before.push(dm_info(ev, lv, scsi_hosts@)));
            } else if !is_partition {
                let blk = BlockDevice {
                    dev_path: concat("/dev/", name.as_str()),
                    size_bytes: size_exec(&size),
                    removable: flag_exec(&removable),
                    read_only: flag_exec(&ro),
                    wwn: or_else_owned(device_wwid, wwid),
                    partitions: discover_partitions(children, name.as_str()),
                    holders: sorted_names(&holders),
                    name,
                };
                assert(blk@ == block_info(ev));
                let ghost before = blocks_view(blocks@);
                blocks.push(blk);
                assert(blocks_view(blocks@) =~= before.push(block_info(ev)));
            }
        }
        i = i + 1;
    }
    assert(t.take(n as int) =~= t);
    let ghost unsorted = dms@;
    let dms_sorted = sort_by_key(dms);
    proof {
        let f = |d: DmDevice| d@;
        lemma_sort_map(unsorted, keyed_lt::<DmDevice>(), f, dm_lt());
        assert(dms_view(dms_sorted@) =~= dms_sorted@.map_values(f));
        assert(dms_view(unsorted) =~= unsorted.map_values(f));
    }
    (blocks, dms_sorted)
}

fn or_empty_exec(o: Option<String>) -> (r: String)
    ensures
        r@ == or_empty(opt_view(o)),
{
    match o {
        Some(s) => s,
        None => String::new(),
    }
}

fn or_else_owned(a: Option<String>, b: Option<String>) -> (r: Option<String>)
    ensures
        opt_view(r) == or_else(opt_view(a), opt_view(b)),
{
    match a {
        Some(x) => Some(x),
        None => b,
    }
}

} // verus!
