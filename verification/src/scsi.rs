//! SCSI hosts, their transports (Fibre Channel, SAS, iSCSI) and the devices on
//! them, from what sysfs lists under /sys/class/scsi_host, the transport
//! classes and /sys/bus/scsi/devices.
use vstd::prelude::*;
use vstd::string::*;
use crate::block::{block_named, get_block};
use crate::sort::{lemma_sort_map, lemma_sorted_strings_view, seq_lt, sort_by_key, sort_stable, sort_strings, str_less, str_lt, keyed_lt, Keyed};
use crate::sysfs::{collect_pci_ancestors, path_components, path_components_exec, spec_pci_ancestors, spec_read_u64, read_u64_of, scsi_type_name, spec_scsi_type_name, split_exec, split_on};
use crate::text::{all_digits, all_digits_exec, concat, contains_char, contains_seq, contains_str, dec, has_prefix, or_empty, parse_u16, parse_u32, push_u64, spec_parse_u16, spec_parse_u32, spec_strip_prefix, starts_with, str_eq, strip_prefix, to_string};
use crate::topology::host_map_view;
use crate::types::{
    hosts_view, ScsiHost, SpecScsiHost, devices_view, targets_view, ScsiDevice, ScsiTarget, SpecScsiDevice, SpecScsiTarget, BlockDevice, SpecBlockDevice,
    clone_opt_string, opt_block_view, opt_view, strs_view, FcHostInfo, IscsiHostInfo,
    IscsiSessionInfo, SasHostInfo, SasPhyInfo, SpecFcHostInfo, SpecIscsiSessionInfo,
    SpecSasPhyInfo, SpecTransportInfo, TransportInfo, phys_view, sessions_view,
};

verus! {

// ---------------------------------------------------------------------------
// What sysfs lists
// ---------------------------------------------------------------------------
/// An entry of /sys/class/scsi_host: its name ("host3"), where its link
/// resolves to, and the trimmed `proc_name` attribute read under it.
pub struct ScsiHostEntry {
    pub name: String,
    pub canonical: Option<String>,
    pub proc_name: Option<String>,
}

/// An entry of /sys/class/fc_host and the trimmed attributes read under it.
pub struct FcHostEntry {
    pub name: String,
    pub port_name: Option<String>,
    pub node_name: Option<String>,
    pub port_state: Option<String>,
    pub port_type: Option<String>,
    pub speed: Option<String>,
    pub fabric_name: Option<String>,
    pub supported_speeds: Option<String>,
}

/// An entry of /sys/class/sas_phy ("phy-2:0") and its trimmed attributes.
pub struct SasPhyEntry {
    pub name: String,
    pub sas_address: Option<String>,
    pub negotiated_linkrate: Option<String>,
    pub initiator_protocols: Option<String>,
    pub target_protocols: Option<String>,
}

/// An entry of /sys/class/iscsi_session ("session1"): the path its link
/// resolves to (its own path where it does not resolve) and its attributes.
pub struct IscsiSessionEntry {
    pub name: String,
    pub path: String,
    pub target_name: Option<String>,
    pub state: Option<String>,
}

/// An entry of /sys/class/iscsi_connection ("connection1:0") and its attributes.
pub struct IscsiConnectionEntry {
    pub name: String,
    pub persistent_address: Option<String>,
    pub address: Option<String>,
    pub persistent_port: Option<String>,
    pub port: Option<String>,
}

/// An entry of /sys/bus/scsi/devices ("0:0:0:0"): where its link resolves to,
/// its trimmed attributes, and the names listed (unordered) in its `block` and
/// `scsi_generic` directories, none where a directory is missing.
pub struct ScsiDeviceEntry {
    pub name: String,
    pub canonical: Option<String>,
    pub vendor: Option<String>,
    pub model: Option<String>,
    pub rev: Option<String>,
    pub scsi_type: Option<String>,
    pub block: Vec<String>,
    pub scsi_generic: Vec<String>,
}

/// What the SCSI discovery reads: the entries of each directory, in the order
/// the directory listed them (an empty list where the directory is missing).
pub struct ScsiSysfs {
    pub hosts: Vec<ScsiHostEntry>,
    pub fc_hosts: Vec<FcHostEntry>,
    pub sas_hosts: Vec<String>,
    pub sas_phys: Vec<SasPhyEntry>,
    pub iscsi_hosts: Vec<String>,
    pub iscsi_sessions: Vec<IscsiSessionEntry>,
    pub iscsi_connections: Vec<IscsiConnectionEntry>,
    pub devices: Vec<ScsiDeviceEntry>,
}

impl Keyed for ScsiHostEntry {
    open spec fn key_lt(a: Self, b: Self) -> bool {
        str_lt(a.name@, b.name@)
    }

    fn less(&self, other: &Self) -> (r: bool) {
        str_less(self.name.as_str(), other.name.as_str())
    }
}

impl Keyed for SasPhyEntry {
    open spec fn key_lt(a: Self, b: Self) -> bool {
        str_lt(a.name@, b.name@)
    }

    fn less(&self, other: &Self) -> (r: bool) {
        str_less(self.name.as_str(), other.name.as_str())
    }
}

impl Keyed for IscsiSessionEntry {
    open spec fn key_lt(a: Self, b: Self) -> bool {
        str_lt(a.name@, b.name@)
    }

    fn less(&self, other: &Self) -> (r: bool) {
        str_less(self.name.as_str(), other.name.as_str())
    }
}

impl Keyed for IscsiConnectionEntry {
    open spec fn key_lt(a: Self, b: Self) -> bool {
        str_lt(a.name@, b.name@)
    }

    fn less(&self, other: &Self) -> (r: bool) {
        str_less(self.name.as_str(), other.name.as_str())
    }
}

impl Keyed for ScsiDeviceEntry {
    open spec fn key_lt(a: Self, b: Self) -> bool {
        str_lt(a.name@, b.name@)
    }

    fn less(&self, other: &Self) -> (r: bool) {
        str_less(self.name.as_str(), other.name.as_str())
    }
}

// ---------------------------------------------------------------------------
// The host's place in the device tree
// ---------------------------------------------------------------------------
/// A component such as "ata3": "ata" followed by at least one decimal digit and nothing else.
pub open spec fn is_ata_port(c: Seq<char>) -> bool {
    has_prefix(c, "ata"@) && c.len() > 3 && all_digits(c.subrange(3, c.len() as int))
}

/// The first ATA port among the components from `i` on.
pub open spec fn first_ata_port(cs: Seq<Seq<char>>, i: int) -> Option<Seq<char>>
    decreases cs.len() - i,
{
    if i < 0 || i >= cs.len() {
        None
    } else if is_ata_port(cs[i]) {
        Some(cs[i])
    } else {
        first_ata_port(cs, i + 1)
    }
}

/// The ATA port ("ata3") a host sits on: the first such component of its canonical path.
pub fn find_ata_port(canonical: &str) -> (r: Option<String>)
    ensures
        opt_view(r) == first_ata_port(path_components(canonical@), 0),
{
    let comps = path_components_exec(canonical);
    let ghost all = comps@.map_values(|x: String| x@);
    let mut j: usize = 0;
    while j < comps.len()
        invariant
            j <= comps@.len(),
            all == comps@.map_values(|x: String| x@),
            all == path_components(canonical@),
            first_ata_port(all, 0) == first_ata_port(all, j as int),
        decreases comps@.len() - j,
    {
        proof {
            reveal_strlit("ata");
        }
        let c = comps[j].as_str();
        assert(all[j as int] == c@);
        if starts_with(c, "ata") {
            let m = c.unicode_len();
            if m > 3 && all_digits_exec(c.substring_char(3, m)) {
                return Some(to_string(c));
            }
        }
        j = j + 1;
    }
    None
}

/// The PCI address nearest to the leaf of a canonical path, if any.
pub open spec fn spec_pci_parent(p: Seq<char>) -> Option<Seq<char>> {
    let a = spec_pci_ancestors(p);
    if a.len() > 0 {
        Some(a.last())
    } else {
        None
    }
}

/// The PCI device a host hangs off: the last PCI address of its canonical path.
pub fn find_pci_parent(canonical: &str) -> (r: Option<String>)
    ensures
        opt_view(r) == spec_pci_parent(canonical@),
{
    let mut a = collect_pci_ancestors(canonical);
    let ghost all = a@.map_values(|x: String| x@);
    let last = a.pop();
    match last {
        Some(x) => {
            assert(x@ == all.last());
            Some(x)
        },
        None => None,
    }
}

// ---------------------------------------------------------------------------
// iSCSI
// ---------------------------------------------------------------------------
/// The first of two optional values that is there.
pub open spec fn or_else(a: Option<Seq<char>>, b: Option<Seq<char>>) -> Option<Seq<char>> {
    if a is Some {
        a
    } else {
        b
    }
}

/// The index of the first connection from `i` on whose name begins with `p`, or -1.
pub open spec fn first_conn(cs: Seq<IscsiConnectionEntry>, p: Seq<char>, i: int) -> int
    decreases cs.len() - i,
{
    if i < 0 || i >= cs.len() {
        -1
    } else if has_prefix(cs[i].name@, p) {
        i
    } else {
        first_conn(cs, p, i + 1)
    }
}

/// The prefix of the connections of session number `num`: "connection<num>:".
pub open spec fn conn_prefix(num: Seq<char>) -> Seq<char> {
    "connection"@ + num + ":"@
}

/// The number in a session's name ("1" of "session1").
pub open spec fn session_num(session: Seq<char>) -> Seq<char> {
    match spec_strip_prefix(session, "session"@) {
        Some(x) => x,
        None => Seq::empty(),
    }
}

/// The target address and port of a session, from the first of its connections
/// in `conns`: the persistent value where there is one, else the current one;
/// a port that does not parse as a `u16` is none.
pub open spec fn spec_iscsi_connection(conns: Seq<IscsiConnectionEntry>, session: Seq<char>) -> (
    Option<Seq<char>>,
    Option<u16>,
) {
    let i = first_conn(conns, conn_prefix(session_num(session)), 0);
    if i >= 0 {
        let c = conns[i];
        (
            or_else(opt_view(c.persistent_address), opt_view(c.address)),
            match or_else(opt_view(c.persistent_port), opt_view(c.port)) {
                Some(p) => spec_parse_u16(p),
                None => None,
            },
        )
    } else {
        (None, None)
    }
}

fn or_else_exec(a: &Option<String>, b: &Option<String>) -> (r: Option<String>)
    ensures
        opt_view(r) == or_else(opt_view(*a), opt_view(*b)),
{
    match a {
        Some(x) => Some(x.clone()),
        None => clone_opt_string(b),
    }
}

/// Finds the connection of a session among the (sorted) connection entries.
pub fn find_iscsi_connection(conns: &Vec<IscsiConnectionEntry>, session_name: &str) -> (r: (
    Option<String>,
    Option<u16>,
))
    ensures
        (opt_view(r.0), r.1) == spec_iscsi_connection(conns@, session_name@),
{
    proof {
        reveal_strlit("session");
    }
    let num: &str = match strip_prefix(session_name, "session") {
        Some(x) => x,
        None => "",
    };
    proof {
        reveal_strlit("");
    }
    assert(num@ == session_num(session_name@));
    let mut prefix = concat("connection", num);
    prefix.append(":");
    assert(prefix@ == conn_prefix(num@));
    let ghost p = prefix@;
    let mut j: usize = 0;
    while j < conns.len() && !starts_with(conns[j].name.as_str(), prefix.as_str())
        invariant
            j <= conns@.len(),
            p == prefix@,
            first_conn(conns@, p, 0) == first_conn(conns@, p, j as int),
        decreases conns@.len() - j,
    {
        j = j + 1;
    }
    if j < conns.len() {
        let c = &conns[j];
        let address = or_else_exec(&c.persistent_address, &c.address);
        let port_text = or_else_exec(&c.persistent_port, &c.port);
        let port = match &port_text {
            Some(t) => parse_u16(t.as_str()),
            None => None,
        };
        (address, port)
    } else {
        (None, None)
    }
}

/// "/<host>/": how a session's path names the host it belongs to.
pub open spec fn host_marker(host: Seq<char>) -> Seq<char> {
    "/"@ + host + "/"@
}

/// Whether a session entry is listed for `host`: named "session...", below the
/// host in the device tree, and with a target name.
pub open spec fn session_kept(e: IscsiSessionEntry, host: Seq<char>) -> bool {
    has_prefix(e.name@, "session"@) && contains_seq(e.path@, host_marker(host))
        && e.target_name is Some
}

pub open spec fn session_info(e: IscsiSessionEntry, conns: Seq<IscsiConnectionEntry>) -> SpecIscsiSessionInfo {
    let (a, p) = spec_iscsi_connection(conns, e.name@);
    SpecIscsiSessionInfo {
        target_name: or_empty(opt_view(e.target_name)),
        state: or_empty(opt_view(e.state)),
        target_address: a,
        target_port: p,
    }
}

/// The sessions of `host`, in the order of `ss`.
pub open spec fn spec_sessions(
    ss: Seq<IscsiSessionEntry>,
    conns: Seq<IscsiConnectionEntry>,
    host: Seq<char>,
) -> Seq<SpecIscsiSessionInfo>
    decreases ss.len(),
{
    if ss.len() == 0 {
        Seq::empty()
    } else {
        let r = spec_sessions(ss.drop_last(), conns, host);
        if session_kept(ss.last(), host) {
            r.push(session_info(ss.last(), conns))
        } else {
            r
        }
    }
}

fn or_empty_exec(o: &Option<String>) -> (r: String)
    ensures
        r@ == or_empty(opt_view(*o)),
{
    match o {
        Some(s) => s.clone(),
        None => String::new(),
    }
}

/// The iSCSI sessions of the host named `host`, from the (sorted) session and
/// connection entries.
fn iscsi_sessions(
    sessions: &Vec<IscsiSessionEntry>,
    conns: &Vec<IscsiConnectionEntry>,
    host: &str,
) -> (r: Vec<IscsiSessionInfo>)
    ensures
        sessions_view(r@) == spec_sessions(sessions@, conns@, host@),
{
    let mut marker = concat("/", host);
    marker.append("/");
    assert(marker@ == host_marker(host@));
    let mut r: Vec<IscsiSessionInfo> = Vec::new();
    let mut j: usize = 0;
    while j < sessions.len()
        invariant
            j <= sessions@.len(),
            marker@ == host_marker(host@),
            sessions_view(r@) == spec_sessions(sessions@.take(j as int), conns@, host@),
        decreases sessions@.len() - j,
    {
        let e = &sessions[j];
        assert(sessions@.take(j + 1).drop_last() =~= sessions@.take(j as int));
        assert(sessions@.take(j + 1).last() == *e);
        proof {
            reveal_strlit("session");
        }
        let keep = starts_with(e.name.as_str(), "session") && contains_str(e.path.as_str(), marker.as_str())
            && e.target_name.is_some();
        if keep {
            let (address, port) = find_iscsi_connection(conns, e.name.as_str());
            let info = IscsiSessionInfo {
                target_name: or_empty_exec(&e.target_name),
                state: or_empty_exec(&e.state),
                target_address: address,
                target_port: port,
            };
            let ghost before = sessions_view(r@);
            r.push(info);
            assert(sessions_view(r@) =~= before.push(session_info(*e, conns@)));
        }
        j = j + 1;
        assert(sessions_view(r@) =~= spec_sessions(sessions@.take(j as int), conns@, host@));
    }
    assert(sessions@.take(sessions@.len() as int) =~= sessions@);
    r
}

// ---------------------------------------------------------------------------
// SAS
// ---------------------------------------------------------------------------
/// The prefix of the phys of host number `n`: "phy-<n>:".
pub open spec fn phy_prefix(n: u32) -> Seq<char> {
    "phy-"@ + dec(n as nat) + ":"@
}

/// Whether a phy entry is a host-level phy of host `n` ("phy-<n>:<m>", not the
/// end-device "phy-<n>:<m>:<p>") with a SAS address.
pub open spec fn phy_kept(e: SasPhyEntry, n: u32) -> bool {
    let p = phy_prefix(n);
    has_prefix(e.name@, p) && !e.name@.subrange(p.len() as int, e.name@.len() as int).contains(':')
        && e.sas_address is Some
}

pub open spec fn phy_info(e: SasPhyEntry) -> SpecSasPhyInfo {
    SpecSasPhyInfo {
        name: e.name@,
        sas_address: or_empty(opt_view(e.sas_address)),
        negotiated_linkrate: or_empty(opt_view(e.negotiated_linkrate)),
        initiator_protocols: opt_view(e.initiator_protocols),
        target_protocols: opt_view(e.target_protocols),
    }
}

/// The host-level phys of host `n`, in the order of `ps`.
pub open spec fn spec_phys(ps: Seq<SasPhyEntry>, n: u32) -> Seq<SpecSasPhyInfo>
    decreases ps.len(),
{
    if ps.len() == 0 {
        Seq::empty()
    } else {
        let r = spec_phys(ps.drop_last(), n);
        if phy_kept(ps.last(), n) {
            r.push(phy_info(ps.last()))
        } else {
            r
        }
    }
}

/// The host-level phys of host number `n`, from the (sorted) phy entries.
fn sas_phys(phys: &Vec<SasPhyEntry>, n: u32) -> (r: Vec<SasPhyInfo>)
    ensures
        phys_view(r@) == spec_phys(phys@, n),
{
    let mut prefix = concat("phy-", "");
    push_u64(&mut prefix, n as u64);
    prefix.append(":");
    proof {
        reveal_strlit("phy-");
        reveal_strlit("");
        reveal_strlit(":");
    }
    assert(prefix@ =~= phy_prefix(n));
    let m = prefix.unicode_len();
    let mut r: Vec<SasPhyInfo> = Vec::new();
    let mut j: usize = 0;
    while j < phys.len()
        invariant
            j <= phys@.len(),
            prefix@ == phy_prefix(n),
            m == prefix@.len(),
            phys_view(r@) == spec_phys(phys@.take(j as int), n),
        decreases phys@.len() - j,
    {
        let e = &phys[j];
        assert(phys@.take(j + 1).drop_last() =~= phys@.take(j as int));
        assert(phys@.take(j + 1).last() == *e);
        let name = e.name.as_str();
        if starts_with(name, prefix.as_str()) {
            let k = name.unicode_len();
            let suffix = name.substring_char(m, k);
            if !contains_char(suffix, ':') && e.sas_address.is_some() {
                let info = SasPhyInfo {
                    name: e.name.clone(),
                    sas_address: or_empty_exec(&e.sas_address),
                    negotiated_linkrate: or_empty_exec(&e.negotiated_linkrate),
                    initiator_protocols: clone_opt_string(&e.initiator_protocols),
                    target_protocols: clone_opt_string(&e.target_protocols),
                };
                let ghost before = phys_view(r@);
                r.push(info);
                assert(phys_view(r@) =~= before.push(phy_info(*e)));
            }
        }
        j = j + 1;
        assert(phys_view(r@) =~= spec_phys(phys@.take(j as int), n));
    }
    assert(phys@.take(phys@.len() as int) =~= phys@);
    r
}

// ---------------------------------------------------------------------------
// Fibre Channel
// ---------------------------------------------------------------------------
/// The index of the first FC host entry from `i` on named `name`, or -1.
pub open spec fn fc_index(fs: Seq<FcHostEntry>, name: Seq<char>, i: int) -> int
    decreases fs.len() - i,
{
    if i < 0 || i >= fs.len() {
        -1
    } else if fs[i].name@ == name {
        i
    } else {
        fc_index(fs, name, i + 1)
    }
}

/// The FC port of the host named `name`: there where it is listed with a port name.
pub open spec fn spec_fc(fs: Seq<FcHostEntry>, name: Seq<char>) -> Option<SpecFcHostInfo> {
    let i = fc_index(fs, name, 0);
    if i >= 0 && fs[i].port_name is Some {
        let e = fs[i];
        Some(
            SpecFcHostInfo {
                port_name: or_empty(opt_view(e.port_name)),
                node_name: or_empty(opt_view(e.node_name)),
                port_state: or_empty(opt_view(e.port_state)),
                port_type: or_empty(opt_view(e.port_type)),
                speed: or_empty(opt_view(e.speed)),
                fabric_name: opt_view(e.fabric_name),
                supported_speeds: opt_view(e.supported_speeds),
            },
        )
    } else {
        None
    }
}

fn discover_fc_transport(fcs: &Vec<FcHostEntry>, name: &str) -> (r: Option<FcHostInfo>)
    ensures
        match r {
            Some(f) => spec_fc(fcs@, name@) == Some(f@),
            None => spec_fc(fcs@, name@) is None,
        },
{
    let mut j: usize = 0;
    while j < fcs.len() && !str_eq(fcs[j].name.as_str(), name)
        invariant
            j <= fcs@.len(),
            fc_index(fcs@, name@, 0) == fc_index(fcs@, name@, j as int),
        decreases fcs@.len() - j,
    {
        j = j + 1;
    }
    if j < fcs.len() {
        let e = &fcs[j];
        if e.port_name.is_some() {
            return Some(
                FcHostInfo {
                    port_name: or_empty_exec(&e.port_name),
                    node_name: or_empty_exec(&e.node_name),
                    port_state: or_empty_exec(&e.port_state),
                    port_type: or_empty_exec(&e.port_type),
                    speed: or_empty_exec(&e.speed),
                    fabric_name: clone_opt_string(&e.fabric_name),
                    supported_speeds: clone_opt_string(&e.supported_speeds),
                },
            );
        }
    }
    None
}

// ---------------------------------------------------------------------------
// The transport of a host
// ---------------------------------------------------------------------------
/// The name of host number `n`: "host<n>".
pub open spec fn host_name(n: u32) -> Seq<char> {
    "host"@ + dec(n as nat)
}

/// The transport of host number `n`: Fibre Channel where the FC class lists it
/// with a port name, else SAS where the SAS class lists it, else iSCSI where the
/// iSCSI class lists it. The phy, session and connection entries are taken in
/// the order given.
pub open spec fn spec_transport(
    fcs: Seq<FcHostEntry>,
    sas_hosts: Seq<String>,
    phys: Seq<SasPhyEntry>,
    iscsi_hosts: Seq<String>,
    sessions: Seq<IscsiSessionEntry>,
    conns: Seq<IscsiConnectionEntry>,
    n: u32,
) -> Option<SpecTransportInfo> {
    let h = host_name(n);
    match spec_fc(fcs, h) {
        Some(fc) => Some(SpecTransportInfo::Fc(fc)),
        None => if strs_view(sas_hosts).contains(h) {
            Some(SpecTransportInfo::Sas(spec_phys(phys, n)))
        } else if strs_view(iscsi_hosts).contains(h) {
            Some(SpecTransportInfo::Iscsi(spec_sessions(sessions, conns, h)))
        } else {
            None
        },
    }
}

fn lists(names: &Vec<String>, name: &str) -> (r: bool)
    ensures
        r == strs_view(names@).contains(name@),
{
    let mut j: usize = 0;
    while j < names.len()
        invariant
            j <= names@.len(),
            forall|k: int| 0 <= k < j ==> names@[k]@ != name@,
        decreases names@.len() - j,
    {
        if str_eq(names[j].as_str(), name) {
            assert(strs_view(names@)[j as int] == name@);
            return true;
        }
        j = j + 1;
    }
    assert forall|k: int| 0 <= k < strs_view(names@).len() implies strs_view(names@)[k] != name@ by {
        assert(strs_view(names@)[k] == names@[k]@);
    }
    false
}

/// The transport of host number `n`, from a snapshot whose phy, session and
/// connection entries are sorted.
fn discover_transport(s: &ScsiSysfs, n: u32) -> (r: Option<TransportInfo>)
    ensures
        match r {
            Some(t) => spec_transport(s.fc_hosts@, s.sas_hosts@, s.sas_phys@, s.iscsi_hosts@, s.iscsi_sessions@, s.iscsi_connections@, n) == Some(t@),
            None => spec_transport(s.fc_hosts@, s.sas_hosts@, s.sas_phys@, s.iscsi_hosts@, s.iscsi_sessions@, s.iscsi_connections@, n) is None,
        },
{
    let mut h = concat("host", "");
    push_u64(&mut h, n as u64);
    proof {
        reveal_strlit("host");
        reveal_strlit("");
    }
    assert(h@ =~= host_name(n));
    match discover_fc_transport(&s.fc_hosts, h.as_str()) {
        Some(fc) => {
            return Some(TransportInfo::Fc(fc));
        },
        None => {},
    }
    match discover_sas_transport(&s.sas_hosts, &s.sas_phys, h.as_str(), n) {
        Some(sas) => {
            return Some(TransportInfo::Sas(sas));
        },
        None => {},
    }
    match discover_iscsi_transport(&s.iscsi_hosts, &s.iscsi_sessions, &s.iscsi_connections, h.as_str()) {
        Some(iscsi) => Some(TransportInfo::Iscsi(iscsi)),
        None => None,
    }
}

/// The SAS side of the host named `host_name` (number `n`), where the SAS class lists it.
fn discover_sas_transport(sas_hosts: &Vec<String>, phys: &Vec<SasPhyEntry>, host_name: &str, n: u32) -> (r: Option<
    SasHostInfo,
>)
    ensures
        match r {
            Some(x) => strs_view(sas_hosts@).contains(host_name@) && phys_view(x.phys@) == spec_phys(phys@, n),
            None => !strs_view(sas_hosts@).contains(host_name@),
        },
{
    if lists(sas_hosts, host_name) {
        Some(SasHostInfo { phys: sas_phys(phys, n) })
    } else {
        None
    }
}

/// The iSCSI side of the host named `host_name`, where the iSCSI class lists it.
fn discover_iscsi_transport(
    iscsi_hosts: &Vec<String>,
    sessions: &Vec<IscsiSessionEntry>,
    conns: &Vec<IscsiConnectionEntry>,
    host_name: &str,
) -> (r: Option<IscsiHostInfo>)
    ensures
        match r {
            Some(x) => strs_view(iscsi_hosts@).contains(host_name@) && sessions_view(x.sessions@) == spec_sessions(
                sessions@,
                conns@,
                host_name@,
            ),
            None => !strs_view(iscsi_hosts@).contains(host_name@),
        },
{
    if lists(iscsi_hosts, host_name) {
        Some(IscsiHostInfo { sessions: iscsi_sessions(sessions, conns, host_name) })
    } else {
        None
    }
}

// ---------------------------------------------------------------------------
// Devices
// ---------------------------------------------------------------------------
/// The four numbers of a device name "host:channel:target:lun", each a `u32`
/// as `u32::from_str` reads it; `None` for any other shape.
pub open spec fn hctl_numbers(name: Seq<char>) -> Option<(u32, u32, u32, u32)> {
    let ps = split_on(name, ':');
    if ps.len() == 4 {
        match (spec_parse_u32(ps[0]), spec_parse_u32(ps[1]), spec_parse_u32(ps[2]), spec_parse_u32(ps[3])) {
            (Some(h), Some(c), Some(t), Some(l)) => Some((h, c, t, l)),
            _ => None,
        }
    } else {
        None
    }
}

/// Whether an entry of the SCSI bus is a device that is listed: not a host or
/// target entry, named "h:c:t:l", and with a resolvable link.
pub open spec fn device_kept(e: ScsiDeviceEntry) -> bool {
    !has_prefix(e.name@, "host"@) && !has_prefix(e.name@, "target"@) && hctl_numbers(e.name@) is Some
        && e.canonical is Some
}

/// The block device named by the first name from `i` on that names a known one.
pub open spec fn first_known_block(names: Seq<String>, bs: Seq<BlockDevice>, i: int) -> Option<
    SpecBlockDevice,
>
    decreases names.len() - i,
{
    if i < 0 || i >= names.len() {
        None
    } else {
        match block_named(bs, names[i]@) {
            Some(b) => Some(b),
            None => first_known_block(names, bs, i + 1),
        }
    }
}

/// The first name from `i` on that begins with "sg".
pub open spec fn first_sg(names: Seq<String>, i: int) -> Option<Seq<char>>
    decreases names.len() - i,
{
    if i < 0 || i >= names.len() {
        None
    } else if has_prefix(names[i]@, "sg"@) {
        Some(names[i]@)
    } else {
        first_sg(names, i + 1)
    }
}

/// The peripheral type of a device: its `type` attribute as a `u64` (0 where
/// it is missing or not a number), cut to its low 32 bits.
pub open spec fn scsi_type_of(e: ScsiDeviceEntry) -> u32 {
    (match spec_read_u64(opt_view(e.scsi_type)) {
        Some(v) => v,
        None => 0,
    }) as u32
}

pub open spec fn device_info(e: ScsiDeviceEntry, bs: Seq<BlockDevice>) -> SpecScsiDevice {
    let t = scsi_type_of(e);
    SpecScsiDevice {
        hctl: e.name@,
        vendor: or_empty(opt_view(e.vendor)),
        model: or_empty(opt_view(e.model)),
        rev: or_empty(opt_view(e.rev)),
        scsi_type: t,
        scsi_type_name: spec_scsi_type_name(t),
        block_device: first_known_block(e.block@, bs, 0),
        sg_device: first_sg(e.scsi_generic@, 0),
    }
}

/// A device with the host, channel and target numbers of its name.
pub struct SpecRawDevice {
    pub host: u32,
    pub channel: u32,
    pub target: u32,
    pub device: SpecScsiDevice,
}

/// The listed devices, in the order of `ds`.
pub open spec fn spec_raw_devices(ds: Seq<ScsiDeviceEntry>, bs: Seq<BlockDevice>) -> Seq<SpecRawDevice>
    decreases ds.len(),
{
    if ds.len() == 0 {
        Seq::empty()
    } else {
        let r = spec_raw_devices(ds.drop_last(), bs);
        let e = ds.last();
        if device_kept(e) {
            match hctl_numbers(e.name@) {
                Some((h, c, t, l)) => r.push(
                    SpecRawDevice { host: h, channel: c, target: t, device: device_info(e, bs) },
                ),
                None => r,
            }
        } else {
            r
        }
    }
}

struct RawScsiDevice {
    host: u32,
    channel: u32,
    target: u32,
    device: ScsiDevice,
}

impl View for RawScsiDevice {
    type V = SpecRawDevice;

    closed spec fn view(&self) -> SpecRawDevice {
        SpecRawDevice {
            host: self.host,
            channel: self.channel,
            target: self.target,
            device: self.device@,
        }
    }
}

spec fn raws_view(v: Seq<RawScsiDevice>) -> Seq<SpecRawDevice> {
    v.map_values(|d: RawScsiDevice| d@)
}

fn find_block_device(names: &Vec<String>, bs: &Vec<BlockDevice>) -> (r: Option<BlockDevice>)
    ensures
        opt_block_view(r) == first_known_block(names@, bs@, 0),
{
    let mut j: usize = 0;
    while j < names.len()
        invariant
            j <= names@.len(),
            first_known_block(names@, bs@, 0) == first_known_block(names@, bs@, j as int),
        decreases names@.len() - j,
    {
        let b = get_block(bs, names[j].as_str());
        if b.is_some() {
            return b;
        }
        j = j + 1;
    }
    None
}

fn find_sg_device(names: &Vec<String>) -> (r: Option<String>)
    ensures
        opt_view(r) == first_sg(names@, 0),
{
    let mut j: usize = 0;
    while j < names.len()
        invariant
            j <= names@.len(),
            first_sg(names@, 0) == first_sg(names@, j as int),
        decreases names@.len() - j,
    {
        proof {
            reveal_strlit("sg");
        }
        if starts_with(names[j].as_str(), "sg") {
            return Some(names[j].clone());
        }
        j = j + 1;
    }
    None
}

fn parse_hctl(name: &str) -> (r: Option<(u32, u32, u32, u32)>)
    ensures
        r == hctl_numbers(name@),
{
    let parts = split_exec(name, ':');
    let ghost ps = parts@.map_values(|x: String| x@);
    if parts.len() != 4 {
        return None;
    }
    assert(ps[0] == parts@[0]@ && ps[1] == parts@[1]@ && ps[2] == parts@[2]@ && ps[3] == parts@[3]@);
    let h = parse_u32(parts[0].as_str());
    let c = parse_u32(parts[1].as_str());
    let t = parse_u32(parts[2].as_str());
    let l = parse_u32(parts[3].as_str());
    match (h, c, t, l) {
        (Some(h), Some(c), Some(t), Some(l)) => Some((h, c, t, l)),
        _ => None,
    }
}

/// The devices listed on the SCSI bus, from its (sorted) entries.
fn discover_devices(ds: &Vec<ScsiDeviceEntry>, bs: &Vec<BlockDevice>) -> (r: Vec<RawScsiDevice>)
    ensures
        raws_view(r@) == spec_raw_devices(ds@, bs@),
{
    let mut r: Vec<RawScsiDevice> = Vec::new();
    let mut j: usize = 0;
    while j < ds.len()
        invariant
            j <= ds@.len(),
            raws_view(r@) == spec_raw_devices(ds@.take(j as int), bs@),
        decreases ds@.len() - j,
    {
        let e = &ds[j];
        assert(ds@.take(j + 1).drop_last() =~= ds@.take(j as int));
        assert(ds@.take(j + 1).last() == *e);
        proof {
            reveal_strlit("host");
            reveal_strlit("target");
        }
        let name = e.name.as_str();
        if !starts_with(name, "host") && !starts_with(name, "target") && e.canonical.is_some() {
            match parse_hctl(name) {
                Some((h, c, t, _l)) => {
                    let v = read_u64_of(&e.scsi_type);
                    let wide: u64 = match v {
                        Some(x) => x,
                        None => 0,
                    };
                    let st: u32 = wide as u32;
                    let device = ScsiDevice {
                        hctl: e.name.clone(),
                        vendor: or_empty_exec(&e.vendor),
                        model: or_empty_exec(&e.model),
                        rev: or_empty_exec(&e.rev),
                        scsi_type: st,
                        scsi_type_name: to_string(scsi_type_name(st)),
                        block_device: find_block_device(&e.block, bs),
                        sg_device: find_sg_device(&e.scsi_generic),
                    };
                    let ghost before = raws_view(r@);
                    let raw = RawScsiDevice { host: h, channel: c, target: t, device };
                    assert(raw@ == SpecRawDevice { host: h, channel: c, target: t, device: device_info(*e, bs@) });
                    r.push(raw);
                    assert(raws_view(r@) =~= before.push(raw@));
                },
                None => {},
            }
        }
        j = j + 1;
        assert(raws_view(r@) =~= spec_raw_devices(ds@.take(j as int), bs@));
    }
    assert(ds@.take(ds@.len() as int) =~= ds@);
    r
}

// ---------------------------------------------------------------------------
// Targets
// ---------------------------------------------------------------------------
impl Keyed for ScsiDevice {
    open spec fn key_lt(a: Self, b: Self) -> bool {
        str_lt(a.hctl@, b.hctl@)
    }

    fn less(&self, other: &Self) -> (r: bool) {
        str_less(self.hctl.as_str(), other.hctl.as_str())
    }
}

/// The address of a target: "host:channel:target", in decimal.
pub open spec fn target_addr(h: u32, c: u32, t: u32) -> Seq<char> {
    dec(h as nat) + ":"@ + dec(c as nat) + ":"@ + dec(t as nat)
}

pub open spec fn raw_addr(d: SpecRawDevice) -> Seq<char> {
    target_addr(d.host, d.channel, d.target)
}

/// The addresses of the targets of host `h`, each once, in order of first appearance.
pub open spec fn target_order(devs: Seq<SpecRawDevice>, h: u32) -> Seq<Seq<char>>
    decreases devs.len(),
{
    if devs.len() == 0 {
        Seq::empty()
    } else {
        let r = target_order(devs.drop_last(), h);
        let d = devs.last();
        if d.host == h && !r.contains(raw_addr(d)) {
            r.push(raw_addr(d))
        } else {
            r
        }
    }
}

/// The devices of host `h` at target address `a`, in order.
pub open spec fn devices_at(devs: Seq<SpecRawDevice>, h: u32, a: Seq<char>) -> Seq<SpecScsiDevice>
    decreases devs.len(),
{
    if devs.len() == 0 {
        Seq::empty()
    } else {
        let r = devices_at(devs.drop_last(), h, a);
        let d = devs.last();
        if d.host == h && raw_addr(d) == a {
            r.push(d.device)
        } else {
            r
        }
    }
}

/// The devices at a target, taken from two lists one after the other, are
/// those from the first list and then those from the second: each device of the
/// bus is taken on its own, whatever was taken before it.
pub proof fn lemma_devices_at_concat(d1: Seq<SpecRawDevice>, d2: Seq<SpecRawDevice>, h: u32, a: Seq<char>)
    ensures
        devices_at(d1 + d2, h, a) == devices_at(d1, h, a) + devices_at(d2, h, a),
    decreases d2.len(),
{
    if d2.len() == 0 {
        assert(d1 + d2 =~= d1);
        assert(devices_at(d1, h, a) + devices_at(d2, h, a) =~= devices_at(d1, h, a));
    } else {
        lemma_devices_at_concat(d1, d2.drop_last(), h, a);
        assert((d1 + d2).drop_last() =~= d1 + d2.drop_last());
        assert((d1 + d2).last() == d2.last());
        assert(devices_at(d1 + d2, h, a) =~= devices_at(d1, h, a) + devices_at(d2, h, a));
    }
}

/// A single device of the bus is at a target exactly when it is on host `h`
/// with the target's address "h:c:t".
pub proof fn lemma_devices_at_one(d: SpecRawDevice, h: u32, a: Seq<char>)
    ensures
        devices_at(seq![d], h, a) == (if d.host == h && target_addr(d.host, d.channel, d.target) == a {
            seq![d.device]
        } else {
            Seq::empty()
        }),
{
    assert(seq![d].drop_last() =~= Seq::<SpecRawDevice>::empty());
    assert(seq![d].last() == d);
    assert(devices_at(Seq::<SpecRawDevice>::empty(), h, a) == Seq::<SpecScsiDevice>::empty());
    assert(Seq::<SpecScsiDevice>::empty().push(d.device) =~= seq![d.device]);
}

/// Every device of host `h` is at the target of its own address, as many times
/// as it is listed: the devices at a target number exactly the listed devices
/// of the host with that address.
pub proof fn lemma_devices_at_count(devs: Seq<SpecRawDevice>, h: u32, a: Seq<char>)
    ensures
        devices_at(devs, h, a).len() == devs.filter(|d: SpecRawDevice| d.host == h && raw_addr(d) == a).len(),
    decreases devs.len(),
{
    reveal(Seq::filter);
    if devs.len() > 0 {
        lemma_devices_at_count(devs.drop_last(), h, a);
    }
}

/// Devices in the byte order of their "h:c:t:l" names.
pub open spec fn hctl_lt() -> spec_fn(SpecScsiDevice, SpecScsiDevice) -> bool {
    |a: SpecScsiDevice, b: SpecScsiDevice| str_lt(a.hctl, b.hctl)
}

pub open spec fn spec_target(devs: Seq<SpecRawDevice>, h: u32, a: Seq<char>) -> SpecScsiTarget {
    SpecScsiTarget { address: a, devices: sort_stable(devices_at(devs, h, a), hctl_lt()) }
}

/// The targets of host `h`: one per address, in the byte order of the
/// addresses, each with its devices in the byte order of their names.
pub open spec fn spec_targets(devs: Seq<SpecRawDevice>, h: u32) -> Seq<SpecScsiTarget> {
    sort_stable(target_order(devs, h), seq_lt()).map_values(|a: Seq<char>| spec_target(devs, h, a))
}

proof fn lemma_target_order(devs: Seq<SpecRawDevice>, h: u32)
    ensures
        target_order(devs, h).no_duplicates(),
        forall|a: Seq<char>|
            #[trigger] target_order(devs, h).contains(a) <==> exists|k: int|
                0 <= k < devs.len() && devs[k].host == h && raw_addr(devs[k]) == a,
    decreases devs.len(),
{
    if devs.len() > 0 {
        let t = devs.drop_last();
        lemma_target_order(t, h);
        let r = target_order(t, h);
        let d = devs.last();
        assert forall|a: Seq<char>| #[trigger] target_order(devs, h).contains(a) <==> exists|k: int|
            0 <= k < devs.len() && devs[k].host == h && raw_addr(devs[k]) == a by {
            if target_order(devs, h).contains(a) {
                if r.contains(a) {
                    let k = choose|k: int| 0 <= k < t.len() && t[k].host == h && raw_addr(t[k]) == a;
                    assert(devs[k] == t[k]);
                } else {
                    assert(a == raw_addr(d));
                    assert(devs[devs.len() - 1] == d);
                }
            }
            if exists|k: int| 0 <= k < devs.len() && devs[k].host == h && raw_addr(devs[k]) == a {
                let k = choose|k: int| 0 <= k < devs.len() && devs[k].host == h && raw_addr(devs[k]) == a;
                if k < devs.len() - 1 {
                    assert(t[k] == devs[k]);
                    assert(r.contains(a));
                    if d.host == h && !r.contains(raw_addr(d)) {
                        assert(r.push(raw_addr(d))[r.index_of(a)] == a);
                    }
                } else {
                    if !r.contains(a) {
                        assert(target_order(devs, h) == r.push(a));
                        assert(r.push(a)[r.len() as int] == a);
                    }
                }
            }
        }
    }
}

/// The targets of a host split its devices among them: the targets have
/// distinct addresses, each the address "h:c:t" of some device of the host;
/// every device of the host has the target of its own address; and each
/// target holds, in some order, just the devices at its address.
pub proof fn lemma_targets_partition(devs: Seq<SpecRawDevice>, h: u32)
    ensures
        forall|i: int, j: int|
            0 <= i < j < spec_targets(devs, h).len() ==> #[trigger] spec_targets(devs, h)[i].address
                != #[trigger] spec_targets(devs, h)[j].address,
        forall|i: int|
            0 <= i < spec_targets(devs, h).len() ==> exists|k: int|
                0 <= k < devs.len() && devs[k].host == h && raw_addr(devs[k]) == #[trigger] spec_targets(
                    devs,
                    h,
                )[i].address,
        forall|k: int|
            0 <= k < devs.len() && #[trigger] devs[k].host == h ==> exists|i: int|
                0 <= i < spec_targets(devs, h).len() && #[trigger] spec_targets(devs, h)[i].address == raw_addr(devs[k]),
        forall|i: int|
            0 <= i < spec_targets(devs, h).len() ==> #[trigger] spec_targets(devs, h)[i].devices.to_multiset()
                == devices_at(devs, h, spec_targets(devs, h)[i].address).to_multiset(),
{
    let order = target_order(devs, h);
    let sorted = sort_stable(order, seq_lt());
    let ts = spec_targets(devs, h);
    lemma_target_order(devs, h);
    crate::sort::lemma_by_name_total(|x: Seq<char>| x);
    assert(crate::sort::by_name(|x: Seq<char>| x) =~= seq_lt());
    crate::sort::lemma_sort_stable_sorted_permutation(order, seq_lt());
    crate::sort::lemma_by_name_total(|d: SpecScsiDevice| d.hctl);
    assert(crate::sort::by_name(|d: SpecScsiDevice| d.hctl) =~= hctl_lt());
    order.lemma_multiset_has_no_duplicates();
    sorted.lemma_multiset_has_no_duplicates_conv();
    broadcast use vstd::seq_lib::group_to_multiset_ensures;
    assert(ts.len() == sorted.len());
    assert forall|i: int| 0 <= i < ts.len() implies #[trigger] ts[i].address == sorted[i] by {}
    assert forall|i: int, j: int| 0 <= i < j < ts.len() implies #[trigger] ts[i].address != #[trigger] ts[j].address by {
        assert(ts[i].address == sorted[i] && ts[j].address == sorted[j]);
    }
    assert forall|i: int| 0 <= i < ts.len() implies exists|k: int|
        0 <= k < devs.len() && devs[k].host == h && raw_addr(devs[k]) == #[trigger] ts[i].address by {
        assert(ts[i].address == sorted[i]);
        assert(sorted.contains(sorted[i]));
        assert(sorted.to_multiset().count(sorted[i]) > 0);
        assert(order.contains(sorted[i]));
    }
    assert forall|k: int| 0 <= k < devs.len() && #[trigger] devs[k].host == h implies exists|i: int|
        0 <= i < ts.len() && #[trigger] ts[i].address == raw_addr(devs[k]) by {
        let a = raw_addr(devs[k]);
        assert(order.contains(a));
        assert(order.to_multiset().count(a) > 0);
        assert(sorted.contains(a));
        let i = sorted.index_of(a);
        assert(ts[i].address == a);
    }
    assert forall|i: int| 0 <= i < ts.len() implies #[trigger] ts[i].devices.to_multiset() == devices_at(
        devs,
        h,
        ts[i].address,
    ).to_multiset() by {
        crate::sort::lemma_sort_stable_sorted_permutation(devices_at(devs, h, ts[i].address), hctl_lt());
    }
}

fn target_address(h: u32, c: u32, t: u32) -> (r: String)
    ensures
        r@ == target_addr(h, c, t),
{
    let mut r = String::new();
    push_u64(&mut r, h as u64);
    r.append(":");
    push_u64(&mut r, c as u64);
    r.append(":");
    push_u64(&mut r, t as u64);
    proof {
        reveal_strlit(":");
    }
    assert(r@ =~= target_addr(h, c, t));
    r
}

fn devices_at_exec(devs: &Vec<RawScsiDevice>, h: u32, a: &str) -> (r: Vec<ScsiDevice>)
    ensures
        devices_view(r@) == devices_at(raws_view(devs@), h, a@),
{
    let ghost all = raws_view(devs@);
    let mut r: Vec<ScsiDevice> = Vec::new();
    let mut j: usize = 0;
    while j < devs.len()
        invariant
            j <= devs@.len(),
            all == raws_view(devs@),
            devices_view(r@) == devices_at(all.take(j as int), h, a@),
        decreases devs@.len() - j,
    {
        let d = &devs[j];
        assert(all.take(j + 1).drop_last() =~= all.take(j as int));
        assert(all.take(j + 1).last() == d@);
        if d.host == h {
            let addr = target_address(h, d.channel, d.target);
            if str_eq(addr.as_str(), a) {
                let ghost before = devices_view(r@);
                let c = d.device.clone();
                r.push(c);
                assert(devices_view(r@) =~= before.push(d@.device));
            }
        }
        j = j + 1;
        assert(devices_view(r@) =~= devices_at(all.take(j as int), h, a@));
    }
    assert(all.take(devs@.len() as int) =~= all);
    r
}

/// The targets of host `h`, from the devices of the bus.
fn build_targets(h: u32, devs: &Vec<RawScsiDevice>) -> (r: Vec<ScsiTarget>)
    ensures
        targets_view(r@) == spec_targets(raws_view(devs@), h),
{
    let ghost all = raws_view(devs@);
    let mut order: Vec<String> = Vec::new();
    let mut j: usize = 0;
    while j < devs.len()
        invariant
            j <= devs@.len(),
            all == raws_view(devs@),
            strs_view(order@) == target_order(all.take(j as int), h),
        decreases devs@.len() - j,
    {
        let d = &devs[j];
        assert(all.take(j + 1).drop_last() =~= all.take(j as int));
        assert(all.take(j + 1).last() == d@);
        if d.host == h {
            let addr = target_address(h, d.channel, d.target);
            if !lists(&order, addr.as_str()) {
                let ghost before = strs_view(order@);
                let ghost av = addr@;
                order.push(addr);
                assert(strs_view(order@) =~= before.push(av));
            }
        }
        j = j + 1;
    }
    assert(all.take(devs@.len() as int) =~= all);
    let ghost ov = order@;
    let sorted = sort_strings(order);
    proof {
        lemma_sorted_strings_view(ov);
    }
    let ghost sv = strs_view(sorted@);
    assert(sv == sort_stable(target_order(all, h), seq_lt()));
    let mut r: Vec<ScsiTarget> = Vec::new();
    let mut k: usize = 0;
    while k < sorted.len()
        invariant
            k <= sorted@.len(),
            sv == strs_view(sorted@),
            all == raws_view(devs@),
            r@.len() == k,
            forall|q: int| 0 <= q < k ==> #[trigger] r@[q]@ == spec_target(all, h, sv[q]),
        decreases sorted@.len() - k,
    {
        let a = sorted[k].as_str();
        assert(sv[k as int] == a@);
        let list = devices_at_exec(devs, h, a);
        let ghost lv = list@;
        let devices = sort_by_key(list);
        proof {
            let f = |d: ScsiDevice| d@;
            lemma_sort_map(lv, keyed_lt::<ScsiDevice>(), f, hctl_lt());
            assert(devices_view(devices@) =~= devices@.map_values(f));
            assert(devices_view(lv) =~= lv.map_values(f));
        }
        let t = ScsiTarget { address: sorted[k].clone(), devices };
        assert(t@ == spec_target(all, h, sv[k as int]));
        r.push(t);
        k = k + 1;
    }
    assert(targets_view(r@) =~= spec_targets(all, h));
    r
}

// ---------------------------------------------------------------------------
// Hosts
// ---------------------------------------------------------------------------
/// The entry lists of a snapshot, as sequences.
#[verifier::ext_equal]
pub struct SpecScsiSysfs {
    pub hosts: Seq<ScsiHostEntry>,
    pub fc_hosts: Seq<FcHostEntry>,
    pub sas_hosts: Seq<String>,
    pub sas_phys: Seq<SasPhyEntry>,
    pub iscsi_hosts: Seq<String>,
    pub iscsi_sessions: Seq<IscsiSessionEntry>,
    pub iscsi_connections: Seq<IscsiConnectionEntry>,
    pub devices: Seq<ScsiDeviceEntry>,
}

impl View for ScsiSysfs {
    type V = SpecScsiSysfs;

    open spec fn view(&self) -> SpecScsiSysfs {
        SpecScsiSysfs {
            hosts: self.hosts@,
            fc_hosts: self.fc_hosts@,
            sas_hosts: self.sas_hosts@,
            sas_phys: self.sas_phys@,
            iscsi_hosts: self.iscsi_hosts@,
            iscsi_sessions: self.iscsi_sessions@,
            iscsi_connections: self.iscsi_connections@,
            devices: self.devices@,
        }
    }
}

/// The snapshot with each listing that is walked in order sorted by name.
pub open spec fn sorted_sysfs(s: SpecScsiSysfs) -> SpecScsiSysfs {
    SpecScsiSysfs {
        hosts: sort_stable(s.hosts, keyed_lt::<ScsiHostEntry>()),
        fc_hosts: s.fc_hosts,
        sas_hosts: s.sas_hosts,
        sas_phys: sort_stable(s.sas_phys, keyed_lt::<SasPhyEntry>()),
        iscsi_hosts: s.iscsi_hosts,
        iscsi_sessions: sort_stable(s.iscsi_sessions, keyed_lt::<IscsiSessionEntry>()),
        iscsi_connections: sort_stable(s.iscsi_connections, keyed_lt::<IscsiConnectionEntry>()),
        devices: sort_stable(s.devices, keyed_lt::<ScsiDeviceEntry>()),
    }
}

fn sort_sysfs(s: ScsiSysfs) -> (r: ScsiSysfs)
    ensures
        r@ == sorted_sysfs(s@),
{
    ScsiSysfs {
        hosts: sort_by_key(s.hosts),
        fc_hosts: s.fc_hosts,
        sas_hosts: s.sas_hosts,
        sas_phys: sort_by_key(s.sas_phys),
        iscsi_hosts: s.iscsi_hosts,
        iscsi_sessions: sort_by_key(s.iscsi_sessions),
        iscsi_connections: sort_by_key(s.iscsi_connections),
        devices: sort_by_key(s.devices),
    }
}

/// The number of a host entry: what follows "host" in its name, as a `u32`.
pub open spec fn entry_host_num(e: ScsiHostEntry) -> Option<u32> {
    if has_prefix(e.name@, "host"@) {
        spec_parse_u32(e.name@.subrange(4, e.name@.len() as int))
    } else {
        None
    }
}

/// A host as discovered, before its targets are attached.
pub struct SpecRawHost {
    pub host_num: u32,
    pub proc_name: Option<Seq<char>>,
    pub ata_port: Option<Seq<char>>,
    pub transport: Option<SpecTransportInfo>,
    pub pci_address: Option<Seq<char>>,
}

pub open spec fn raw_host(e: ScsiHostEntry, n: u32, canonical: Seq<char>, s: SpecScsiSysfs) -> SpecRawHost {
    SpecRawHost {
        host_num: n,
        proc_name: opt_view(e.proc_name),
        ata_port: first_ata_port(path_components(canonical), 0),
        transport: spec_transport(
            s.fc_hosts,
            s.sas_hosts,
            s.sas_phys,
            s.iscsi_hosts,
            s.iscsi_sessions,
            s.iscsi_connections,
            n,
        ),
        pci_address: spec_pci_parent(canonical),
    }
}

/// The hosts of the entries `hs` that are named "host<number>" and resolve,
/// in the order of `hs`; transports are looked up in `s`.
pub open spec fn spec_raw_hosts(hs: Seq<ScsiHostEntry>, s: SpecScsiSysfs) -> Seq<SpecRawHost>
    decreases hs.len(),
{
    if hs.len() == 0 {
        Seq::empty()
    } else {
        let r = spec_raw_hosts(hs.drop_last(), s);
        let e = hs.last();
        match (entry_host_num(e), e.canonical) {
            (Some(n), Some(c)) => r.push(raw_host(e, n, c@, s)),
            _ => r,
        }
    }
}

struct RawScsiHost {
    host_num: u32,
    proc_name: Option<String>,
    ata_port: Option<String>,
    transport: Option<TransportInfo>,
    pci_address: Option<String>,
}

impl View for RawScsiHost {
    type V = SpecRawHost;

    closed spec fn view(&self) -> SpecRawHost {
        SpecRawHost {
            host_num: self.host_num,
            proc_name: opt_view(self.proc_name),
            ata_port: opt_view(self.ata_port),
            transport: match self.transport {
                Some(t) => Some(t@),
                None => None,
            },
            pci_address: opt_view(self.pci_address),
        }
    }
}

impl Keyed for RawScsiHost {
    closed spec fn key_lt(a: Self, b: Self) -> bool {
        a.host_num < b.host_num
    }

    fn less(&self, other: &Self) -> (r: bool) {
        self.host_num < other.host_num
    }
}

spec fn rawhosts_view(v: Seq<RawScsiHost>) -> Seq<SpecRawHost> {
    v.map_values(|h: RawScsiHost| h@)
}

/// Hosts in the order of their numbers.
pub open spec fn raw_host_lt() -> spec_fn(SpecRawHost, SpecRawHost) -> bool {
    |a: SpecRawHost, b: SpecRawHost| a.host_num < b.host_num
}

/// The hosts of a snapshot whose listings are sorted, in the order of their
/// numbers (hosts of one number in the order of their names).
fn discover_hosts(s: &ScsiSysfs) -> (r: Vec<RawScsiHost>)
    ensures
        rawhosts_view(r@) == sort_stable(spec_raw_hosts(s.hosts@, s@), raw_host_lt()),
{
    let ghost sv = s@;
    let mut r: Vec<RawScsiHost> = Vec::new();
    let mut j: usize = 0;
    while j < s.hosts.len()
        invariant
            j <= s.hosts@.len(),
            sv == s@,
            rawhosts_view(r@) == spec_raw_hosts(s.hosts@.take(j as int), sv),
        decreases s.hosts@.len() - j,
    {
        let e = &s.hosts[j];
        assert(s.hosts@.take(j + 1).drop_last() =~= s.hosts@.take(j as int));
        assert(s.hosts@.take(j + 1).last() == *e);
        proof {
            reveal_strlit("host");
        }
        let name = e.name.as_str();
        let num: Option<u32> = if starts_with(name, "host") {
            let m = name.unicode_len();
            parse_u32(name.substring_char(4, m))
        } else {
            None
        };
        assert(num == entry_host_num(*e));
        match (num, &e.canonical) {
            (Some(n), Some(c)) => {
                let raw = RawScsiHost {
                    host_num: n,
                    proc_name: clone_opt_string(&e.proc_name),
                    ata_port: find_ata_port(c.as_str()),
                    transport: discover_transport(s, n),
                    pci_address: find_pci_parent(c.as_str()),
                };
                assert(raw@ == raw_host(*e, n, c@, sv));
                let ghost before = rawhosts_view(r@);
                r.push(raw);
                assert(rawhosts_view(r@) =~= before.push(raw@));
            },
            _ => {},
        }
        j = j + 1;
        assert(rawhosts_view(r@) =~= spec_raw_hosts(s.hosts@.take(j as int), sv));
    }
    assert(s.hosts@.take(s.hosts@.len() as int) =~= s.hosts@);
    let ghost unsorted = r@;
    let sorted = sort_by_key(r);
    proof {
        let f = |h: RawScsiHost| h@;
        lemma_sort_map(unsorted, keyed_lt::<RawScsiHost>(), f, raw_host_lt());
        assert(rawhosts_view(sorted@) =~= sorted@.map_values(f));
        assert(rawhosts_view(unsorted) =~= unsorted.map_values(f));
    }
    sorted
}

// ---------------------------------------------------------------------------
// Discovery
// ---------------------------------------------------------------------------
impl Keyed for ScsiHost {
    open spec fn key_lt(a: Self, b: Self) -> bool {
        a.host_num < b.host_num
    }

    fn less(&self, other: &Self) -> (r: bool) {
        self.host_num < other.host_num
    }
}

/// Hosts in the order of their numbers.
pub open spec fn scsi_host_lt() -> spec_fn(SpecScsiHost, SpecScsiHost) -> bool {
    |a: SpecScsiHost, b: SpecScsiHost| a.host_num < b.host_num
}

/// A host with the targets that the devices give it.
pub open spec fn host_of(r: SpecRawHost, devs: Seq<SpecRawDevice>) -> SpecScsiHost {
    SpecScsiHost {
        host_num: r.host_num,
        proc_name: r.proc_name,
        ata_port: r.ata_port,
        transport: r.transport,
        targets: spec_targets(devs, r.host_num),
    }
}

/// The index of the first group from `i` on whose address is `a`, or -1.
pub open spec fn group_index(g: Seq<(Seq<char>, Seq<SpecScsiHost>)>, a: Seq<char>, i: int) -> int
    decreases g.len() - i,
{
    if i < 0 || i >= g.len() {
        -1
    } else if g[i].0 == a {
        i
    } else {
        group_index(g, a, i + 1)
    }
}

/// The hosts that sit on a PCI device, grouped by its address in order of first
/// appearance; hosts without one are left out.
pub open spec fn scsi_groups(rs: Seq<SpecRawHost>, devs: Seq<SpecRawDevice>) -> Seq<
    (Seq<char>, Seq<SpecScsiHost>),
>
    decreases rs.len(),
{
    if rs.len() == 0 {
        Seq::empty()
    } else {
        let g = scsi_groups(rs.drop_last(), devs);
        let r = rs.last();
        match r.pci_address {
            Some(a) => {
                let i = group_index(g, a, 0);
                if i >= 0 {
                    g.update(i, (a, g[i].1.push(host_of(r, devs))))
                } else {
                    g.push((a, seq![host_of(r, devs)]))
                }
            },
            None => g,
        }
    }
}

/// The SCSI hosts of a snapshot, by the PCI address of the device they sit on:
/// the groups in order of first appearance among the hosts taken in number
/// order, each group's hosts in number order.
pub open spec fn spec_discover(s: SpecScsiSysfs, bs: Seq<BlockDevice>) -> Seq<
    (Seq<char>, Seq<SpecScsiHost>),
> {
    let t = sorted_sysfs(s);
    let devs = spec_raw_devices(t.devices, bs);
    let raws = sort_stable(spec_raw_hosts(t.hosts, t), raw_host_lt());
    scsi_groups(raws, devs).map_values(
        |g: (Seq<char>, Seq<SpecScsiHost>)| (g.0, sort_stable(g.1, scsi_host_lt())),
    )
}

/// The PCI addresses that SCSI hosts sit on, each once, in order of first appearance.
pub open spec fn spec_scsi_pci_addrs(s: SpecScsiSysfs, bs: Seq<BlockDevice>) -> Seq<Seq<char>> {
    spec_discover(s, bs).map_values(|g: (Seq<char>, Seq<SpecScsiHost>)| g.0)
}

fn sort_hosts(v: Vec<ScsiHost>) -> (r: Vec<ScsiHost>)
    ensures
        hosts_view(r@) == sort_stable(hosts_view(v@), scsi_host_lt()),
{
    let ghost vv = v@;
    let r = sort_by_key(v);
    proof {
        let f = |h: ScsiHost| h@;
        lemma_sort_map(vv, keyed_lt::<ScsiHost>(), f, scsi_host_lt());
        assert(hosts_view(r@) =~= r@.map_values(f));
        assert(hosts_view(vv) =~= vv.map_values(f));
    }
    r
}

/// Discovers the SCSI hosts, their transports, targets and devices: the hosts
/// grouped by the PCI address of the device they sit on, and those addresses.
/// `block_devices` are the block devices that a SCSI device may name.
pub fn discover(block_devices: &Vec<BlockDevice>, sysfs: ScsiSysfs) -> (r: (
    Vec<(String, Vec<ScsiHost>)>,
    Vec<String>,
))
    ensures
        host_map_view(r.0@) == spec_discover(sysfs@, block_devices@),
        strs_view(r.1@) == spec_scsi_pci_addrs(sysfs@, block_devices@),
{
    let s = sort_sysfs(sysfs);
    let ghost t = s@;
    let devs = discover_devices(&s.devices, block_devices);
    let ghost dv = raws_view(devs@);
    let mut raws = discover_hosts(&s);
    let ghost orig = raws@;
    let ghost rv = rawhosts_view(raws@);
    let mut groups: Vec<(String, Vec<ScsiHost>)> = Vec::new();
    let mut addrs: Vec<String> = Vec::new();
    let n = raws.len();
    let mut i: usize = 0;
    while raws.len() > 0
        invariant
            i + raws@.len() == n,
            n == rv.len(),
            n == orig.len(),
            rv == rawhosts_view(orig),
            raws@ == orig.skip(i as int),
            dv == raws_view(devs@),
            host_map_view(groups@) == scsi_groups(rv.take(i as int), dv),
            strs_view(addrs@) == host_map_view(groups@).map_values(
                |g: (Seq<char>, Seq<SpecScsiHost>)| g.0,
            ),
        decreases raws@.len(),
    {
        let raw = raws.remove(0);
        assert(rv.take(i + 1).drop_last() =~= rv.take(i as int));
        assert(orig[i as int] == raw);
        assert(rv[i as int] == raw@);
        assert(rv.take(i + 1).last() == raw@);
        assert(raws@ =~= orig.skip(i + 1));
        let ghost g = host_map_view(groups@);
        let targets = build_targets(raw.host_num, &devs);
        let ghost rawv = raw@;
        let RawScsiHost { host_num, proc_name, ata_port, transport, pci_address } = raw;
        match pci_address {
            Some(a) => {
                let host = ScsiHost { host_num, proc_name, ata_port, transport, targets };
                assert(host@ == host_of(rawv, dv));
                let mut j: usize = 0;
                while j < groups.len() && !str_eq(groups[j].0.as_str(), a.as_str())
                    invariant
                        j <= groups@.len(),
                        g == host_map_view(groups@),
                        group_index(g, a@, 0) == group_index(g, a@, j as int),
                    decreases groups@.len() - j,
                {
                    j = j + 1;
                }
                if j < groups.len() {
                    assert(group_index(g, a@, j as int) == j);
                    assert(g[j as int].0 == a@);
                    let (key, mut list) = groups.remove(j);
                    let ghost before = hosts_view(list@);
                    let ghost hv = host@;
                    list.push(host);
                    assert(hosts_view(list@) =~= before.push(hv));
                    groups.insert(j, (key, list));
                    let ghost g2 = g.update(j as int, (a@, g[j as int].1.push(hv)));
                    assert(host_map_view(groups@) =~= g2);
                    assert forall|q: int| 0 <= q < strs_view(addrs@).len() implies strs_view(addrs@)[q] == g2[q].0 by {
                        assert(strs_view(addrs@)[q] == g.map_values(|g: (Seq<char>, Seq<SpecScsiHost>)| g.0)[q]);
                    }
                    assert(strs_view(addrs@) =~= host_map_view(groups@).map_values(
                        |g: (Seq<char>, Seq<SpecScsiHost>)| g.0,
                    ));
                } else {
                    assert(group_index(g, a@, j as int) == -1);
                    let ghost hv = host@;
                    let mut list: Vec<ScsiHost> = Vec::new();
                    list.push(host);
                    assert(hosts_view(list@) =~= seq![hv]);
                    let key = a.clone();
                    let ghost ks = strs_view(addrs@);
                    addrs.push(a);
                    groups.push((key, list));
                    assert(host_map_view(groups@) =~= g.push((a@, seq![hv])));
                    assert(strs_view(addrs@) =~= ks.push(a@));
                    assert(strs_view(addrs@) =~= host_map_view(groups@).map_values(
                        |g: (Seq<char>, Seq<SpecScsiHost>)| g.0,
                    ));
                }
            },
            None => {},
        }
        i = i + 1;
    }
    assert(rv.take(n as int) =~= rv);
    let ghost unsorted = host_map_view(groups@);
    let ghost gorig = groups@;
    let mut out: Vec<(String, Vec<ScsiHost>)> = Vec::new();
    while groups.len() > 0
        invariant
            out@.len() + groups@.len() == gorig.len(),
            unsorted == host_map_view(gorig),
            groups@ == gorig.skip(out@.len() as int),
            forall|q: int| 0 <= q < out@.len() ==> #[trigger] host_map_view(out@)[q] == (
                unsorted[q].0,
                sort_stable(unsorted[q].1, scsi_host_lt()),
            ),
        decreases groups@.len(),
    {
        let ghost k = out@.len() as int;
        let (key, list) = groups.remove(0);
        assert(gorig[k] == (key, list));
        assert(unsorted[k] == (key@, hosts_view(list@)));
        assert(groups@ =~= gorig.skip(k + 1));
        let sorted = sort_hosts(list);
        let ghost old_out = out@;
        out.push((key, sorted));
        assert forall|q: int| 0 <= q < out@.len() implies #[trigger] host_map_view(out@)[q] == (
            unsorted[q].0,
            sort_stable(unsorted[q].1, scsi_host_lt()),
        ) by {
            if q < k {
                assert(out@[q] == old_out[q]);
                assert(host_map_view(old_out)[q] == host_map_view(out@)[q]);
            } else {
                assert(out@[q] == (key, sorted));
            }
        }
    }
    assert(host_map_view(out@) =~= spec_discover(sysfs@, block_devices@));
    assert(strs_view(addrs@) =~= spec_scsi_pci_addrs(sysfs@, block_devices@));
    (out, addrs)
}

proof fn lemma_group_index(g: Seq<(Seq<char>, Seq<SpecScsiHost>)>, a: Seq<char>, i: int)
    requires
        0 <= i <= g.len(),
    ensures
        group_index(g, a, i) >= 0 ==> i <= group_index(g, a, i) < g.len() && g[group_index(g, a, i)].0 == a,
        group_index(g, a, i) < 0 ==> forall|q: int| i <= q < g.len() ==> g[q].0 != a,
    decreases g.len() - i,
{
    if i < g.len() {
        lemma_group_index(g, a, i + 1);
    }
}

proof fn lemma_scsi_groups_distinct(rs: Seq<SpecRawHost>, devs: Seq<SpecRawDevice>)
    ensures
        forall|i: int, j: int|
            0 <= i < j < scsi_groups(rs, devs).len() ==> #[trigger] scsi_groups(rs, devs)[i].0
                != #[trigger] scsi_groups(rs, devs)[j].0,
    decreases rs.len(),
{
    if rs.len() > 0 {
        let g0 = scsi_groups(rs.drop_last(), devs);
        lemma_scsi_groups_distinct(rs.drop_last(), devs);
        let g = scsi_groups(rs, devs);
        match rs.last().pci_address {
            Some(a) => {
                lemma_group_index(g0, a, 0);
                let k = group_index(g0, a, 0);
                assert forall|i: int, j: int| 0 <= i < j < g.len() implies #[trigger] g[i].0 != #[trigger] g[j].0 by {
                    if k >= 0 {
                        assert(g[i].0 == g0[i].0 && g[j].0 == g0[j].0);
                    } else if j < g0.len() {
                        assert(g[i].0 == g0[i].0 && g[j].0 == g0[j].0);
                    } else {
                        assert(g[i].0 == g0[i].0);
                    }
                }
            },
            None => {},
        }
    }
}

/// The SCSI discovery lists each PCI address once.
pub proof fn lemma_scsi_pci_addrs_distinct(s: SpecScsiSysfs, bs: Seq<BlockDevice>)
    ensures
        forall|i: int, j: int|
            0 <= i < j < spec_scsi_pci_addrs(s, bs).len() ==> #[trigger] spec_scsi_pci_addrs(s, bs)[i]
                != #[trigger] spec_scsi_pci_addrs(s, bs)[j],
{
    let t = sorted_sysfs(s);
    let devs = spec_raw_devices(t.devices, bs);
    let raws = sort_stable(spec_raw_hosts(t.hosts, t), raw_host_lt());
    lemma_scsi_groups_distinct(raws, devs);
    let g = scsi_groups(raws, devs);
    assert forall|i: int, j: int| 0 <= i < j < spec_scsi_pci_addrs(s, bs).len() implies #[trigger] spec_scsi_pci_addrs(s, bs)[i]
        != #[trigger] spec_scsi_pci_addrs(s, bs)[j] by {
        assert(spec_scsi_pci_addrs(s, bs)[i] == g[i].0);
        assert(spec_scsi_pci_addrs(s, bs)[j] == g[j].0);
    }
}

} // verus!
