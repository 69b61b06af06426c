//! The storage topology: PCI roots and the devices under them, NVMe-oF
//! controllers, NVMe subsystems and device-mapper devices; and, for each type,
//! its mathematical model (`Spec...`), which the contracts speak of.
use vstd::prelude::*;
use vstd::string::*;

verus! {

// ---------------------------------------------------------------------------
// Models of strings
// ---------------------------------------------------------------------------
pub open spec fn strs_view(v: Seq<String>) -> Seq<Seq<char>> {
    v.map_values(|s: String| s@)
}

pub open spec fn opt_view(o: Option<String>) -> Option<Seq<char>> {
    match o {
        Some(s) => Some(s@),
        None => None,
    }
}

// ---------------------------------------------------------------------------
// The types
// ---------------------------------------------------------------------------
pub struct Topology {
    pub pci_roots: Vec<PciRoot>,
    pub fabrics_controllers: Vec<NvmeCtrl>,
    pub nvme_subsystems: Vec<NvmeSubsystem>,
    pub dm_devices: Vec<DmDevice>,
}

pub struct PciRoot {
    pub domain: String,
    pub children: Vec<PciNode>,
}

pub enum PciNode {
    Bridge(PciBridge),
    StorageController(StorageController),
}

pub struct PciBridge {
    pub address: String,
    pub vendor_id: String,
    pub device_id: String,
    pub driver: Option<String>,
    pub children: Vec<PciNode>,
}

pub struct StorageController {
    pub address: String,
    pub vendor_id: String,
    pub device_id: String,
    pub class_code: String,
    pub driver: Option<String>,
    pub numa_node: Option<i32>,
    pub children: Vec<ControllerChild>,
}

pub enum ControllerChild {
    ScsiHost(ScsiHost),
    NvmeController(NvmeCtrl),
}

pub struct ScsiHost {
    pub host_num: u32,
    pub proc_name: Option<String>,
    pub ata_port: Option<String>,
    pub transport: Option<TransportInfo>,
    pub targets: Vec<ScsiTarget>,
}

pub enum TransportInfo {
    Fc(FcHostInfo),
    Sas(SasHostInfo),
    Iscsi(IscsiHostInfo),
}

pub struct FcHostInfo {
    pub port_name: String,
    pub node_name: String,
    pub port_state: String,
    pub port_type: String,
    pub speed: String,
    pub fabric_name: Option<String>,
    pub supported_speeds: Option<String>,
}

pub struct SasHostInfo {
    pub phys: Vec<SasPhyInfo>,
}

pub struct SasPhyInfo {
    pub name: String,
    pub sas_address: String,
    pub negotiated_linkrate: String,
    pub initiator_protocols: Option<String>,
    pub target_protocols: Option<String>,
}

pub struct IscsiHostInfo {
    pub sessions: Vec<IscsiSessionInfo>,
}

pub struct IscsiSessionInfo {
    pub target_name: String,
    pub state: String,
    pub target_address: Option<String>,
    pub target_port: Option<u16>,
}

pub struct ScsiTarget {
    pub address: String,
    pub devices: Vec<ScsiDevice>,
}

pub struct ScsiDevice {
    pub hctl: String,
    pub vendor: String,
    pub model: String,
    pub rev: String,
    pub scsi_type: u32,
    pub scsi_type_name: String,
    pub block_device: Option<BlockDevice>,
    pub sg_device: Option<String>,
}

pub struct NvmeCtrl {
    pub name: String,
    pub model: String,
    pub serial: String,
    pub firmware_rev: String,
    pub transport: String,
    pub state: String,
    pub pci_address: Option<String>,
    pub transport_address: Option<String>,
    pub subsys_name: Option<String>,
    pub namespaces: Vec<NvmeNamespace>,
}

pub struct NvmeNamespace {
    pub name: String,
    pub nsid: Option<u32>,
    pub nguid: Option<String>,
    pub size_bytes: u64,
    pub block_device: Option<BlockDevice>,
}

pub struct NvmeSubsystem {
    pub name: String,
    pub nqn: Option<String>,
    pub model: String,
    pub serial: String,
    pub controllers: Vec<String>,
    pub namespaces: Vec<NvmeNamespace>,
}

pub struct BlockDevice {
    pub name: String,
    pub dev_path: String,
    pub size_bytes: u64,
    pub removable: bool,
    pub read_only: bool,
    pub wwn: Option<String>,
    pub partitions: Vec<Partition>,
    pub holders: Vec<String>,
}

pub struct Partition {
    pub name: String,
    pub number: u32,
    pub size_bytes: u64,
    pub holders: Vec<String>,
}

pub struct DmSlave {
    pub device_name: String,
    pub hctl: Option<String>,
    pub host_num: Option<u32>,
    pub host_driver: Option<String>,
    pub pci_address: Option<String>,
}

pub struct DmDevice {
    pub name: String,
    pub dm_name: String,
    pub dm_uuid: String,
    pub dm_type: String,
    pub size_bytes: u64,
    pub slaves: Vec<DmSlave>,
    pub partitions: Vec<Partition>,
}

// ---------------------------------------------------------------------------
// Models
// ---------------------------------------------------------------------------
#[verifier::ext_equal]
pub struct SpecTopology {
    pub pci_roots: Seq<SpecPciRoot>,
    pub fabrics_controllers: Seq<SpecNvmeCtrl>,
    pub nvme_subsystems: Seq<SpecNvmeSubsystem>,
    pub dm_devices: Seq<SpecDmDevice>,
}

#[verifier::ext_equal]
pub struct SpecPciRoot {
    pub domain: Seq<char>,
    pub children: Seq<SpecPciNode>,
}

#[verifier::ext_equal]
pub enum SpecPciNode {
    Bridge(SpecPciBridge),
    StorageController(SpecStorageController),
}

#[verifier::ext_equal]
pub struct SpecPciBridge {
    pub address: Seq<char>,
    pub vendor_id: Seq<char>,
    pub device_id: Seq<char>,
    pub driver: Option<Seq<char>>,
    pub children: Seq<SpecPciNode>,
}

#[verifier::ext_equal]
pub struct SpecStorageController {
    pub address: Seq<char>,
    pub vendor_id: Seq<char>,
    pub device_id: Seq<char>,
    pub class_code: Seq<char>,
    pub driver: Option<Seq<char>>,
    pub numa_node: Option<i32>,
    pub children: Seq<SpecControllerChild>,
}

#[verifier::ext_equal]
pub enum SpecControllerChild {
    ScsiHost(SpecScsiHost),
    NvmeController(SpecNvmeCtrl),
}

#[verifier::ext_equal]
pub struct SpecScsiHost {
    pub host_num: u32,
    pub proc_name: Option<Seq<char>>,
    pub ata_port: Option<Seq<char>>,
    pub transport: Option<SpecTransportInfo>,
    pub targets: Seq<SpecScsiTarget>,
}

#[verifier::ext_equal]
pub enum SpecTransportInfo {
    Fc(SpecFcHostInfo),
    Sas(Seq<SpecSasPhyInfo>),
    Iscsi(Seq<SpecIscsiSessionInfo>),
}

#[verifier::ext_equal]
pub struct SpecFcHostInfo {
    pub port_name: Seq<char>,
    pub node_name: Seq<char>,
    pub port_state: Seq<char>,
    pub port_type: Seq<char>,
    pub speed: Seq<char>,
    pub fabric_name: Option<Seq<char>>,
    pub supported_speeds: Option<Seq<char>>,
}

#[verifier::ext_equal]
pub struct SpecSasPhyInfo {
    pub name: Seq<char>,
    pub sas_address: Seq<char>,
    pub negotiated_linkrate: Seq<char>,
    pub initiator_protocols: Option<Seq<char>>,
    pub target_protocols: Option<Seq<char>>,
}

#[verifier::ext_equal]
pub struct SpecIscsiSessionInfo {
    pub target_name: Seq<char>,
    pub state: Seq<char>,
    pub target_address: Option<Seq<char>>,
    pub target_port: Option<u16>,
}

#[verifier::ext_equal]
pub struct SpecScsiTarget {
    pub address: Seq<char>,
    pub devices: Seq<SpecScsiDevice>,
}

#[verifier::ext_equal]
pub struct SpecScsiDevice {
    pub hctl: Seq<char>,
    pub vendor: Seq<char>,
    pub model: Seq<char>,
    pub rev: Seq<char>,
    pub scsi_type: u32,
    pub scsi_type_name: Seq<char>,
    pub block_device: Option<SpecBlockDevice>,
    pub sg_device: Option<Seq<char>>,
}

#[verifier::ext_equal]
pub struct SpecNvmeCtrl {
    pub name: Seq<char>,
    pub model: Seq<char>,
    pub serial: Seq<char>,
    pub firmware_rev: Seq<char>,
    pub transport: Seq<char>,
    pub state: Seq<char>,
    pub pci_address: Option<Seq<char>>,
    pub transport_address: Option<Seq<char>>,
    pub subsys_name: Option<Seq<char>>,
    pub namespaces: Seq<SpecNvmeNamespace>,
}

#[verifier::ext_equal]
pub struct SpecNvmeNamespace {
    pub name: Seq<char>,
    pub nsid: Option<u32>,
    pub nguid: Option<Seq<char>>,
    pub size_bytes: u64,
    pub block_device: Option<SpecBlockDevice>,
}

#[verifier::ext_equal]
pub struct SpecNvmeSubsystem {
    pub name: Seq<char>,
    pub nqn: Option<Seq<char>>,
    pub model: Seq<char>,
    pub serial: Seq<char>,
    pub controllers: Seq<Seq<char>>,
    pub namespaces: Seq<SpecNvmeNamespace>,
}

#[verifier::ext_equal]
pub struct SpecBlockDevice {
    pub name: Seq<char>,
    pub dev_path: Seq<char>,
    pub size_bytes: u64,
    pub removable: bool,
    pub read_only: bool,
    pub wwn: Option<Seq<char>>,
    pub partitions: Seq<SpecPartition>,
    pub holders: Seq<Seq<char>>,
}

#[verifier::ext_equal]
pub struct SpecPartition {
    pub name: Seq<char>,
    pub number: u32,
    pub size_bytes: u64,
    pub holders: Seq<Seq<char>>,
}

#[verifier::ext_equal]
pub struct SpecDmSlave {
    pub device_name: Seq<char>,
    pub hctl: Option<Seq<char>>,
    pub host_num: Option<u32>,
    pub host_driver: Option<Seq<char>>,
    pub pci_address: Option<Seq<char>>,
}

#[verifier::ext_equal]
pub struct SpecDmDevice {
    pub name: Seq<char>,
    pub dm_name: Seq<char>,
    pub dm_uuid: Seq<char>,
    pub dm_type: Seq<char>,
    pub size_bytes: u64,
    pub slaves: Seq<SpecDmSlave>,
    pub partitions: Seq<SpecPartition>,
}

// ---------------------------------------------------------------------------
// Views
// ---------------------------------------------------------------------------
impl View for Partition {
    type V = SpecPartition;

    open spec fn view(&self) -> SpecPartition {
        SpecPartition {
            name: self.name@,
            number: self.number,
            size_bytes: self.size_bytes,
            holders: strs_view(self.holders@),
        }
    }
}

pub open spec fn partitions_view(v: Seq<Partition>) -> Seq<SpecPartition> {
    v.map_values(|p: Partition| p@)
}

impl View for BlockDevice {
    type V = SpecBlockDevice;

    open spec fn view(&self) -> SpecBlockDevice {
        SpecBlockDevice {
            name: self.name@,
            dev_path: self.dev_path@,
            size_bytes: self.size_bytes,
            removable: self.removable,
            read_only: self.read_only,
            wwn: opt_view(self.wwn),
            partitions: partitions_view(self.partitions@),
            holders: strs_view(self.holders@),
        }
    }
}

pub open spec fn opt_block_view(b: Option<BlockDevice>) -> Option<SpecBlockDevice> {
    match b {
        Some(b) => Some(b@),
        None => None,
    }
}

impl View for NvmeNamespace {
    type V = SpecNvmeNamespace;

    open spec fn view(&self) -> SpecNvmeNamespace {
        SpecNvmeNamespace {
            name: self.name@,
            nsid: self.nsid,
            nguid: opt_view(self.nguid),
            size_bytes: self.size_bytes,
            block_device: opt_block_view(self.block_device),
        }
    }
}

pub open spec fn namespaces_view(v: Seq<NvmeNamespace>) -> Seq<SpecNvmeNamespace> {
    v.map_values(|n: NvmeNamespace| n@)
}

impl View for NvmeCtrl {
    type V = SpecNvmeCtrl;

    open spec fn view(&self) -> SpecNvmeCtrl {
        SpecNvmeCtrl {
            name: self.name@,
            model: self.model@,
            serial: self.serial@,
            firmware_rev: self.firmware_rev@,
            transport: self.transport@,
            state: self.state@,
            pci_address: opt_view(self.pci_address),
            transport_address: opt_view(self.transport_address),
            subsys_name: opt_view(self.subsys_name),
            namespaces: namespaces_view(self.namespaces@),
        }
    }
}

pub open spec fn ctrls_view(v: Seq<NvmeCtrl>) -> Seq<SpecNvmeCtrl> {
    v.map_values(|c: NvmeCtrl| c@)
}

impl View for NvmeSubsystem {
    type V = SpecNvmeSubsystem;

    open spec fn view(&self) -> SpecNvmeSubsystem {
        SpecNvmeSubsystem {
            name: self.name@,
            nqn: opt_view(self.nqn),
            model: self.model@,
            serial: self.serial@,
            controllers: strs_view(self.controllers@),
            namespaces: namespaces_view(self.namespaces@),
        }
    }
}

pub open spec fn subsystems_view(v: Seq<NvmeSubsystem>) -> Seq<SpecNvmeSubsystem> {
    v.map_values(|s: NvmeSubsystem| s@)
}

impl View for ScsiDevice {
    type V = SpecScsiDevice;

    open spec fn view(&self) -> SpecScsiDevice {
        SpecScsiDevice {
            hctl: self.hctl@,
            vendor: self.vendor@,
            model: self.model@,
            rev: self.rev@,
            scsi_type: self.scsi_type,
            scsi_type_name: self.scsi_type_name@,
            block_device: opt_block_view(self.block_device),
            sg_device: opt_view(self.sg_device),
        }
    }
}

pub open spec fn devices_view(v: Seq<ScsiDevice>) -> Seq<SpecScsiDevice> {
    v.map_values(|d: ScsiDevice| d@)
}

impl View for ScsiTarget {
    type V = SpecScsiTarget;

    open spec fn view(&self) -> SpecScsiTarget {
        SpecScsiTarget { address: self.address@, devices: devices_view(self.devices@) }
    }
}

pub open spec fn targets_view(v: Seq<ScsiTarget>) -> Seq<SpecScsiTarget> {
    v.map_values(|t: ScsiTarget| t@)
}

impl View for FcHostInfo {
    type V = SpecFcHostInfo;

    open spec fn view(&self) -> SpecFcHostInfo {
        SpecFcHostInfo {
            port_name: self.port_name@,
            node_name: self.node_name@,
            port_state: self.port_state@,
            port_type: self.port_type@,
            speed: self.speed@,
            fabric_name: opt_view(self.fabric_name),
            supported_speeds: opt_view(self.supported_speeds),
        }
    }
}

impl View for SasPhyInfo {
    type V = SpecSasPhyInfo;

    open spec fn view(&self) -> SpecSasPhyInfo {
        SpecSasPhyInfo {
            name: self.name@,
            sas_address: self.sas_address@,
            negotiated_linkrate: self.negotiated_linkrate@,
            initiator_protocols: opt_view(self.initiator_protocols),
            target_protocols: opt_view(self.target_protocols),
        }
    }
}

impl View for IscsiSessionInfo {
    type V = SpecIscsiSessionInfo;

    open spec fn view(&self) -> SpecIscsiSessionInfo {
        SpecIscsiSessionInfo {
            target_name: self.target_name@,
            state: self.state@,
            target_address: opt_view(self.target_address),
            target_port: self.target_port,
        }
    }
}

pub open spec fn phys_view(v: Seq<SasPhyInfo>) -> Seq<SpecSasPhyInfo> {
    v.map_values(|p: SasPhyInfo| p@)
}

pub open spec fn sessions_view(v: Seq<IscsiSessionInfo>) -> Seq<SpecIscsiSessionInfo> {
    v.map_values(|s: IscsiSessionInfo| s@)
}

impl View for TransportInfo {
    type V = SpecTransportInfo;

    open spec fn view(&self) -> SpecTransportInfo {
        match self {
            TransportInfo::Fc(fc) => SpecTransportInfo::Fc(fc@),
            TransportInfo::Sas(sas) => SpecTransportInfo::Sas(phys_view(sas.phys@)),
            TransportInfo::Iscsi(iscsi) => SpecTransportInfo::Iscsi(sessions_view(iscsi.sessions@)),
        }
    }
}

impl View for ScsiHost {
    type V = SpecScsiHost;

    open spec fn view(&self) -> SpecScsiHost {
        SpecScsiHost {
            host_num: self.host_num,
            proc_name: opt_view(self.proc_name),
            ata_port: opt_view(self.ata_port),
            transport: match self.transport {
                Some(t) => Some(t@),
                None => None,
            },
            targets: targets_view(self.targets@),
        }
    }
}

pub open spec fn hosts_view(v: Seq<ScsiHost>) -> Seq<SpecScsiHost> {
    v.map_values(|h: ScsiHost| h@)
}

impl View for ControllerChild {
    type V = SpecControllerChild;

    open spec fn view(&self) -> SpecControllerChild {
        match self {
            ControllerChild::ScsiHost(h) => SpecControllerChild::ScsiHost(h@),
            ControllerChild::NvmeController(n) => SpecControllerChild::NvmeController(n@),
        }
    }
}

pub open spec fn ctrl_children_view(v: Seq<ControllerChild>) -> Seq<SpecControllerChild> {
    v.map_values(|c: ControllerChild| c@)
}

impl View for StorageController {
    type V = SpecStorageController;

    open spec fn view(&self) -> SpecStorageController {
        SpecStorageController {
            address: self.address@,
            vendor_id: self.vendor_id@,
            device_id: self.device_id@,
            class_code: self.class_code@,
            driver: opt_view(self.driver),
            numa_node: self.numa_node,
            children: ctrl_children_view(self.children@),
        }
    }
}

/// The model of a PCI node, through the tree below it.
pub open spec fn pci_node_view(n: PciNode) -> SpecPciNode
    decreases n,
{
    match n {
        PciNode::Bridge(b) => SpecPciNode::Bridge(
            SpecPciBridge {
                address: b.address@,
                vendor_id: b.vendor_id@,
                device_id: b.device_id@,
                driver: opt_view(b.driver),
                children: pci_nodes_view(b.children@, b.children@.len() as int),
            },
        ),
        PciNode::StorageController(c) => SpecPciNode::StorageController(c@),
    }
}

/// The models of the first `k` nodes of `s`.
pub open spec fn pci_nodes_view(s: Seq<PciNode>, k: int) -> Seq<SpecPciNode>
    decreases s, k,
{
    if k <= 0 || k > s.len() {
        Seq::empty()
    } else {
        pci_nodes_view(s, k - 1).push(pci_node_view(s[k - 1]))
    }
}

pub open spec fn nodes_view(v: Seq<PciNode>) -> Seq<SpecPciNode> {
    pci_nodes_view(v, v.len() as int)
}

pub proof fn lemma_nodes_view(v: Seq<PciNode>, k: int)
    requires
        0 <= k <= v.len(),
    ensures
        pci_nodes_view(v, k).len() == k,
        forall|i: int| 0 <= i < k ==> #[trigger] pci_nodes_view(v, k)[i] == pci_node_view(v[i]),
    decreases k,
{
    if k > 0 {
        lemma_nodes_view(v, k - 1);
    }
}

proof fn lemma_nodes_view_push(s: Seq<PciNode>, x: PciNode, k: int)
    requires
        0 <= k <= s.len(),
    ensures
        pci_nodes_view(s.push(x), k) == pci_nodes_view(s, k),
    decreases k,
{
    if k > 0 {
        lemma_nodes_view_push(s, x, k - 1);
        assert(s.push(x)[k - 1] == s[k - 1]);
    }
}

pub proof fn lemma_nodes_view_pushed(s: Seq<PciNode>, x: PciNode)
    ensures
        nodes_view(s.push(x)) == nodes_view(s).push(x@),
{
    lemma_nodes_view_push(s, x, s.len() as int);
    assert(s.push(x)[s.len() as int] == x);
}

impl View for PciNode {
    type V = SpecPciNode;

    open spec fn view(&self) -> SpecPciNode {
        pci_node_view(*self)
    }
}

impl View for PciBridge {
    type V = SpecPciBridge;

    open spec fn view(&self) -> SpecPciBridge {
        SpecPciBridge {
            address: self.address@,
            vendor_id: self.vendor_id@,
            device_id: self.device_id@,
            driver: opt_view(self.driver),
            children: nodes_view(self.children@),
        }
    }
}

impl View for PciRoot {
    type V = SpecPciRoot;

    open spec fn view(&self) -> SpecPciRoot {
        SpecPciRoot { domain: self.domain@, children: nodes_view(self.children@) }
    }
}

pub open spec fn roots_view(v: Seq<PciRoot>) -> Seq<SpecPciRoot> {
    v.map_values(|r: PciRoot| r@)
}

impl View for DmSlave {
    type V = SpecDmSlave;

    open spec fn view(&self) -> SpecDmSlave {
        SpecDmSlave {
            device_name: self.device_name@,
            hctl: opt_view(self.hctl),
            host_num: self.host_num,
            host_driver: opt_view(self.host_driver),
            pci_address: opt_view(self.pci_address),
        }
    }
}

pub open spec fn slaves_view(v: Seq<DmSlave>) -> Seq<SpecDmSlave> {
    v.map_values(|s: DmSlave| s@)
}

impl View for DmDevice {
    type V = SpecDmDevice;

    open spec fn view(&self) -> SpecDmDevice {
        SpecDmDevice {
            name: self.name@,
            dm_name: self.dm_name@,
            dm_uuid: self.dm_uuid@,
            dm_type: self.dm_type@,
            size_bytes: self.size_bytes,
            slaves: slaves_view(self.slaves@),
            partitions: partitions_view(self.partitions@),
        }
    }
}

pub open spec fn dms_view(v: Seq<DmDevice>) -> Seq<SpecDmDevice> {
    v.map_values(|d: DmDevice| d@)
}

impl View for Topology {
    type V = SpecTopology;

    open spec fn view(&self) -> SpecTopology {
        SpecTopology {
            pci_roots: roots_view(self.pci_roots@),
            fabrics_controllers: ctrls_view(self.fabrics_controllers@),
            nvme_subsystems: subsystems_view(self.nvme_subsystems@),
            dm_devices: dms_view(self.dm_devices@),
        }
    }
}

// ---------------------------------------------------------------------------
// Copies
// ---------------------------------------------------------------------------
pub fn clone_opt_string(o: &Option<String>) -> (r: Option<String>)
    ensures
        r == *o,
        opt_view(r) == opt_view(*o),
{
    match o {
        Some(s) => Some(s.clone()),
        None => None,
    }
}

pub fn clone_strings(v: &Vec<String>) -> (r: Vec<String>)
    ensures
        strs_view(r@) == strs_view(v@),
{
    let r = v.clone();
    assert(strs_view(r@) =~= strs_view(v@)) by {
        assert forall|i: int| 0 <= i < r@.len() implies r@[i] == v@[i] by {
            assert(cloned::<String>(v[i], r[i]));
        }
    }
    r
}

impl Clone for Partition {
    fn clone(&self) -> (r: Self)
        ensures
            r@ == self@,
    {
        Partition {
            name: self.name.clone(),
            number: self.number,
            size_bytes: self.size_bytes,
            holders: clone_strings(&self.holders),
        }
    }
}

pub fn clone_partitions(v: &Vec<Partition>) -> (r: Vec<Partition>)
    ensures
        partitions_view(r@) == partitions_view(v@),
{
    let r = v.clone();
    assert(partitions_view(r@) =~= partitions_view(v@)) by {
        assert forall|i: int| 0 <= i < r@.len() implies r@[i]@ == v@[i]@ by {
            assert(cloned::<Partition>(v[i], r[i]));
        }
    }
    r
}

impl Clone for BlockDevice {
    fn clone(&self) -> (r: Self)
        ensures
            r@ == self@,
    {
        BlockDevice {
            name: self.name.clone(),
            dev_path: self.dev_path.clone(),
            size_bytes: self.size_bytes,
            removable: self.removable,
            read_only: self.read_only,
            wwn: clone_opt_string(&self.wwn),
            partitions: clone_partitions(&self.partitions),
            holders: clone_strings(&self.holders),
        }
    }
}


fn clone_devices(v: &Vec<ScsiDevice>) -> (r: Vec<ScsiDevice>)
    ensures
        devices_view(r@) == devices_view(v@),
{
    let r = v.clone();
    assert(devices_view(r@) =~= devices_view(v@)) by {
        assert forall|i: int| 0 <= i < r@.len() implies r@[i]@ == v@[i]@ by {
            assert(cloned::<ScsiDevice>(v[i], r[i]));
        }
    }
    r
}

pub fn clone_opt_block(b: &Option<BlockDevice>) -> (r: Option<BlockDevice>)
    ensures
        opt_block_view(r) == opt_block_view(*b),
{
    match b {
        Some(x) => Some(x.clone()),
        None => None,
    }
}

impl Clone for ScsiDevice {
    fn clone(&self) -> (r: Self)
        ensures
            r@ == self@,
    {
        ScsiDevice {
            hctl: self.hctl.clone(),
            vendor: self.vendor.clone(),
            model: self.model.clone(),
            rev: self.rev.clone(),
            scsi_type: self.scsi_type,
            scsi_type_name: self.scsi_type_name.clone(),
            block_device: clone_opt_block(&self.block_device),
            sg_device: clone_opt_string(&self.sg_device),
        }
    }
}

impl Clone for ScsiTarget {
    fn clone(&self) -> (r: Self)
        ensures
            r@ == self@,
    {
        ScsiTarget { address: self.address.clone(), devices: clone_devices(&self.devices) }
    }
}

fn clone_targets(v: &Vec<ScsiTarget>) -> (r: Vec<ScsiTarget>)
    ensures
        targets_view(r@) == targets_view(v@),
{
    let r = v.clone();
    assert(targets_view(r@) =~= targets_view(v@)) by {
        assert forall|i: int| 0 <= i < r@.len() implies r@[i]@ == v@[i]@ by {
            assert(cloned::<ScsiTarget>(v[i], r[i]));
        }
    }
    r
}

impl Clone for FcHostInfo {
    fn clone(&self) -> (r: Self)
        ensures
            r@ == self@,
    {
        FcHostInfo {
            port_name: self.port_name.clone(),
            node_name: self.node_name.clone(),
            port_state: self.port_state.clone(),
            port_type: self.port_type.clone(),
            speed: self.speed.clone(),
            fabric_name: clone_opt_string(&self.fabric_name),
            supported_speeds: clone_opt_string(&self.supported_speeds),
        }
    }
}

impl Clone for SasPhyInfo {
    fn clone(&self) -> (r: Self)
        ensures
            r@ == self@,
    {
        SasPhyInfo {
            name: self.name.clone(),
            sas_address: self.sas_address.clone(),
            negotiated_linkrate: self.negotiated_linkrate.clone(),
            initiator_protocols: clone_opt_string(&self.initiator_protocols),
            target_protocols: clone_opt_string(&self.target_protocols),
        }
    }
}

impl Clone for SasHostInfo {
    fn clone(&self) -> (r: Self)
        ensures
            phys_view(r.phys@) == phys_view(self.phys@),
    {
        let phys = self.phys.clone();
        assert(phys_view(phys@) =~= phys_view(self.phys@)) by {
            assert forall|i: int| 0 <= i < phys@.len() implies phys@[i]@ == self.phys@[i]@ by {
                assert(cloned::<SasPhyInfo>(self.phys[i], phys[i]));
            }
        }
        SasHostInfo { phys }
    }
}

impl Clone for IscsiSessionInfo {
    fn clone(&self) -> (r: Self)
        ensures
            r@ == self@,
    {
        IscsiSessionInfo {
            target_name: self.target_name.clone(),
            state: self.state.clone(),
            target_address: clone_opt_string(&self.target_address),
            target_port: self.target_port,
        }
    }
}

impl Clone for IscsiHostInfo {
    fn clone(&self) -> (r: Self)
        ensures
            sessions_view(r.sessions@) == sessions_view(self.sessions@),
    {
        let sessions = self.sessions.clone();
        assert(sessions_view(sessions@) =~= sessions_view(self.sessions@)) by {
            assert forall|i: int| 0 <= i < sessions@.len() implies sessions@[i]@ == self.sessions@[i]@ by {
                assert(cloned::<IscsiSessionInfo>(self.sessions[i], sessions[i]));
            }
        }
        IscsiHostInfo { sessions }
    }
}

impl Clone for TransportInfo {
    fn clone(&self) -> (r: Self)
        ensures
            r@ == self@,
    {
        match self {
            TransportInfo::Fc(fc) => TransportInfo::Fc(fc.clone()),
            TransportInfo::Sas(sas) => TransportInfo::Sas(sas.clone()),
            TransportInfo::Iscsi(iscsi) => TransportInfo::Iscsi(iscsi.clone()),
        }
    }
}

impl Clone for ScsiHost {
    fn clone(&self) -> (r: Self)
        ensures
            r@ == self@,
    {
        ScsiHost {
            host_num: self.host_num,
            proc_name: clone_opt_string(&self.proc_name),
            ata_port: clone_opt_string(&self.ata_port),
            transport: match &self.transport {
                Some(t) => Some(t.clone()),
                None => None,
            },
            targets: clone_targets(&self.targets),
        }
    }
}

impl Clone for NvmeNamespace {
    fn clone(&self) -> (r: Self)
        ensures
            r@ == self@,
    {
        NvmeNamespace {
            name: self.name.clone(),
            nsid: self.nsid,
            nguid: clone_opt_string(&self.nguid),
            size_bytes: self.size_bytes,
            block_device: clone_opt_block(&self.block_device),
        }
    }
}

impl Clone for NvmeCtrl {
    fn clone(&self) -> (r: Self)
        ensures
            r@ == self@,
    {
        let namespaces = self.namespaces.clone();
        assert(namespaces_view(namespaces@) =~= namespaces_view(self.namespaces@)) by {
            assert forall|i: int| 0 <= i < namespaces@.len() implies namespaces@[i]@
                == self.namespaces@[i]@ by {
                assert(cloned::<NvmeNamespace>(self.namespaces[i], namespaces[i]));
            }
        }
        NvmeCtrl {
            name: self.name.clone(),
            model: self.model.clone(),
            serial: self.serial.clone(),
            firmware_rev: self.firmware_rev.clone(),
            transport: self.transport.clone(),
            state: self.state.clone(),
            pci_address: clone_opt_string(&self.pci_address),
            transport_address: clone_opt_string(&self.transport_address),
            subsys_name: clone_opt_string(&self.subsys_name),
            namespaces,
        }
    }
}

impl Clone for DmSlave {
    fn clone(&self) -> (r: Self)
        ensures
            r@ == self@,
    {
        DmSlave {
            device_name: self.device_name.clone(),
            hctl: clone_opt_string(&self.hctl),
            host_num: self.host_num,
            host_driver: clone_opt_string(&self.host_driver),
            pci_address: clone_opt_string(&self.pci_address),
        }
    }
}

} // verus!
