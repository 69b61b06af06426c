use pathological::nvme::{
    discover, extract_nsid, find_subsystem_for_controller, is_nvme_namespace_name, pci_addresses,
    NamespaceEntry, NvmeCtrlEntry, NvmeSubsysEntry, NvmeSysfs,
};
use pathological::types::{BlockDevice, NvmeCtrl};

fn s(x: &str) -> String {
    x.to_string()
}

fn ns(name: &str, nguid: Option<&str>, size: Option<&str>) -> NamespaceEntry {
    NamespaceEntry {
        name: s(name),
        nguid: nguid.map(s),
        block_nguid: None,
        size: size.map(s),
    }
}

fn block(name: &str, size: u64) -> BlockDevice {
    BlockDevice {
        name: s(name),
        dev_path: format!("/dev/{}", name),
        size_bytes: size,
        removable: false,
        read_only: false,
        wwn: None,
        partitions: Vec::new(),
        holders: Vec::new(),
    }
}

#[test]
fn namespace_names() {
    assert!(is_nvme_namespace_name("nvme0n1", "nvme0"));
    assert!(is_nvme_namespace_name("nvme0c0n1", "nvme0"));
    assert!(is_nvme_namespace_name("nvme0n12", "nvme0"));
    assert!(!is_nvme_namespace_name("nvme0n1p1", "nvme0"));
    assert!(!is_nvme_namespace_name("nvme0n", "nvme0"));
    assert!(!is_nvme_namespace_name("nvme0cn1", "nvme0"));
    assert!(!is_nvme_namespace_name("nvme0c0n", "nvme0"));
    assert!(!is_nvme_namespace_name("nvme1n1", "nvme0"));
    assert!(!is_nvme_namespace_name("nvme0", "nvme0"));
    assert!(!is_nvme_namespace_name("nvme0x1", "nvme0"));
}

#[test]
fn namespace_ids() {
    assert_eq!(extract_nsid("nvme0n1"), Some(1));
    assert_eq!(extract_nsid("nvme0c0n1"), Some(1));
    assert_eq!(extract_nsid("nvme12n34"), Some(34));
    assert_eq!(extract_nsid("nvme0n1p2"), None);
    assert_eq!(extract_nsid("nvme0"), None);
    assert_eq!(extract_nsid("nvme0n99999999999"), None);
    assert_eq!(extract_nsid(""), None);
}

fn sample() -> NvmeSysfs {
    let ctrl1 = NvmeCtrlEntry {
        name: s("nvme1"),
        canonical: Some(s("/sys/devices/pci0000:00/0000:00:02.0/0000:0c:00.0/nvme/nvme1")),
        model: Some(s("INTEL SSDPEDMD400G4")),
        serial: Some(s("CVFT5194002T400BGN")),
        firmware_rev: Some(s("8DV101H0")),
        transport: Some(s("pcie")),
        state: Some(s("live")),
        address: Some(s("0000:0c:00.0")),
        device_link: Some(s("../../../0000:0c:00.0")),
        children: vec![
            ns("power", None, None),
            ns("nvme1n1", Some("00000000-0000-0000-0000-000000000000"), Some("781422768")),
            ns("nvme1c1n2", Some("ab-cd"), Some("8")),
        ],
    };
    let ctrl0 = NvmeCtrlEntry {
        name: s("nvme0"),
        canonical: Some(s("/sys/devices/virtual/nvme-fabrics/ctl/nvme0")),
        model: None,
        serial: None,
        firmware_rev: None,
        transport: Some(s("tcp")),
        state: Some(s("live")),
        address: Some(s("traddr=10.0.0.1,trsvcid=4420")),
        device_link: None,
        children: vec![],
    };
    let not_ctrl = NvmeCtrlEntry {
        name: s("foo"),
        canonical: Some(s("/x")),
        model: None,
        serial: None,
        firmware_rev: None,
        transport: None,
        state: None,
        address: None,
        device_link: None,
        children: vec![],
    };
    let sub = NvmeSubsysEntry {
        name: s("nvme-subsys1"),
        canonical: Some(s("/sys/devices/virtual/nvme-subsystem/nvme-subsys1")),
        model: Some(s("INTEL")),
        serial: None,
        nqn: Some(s("nqn.2014.08.org.nvmexpress:8086")),
        children: vec![
            ns("nvme2", None, None),
            ns("nvme1", None, None),
            ns("nvme1n1", Some("0"), Some("16")),
            ns("nvmex", None, None),
            ns("subsysnqn", None, None),
        ],
    };
    NvmeSysfs { controllers: vec![ctrl1, not_ctrl, ctrl0], subsystems: vec![sub] }
}

#[test]
fn discovers_controllers_and_subsystems() {
    let blocks = vec![block("nvme1n1", 400_088_457_216)];
    let (ctrls, subs) = discover(&blocks, sample());
    assert_eq!(ctrls.len(), 2);
    let c0 = &ctrls[0];
    assert_eq!(c0.name, "nvme0");
    assert_eq!(c0.transport, "tcp");
    assert_eq!(c0.pci_address, None);
    assert_eq!(c0.transport_address, Some(s("traddr=10.0.0.1,trsvcid=4420")));
    assert_eq!(c0.model, "");
    assert_eq!(c0.subsys_name, None);
    let c1 = &ctrls[1];
    assert_eq!(c1.name, "nvme1");
    assert_eq!(c1.pci_address, Some(s("0000:0c:00.0")));
    assert_eq!(c1.transport_address, None);
    assert_eq!(c1.subsys_name, Some(s("nvme-subsys1")));
    assert_eq!(c1.namespaces.len(), 2);
    // sorted by name: "nvme1c1n2" < "nvme1n1"
    assert_eq!(c1.namespaces[0].name, "nvme1c1n2");
    assert_eq!(c1.namespaces[0].nsid, Some(2));
    assert_eq!(c1.namespaces[0].nguid, Some(s("ab-cd")));
    assert_eq!(c1.namespaces[0].size_bytes, 4096);
    assert!(c1.namespaces[0].block_device.is_none());
    assert_eq!(c1.namespaces[1].name, "nvme1n1");
    assert_eq!(c1.namespaces[1].nguid, None);
    assert_eq!(c1.namespaces[1].size_bytes, 400_088_457_216);
    assert_eq!(c1.namespaces[1].block_device.as_ref().map(|b| b.name.clone()), Some(s("nvme1n1")));

    assert_eq!(subs.len(), 1);
    assert_eq!(subs[0].name, "nvme-subsys1");
    assert_eq!(subs[0].model, "INTEL");
    assert_eq!(subs[0].serial, "");
    assert_eq!(subs[0].controllers, vec![s("nvme1"), s("nvme2")]);
    assert_eq!(subs[0].namespaces.len(), 1);
    assert_eq!(subs[0].namespaces[0].nsid, Some(1));
    assert_eq!(subs[0].namespaces[0].nguid, None);
    // the size attribute comes first here
    assert_eq!(subs[0].namespaces[0].size_bytes, 16 * 512);
}

#[test]
fn subsystem_from_path_when_not_listed() {
    let subs: Vec<NvmeSubsysEntry> = Vec::new();
    let r = find_subsystem_for_controller(&subs, "/sys/devices/virtual/nvme-subsys3/nvme3", "nvme3");
    assert_eq!(r, Some(s("nvme-subsys3")));
    // the first component that begins with "nvme-subsys" counts, the class directory too
    let r = find_subsystem_for_controller(&subs, "/sys/devices/virtual/nvme-subsystem/nvme-subsys3/nvme3", "nvme3");
    assert_eq!(r, Some(s("nvme-subsystem")));
    let r = find_subsystem_for_controller(&subs, "/sys/devices/pci0000:00/nvme/nvme3", "nvme3");
    assert_eq!(r, None);
}

#[test]
fn sizes_wrap_like_release_arithmetic() {
    let c = NvmeCtrlEntry {
        name: s("nvme5"),
        canonical: Some(s("/c")),
        model: None,
        serial: None,
        firmware_rev: None,
        transport: None,
        state: None,
        address: None,
        device_link: Some(s("../nvme-fabrics")),
        children: vec![ns("nvme5n1", None, Some("36028797018963969"))],
    };
    let (ctrls, _) = discover(&Vec::new(), NvmeSysfs { controllers: vec![c], subsystems: vec![] });
    assert_eq!(ctrls[0].transport, "pcie");
    assert_eq!(ctrls[0].pci_address, None);
    assert_eq!(ctrls[0].namespaces[0].size_bytes, 36028797018963969u64.wrapping_mul(512));
}

#[test]
fn pci_addresses_of_controllers() {
    let (ctrls, _) = discover(&Vec::new(), sample());
    let v: &Vec<NvmeCtrl> = &ctrls;
    assert_eq!(pci_addresses(v), vec![s("0000:0c:00.0")]);
}
