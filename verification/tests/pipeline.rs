use pathological::pci::{
    discover_pci_hierarchy, format_class_code, is_bridge, is_storage_controller, read_pci_device_info,
    scan_storage_class_devices, trace_pci_chain, PciDeviceEntry,
};
use pathological::topology::{build, BuildArgs};
use pathological::tree::render;
use pathological::types::{
    ControllerChild, NvmeCtrl, PciNode, PciRoot, ScsiDevice, ScsiHost, ScsiTarget,
};

fn s(x: &str) -> String {
    x.to_string()
}

fn pci(name: &str, path: &str, class: &str, vendor: &str, device: &str, driver: Option<&str>) -> PciDeviceEntry {
    PciDeviceEntry {
        name: s(name),
        canonical: Some(s(path)),
        vendor: Some(s(vendor)),
        device: Some(s(device)),
        class: Some(s(class)),
        driver_link: driver.map(|d| format!("../../../bus/pci/drivers/{}", d)),
        numa_node: Some(s("0")),
    }
}

fn devices() -> Vec<PciDeviceEntry> {
    vec![
        pci("0000:09:00.0", "/sys/devices/pci0000:00/0000:00:01.0/0000:09:00.0", "0x010700", "0x1000", "0x0072", Some("mpt3sas")),
        pci("0000:00:1f.0", "/sys/devices/pci0000:00/0000:00:1f.0", "0x060100", "0x8086", "0x8d44", None),
        pci("0000:00:01.0", "/sys/devices/pci0000:00/0000:00:01.0", "0x060400", "0x8086", "0x2f02", Some("pcieport")),
        pci("0000:00:02.0", "/sys/devices/pci0000:00/0000:00:02.0", "0x060400", "0x8086", "0x2f04", Some("pcieport")),
        pci("0000:0c:00.0", "/sys/devices/pci0000:00/0000:00:02.0/0000:0c:00.0", "0x010802", "0x8086", "0x0953", Some("nvme")),
        pci("0000:80:02.0", "/sys/devices/pci0000:80/0000:80:02.0", "0x060400", "0x8086", "0x2f04", Some("pcieport")),
        pci("0000:81:00.0", "/sys/devices/pci0000:80/0000:80:02.0/0000:81:00.0", "0x010400", "0x1000", "0x005b", Some("megaraid_sas")),
        pci("0000:82:00.0", "/sys/devices/pci0000:80/0000:80:02.0/0000:82:00.0", "0x010802", "0x144d", "0xa808", Some("vfio-pci")),
    ]
}

fn addresses(nodes: &[PciNode]) -> Vec<String> {
    nodes
        .iter()
        .map(|n| match n {
            PciNode::Bridge(b) => b.address.clone(),
            PciNode::StorageController(c) => c.address.clone(),
        })
        .collect()
}

fn children(n: &PciNode) -> &[PciNode] {
    match n {
        PciNode::Bridge(b) => &b.children,
        PciNode::StorageController(_) => &[],
    }
}

#[test]
fn class_codes() {
    assert!(is_bridge(0x060400));
    assert!(is_bridge(0x0604ff));
    assert!(!is_bridge(0x060100));
    assert!(is_storage_controller(0x010000));
    assert!(is_storage_controller(0x0108ff));
    assert!(!is_storage_controller(0x010900));
    assert!(!is_storage_controller(0x00ffff));
    assert_eq!(format_class_code(0x010802), "0x010802");
    assert_eq!(format_class_code(0), "0x000000");
    assert_eq!(format_class_code(0x12345678), "0x12345678");
}

#[test]
fn device_info_and_chains() {
    let d = devices();
    let info = read_pci_device_info("0000:09:00.0", &d);
    assert_eq!(info.vendor_id, "0x1000");
    assert_eq!(info.class_code, 0x010700);
    assert_eq!(info.driver, Some(s("mpt3sas")));
    assert_eq!(info.numa_node, Some(0));
    let unknown = read_pci_device_info("0000:ff:00.0", &d);
    assert_eq!(unknown.vendor_id, "0x0000");
    assert_eq!(unknown.device_id, "0x0000");
    assert_eq!(unknown.class_code, 0);
    assert_eq!(unknown.driver, None);
    let chain = trace_pci_chain("0000:09:00.0", &d).unwrap();
    assert_eq!(chain.root_domain, "0000:00");
    assert_eq!(chain.devices, vec![s("0000:00:01.0"), s("0000:09:00.0")]);
    assert!(trace_pci_chain("0000:ff:00.0", &d).is_none());
    assert_eq!(scan_storage_class_devices(&d), vec![s("0000:09:00.0"), s("0000:0c:00.0"), s("0000:81:00.0"), s("0000:82:00.0")]);
}

#[test]
fn hierarchy_per_root() {
    let roots = discover_pci_hierarchy(&[s("0000:0c:00.0")], &[s("0000:09:00.0"), s("0000:81:00.0")], &devices());
    let domains: Vec<String> = roots.iter().map(|r| r.domain.clone()).collect();
    assert_eq!(domains, vec![s("0000:00"), s("0000:80")]);
    assert_eq!(addresses(&roots[0].children), vec![s("0000:00:01.0"), s("0000:00:02.0")]);
    assert_eq!(addresses(children(&roots[0].children[0])), vec![s("0000:09:00.0")]);
    assert_eq!(addresses(children(&roots[0].children[1])), vec![s("0000:0c:00.0")]);
    assert_eq!(addresses(children(&roots[1].children[0])), vec![s("0000:81:00.0"), s("0000:82:00.0")]);
    match &children(&roots[1].children[0])[1] {
        PciNode::StorageController(c) => {
            assert_eq!(c.class_code, "0x010802");
            assert_eq!(c.driver, Some(s("vfio-pci")));
            assert!(c.children.is_empty());
        },
        _ => panic!("expected a controller"),
    }
}

fn nvme(name: &str, pci: Option<&str>) -> NvmeCtrl {
    NvmeCtrl {
        name: s(name),
        model: s("M"),
        serial: s(""),
        firmware_rev: s(""),
        transport: s(if pci.is_some() { "pcie" } else { "tcp" }),
        state: s("live"),
        pci_address: pci.map(s),
        transport_address: None,
        subsys_name: None,
        namespaces: vec![],
    }
}

fn host(n: u32, targets: Vec<ScsiTarget>) -> ScsiHost {
    ScsiHost { host_num: n, proc_name: Some(s("drv")), ata_port: None, transport: None, targets }
}

fn target(addr: &str, devices: usize) -> ScsiTarget {
    ScsiTarget {
        address: s(addr),
        devices: (0..devices)
            .map(|i| ScsiDevice {
                hctl: format!("{}:{}", addr, i),
                vendor: s("V"),
                model: s("M"),
                rev: s(""),
                scsi_type: 0,
                scsi_type_name: s("disk"),
                block_device: None,
                sg_device: None,
            })
            .collect(),
    }
}

fn roots() -> Vec<PciRoot> {
    discover_pci_hierarchy(&[s("0000:0c:00.0")], &[s("0000:09:00.0"), s("0000:81:00.0")], &devices())
}

fn controller_children(r: &PciRoot, path: &[usize]) -> Vec<String> {
    let mut n = &r.children[path[0]];
    for &i in &path[1..] {
        n = &children(n)[i];
    }
    match n {
        PciNode::StorageController(c) => c
            .children
            .iter()
            .map(|x| match x {
                ControllerChild::ScsiHost(h) => format!("host{}", h.host_num),
                ControllerChild::NvmeController(c) => c.name.clone(),
            })
            .collect(),
        _ => panic!("expected a controller"),
    }
}

#[test]
fn build_hangs_devices_under_controllers() {
    let ctrls = vec![nvme("nvme1", Some("0000:0c:00.0")), nvme("nvme9", None), nvme("nvme3", None), nvme("nvme2", Some("0000:0c:00.0"))];
    let hosts = vec![
        (s("0000:09:00.0"), vec![host(12, vec![target("12:0:0", 1)]), host(13, vec![target("13:0:0", 0)])]),
        (s("0000:81:00.0"), vec![host(11, vec![])]),
    ];
    let t = build(roots(), ctrls, hosts, vec![], vec![], &BuildArgs { no_empty: false });
    assert_eq!(controller_children(&t.pci_roots[0], &[0, 0]), vec![s("host12"), s("host13")]);
    assert_eq!(controller_children(&t.pci_roots[0], &[1, 0]), vec![s("nvme1"), s("nvme2")]);
    assert_eq!(controller_children(&t.pci_roots[1], &[0, 0]), vec![s("host11")]);
    assert_eq!(controller_children(&t.pci_roots[1], &[0, 1]), Vec::<String>::new());
    let fabrics: Vec<String> = t.fabrics_controllers.iter().map(|c| c.name.clone()).collect();
    assert_eq!(fabrics, vec![s("nvme3"), s("nvme9")]);
}

#[test]
fn no_empty_prunes_branches_and_hosts() {
    let ctrls = vec![nvme("nvme1", Some("0000:0c:00.0"))];
    let hosts = vec![
        (s("0000:09:00.0"), vec![host(12, vec![target("12:0:0", 1), target("12:0:1", 0)]), host(13, vec![target("13:0:0", 0)])]),
        (s("0000:81:00.0"), vec![host(11, vec![])]),
    ];
    let t = build(roots(), ctrls, hosts, vec![], vec![], &BuildArgs { no_empty: true });
    assert_eq!(t.pci_roots.len(), 1);
    assert_eq!(t.pci_roots[0].domain, "0000:00");
    assert_eq!(controller_children(&t.pci_roots[0], &[0, 0]), vec![s("host12")]);
    match &t.pci_roots[0].children[0] {
        PciNode::Bridge(b) => match &b.children[0] {
            PciNode::StorageController(c) => match &c.children[0] {
                ControllerChild::ScsiHost(h) => {
                    let a: Vec<String> = h.targets.iter().map(|x| x.address.clone()).collect();
                    assert_eq!(a, vec![s("12:0:0")]);
                },
                _ => panic!("expected a host"),
            },
            _ => panic!("expected a controller"),
        },
        _ => panic!("expected a bridge"),
    }
    let out = render(&t);
    assert!(out.starts_with("PCI 0000:00\n"));
    assert!(!out.contains("0000:80"));
    assert!(!out.contains("host13"));
    assert!(!out.contains("12:0:1\n"));
}
