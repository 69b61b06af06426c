use pathological::tree::{describe_pci_device, group_slaves_by_host, has_interesting_subsystems, multipath_summary, render};
use pathological::types::{
    BlockDevice, ControllerChild, DmDevice, DmSlave, FcHostInfo, IscsiHostInfo, IscsiSessionInfo, NvmeCtrl,
    NvmeNamespace, NvmeSubsystem, Partition, PciBridge, PciNode, PciRoot, SasHostInfo, SasPhyInfo, ScsiDevice,
    ScsiHost, ScsiTarget, StorageController, Topology, TransportInfo,
};

fn s(x: &str) -> String {
    x.to_string()
}

fn bdev(name: &str, size: u64, holders: &[&str], partitions: Vec<Partition>) -> BlockDevice {
    BlockDevice {
        name: s(name),
        dev_path: format!("/dev/{}", name),
        size_bytes: size,
        removable: false,
        read_only: false,
        wwn: None,
        partitions,
        holders: holders.iter().map(|h| s(h)).collect(),
    }
}

fn part(name: &str, number: u32, size: u64) -> Partition {
    Partition { name: s(name), number, size_bytes: size, holders: vec![] }
}

fn dev(hctl: &str, vendor: &str, model: &str, t: u32, tn: &str, sg: &str, b: Option<BlockDevice>) -> ScsiDevice {
    ScsiDevice {
        hctl: s(hctl),
        vendor: s(vendor),
        model: s(model),
        rev: s(""),
        scsi_type: t,
        scsi_type_name: s(tn),
        block_device: b,
        sg_device: Some(s(sg)),
    }
}

fn phy(name: &str, addr: &str, rate: &str) -> SasPhyInfo {
    SasPhyInfo {
        name: s(name),
        sas_address: s(addr),
        negotiated_linkrate: s(rate),
        initiator_protocols: None,
        target_protocols: None,
    }
}

fn controller(addr: &str, v: &str, d: &str, class: &str, driver: &str, children: Vec<ControllerChild>) -> PciNode {
    PciNode::StorageController(StorageController {
        address: s(addr),
        vendor_id: s(v),
        device_id: s(d),
        class_code: s(class),
        driver: Some(s(driver)),
        numa_node: Some(0),
        children,
    })
}

fn bridge(addr: &str, children: Vec<PciNode>) -> PciNode {
    PciNode::Bridge(PciBridge {
        address: s(addr),
        vendor_id: s("0x8086"),
        device_id: s("0x2f04"),
        driver: Some(s("pcieport")),
        children,
    })
}

fn slave(name: &str, hctl: &str, host: u32, driver: &str, pci: &str) -> DmSlave {
    DmSlave {
        device_name: s(name),
        hctl: Some(s(hctl)),
        host_num: Some(host),
        host_driver: Some(s(driver)),
        pci_address: Some(s(pci)),
    }
}

fn sample() -> Topology {
    let host12 = ScsiHost {
        host_num: 12,
        proc_name: Some(s("mpt2sas")),
        ata_port: None,
        transport: Some(TransportInfo::Sas(SasHostInfo {
            phys: vec![
                phy("phy-12:0", "0x5d4ae520995f8200", "Unknown"),
                phy("phy-12:2", "0x5d4ae520995f8200", "3.0 Gbit"),
            ],
        })),
        targets: vec![
            ScsiTarget {
                address: s("12:0:0"),
                devices: vec![dev(
                    "12:0:0:0",
                    "ATA",
                    "WDC WD10EFRX-68P",
                    0,
                    "disk",
                    "sg9",
                    Some(bdev("sdg", 1_000_204_886_016, &["dm-12"], vec![])),
                )],
            },
            ScsiTarget {
                address: s("12:0:16"),
                devices: vec![dev("12:0:16:0", "PROMISE", "3U-SAS-16-D BP", 13, "enclosure", "sg25", None)],
            },
        ],
    };
    let nvme1 = NvmeCtrl {
        name: s("nvme1"),
        model: s("INTEL SSDPEDMD400G4"),
        serial: s("CVFT5194002T400BGN"),
        firmware_rev: s("8DV101H0"),
        transport: s("pcie"),
        state: s("live"),
        pci_address: Some(s("0000:0c:00.0")),
        transport_address: None,
        subsys_name: Some(s("nvme-subsys1")),
        namespaces: vec![NvmeNamespace {
            name: s("nvme1n1"),
            nsid: Some(1),
            nguid: None,
            size_bytes: 400_088_457_216,
            block_device: Some(bdev(
                "nvme1n1",
                400_088_457_216,
                &[],
                vec![
                    part("nvme1n1p1", 1, 600 * 1024 * 1024),
                    part("nvme1n1p2", 2, 1024 * 1024 * 1024),
                    part("nvme1n1p3", 3, 180 * 1024 * 1024 * 1024),
                ],
            )),
        }],
    };
    let host10 = ScsiHost {
        host_num: 10,
        proc_name: Some(s("hpsa")),
        ata_port: None,
        transport: Some(TransportInfo::Sas(SasHostInfo {
            phys: vec![phy("phy-10:0", "0x5001438031742180", "Unknown")],
        })),
        targets: vec![ScsiTarget {
            address: s("10:1:0"),
            devices: vec![dev(
                "10:1:0:0",
                "HP",
                "LOGICAL VOLUME",
                0,
                "disk",
                "sg1",
                Some(bdev("sda", 300_000_000_000, &[], vec![])),
            )],
        }],
    };
    let root0 = PciRoot {
        domain: s("0000:00"),
        children: vec![
            bridge(
                "0000:00:01.0",
                vec![controller(
                    "0000:09:00.0",
                    "0x1000",
                    "0x0072",
                    "0x010700",
                    "mpt3sas",
                    vec![ControllerChild::ScsiHost(host12)],
                )],
            ),
            bridge(
                "0000:00:02.0",
                vec![controller(
                    "0000:0c:00.0",
                    "0x8086",
                    "0x0953",
                    "0x010802",
                    "nvme",
                    vec![ControllerChild::NvmeController(nvme1)],
                )],
            ),
            bridge(
                "0000:00:03.0",
                vec![controller(
                    "0000:03:00.0",
                    "0x103c",
                    "0x3239",
                    "0x010400",
                    "hpsa",
                    vec![ControllerChild::ScsiHost(host10)],
                )],
            ),
        ],
    };
    let root80 = PciRoot {
        domain: s("0000:80"),
        children: vec![bridge(
            "0000:80:02.0",
            vec![controller(
                "0000:81:00.0",
                "0x1000",
                "0x005b",
                "0x010400",
                "megaraid_sas",
                vec![ControllerChild::ScsiHost(ScsiHost {
                    host_num: 11,
                    proc_name: Some(s("megaraid_sas")),
                    ata_port: None,
                    transport: None,
                    targets: vec![ScsiTarget {
                        address: s("11:0:8"),
                        devices: vec![dev("11:0:8:0", "PROMISE", "3U-SAS-16-D BP", 13, "enclosure", "sg2", None)],
                    }],
                })],
            )],
        )],
    };
    let mpathm = DmDevice {
        name: s("dm-0"),
        dm_name: s("mpathm"),
        dm_uuid: s("mpath-35000c500a1b2c3d4"),
        dm_type: s("Multipath"),
        size_bytes: 1_000_204_886_016,
        slaves: vec![
            slave("sdh", "12:0:1:0", 12, "mpt2sas", "0000:09:00.0"),
            slave("sdx", "12:0:18:0", 12, "mpt2sas", "0000:09:00.0"),
        ],
        partitions: vec![],
    };
    let mpathai = DmDevice {
        name: s("dm-5"),
        dm_name: s("mpathai"),
        dm_uuid: s("mpath-35000c500a1b2c3d5"),
        dm_type: s("Multipath"),
        size_bytes: 2_000_398_934_016,
        slaves: vec![slave("sdd", "11:0:26:0", 11, "megaraid_sas", "0000:81:00.0")],
        partitions: vec![],
    };
    Topology {
        pci_roots: vec![root0, root80],
        fabrics_controllers: vec![],
        nvme_subsystems: vec![],
        dm_devices: vec![mpathm, mpathai],
    }
}

#[test]
fn renders_the_readme_example() {
    let expected = "\
PCI 0000:00
├── [0000:00:01.0] bridge (driver: pcieport)
│   └── [0000:09:00.0] SAS controller [0x1000 0x0072] (driver: mpt3sas)
│       └── host12 (mpt2sas, SAS)
│           phy-12:0: addr=0x5d4ae520995f8200  rate=Unknown
│           phy-12:2: addr=0x5d4ae520995f8200  rate=3.0 Gbit
│           ├── target 12:0:0
│           │   └── [12:0:0:0] ATA WDC WD10EFRX-68P (disk, sg9)
│           │       └── sdg (931.5 GiB)
│           │           └── → dm-12
│           └── target 12:0:16
│               └── [12:0:16:0] PROMISE 3U-SAS-16-D BP (enclosure, sg25)
├── [0000:00:02.0] bridge (driver: pcieport)
│   └── [0000:0c:00.0] NVMe controller [0x8086 0x0953] (driver: nvme)
│       └── nvme1: INTEL SSDPEDMD400G4 (S/N: CVFT5194002T400BGN, FW: 8DV101H0)
│           └── nvme1n1 (372.6 GiB)
│               ├── nvme1n1p1 (600.0 MiB)
│               ├── nvme1n1p2 (1.0 GiB)
│               └── nvme1n1p3 (180.0 GiB)
└── [0000:00:03.0] bridge (driver: pcieport)
    └── [0000:03:00.0] RAID controller [0x103c 0x3239] (driver: hpsa)
        └── host10 (hpsa, SAS)
            phy-10:0: addr=0x5001438031742180  rate=Unknown
            └── target 10:1:0
                └── [10:1:0:0] HP LOGICAL VOLUME (disk, sg1)
                    └── sda (279.4 GiB)

PCI 0000:80
└── [0000:80:02.0] bridge (driver: pcieport)
    └── [0000:81:00.0] RAID controller [0x1000 0x005b] (driver: megaraid_sas)
        └── host11 (megaraid_sas)
            └── target 11:0:8
                └── [11:0:8:0] PROMISE 3U-SAS-16-D BP (enclosure, sg2)

Device Mapper
├── mpathm (Multipath, dm-0, 931.5 GiB, 2 paths via 1 HBA, multi-port)
│   └── host12 (mpt2sas) [0000:09:00.0]
│       ├── sdh [12:0:1:0]
│       └── sdx [12:0:18:0]
└── mpathai (Multipath, dm-5, 1.8 TiB)
    └── host11 (megaraid_sas) [0000:81:00.0]
        └── sdd [11:0:26:0]
";
    assert_eq!(render(&sample()), expected);
}

#[test]
fn empty_topology_renders_nothing() {
    let t = Topology { pci_roots: vec![], fabrics_controllers: vec![], nvme_subsystems: vec![], dm_devices: vec![] };
    assert_eq!(render(&t), "");
}

#[test]
fn fabrics_and_multipath_sections() {
    let ctrl = NvmeCtrl {
        name: s("nvme4"),
        model: s("Linux"),
        serial: s(""),
        firmware_rev: s("6.1"),
        transport: s("tcp"),
        state: s("live"),
        pci_address: None,
        transport_address: Some(s("traddr=10.0.0.1,trsvcid=4420")),
        subsys_name: None,
        namespaces: vec![NvmeNamespace {
            name: s("nvme4n1"),
            nsid: Some(1),
            nguid: None,
            size_bytes: 2048,
            block_device: None,
        }],
    };
    let sub = NvmeSubsystem {
        name: s("nvme-subsys4"),
        nqn: Some(s("nqn.x")),
        model: s("Linux"),
        serial: s("abc"),
        controllers: vec![s("nvme4"), s("nvme5")],
        namespaces: vec![NvmeNamespace {
            name: s("nvme4n1"),
            nsid: Some(1),
            nguid: Some(s("1234")),
            size_bytes: 2048,
            block_device: None,
        }],
    };
    let t = Topology { pci_roots: vec![], fabrics_controllers: vec![ctrl], nvme_subsystems: vec![sub], dm_devices: vec![] };
    let expected = "\
NVMe Fabrics
└── nvme4: Linux
    transport: tcp  addr: traddr=10.0.0.1,trsvcid=4420
    └── nvme4n1 (2.0 KiB)

NVMe Multipath
└── nvme-subsys4: Linux (S/N: abc) [nqn.x]
    ├── controllers: nvme4, nvme5
    └── nvme4n1 (2.0 KiB) [nguid: 1234]
";
    assert_eq!(render(&t), expected);
}

#[test]
fn fc_and_iscsi_transport_lines() {
    let fc = ScsiHost {
        host_num: 3,
        proc_name: Some(s("qla2xxx")),
        ata_port: None,
        transport: Some(TransportInfo::Fc(FcHostInfo {
            port_name: s("0x21"),
            node_name: s("0x20"),
            port_state: s("Online"),
            port_type: s("NPort"),
            speed: s("8 Gbit"),
            fabric_name: Some(s("0x10")),
            supported_speeds: None,
        })),
        targets: vec![],
    };
    let iscsi = ScsiHost {
        host_num: 4,
        proc_name: None,
        ata_port: Some(s("ata2")),
        transport: Some(TransportInfo::Iscsi(IscsiHostInfo {
            sessions: vec![
                IscsiSessionInfo {
                    target_name: s("iqn.a"),
                    state: s("LOGGED_IN"),
                    target_address: Some(s("10.0.0.5")),
                    target_port: Some(3260),
                },
                IscsiSessionInfo {
                    target_name: s("iqn.b"),
                    state: s(""),
                    target_address: Some(s("10.0.0.6")),
                    target_port: None,
                },
            ],
        })),
        targets: vec![],
    };
    let root = PciRoot {
        domain: s("0000:00"),
        children: vec![controller(
            "0000:05:00.0",
            "0x1077",
            "0x2532",
            "0x0c0400",
            "qla2xxx",
            vec![ControllerChild::ScsiHost(fc), ControllerChild::ScsiHost(iscsi)],
        )],
    };
    let t = Topology { pci_roots: vec![root], fabrics_controllers: vec![], nvme_subsystems: vec![], dm_devices: vec![] };
    let expected = "\
PCI 0000:00
└── [0000:05:00.0] device [0x1077 0x2532] (driver: qla2xxx)
    ├── host3 (qla2xxx, FC)
    │   WWPN: 0x21  WWNN: 0x20
    │   state: Online  speed: 8 Gbit  fabric: 0x10
    └── host4 (ata2, iSCSI)
        session: iqn.a (LOGGED_IN)
        portal: 10.0.0.5:3260
        session: iqn.b ()
        portal: 10.0.0.6
";
    assert_eq!(render(&t), expected);
}

#[test]
fn pci_labels() {
    assert_eq!(describe_pci_device("0x1b4b", "0x9230", "0x010601"), "SATA controller [0x1b4b 0x9230]");
    assert_eq!(describe_pci_device("0x1", "0x2", "0x010000"), "SCSI controller [0x1 0x2]");
    assert_eq!(describe_pci_device("0x1", "0x2", "0x010180"), "IDE controller [0x1 0x2]");
    assert_eq!(describe_pci_device("0x1", "0x2", "0x010200"), "Floppy controller [0x1 0x2]");
    assert_eq!(describe_pci_device("0x1", "0x2", "0x010520"), "ATA controller [0x1 0x2]");
    assert_eq!(describe_pci_device("0x1", "0x2", "0x010900"), "storage controller [0x1 0x2]");
    assert_eq!(describe_pci_device("0x1", "0x2", "0x060400"), "device [0x1 0x2]");
}

#[test]
fn multipath_summaries() {
    let a = slave("sda", "1:0:0:0", 1, "d", "p");
    let b = slave("sdb", "2:0:0:0", 2, "d", "q");
    let c = slave("sdc", "1:0:1:0", 1, "d", "p");
    assert_eq!(multipath_summary(&vec![]), "");
    assert_eq!(multipath_summary(&vec![slave("sda", "1:0:0:0", 1, "d", "p")]), "");
    assert_eq!(multipath_summary(&vec![a, b, c]), ", 3 paths via 2 HBAs");
    let unknown = DmSlave { device_name: s("sdz"), hctl: None, host_num: None, host_driver: None, pci_address: None };
    let unknown2 = DmSlave { device_name: s("sdy"), hctl: None, host_num: None, host_driver: None, pci_address: None };
    assert_eq!(multipath_summary(&vec![unknown, unknown2]), "");
}

#[test]
fn slaves_grouped_by_host() {
    let v = vec![
        slave("sda", "1:0:0:0", 1, "d", "p"),
        slave("sdb", "2:0:0:0", 2, "d", "q"),
        DmSlave { device_name: s("sdz"), hctl: None, host_num: None, host_driver: None, pci_address: None },
        slave("sdc", "1:0:1:0", 1, "d", "p"),
        slave("sdd", "1:0:2:0", 1, "e", "p"),
    ];
    let g = group_slaves_by_host(&v);
    assert_eq!(g.len(), 4);
    let names: Vec<Vec<String>> = g.iter().map(|x| x.slaves.iter().map(|y| y.device_name.clone()).collect()).collect();
    assert_eq!(names, vec![vec![s("sda"), s("sdc")], vec![s("sdb")], vec![s("sdz")], vec![s("sdd")]]);
    assert_eq!(g[0].host_num, Some(1));
    assert_eq!(g[2].host_num, None);
    assert_eq!(g[3].host_driver, Some(s("e")));
}

#[test]
fn dm_without_host_and_with_partitions() {
    let dm = DmDevice {
        name: s("dm-3"),
        dm_name: s("vg-lv"),
        dm_uuid: s("LVM-x"),
        dm_type: s("LVM"),
        size_bytes: 1024,
        slaves: vec![DmSlave { device_name: s("sdz"), hctl: None, host_num: None, host_driver: None, pci_address: None }],
        partitions: vec![part("dm-3p1", 1, 512)],
    };
    let t = Topology { pci_roots: vec![], fabrics_controllers: vec![], nvme_subsystems: vec![], dm_devices: vec![dm] };
    let expected = "\
Device Mapper
└── vg-lv (LVM, dm-3, 1.0 KiB)
    ├── ← sdz
    └── dm-3p1 (512 B)
";
    assert_eq!(render(&t), expected);
}

#[test]
fn multipath_section_for_any_subsystem() {
    let sub = NvmeSubsystem {
        name: s("nvme-subsys0"),
        nqn: None,
        model: s("M"),
        serial: s("S"),
        controllers: vec![s("nvme0"), s("nvme1")],
        namespaces: vec![],
    };
    let t = Topology { pci_roots: vec![], fabrics_controllers: vec![], nvme_subsystems: vec![sub], dm_devices: vec![] };
    assert_eq!(render(&t), "NVMe Multipath\n└── nvme-subsys0: M (S/N: S)\n    └── controllers: nvme0, nvme1\n");
    let one = NvmeSubsystem {
        name: s("nvme-subsys1"),
        nqn: None,
        model: s("M"),
        serial: s("S"),
        controllers: vec![s("nvme1")],
        namespaces: vec![],
    };
    let subs = vec![one];
    assert!(has_interesting_subsystems(&subs));
    assert!(!has_interesting_subsystems(&vec![]));
}
