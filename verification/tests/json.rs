use pathological::json::{json_depth_fits, to_json, JsonWriter};
use pathological::types::{
    BlockDevice, ControllerChild, DmDevice, DmSlave, FcHostInfo, IscsiHostInfo, IscsiSessionInfo, NvmeCtrl,
    NvmeNamespace, NvmeSubsystem, Partition, PciBridge, PciNode, PciRoot, SasHostInfo, SasPhyInfo, ScsiDevice,
    ScsiHost, ScsiTarget, StorageController, Topology, TransportInfo,
};
use serde_json::Value;

fn s(x: &str) -> String {
    x.to_string()
}

fn obj(fields: Vec<(&str, Value)>) -> Value {
    let mut m = serde_json::Map::new();
    for (k, v) in fields {
        m.insert(k.to_string(), v);
    }
    Value::Object(m)
}

fn vs(x: &str) -> Value {
    Value::String(x.to_string())
}

fn vopt(x: &Option<String>) -> Value {
    match x {
        Some(v) => vs(v),
        None => Value::Null,
    }
}

fn vstrs(v: &[String]) -> Value {
    Value::Array(v.iter().map(|x| vs(x)).collect())
}

fn v_partition(p: &Partition) -> Value {
    obj(vec![
        ("name", vs(&p.name)),
        ("number", Value::from(p.number)),
        ("size_bytes", Value::from(p.size_bytes)),
        ("holders", vstrs(&p.holders)),
    ])
}

fn v_block(b: &BlockDevice) -> Value {
    obj(vec![
        ("name", vs(&b.name)),
        ("dev_path", vs(&b.dev_path)),
        ("size_bytes", Value::from(b.size_bytes)),
        ("removable", Value::Bool(b.removable)),
        ("read_only", Value::Bool(b.read_only)),
        ("wwn", vopt(&b.wwn)),
        ("partitions", Value::Array(b.partitions.iter().map(v_partition).collect())),
        ("holders", vstrs(&b.holders)),
    ])
}

fn v_opt_block(b: &Option<BlockDevice>) -> Value {
    match b {
        Some(b) => v_block(b),
        None => Value::Null,
    }
}

fn v_namespace(n: &NvmeNamespace) -> Value {
    obj(vec![
        ("name", vs(&n.name)),
        ("nsid", n.nsid.map(Value::from).unwrap_or(Value::Null)),
        ("nguid", vopt(&n.nguid)),
        ("size_bytes", Value::from(n.size_bytes)),
        ("block_device", v_opt_block(&n.block_device)),
    ])
}

fn ctrl_fields(n: &NvmeCtrl) -> Vec<(&'static str, Value)> {
    vec![
        ("name", vs(&n.name)),
        ("model", vs(&n.model)),
        ("serial", vs(&n.serial)),
        ("firmware_rev", vs(&n.firmware_rev)),
        ("transport", vs(&n.transport)),
        ("state", vs(&n.state)),
        ("pci_address", vopt(&n.pci_address)),
        ("transport_address", vopt(&n.transport_address)),
        ("subsys_name", vopt(&n.subsys_name)),
        ("namespaces", Value::Array(n.namespaces.iter().map(v_namespace).collect())),
    ]
}

fn v_device(d: &ScsiDevice) -> Value {
    obj(vec![
        ("hctl", vs(&d.hctl)),
        ("vendor", vs(&d.vendor)),
        ("model", vs(&d.model)),
        ("rev", vs(&d.rev)),
        ("scsi_type", Value::from(d.scsi_type)),
        ("scsi_type_name", vs(&d.scsi_type_name)),
        ("block_device", v_opt_block(&d.block_device)),
        ("sg_device", vopt(&d.sg_device)),
    ])
}

fn v_transport(t: &TransportInfo) -> Value {
    match t {
        TransportInfo::Fc(fc) => obj(vec![
            ("transport_type", vs("Fc")),
            ("port_name", vs(&fc.port_name)),
            ("node_name", vs(&fc.node_name)),
            ("port_state", vs(&fc.port_state)),
            ("port_type", vs(&fc.port_type)),
            ("speed", vs(&fc.speed)),
            ("fabric_name", vopt(&fc.fabric_name)),
            ("supported_speeds", vopt(&fc.supported_speeds)),
        ]),
        TransportInfo::Sas(sas) => obj(vec![
            ("transport_type", vs("Sas")),
            (
                "phys",
                Value::Array(
                    sas.phys
                        .iter()
                        .map(|p| {
                            obj(vec![
                                ("name", vs(&p.name)),
                                ("sas_address", vs(&p.sas_address)),
                                ("negotiated_linkrate", vs(&p.negotiated_linkrate)),
                                ("initiator_protocols", vopt(&p.initiator_protocols)),
                                ("target_protocols", vopt(&p.target_protocols)),
                            ])
                        })
                        .collect(),
                ),
            ),
        ]),
        TransportInfo::Iscsi(iscsi) => obj(vec![
            ("transport_type", vs("Iscsi")),
            (
                "sessions",
                Value::Array(
                    iscsi
                        .sessions
                        .iter()
                        .map(|x| {
                            obj(vec![
                                ("target_name", vs(&x.target_name)),
                                ("state", vs(&x.state)),
                                ("target_address", vopt(&x.target_address)),
                                ("target_port", x.target_port.map(Value::from).unwrap_or(Value::Null)),
                            ])
                        })
                        .collect(),
                ),
            ),
        ]),
    }
}

fn v_child(c: &ControllerChild) -> Value {
    match c {
        ControllerChild::ScsiHost(h) => obj(vec![
            ("type", vs("ScsiHost")),
            ("host_num", Value::from(h.host_num)),
            ("proc_name", vopt(&h.proc_name)),
            ("ata_port", vopt(&h.ata_port)),
            ("transport", h.transport.as_ref().map(v_transport).unwrap_or(Value::Null)),
            (
                "targets",
                Value::Array(
                    h.targets
                        .iter()
                        .map(|t| {
                            obj(vec![
                                ("address", vs(&t.address)),
                                ("devices", Value::Array(t.devices.iter().map(v_device).collect())),
                            ])
                        })
                        .collect(),
                ),
            ),
        ]),
        ControllerChild::NvmeController(n) => {
            let mut f = vec![("type", vs("NvmeController"))];
            f.extend(ctrl_fields(n));
            obj(f)
        },
    }
}

fn v_node(n: &PciNode) -> Value {
    match n {
        PciNode::Bridge(b) => obj(vec![
            ("type", vs("Bridge")),
            ("address", vs(&b.address)),
            ("vendor_id", vs(&b.vendor_id)),
            ("device_id", vs(&b.device_id)),
            ("driver", vopt(&b.driver)),
            ("children", Value::Array(b.children.iter().map(v_node).collect())),
        ]),
        PciNode::StorageController(c) => obj(vec![
            ("type", vs("StorageController")),
            ("address", vs(&c.address)),
            ("vendor_id", vs(&c.vendor_id)),
            ("device_id", vs(&c.device_id)),
            ("class_code", vs(&c.class_code)),
            ("driver", vopt(&c.driver)),
            ("numa_node", c.numa_node.map(Value::from).unwrap_or(Value::Null)),
            ("children", Value::Array(c.children.iter().map(v_child).collect())),
        ]),
    }
}

fn v_topology(t: &Topology) -> Value {
    obj(vec![
        (
            "pci_roots",
            Value::Array(
                t.pci_roots
                    .iter()
                    .map(|r| obj(vec![("domain", vs(&r.domain)), ("children", Value::Array(r.children.iter().map(v_node).collect()))]))
                    .collect(),
            ),
        ),
        ("fabrics_controllers", Value::Array(t.fabrics_controllers.iter().map(|c| obj(ctrl_fields(c))).collect())),
        (
            "nvme_subsystems",
            Value::Array(
                t.nvme_subsystems
                    .iter()
                    .map(|x| {
                        obj(vec![
                            ("name", vs(&x.name)),
                            ("nqn", vopt(&x.nqn)),
                            ("model", vs(&x.model)),
                            ("serial", vs(&x.serial)),
                            ("controllers", vstrs(&x.controllers)),
                            ("namespaces", Value::Array(x.namespaces.iter().map(v_namespace).collect())),
                        ])
                    })
                    .collect(),
            ),
        ),
        (
            "dm_devices",
            Value::Array(
                t.dm_devices
                    .iter()
                    .map(|d| {
                        obj(vec![
                            ("name", vs(&d.name)),
                            ("dm_name", vs(&d.dm_name)),
                            ("dm_uuid", vs(&d.dm_uuid)),
                            ("dm_type", vs(&d.dm_type)),
                            ("size_bytes", Value::from(d.size_bytes)),
                            (
                                "slaves",
                                Value::Array(
                                    d.slaves
                                        .iter()
                                        .map(|x| {
                                            obj(vec![
                                                ("device_name", vs(&x.device_name)),
                                                ("hctl", vopt(&x.hctl)),
                                                ("host_num", x.host_num.map(Value::from).unwrap_or(Value::Null)),
                                                ("host_driver", vopt(&x.host_driver)),
                                                ("pci_address", vopt(&x.pci_address)),
                                            ])
                                        })
                                        .collect(),
                                ),
                            ),
                            ("partitions", Value::Array(d.partitions.iter().map(v_partition).collect())),
                        ])
                    })
                    .collect(),
            ),
        ),
    ])
}

fn bdev(name: &str, holders: &[&str]) -> BlockDevice {
    BlockDevice {
        name: s(name),
        dev_path: format!("/dev/{}", name),
        size_bytes: 1_000_204_886_016,
        removable: false,
        read_only: true,
        wwn: Some(s("naa.5000c500a1b2c3d4")),
        partitions: vec![Partition { name: format!("{}1", name), number: 1, size_bytes: 512, holders: vec![] }],
        holders: holders.iter().map(|h| s(h)).collect(),
    }
}

fn namespace(name: &str) -> NvmeNamespace {
    NvmeNamespace { name: s(name), nsid: Some(1), nguid: Some(s("abc")), size_bytes: 4096, block_device: Some(bdev(name, &[])) }
}

fn ctrl(name: &str, pci: Option<&str>) -> NvmeCtrl {
    NvmeCtrl {
        name: s(name),
        model: s("Model \"X\"\tQ\\1\u{8}\u{c}"),
        serial: s("S/N\u{1}\u{1f}"),
        firmware_rev: s("1.0"),
        transport: s("pcie"),
        state: s("live"),
        pci_address: pci.map(s),
        transport_address: None,
        subsys_name: None,
        namespaces: vec![namespace(&format!("{}n1", name))],
    }
}

fn device(hctl: &str) -> ScsiDevice {
    ScsiDevice {
        hctl: s(hctl),
        vendor: s("ATA"),
        model: s("WDC\r\nWD10"),
        rev: s("0A"),
        scsi_type: 0,
        scsi_type_name: s("disk"),
        block_device: Some(bdev("sdg", &["dm-0", "dm-1"])),
        sg_device: None,
    }
}

/// A topology in which no list of objects is empty.
fn full_topology() -> Topology {
    let sas = ScsiHost {
        host_num: 12,
        proc_name: Some(s("mpt2sas")),
        ata_port: None,
        transport: Some(TransportInfo::Sas(SasHostInfo {
            phys: vec![SasPhyInfo {
                name: s("phy-12:0"),
                sas_address: s("0x5d4a"),
                negotiated_linkrate: s("3.0 Gbit"),
                initiator_protocols: Some(s("ssp,stp,smp")),
                target_protocols: None,
            }],
        })),
        targets: vec![ScsiTarget { address: s("12:0:0"), devices: vec![device("12:0:0:0"), device("12:0:0:1")] }],
    };
    let fc = ScsiHost {
        host_num: 3,
        proc_name: None,
        ata_port: Some(s("ata3")),
        transport: Some(TransportInfo::Fc(FcHostInfo {
            port_name: s("0x21"),
            node_name: s("0x20"),
            port_state: s("Online"),
            port_type: s("NPort"),
            speed: s("8 Gbit"),
            fabric_name: None,
            supported_speeds: Some(s("4 Gbit")),
        })),
        targets: vec![ScsiTarget { address: s("3:0:0"), devices: vec![device("3:0:0:0")] }],
    };
    let iscsi = ScsiHost {
        host_num: 5,
        proc_name: Some(s("iscsi_tcp")),
        ata_port: None,
        transport: Some(TransportInfo::Iscsi(IscsiHostInfo {
            sessions: vec![IscsiSessionInfo {
                target_name: s("iqn.2003-01.org:t"),
                state: s("LOGGED_IN"),
                target_address: Some(s("10.0.0.5")),
                target_port: Some(3260),
            }],
        })),
        targets: vec![ScsiTarget { address: s("5:0:0"), devices: vec![device("5:0:0:0")] }],
    };
    let controller = StorageController {
        address: s("0000:09:00.0"),
        vendor_id: s("0x1000"),
        device_id: s("0x0072"),
        class_code: s("0x010700"),
        driver: Some(s("mpt3sas")),
        numa_node: Some(-1),
        children: vec![
            ControllerChild::ScsiHost(sas),
            ControllerChild::NvmeController(ctrl("nvme0", Some("0000:09:00.0"))),
            ControllerChild::ScsiHost(fc),
            ControllerChild::ScsiHost(iscsi),
        ],
    };
    let bridge = PciBridge {
        address: s("0000:00:01.0"),
        vendor_id: s("0x8086"),
        device_id: s("0x2f04"),
        driver: None,
        children: vec![PciNode::StorageController(controller)],
    };
    let root = PciRoot { domain: s("0000:00"), children: vec![PciNode::Bridge(bridge)] };
    let sub = NvmeSubsystem {
        name: s("nvme-subsys0"),
        nqn: None,
        model: s("INTEL"),
        serial: s("X"),
        controllers: vec![],
        namespaces: vec![namespace("nvme0n1")],
    };
    let dm = DmDevice {
        name: s("dm-0"),
        dm_name: s("mpatha"),
        dm_uuid: s("mpath-3600"),
        dm_type: s("Multipath"),
        size_bytes: 42,
        slaves: vec![
            DmSlave {
                device_name: s("sdg"),
                hctl: Some(s("12:0:0:0")),
                host_num: Some(12),
                host_driver: Some(s("mpt2sas")),
                pci_address: Some(s("0000:09:00.0")),
            },
            DmSlave { device_name: s("sdz"), hctl: None, host_num: None, host_driver: None, pci_address: None },
        ],
        partitions: vec![Partition { name: s("dm-0p1"), number: 1, size_bytes: 21, holders: vec![s("dm-1")] }],
    };
    Topology {
        pci_roots: vec![second_root(&root), root],
        fabrics_controllers: vec![ctrl("nvme9", None)],
        nvme_subsystems: vec![sub],
        dm_devices: vec![dm],
    }
}

fn clone_node(n: &PciNode) -> PciNode {
    match n {
        PciNode::Bridge(b) => PciNode::Bridge(PciBridge {
            address: b.address.clone(),
            vendor_id: b.vendor_id.clone(),
            device_id: b.device_id.clone(),
            driver: b.driver.clone(),
            children: b.children.iter().map(clone_node).collect(),
        }),
        PciNode::StorageController(c) => PciNode::StorageController(StorageController {
            address: c.address.clone(),
            vendor_id: c.vendor_id.clone(),
            device_id: c.device_id.clone(),
            class_code: c.class_code.clone(),
            driver: c.driver.clone(),
            numa_node: c.numa_node,
            children: c
                .children
                .iter()
                .map(|x| match x {
                    ControllerChild::ScsiHost(h) => ControllerChild::ScsiHost(h.clone()),
                    ControllerChild::NvmeController(n) => ControllerChild::NvmeController(n.clone()),
                })
                .collect(),
        }),
    }
}

fn second_root(r: &PciRoot) -> PciRoot {
    PciRoot { domain: s("0000:80"), children: r.children.iter().map(clone_node).collect() }
}

#[test]
fn same_text_as_serde_json_pretty() {
    let t = full_topology();
    let expected = serde_json::to_string_pretty(&v_topology(&t)).unwrap();
    assert_eq!(to_json(&t), expected);
}

#[test]
fn empty_topology() {
    let t = Topology { pci_roots: vec![], fabrics_controllers: vec![], nvme_subsystems: vec![], dm_devices: vec![] };
    let expected = "{\n  \"pci_roots\": [],\n  \"fabrics_controllers\": [],\n  \"nvme_subsystems\": [],\n  \"dm_devices\": []\n}";
    assert_eq!(to_json(&t), expected);
    assert_eq!(to_json(&t), serde_json::to_string_pretty(&v_topology(&t)).unwrap());
}

#[test]
fn empty_lists_as_serde_json_writes_them() {
    let mut t = full_topology();
    t.fabrics_controllers[0].namespaces.clear();
    t.dm_devices[0].slaves.clear();
    t.dm_devices[0].partitions.clear();
    t.nvme_subsystems[0].namespaces.clear();
    t.pci_roots[0].children.clear();
    let expected = serde_json::to_string_pretty(&v_topology(&t)).unwrap();
    assert_eq!(to_json(&t), expected);
}

#[test]
fn strings_escaped() {
    let mut w = JsonWriter::new();
    w.str_val("a\"b\\c\nd\re\tf\u{0}\u{8}\u{c}\u{1f} \u{7f}é→");
    assert_eq!(w.buf, "\"a\\\"b\\\\c\\nd\\re\\tf\\u0000\\b\\f\\u001f \u{7f}é→\"");
    assert_eq!(w.buf, serde_json::to_string(&Value::String(s("a\"b\\c\nd\re\tf\u{0}\u{8}\u{c}\u{1f} \u{7f}é→"))).unwrap());
    let back: String = serde_json::from_str(&w.buf).unwrap();
    assert_eq!(back, "a\"b\\c\nd\re\tf\u{0}\u{8}\u{c}\u{1f} \u{7f}é→");
}

#[test]
fn fields_and_nesting() {
    let mut w = JsonWriter::new();
    w.begin_obj();
    w.u32_field("a", 7, true);
    w.opt_i32("b", Some(-3), true);
    w.opt_u32("c", None, true);
    w.bool_field("d", false, true);
    w.string_array("e", &vec![s("x"), s("y")], true);
    w.string_array("f", &vec![], false);
    w.end_obj();
    assert_eq!(w.buf, "{\n  \"a\": 7,\n  \"b\": -3,\n  \"c\": null,\n  \"d\": false,\n  \"e\": [\n    \"x\",\n    \"y\"\n  ],\n  \"f\": []\n}");
}

#[test]
fn decodes_back_to_the_topology() {
    let mut t = full_topology();
    t.dm_devices[0].name = s("dm \"0\"\\\n\u{8}\u{1}");
    let text = to_json(&t);
    let back: Value = serde_json::from_str(&text).unwrap();
    assert_eq!(back, v_topology(&t));
    let keys: Vec<&String> = back.as_object().unwrap().keys().collect();
    assert_eq!(keys, vec!["pci_roots", "fabrics_controllers", "nvme_subsystems", "dm_devices"]);
    assert_eq!(back["pci_roots"].as_array().unwrap().len(), t.pci_roots.len());
    assert_eq!(back["dm_devices"][0]["name"].as_str().unwrap(), "dm \"0\"\\\n\u{8}\u{1}");
}

#[test]
fn ordinary_topologies_fit_the_indentation() {
    assert!(json_depth_fits(&full_topology()));
    let t = Topology { pci_roots: vec![], fabrics_controllers: vec![], nvme_subsystems: vec![], dm_devices: vec![] };
    assert!(json_depth_fits(&t));
}
