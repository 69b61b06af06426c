use pathological::scsi::{
    discover, find_ata_port, find_iscsi_connection, find_pci_parent, FcHostEntry, IscsiConnectionEntry,
    IscsiSessionEntry, SasPhyEntry, ScsiDeviceEntry, ScsiHostEntry, ScsiSysfs,
};
use pathological::types::{BlockDevice, TransportInfo};

fn s(x: &str) -> String {
    x.to_string()
}

fn host(name: &str, canonical: Option<&str>, proc_name: Option<&str>) -> ScsiHostEntry {
    ScsiHostEntry { name: s(name), canonical: canonical.map(s), proc_name: proc_name.map(s) }
}

fn device(name: &str, vendor: &str, model: &str, t: &str, block: &[&str], sg: &[&str]) -> ScsiDeviceEntry {
    ScsiDeviceEntry {
        name: s(name),
        canonical: Some(format!("/sys/devices/x/{}", name)),
        vendor: Some(s(vendor)),
        model: Some(s(model)),
        rev: None,
        scsi_type: Some(s(t)),
        block: block.iter().map(|b| s(b)).collect(),
        scsi_generic: sg.iter().map(|b| s(b)).collect(),
    }
}

fn bdev(name: &str, size: u64) -> BlockDevice {
    BlockDevice {
        name: s(name),
        dev_path: format!("/dev/{}", name),
        size_bytes: size,
        removable: false,
        read_only: false,
        wwn: None,
        partitions: Vec::new(),
        holders: Vec::new(),
    }
}

fn empty() -> ScsiSysfs {
    ScsiSysfs {
        hosts: vec![],
        fc_hosts: vec![],
        sas_hosts: vec![],
        sas_phys: vec![],
        iscsi_hosts: vec![],
        iscsi_sessions: vec![],
        iscsi_connections: vec![],
        devices: vec![],
    }
}

fn phy(name: &str, addr: Option<&str>, rate: Option<&str>) -> SasPhyEntry {
    SasPhyEntry {
        name: s(name),
        sas_address: addr.map(s),
        negotiated_linkrate: rate.map(s),
        initiator_protocols: None,
        target_protocols: None,
    }
}

#[test]
fn ata_port_and_pci_parent() {
    let p = "/sys/devices/pci0000:00/0000:00:17.0/ata3/host2/scsi_host/host2";
    assert_eq!(find_ata_port(p), Some(s("ata3")));
    assert_eq!(find_pci_parent(p), Some(s("0000:00:17.0")));
    assert_eq!(find_ata_port("/sys/devices/ata/host2"), None);
    assert_eq!(find_ata_port("/sys/devices/ata3x/host2"), None);
    assert_eq!(find_pci_parent("/sys/devices/platform/host0"), None);
}

#[test]
fn sas_host_with_targets() {
    let mut snap = empty();
    let hp = "/sys/devices/pci0000:00/0000:00:01.0/0000:09:00.0/host12/scsi_host/host12";
    snap.hosts = vec![host("host12", Some(hp), Some("mpt2sas")), host("host2", None, Some("ahci")), host("hostX", Some(hp), None)];
    snap.sas_hosts = vec![s("host12")];
    snap.sas_phys = vec![
        phy("phy-12:7", Some("0x5d4ae520995f8200"), Some("3.0 Gbit")),
        phy("phy-12:0", Some("0x5d4ae520995f8200"), None),
        phy("phy-12:0:3", Some("0x1"), Some("6.0 Gbit")),
        phy("phy-12:2", None, Some("3.0 Gbit")),
        phy("phy-1:0", Some("0x2"), None),
    ];
    snap.devices = vec![
        device("12:0:14:0", "WD", "WD4001FYYG-01SL3", "0", &["sdu"], &["sg23"]),
        device("12:0:1:0", "ATA", "WDC WD10EFRX-68P", "0", &["sdh"], &["sg10"]),
        device("12:0:16:0", "PROMISE", "3U-SAS-16-D BP", "13", &[], &["sg25"]),
        device("12:0:0:0", "ATA", "WDC WD10EFRX-68P", "0", &["sdg"], &["sg9"]),
        device("host12", "", "", "0", &[], &[]),
        device("target12:0:0", "", "", "0", &[], &[]),
        device("12:0:0", "", "", "0", &[], &[]),
    ];
    let blocks = vec![bdev("sdg", 1_000_204_886_016), bdev("sdh", 1), bdev("sdu", 2)];
    let (groups, addrs) = discover(&blocks, snap);
    assert_eq!(addrs, vec![s("0000:09:00.0")]);
    assert_eq!(groups.len(), 1);
    assert_eq!(groups[0].0, "0000:09:00.0");
    let hosts = &groups[0].1;
    assert_eq!(hosts.len(), 1);
    let h = &hosts[0];
    assert_eq!(h.host_num, 12);
    assert_eq!(h.proc_name, Some(s("mpt2sas")));
    assert_eq!(h.ata_port, None);
    match &h.transport {
        Some(TransportInfo::Sas(sas)) => {
            let names: Vec<String> = sas.phys.iter().map(|p| p.name.clone()).collect();
            assert_eq!(names, vec![s("phy-12:0"), s("phy-12:7")]);
            assert_eq!(sas.phys[0].negotiated_linkrate, "");
            assert_eq!(sas.phys[1].negotiated_linkrate, "3.0 Gbit");
        },
        _ => panic!("expected a SAS transport"),
    }
    let addrs: Vec<String> = h.targets.iter().map(|t| t.address.clone()).collect();
    assert_eq!(addrs, vec![s("12:0:0"), s("12:0:1"), s("12:0:14"), s("12:0:16")]);
    let d = &h.targets[0].devices[0];
    assert_eq!(d.hctl, "12:0:0:0");
    assert_eq!(d.vendor, "ATA");
    assert_eq!(d.scsi_type_name, "disk");
    assert_eq!(d.sg_device, Some(s("sg9")));
    assert_eq!(d.block_device.as_ref().map(|b| b.size_bytes), Some(1_000_204_886_016));
    let e = &h.targets[3].devices[0];
    assert_eq!(e.scsi_type, 13);
    assert_eq!(e.scsi_type_name, "enclosure");
    assert!(e.block_device.is_none());
}

#[test]
fn hosts_grouped_by_pci_in_number_order() {
    let mut snap = empty();
    let a = "/sys/devices/pci0000:80/0000:80:02.0/0000:81:00.0/host11/scsi_host/host11";
    let b = "/sys/devices/pci0000:00/0000:00:03.0/0000:03:00.0/host10/scsi_host/host10";
    snap.hosts = vec![
        host("host11", Some(a), Some("megaraid_sas")),
        host("host10", Some(b), Some("hpsa")),
        host("host9", Some(a), Some("megaraid_sas")),
        host("host8", Some("/sys/devices/platform/host8"), None),
    ];
    let (groups, addrs) = discover(&Vec::new(), snap);
    assert_eq!(addrs, vec![s("0000:81:00.0"), s("0000:03:00.0")]);
    let nums: Vec<u32> = groups[0].1.iter().map(|h| h.host_num).collect();
    assert_eq!(nums, vec![9, 11]);
    assert_eq!(groups[1].1[0].host_num, 10);
}

#[test]
fn fibre_channel_before_sas() {
    let mut snap = empty();
    let p = "/sys/devices/pci0000:00/0000:00:02.0/0000:05:00.0/host3/scsi_host/host3";
    snap.hosts = vec![host("host3", Some(p), Some("qla2xxx")), host("host4", Some(p), Some("qla2xxx"))];
    snap.fc_hosts = vec![
        FcHostEntry {
            name: s("host3"),
            port_name: Some(s("0x21000024ff3dd6f2")),
            node_name: Some(s("0x20000024ff3dd6f2")),
            port_state: Some(s("Online")),
            port_type: None,
            speed: Some(s("8 Gbit")),
            fabric_name: None,
            supported_speeds: Some(s("4 Gbit, 8 Gbit")),
        },
        FcHostEntry {
            name: s("host4"),
            port_name: None,
            node_name: None,
            port_state: None,
            port_type: None,
            speed: None,
            fabric_name: None,
            supported_speeds: None,
        },
    ];
    snap.sas_hosts = vec![s("host4")];
    let (groups, _) = discover(&Vec::new(), snap);
    let hosts = &groups[0].1;
    match &hosts[0].transport {
        Some(TransportInfo::Fc(fc)) => {
            assert_eq!(fc.port_name, "0x21000024ff3dd6f2");
            assert_eq!(fc.port_type, "");
            assert_eq!(fc.supported_speeds, Some(s("4 Gbit, 8 Gbit")));
        },
        _ => panic!("expected FC"),
    }
    // no port name: not FC, so the SAS class decides
    assert!(matches!(&hosts[1].transport, Some(TransportInfo::Sas(sas)) if sas.phys.is_empty()));
}

#[test]
fn iscsi_sessions_and_connections() {
    let mut snap = empty();
    snap.hosts = vec![host("host5", Some("/sys/devices/pci0000:00/0000:00:1f.0/host5/scsi_host/host5"), Some("iscsi_tcp"))];
    snap.iscsi_hosts = vec![s("host5")];
    snap.iscsi_sessions = vec![
        IscsiSessionEntry {
            name: s("session2"),
            path: s("/sys/devices/pci0000:00/0000:00:1f.0/host5/session2/iscsi_session/session2"),
            target_name: Some(s("iqn.b")),
            state: None,
        },
        IscsiSessionEntry {
            name: s("session1"),
            path: s("/sys/devices/pci0000:00/0000:00:1f.0/host5/session1/iscsi_session/session1"),
            target_name: Some(s("iqn.a")),
            state: Some(s("LOGGED_IN")),
        },
        IscsiSessionEntry {
            name: s("session3"),
            path: s("/sys/devices/platform/host6/session3/iscsi_session/session3"),
            target_name: Some(s("iqn.c")),
            state: None,
        },
    ];
    snap.iscsi_connections = vec![
        IscsiConnectionEntry {
            name: s("connection1:0"),
            persistent_address: None,
            address: Some(s("10.0.0.5")),
            persistent_port: Some(s("3260")),
            port: Some(s("1")),
        },
        IscsiConnectionEntry {
            name: s("connection2:0"),
            persistent_address: Some(s("10.0.0.6")),
            address: Some(s("10.0.0.7")),
            persistent_port: Some(s("99999")),
            port: Some(s("3260")),
        },
    ];
    let conns = &snap.iscsi_connections;
    assert_eq!(find_iscsi_connection(conns, "session1"), (Some(s("10.0.0.5")), Some(3260)));
    assert_eq!(find_iscsi_connection(conns, "session2"), (Some(s("10.0.0.6")), None));
    assert_eq!(find_iscsi_connection(conns, "session9"), (None, None));
    let (groups, addrs) = discover(&Vec::new(), snap);
    assert_eq!(addrs, vec![s("0000:00:1f.0")]);
    match &groups[0].1[0].transport {
        Some(TransportInfo::Iscsi(iscsi)) => {
            assert_eq!(iscsi.sessions.len(), 2);
            assert_eq!(iscsi.sessions[0].target_name, "iqn.a");
            assert_eq!(iscsi.sessions[0].state, "LOGGED_IN");
            assert_eq!(iscsi.sessions[0].target_address, Some(s("10.0.0.5")));
            assert_eq!(iscsi.sessions[0].target_port, Some(3260));
            assert_eq!(iscsi.sessions[1].target_name, "iqn.b");
            assert_eq!(iscsi.sessions[1].state, "");
            assert_eq!(iscsi.sessions[1].target_port, None);
        },
        _ => panic!("expected iSCSI"),
    }
}
