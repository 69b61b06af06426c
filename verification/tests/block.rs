use pathological::block::{classify_dm_type, discover, discover_partitions, BlockEntry, PartitionEntry};
use pathological::scsi::ScsiHostEntry;

fn s(x: &str) -> String {
    x.to_string()
}

fn part(name: &str, number: Option<&str>, size: Option<&str>, holders: &[&str]) -> PartitionEntry {
    PartitionEntry {
        name: s(name),
        partition: number.map(s),
        size: size.map(s),
        holders: holders.iter().map(|h| s(h)).collect(),
    }
}

fn entry(name: &str) -> BlockEntry {
    BlockEntry {
        name: s(name),
        canonical: Some(format!("/sys/devices/x/block/{}", name)),
        is_partition: false,
        size: None,
        removable: None,
        ro: None,
        device_wwid: None,
        wwid: None,
        dm_name: None,
        dm_uuid: None,
        holders: vec![],
        slaves: vec![],
        children: vec![],
        device_link: None,
    }
}

#[test]
fn dm_types() {
    assert_eq!(classify_dm_type("LVM-abc"), "LVM");
    assert_eq!(classify_dm_type("mpath-3600"), "Multipath");
    assert_eq!(classify_dm_type("CRYPT-LUKS2-x"), "Crypt");
    assert_eq!(classify_dm_type(""), "Unknown");
    assert_eq!(classify_dm_type("part1-mpath-3600"), "Other");
    assert_eq!(classify_dm_type("lvm-abc"), "Other");
}

#[test]
fn partitions_by_number() {
    let children = vec![
        part("sda10", Some("10"), Some("2048"), &[]),
        part("sda2", Some("2"), Some("4096"), &["dm-1", "dm-0"]),
        part("sda1", Some("1"), Some("1"), &[]),
        part("queue", None, None, &[]),
        part("sdb1", Some("1"), None, &[]),
        part("sda3", None, Some("8"), &[]),
    ];
    let parts = discover_partitions(children, "sda");
    let names: Vec<String> = parts.iter().map(|p| p.name.clone()).collect();
    assert_eq!(names, vec![s("sda1"), s("sda2"), s("sda10")]);
    assert_eq!(parts[1].number, 2);
    assert_eq!(parts[1].size_bytes, 4096 * 512);
    assert_eq!(parts[1].holders, vec![s("dm-0"), s("dm-1")]);
    assert_eq!(parts[2].size_bytes, 2048 * 512);
}

#[test]
fn partition_number_cut_to_32_bits() {
    let parts = discover_partitions(vec![part("sdz7", Some("4294967303"), None, &[])], "sdz");
    assert_eq!(parts[0].number, 7);
    assert_eq!(parts[0].size_bytes, 0);
}

#[test]
fn block_and_dm_devices() {
    let mut sda = entry("sda");
    sda.size = Some(s("585871964"));
    sda.removable = Some(s("0"));
    sda.ro = Some(s("1"));
    sda.wwid = Some(s("naa.600508b1001c"));
    sda.holders = vec![s("dm-1"), s("dm-0")];
    sda.device_link = Some(s("../../../10:1:0:0"));
    sda.children = vec![part("sda1", Some("1"), Some("2048"), &[])];
    let mut sda1 = entry("sda1");
    sda1.is_partition = true;
    let mut sdb = entry("sdb");
    sdb.device_wwid = Some(s("t10.ATA"));
    sdb.wwid = Some(s("other"));
    sdb.removable = Some(s("1"));
    sdb.device_link = Some(s("../../../11:0:12:0"));
    let mut loose = entry("sdc");
    loose.canonical = None;
    let mut dm0 = entry("dm-0");
    dm0.dm_name = Some(s("mpathm"));
    dm0.dm_uuid = Some(s("mpath-3600"));
    dm0.size = Some(s("2"));
    dm0.slaves = vec![s("sdb"), s("sda"), s("sdq")];
    dm0.is_partition = true;
    let mut dm1 = entry("dm-1");
    dm1.canonical = None;
    let entries = vec![dm0, sdb, sda1, loose, sda, dm1];
    let hosts = vec![
        ScsiHostEntry {
            name: s("host10"),
            canonical: Some(s("/sys/devices/pci0000:00/0000:00:03.0/0000:03:00.0/host10/scsi_host/host10")),
            proc_name: Some(s("hpsa")),
        },
        ScsiHostEntry { name: s("host11"), canonical: None, proc_name: Some(s("megaraid_sas")) },
    ];
    let (blocks, dms) = discover(entries, &hosts);
    let names: Vec<String> = blocks.iter().map(|b| b.name.clone()).collect();
    assert_eq!(names, vec![s("sda"), s("sdb")]);
    let a = &blocks[0];
    assert_eq!(a.dev_path, "/dev/sda");
    assert_eq!(a.size_bytes, 585871964u64 * 512);
    assert!(!a.removable);
    assert!(a.read_only);
    assert_eq!(a.wwn, Some(s("naa.600508b1001c")));
    assert_eq!(a.holders, vec![s("dm-0"), s("dm-1")]);
    assert_eq!(a.partitions.len(), 1);
    let b = &blocks[1];
    assert_eq!(b.size_bytes, 0);
    assert!(b.removable);
    assert_eq!(b.wwn, Some(s("t10.ATA")));

    assert_eq!(dms.len(), 1);
    let d = &dms[0];
    assert_eq!(d.name, "dm-0");
    assert_eq!(d.dm_name, "mpathm");
    assert_eq!(d.dm_type, "Multipath");
    assert_eq!(d.size_bytes, 1024);
    let slaves: Vec<String> = d.slaves.iter().map(|x| x.device_name.clone()).collect();
    assert_eq!(slaves, vec![s("sda"), s("sdb"), s("sdq")]);
    assert_eq!(d.slaves[0].hctl, Some(s("10:1:0:0")));
    assert_eq!(d.slaves[0].host_num, Some(10));
    assert_eq!(d.slaves[0].host_driver, Some(s("hpsa")));
    assert_eq!(d.slaves[0].pci_address, Some(s("0000:03:00.0")));
    assert_eq!(d.slaves[1].host_num, Some(11));
    assert_eq!(d.slaves[1].host_driver, Some(s("megaraid_sas")));
    assert_eq!(d.slaves[1].pci_address, None);
    assert_eq!(d.slaves[2].hctl, None);
    assert_eq!(d.slaves[2].host_num, None);
}
