use pathological::sysfs::{
    collect_pci_ancestors, find_pci_root, format_size, is_pci_address, list_dir_sorted, read_driver,
    read_hex_u32, read_i32, read_u64, scsi_type_name,
};

const KIB: u64 = 1024;
const MIB: u64 = 1024 * KIB;
const GIB: u64 = 1024 * MIB;
const TIB: u64 = 1024 * GIB;

fn float_format(bytes: u64) -> String {
    if bytes >= TIB {
        format!("{:.1} TiB", bytes as f64 / TIB as f64)
    } else if bytes >= GIB {
        format!("{:.1} GiB", bytes as f64 / GIB as f64)
    } else if bytes >= MIB {
        format!("{:.1} MiB", bytes as f64 / MIB as f64)
    } else if bytes >= KIB {
        format!("{:.1} KiB", bytes as f64 / KIB as f64)
    } else {
        format!("{} B", bytes)
    }
}

#[test]
fn format_size_examples() {
    assert_eq!(format_size(0), "0 B");
    assert_eq!(format_size(512), "512 B");
    assert_eq!(format_size(1023), "1023 B");
    assert_eq!(format_size(1024), "1.0 KiB");
    assert_eq!(format_size(1536), "1.5 KiB");
    assert_eq!(format_size(600 * MIB), "600.0 MiB");
    assert_eq!(format_size(GIB), "1.0 GiB");
    assert_eq!(format_size(180 * GIB), "180.0 GiB");
    assert_eq!(format_size(1_000_204_886_016), "931.5 GiB");
    assert_eq!(format_size(4_000_787_030_016), "3.6 TiB");
    assert_eq!(format_size(400_088_457_216), "372.6 GiB");
    assert_eq!(format_size(MIB - 1), "1024.0 KiB");
    assert_eq!(format_size(u64::MAX), "16777216.0 TiB");
}

#[test]
fn format_size_ties_round_to_even() {
    // 1.25 KiB and 1.75 KiB are exact in binary: the tie goes to the even digit.
    assert_eq!(format_size(1280), "1.2 KiB");
    assert_eq!(format_size(1792), "1.8 KiB");
    assert_eq!(format_size(1280), float_format(1280));
    assert_eq!(format_size(1792), float_format(1792));
}

#[test]
fn format_size_agrees_with_float_formatting() {
    let mut edges: Vec<u64> = Vec::new();
    for unit in [1u64, KIB, MIB, GIB, TIB] {
        for k in 0..2100u64 {
            let v = unit.saturating_mul(k) / 10 * 1;
            edges.push(v);
            edges.push(v.saturating_add(1));
            edges.push(v.saturating_sub(1));
            edges.push(unit.saturating_mul(k) / 20);
        }
    }
    edges.push(u64::MAX);
    edges.push(u64::MAX - 1);
    edges.push(1 << 53);
    edges.push((1 << 53) + 1);
    let mut x: u64 = 0x9e37_79b9_7f4a_7c15;
    for _ in 0..200_000 {
        x ^= x << 13;
        x ^= x >> 7;
        x ^= x << 17;
        let shift = (x % 64) as u32;
        edges.push(x >> shift);
    }
    for v in edges {
        assert_eq!(format_size(v), float_format(v), "bytes = {}", v);
    }
}

#[test]
fn scsi_type_names() {
    assert_eq!(scsi_type_name(0), "disk");
    assert_eq!(scsi_type_name(5), "cd/dvd");
    assert_eq!(scsi_type_name(8), "media changer");
    assert_eq!(scsi_type_name(13), "enclosure");
    assert_eq!(scsi_type_name(14), "simplified disk");
    assert_eq!(scsi_type_name(10), "unknown");
    assert_eq!(scsi_type_name(u32::MAX), "unknown");
}

#[test]
fn pci_addresses_recognised() {
    assert!(is_pci_address("0000:00:1f.2"));
    assert!(is_pci_address("0000:4a:00.0"));
    assert!(is_pci_address("10000:00:02.0"));
    assert!(is_pci_address("0000:00:02.10"));
    assert!(!is_pci_address("0000:00:1f"));
    assert!(!is_pci_address("pci0000:00"));
    assert!(!is_pci_address("000:00:1f.2"));
    assert!(!is_pci_address("0000:0:01f.2"));
    assert!(!is_pci_address("0000:00:1g.2"));
    assert!(!is_pci_address("0000:00:1f."));
    assert!(!is_pci_address("0000:00:1f.2:3"));
    assert!(!is_pci_address("host0"));
}

#[test]
fn pci_ancestors_root_first() {
    let p = "/sys/devices/pci0000:00/0000:00:01.0/0000:01:00.0/host2/scsi_host/host2";
    assert_eq!(collect_pci_ancestors(p), vec!["0000:00:01.0".to_string(), "0000:01:00.0".to_string()]);
    assert_eq!(find_pci_root(p), Some("0000:00".to_string()));
    assert_eq!(collect_pci_ancestors("/sys/devices/virtual/block/dm-0"), Vec::<String>::new());
    assert_eq!(find_pci_root("/sys/devices/virtual/block/dm-0"), None);
    assert_eq!(find_pci_root("/sys/devices/pci"), None);
}

#[test]
fn attribute_numbers() {
    assert_eq!(read_u64(Some("1953525168")), Some(1953525168));
    assert_eq!(read_u64(Some("+7")), Some(7));
    assert_eq!(read_u64(Some("-7")), None);
    assert_eq!(read_u64(Some("18446744073709551616")), None);
    assert_eq!(read_u64(Some("")), None);
    assert_eq!(read_u64(None), None);
    assert_eq!(read_i32(Some("-1")), Some(-1));
    assert_eq!(read_i32(Some("2147483648")), None);
    assert_eq!(read_i32(Some("-2147483648")), Some(-2147483648));
    assert_eq!(read_hex_u32(Some("0x010802")), Some(0x010802));
    assert_eq!(read_hex_u32(Some("0x0x1f")), Some(0x1f));
    assert_eq!(read_hex_u32(Some("ffffffff")), Some(u32::MAX));
    assert_eq!(read_hex_u32(Some("0x100000000")), None);
    assert_eq!(read_hex_u32(Some("0xzz")), None);
}

#[test]
fn driver_from_link() {
    assert_eq!(read_driver(Some("../../../bus/pci/drivers/nvme")), Some("nvme".to_string()));
    assert_eq!(read_driver(Some("../../../bus/pci/drivers/mpt3sas/")), Some("mpt3sas".to_string()));
    assert_eq!(read_driver(Some("..")), None);
    assert_eq!(read_driver(None), None);
}

#[test]
fn listings_sorted_by_bytes() {
    let v = vec!["sdb".to_string(), "sda".to_string(), "Sdz".to_string(), "sda1".to_string()];
    assert_eq!(
        list_dir_sorted(v),
        vec!["Sdz".to_string(), "sda".to_string(), "sda1".to_string(), "sdb".to_string()]
    );
}
