//! Storage path topology of a Linux machine, from what sysfs holds: the PCI
//! hierarchy, SCSI hosts and NVMe controllers under it, block devices, and the
//! device-mapper devices stacked on them; rendered as a tree or as JSON.
pub mod text;
pub mod sort;
pub mod sysfs;
pub mod types;
pub mod json;
pub mod jsonread;
pub mod tree;
pub mod topology;
pub mod pci;
pub mod block;
pub mod scsi;
pub mod nvme;
pub mod jsonshape;
pub mod jsonvalue;
pub mod jsonparse;
