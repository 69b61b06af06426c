# pathological

Discovers the end-to-end storage path topology of a Linux machine from sysfs
(PCI root complexes and bridges, storage controllers, SCSI hosts with their
SAS/FC/iSCSI transports, NVMe controllers and subsystems, block devices and
device-mapper stacking) and prints it as an ASCII tree or as JSON.

The library under `src/` is written in Verus. Each discovery step takes what
sysfs listed (directory entries with the attribute values and link targets
read under them) and computes the topology from it; its contract states the
result exactly, over mathematical models of the types (`Spec...` in
`types.rs`).

- `text.rs`, `sort.rs`: string queries, std-compatible number parsing,
  decimal formatting, a stable sort with its laws.
- `sysfs.rs`: attribute parsing, size labels, PCI address recognition, the
  components of canonical paths.
- `block.rs`, `nvme.rs`, `scsi.rs`, `pci.rs`: discovery of each subsystem.
- `topology.rs`: hanging NVMe controllers and SCSI hosts under their PCI
  controllers, the NVMe-oF section, pruning with `--no-empty`.
- `tree.rs`, `json.rs`, `jsonread.rs`: the two renderings, and the law that
  escaped JSON strings read back unchanged.
- `jsonshape.rs`: the law that the JSON text has balanced brackets outside
  string literals.
- `jsonvalue.rs`: the law that the JSON text is the pretty-printed form of one
  JSON object whose members, arrays, strings and numbers are the topology's
  fields, lists, strings and numbers.
- `jsonparse.rs`: a parser for JSON text, and the laws that it reads the
  pretty-printed text of every JSON value back as that value, so the JSON
  text of a topology back as the topology's value.

`app/main.rs` reads sysfs, calls the library and prints. `tests/` runs the
library on concrete snapshots, checks that the JSON text is the one
`serde_json::to_string_pretty` writes, and that `serde_json` reads it back as
the topology.
