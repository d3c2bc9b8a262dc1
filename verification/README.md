# file_access

Controlled access to a USB disk: the files of the disk are shown to a host as
a virtual exFAT volume, generated in memory, whose file data is read from the
real files. Policy decides which files are shown as they are and which are
replaced by a placeholder; writes from the host are interpreted back into file
system mutations and carried out on the real disk.

The library is written in Verus. Every function in `src/` is verified
against its contract, except a few small trusted wrappers around std calls
(`String::push`, `char::from_u32`, and the system clock: `SystemTime::now`,
`duration_since`, `Duration::as_secs`), whose contracts are taken on trust
from std's documentation.

- `src/exfat/`: the volume generator, the directory entry format and its
  parser, the FAT, bitmap and sector-owner maps, the plan of where the
  generator puts every cluster, the runtime state with its read plan and its
  write/flush state machine, and the transaction resolver that turns written
  directory sectors into mutations.
- `src/vfs/`: the index of the shown tree, the mutations and the write
  journal.
- `src/nbd/`, `src/gadget*.rs`, `src/storage_pipeline.rs`,
  `src/startup_recovery.rs`, `src/raw_mount.rs`: the decisions of the device
  side (NBD protocol, USB gadget configuration, session pipeline, recovery of
  stale mounts), each a function from plain values to plain values.
- `app/`: the program around the library: file, socket and configfs I/O, the
  loops that carry out the actions the library chooses.
- `tests/`: tests of the library on concrete values.
