# xfs

A verified library for the on-disk format of the XFS filesystem: decoders and
encoders for the superblock, AGF, AGI, AGFL, inode B+tree roots, inodes,
extent records and short-form directories; the XFS CRC32C checksum; readers
for structures, directories and file data on a block device; and `mkfs`.

- `src/` is the library, verified with Verus. Each structure's module states
  its byte layout as spec functions and proves that decoding what was encoded
  gives the structure back. A block device is followed through a record of
  the requests made of it and its answers: `mkfs` states that the device
  receives exactly the writes of its per-group plans, in order, up to the
  first refused; each reader states the reads it makes and its result for
  every answer. `src/readback.rs` proves that every buffer of those plans
  carries a valid checksum and decodes to the structure meant, and that the
  planned offsets are the ones the readers read from.
- `tests/` runs the library on concrete inputs, including a filesystem made by
  `mkfs` in memory and read back.
- `app/` is the command-line tool (`info`, `mkfs`) over files, and a read-only
  FUSE front end whose decisions come from `src/vfs.rs`.
