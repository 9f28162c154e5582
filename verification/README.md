# isobemak

A library that builds bootable ISO 9660 images (El Torito BIOS and UEFI
boot, optional isohybrid MBR/GPT) and FAT12/16/32 EFI system partition
images, with its logic verified by Verus.

## Layout

- `src/bytes.rs`: little/big-endian encodings and the model of writing
  bytes at an offset of a file image.
- `src/fat.rs`, `src/fat_image.rs`: FAT geometry, tables, directory
  entries (8.3 and long names) and the in-memory FAT image builder.
- `src/iso/`: the ISO tree (`fs_node`), path handling and layout
  (`builder_utils`), volume descriptors, directory records, the El Torito
  boot catalog, MBR and GPT structures, and the `IsoBuilder` that writes
  an image into a byte vector; `iso/boot_image_iso.rs` and `iso/iso.rs`
  build fixed-layout UEFI images around a boot image (and a kernel).
- `app/`: the file-system edge: reading the input files, writing the
  image and the FAT partition to disk, temporary files.
- `tests/`: tests run against the compiled library.

Each public function states in its contract the bytes it produces (as
spec functions over `Seq<u8>`) and exactly when it fails. Calls into
`crc32fast`, `uuid`, `rand` and `str::to_uppercase` sit behind small
trusted wrappers whose contracts name or bound their results.
