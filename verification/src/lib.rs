//! Bootable ISO 9660 image construction: FAT EFI system partition images,
//! El Torito boot catalogs, ISO 9660 descriptors and directories, and the
//! MBR/GPT structures of hybrid images.
use vstd::prelude::*;

pub mod bytes;
pub mod fat;
pub mod fat_image;
pub mod iso;

