use std::path::PathBuf;
use vstd::prelude::*;

verus! {

#[verifier::external_type_specification]
#[verifier::external_body]
pub struct ExPathBuf(PathBuf);

/// `PathBuf::clone` (std): nothing about the copy is relied on.
pub assume_specification[ <PathBuf as Clone>::clone ](p: &PathBuf) -> PathBuf;

/// High-level boot information for the ISO.
#[derive(Clone, Debug)]
pub struct BootInfo {
    pub bios_boot: Option<BiosBootInfo>,
    pub uefi_boot: Option<UefiBootInfo>,
}

/// Configuration for BIOS boot (El Torito).
#[derive(Clone, Debug)]
pub struct BiosBootInfo {
    pub boot_image: PathBuf,
    pub destination_in_iso: String,
}

/// Configuration for UEFI boot.
#[derive(Clone, Debug)]
pub struct UefiBootInfo {
    pub boot_image: PathBuf,
    pub kernel_image: PathBuf,
    pub destination_in_iso: String,
    pub additional_efi_boot_files: Vec<(String, PathBuf)>,
    pub grub_cfg_content: Option<String>,
}

} // verus!
