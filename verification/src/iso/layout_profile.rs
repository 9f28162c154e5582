//! Layout profiles that trade firmware compatibility choices.
use crate::iso::disk_layout::UefiBootStrategy;
use vstd::prelude::*;

verus! {

/// The layout choices of an image.
#[derive(Debug, Clone, Copy)]
pub struct IsoLayoutProfile {
    pub use_gpt: bool,
    pub eltorito_mode: ElToritoMode,
    pub esp_mode: EspMode,
    pub esp_alignment_lba_512: u32,
    pub mbr_mode: MbrMode,
    pub hidden_sectors_mode: HiddenSectorMode,
    pub uefi_boot_strategy: UefiBootStrategy,
}

#[derive(Debug, Clone, Copy, PartialEq, Eq, Structural)]
pub enum ElToritoMode {
    Both,
    DirectEfiOnly,
}

#[derive(Debug, Clone, Copy, PartialEq, Eq, Structural)]
pub enum EspMode {
    AppendedPartition,
}

#[derive(Debug, Clone, Copy, PartialEq, Eq, Structural)]
pub enum MbrMode {
    HybridLinuxEsp,
}

/// What the FAT boot sector records as hidden sectors.
#[derive(Debug, Clone, Copy, PartialEq, Eq, Structural)]
pub enum HiddenSectorMode {
    Zero,
    PartitionOffset,
}

impl IsoLayoutProfile {
    /// The settings shared by both profiles: GPT, both El Torito entries,
    /// an appended ESP at 2 MiB and a hybrid MBR.
    pub open spec fn common(&self) -> bool {
        &&& self.use_gpt
        &&& self.eltorito_mode == ElToritoMode::Both
        &&& self.esp_mode == EspMode::AppendedPartition
        &&& self.esp_alignment_lba_512 == 4096
        &&& self.mbr_mode == MbrMode::HybridLinuxEsp
    }

    /// For emulators (QEMU/OVMF): the FAT records the partition offset as
    /// hidden sectors and UEFI boots the El Torito EFI entry directly.
    pub fn emulator() -> (r: Self)
        ensures
            r.common(),
            r.hidden_sectors_mode == HiddenSectorMode::PartitionOffset,
            r.uefi_boot_strategy == UefiBootStrategy::ElToritoDirectEfi,
    {
        IsoLayoutProfile {
            use_gpt: true,
            eltorito_mode: ElToritoMode::Both,
            esp_mode: EspMode::AppendedPartition,
            esp_alignment_lba_512: 4096,
            mbr_mode: MbrMode::HybridLinuxEsp,
            hidden_sectors_mode: HiddenSectorMode::PartitionOffset,
            uefi_boot_strategy: UefiBootStrategy::ElToritoDirectEfi,
        }
    }

    /// For real hardware: no hidden sectors and UEFI boots the ESP partition.
    pub fn hardware() -> (r: Self)
        ensures
            r.common(),
            r.hidden_sectors_mode == HiddenSectorMode::Zero,
            r.uefi_boot_strategy == UefiBootStrategy::EspPartition,
    {
        IsoLayoutProfile {
            use_gpt: true,
            eltorito_mode: ElToritoMode::Both,
            esp_mode: EspMode::AppendedPartition,
            esp_alignment_lba_512: 4096,
            mbr_mode: MbrMode::HybridLinuxEsp,
            hidden_sectors_mode: HiddenSectorMode::Zero,
            uefi_boot_strategy: UefiBootStrategy::EspPartition,
        }
    }
}

impl IsoLayoutProfile {
    /// The hidden sectors the FAT boot sector of the ESP records under this
    /// profile: none, or the ESP's offset (its alignment in 512-byte
    /// sectors).
    pub fn hidden_sectors(&self) -> (r: u32)
        ensures
            r == (match self.hidden_sectors_mode {
                HiddenSectorMode::Zero => 0,
                HiddenSectorMode::PartitionOffset => self.esp_alignment_lba_512,
            }),
    {
        match self.hidden_sectors_mode {
            HiddenSectorMode::Zero => 0,
            HiddenSectorMode::PartitionOffset => self.esp_alignment_lba_512,
        }
    }
}

impl Default for IsoLayoutProfile {
    /// The hardware profile.
    fn default() -> (r: Self)
        ensures
            r.common(),
            r.hidden_sectors_mode == HiddenSectorMode::Zero,
            r.uefi_boot_strategy == UefiBootStrategy::EspPartition,
    {
        Self::hardware()
    }
}

} // verus!
