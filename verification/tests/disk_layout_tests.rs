use isobemak::iso::disk_layout::DiskLayout;
use isobemak::iso::layout_profile::{HiddenSectorMode, IsoLayoutProfile};
use isobemak::iso::disk_layout::UefiBootStrategy;

#[test]
fn test_with_esp() {
    let l = DiskLayout::from_partition_params(2048, Some(32768), 24);
    assert!(l.has_esp());
    let e = l.esp_partition().unwrap();
    assert_eq!(e.start_lba_512, 2048);
    assert_eq!(e.size_lba_512, 32768);
    assert_eq!(l.iso_region.data_start_lba, 24);
}

#[test]
fn test_no_esp() {
    assert!(!DiskLayout::from_partition_params(0, None, 20).has_esp());
}

#[test]
fn test_zero_esp() {
    assert!(!DiskLayout::from_partition_params(2048, Some(0), 24).has_esp());
}

#[test]
fn profiles_differ_in_hidden_sectors_and_uefi_strategy() {
    let e = IsoLayoutProfile::emulator();
    let h = IsoLayoutProfile::hardware();
    let d = IsoLayoutProfile::default();
    assert_eq!(e.hidden_sectors_mode, HiddenSectorMode::PartitionOffset);
    assert_eq!(h.hidden_sectors_mode, HiddenSectorMode::Zero);
    assert_eq!(d.hidden_sectors_mode, HiddenSectorMode::Zero);
    assert_eq!(e.uefi_boot_strategy, UefiBootStrategy::ElToritoDirectEfi);
    assert_eq!(h.uefi_boot_strategy, UefiBootStrategy::EspPartition);
    assert!(e.use_gpt && h.use_gpt);
    assert_eq!(h.esp_alignment_lba_512, 4096);
}

#[test]
fn hidden_sectors_follow_the_profile() {
    assert_eq!(isobemak::iso::layout_profile::IsoLayoutProfile::hardware().hidden_sectors(), 0);
    assert_eq!(isobemak::iso::layout_profile::IsoLayoutProfile::emulator().hidden_sectors(), 4096);
}
