//! The partition layout of a hybrid disk image.
use vstd::prelude::*;

verus! {

/// A partition, in 512-byte sectors.
#[derive(Debug, Clone, Copy)]
pub struct Partition {
    pub start_lba_512: u64,
    pub size_lba_512: u64,
}

/// Where the ISO 9660 data lives.
#[derive(Debug, Clone, Copy)]
pub struct IsoRegion {
    pub data_start_lba: u32,
    pub total_sectors: u32,
}

/// The partitions of a hybrid image (the ESP first, when there is one) and
/// its ISO region.
#[derive(Debug, Clone)]
pub struct DiskLayout {
    pub partitions: Vec<Partition>,
    pub iso_region: IsoRegion,
}

/// How UEFI firmware finds the boot loader.
#[derive(Debug, Clone, Copy, PartialEq, Eq, Structural)]
pub enum UefiBootStrategy {
    ElToritoDirectEfi,
    EspPartition,
}

impl DiskLayout {
    /// The layout with an ESP of `esp_size` sectors at `esp_align` (none
    /// when the size is absent or zero) and the ISO data at `iso_data_lba`.
    pub fn from_partition_params(esp_align: u32, esp_size: Option<u32>, iso_data_lba: u32) -> (r: Self)
        ensures
            r.iso_region.data_start_lba == iso_data_lba,
            r.iso_region.total_sectors == 0,
            (esp_size matches Some(sz) && sz > 0) ==> r.partitions@ == seq![
                Partition { start_lba_512: esp_align as u64, size_lba_512: esp_size->0 as u64 },
            ],
            !(esp_size matches Some(sz) && sz > 0) ==> r.partitions@ == Seq::<Partition>::empty(),
    {
        let mut parts: Vec<Partition> = Vec::new();
        match esp_size {
            Some(sz) => {
                if sz > 0 {
                    parts.push(Partition { start_lba_512: esp_align as u64, size_lba_512: sz as u64 });
                }
            },
            None => {},
        }
        DiskLayout { partitions: parts, iso_region: IsoRegion { data_start_lba: iso_data_lba, total_sectors: 0 } }
    }

    /// The ESP: the first partition, if any.
    pub fn esp_partition(&self) -> (r: Option<&Partition>)
        ensures
            self.partitions@.len() > 0 ==> r == Some(&self.partitions@[0]),
            self.partitions@.len() == 0 ==> r is None,
    {
        if self.partitions.len() > 0 {
            Some(&self.partitions[0])
        } else {
            None
        }
    }

    /// Whether the layout has an ESP.
    pub fn has_esp(&self) -> (r: bool)
        ensures
            r == (self.partitions@.len() > 0),
    {
        self.esp_partition().is_some()
    }
}

} // verus!
