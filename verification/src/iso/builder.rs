//! The ISO builder: the tree of the image, its boot configuration and
//! layout, and the steps that turn them into the bytes of the image.
use crate::iso::boot_catalog::{BootCatalogEntry, BootCatalogEntryType, BOOT_CATALOG_EFI_PLATFORM_ID, LBA_BOOT_CATALOG};
use crate::iso::boot_info::BootInfo;
use crate::iso::builder_utils::{
    add_at, boot_entry, calculate_lbas, components, create_bios_boot_entry, create_uefi_boot_entry,
    create_uefi_esp_boot_entry, dir_extent, file_boot_entry, get_file_size_in_iso, get_lba_for_path, is_normal,
    layout_dir, leaf_view, lookup_path, names_of, path_components, tree_extent, add_view,
};
use crate::iso::disk_layout::DiskLayout;
use crate::iso::error::IsoError;
use crate::iso::fs_node::{dir_view, key, node_view, view_wf, DirView, IsoDirectory, IsoFile, IsoFsNode, NodeView};
use crate::iso::layout_profile::IsoLayoutProfile;
use crate::iso::gpt::guid::{digit_pos, gpt_guid_order, hex_at, hyphenated_guid, parse_guid, random_guid, text_bytes};
use crate::iso::gpt::main_gpt_functions::{gpt_disk, write_gpt_structures_with_guid};
use crate::iso::gpt::partition_entry::{name_units, GptPartitionEntry, EFI_SYSTEM_PARTITION_GUID};
use crate::iso::gpt::header::sat_sub;
use crate::iso::mbr::{create_mbr_for_gpt_hybrid, hybrid_mbr, Mbr};
use crate::bytes::{be32, grown, le32, push_zeros, write_at, write_at_spec, zeros};
use crate::iso::boot_catalog::catalog_image;
use crate::iso::iso_writer::{
    boot_checksum, boot_info_table, copy_files, descriptors_image, files_image, files_in, finalize_iso, list_files,
    padded_image, padded_pos, with_total_sectors, write_boot_catalog_to_iso, write_boot_info_table, write_descriptors,
    write_directories, write_dirs, derefs,
};
use crate::iso::volume_descriptor::opt_bytes;
use std::path::PathBuf;
use vstd::prelude::*;
use vstd::utf8::encode_utf8;

verus! {

/// Builds an ISO image: collects the files of the tree and the boot
/// configuration, lays the tree out, and writes the image.
pub struct IsoBuilder {
    volume_id: Option<String>,
    root: IsoDirectory,
    boot_info: Option<BootInfo>,
    iso_data_lba: u32,
    total_sectors: u32,
    is_isohybrid: bool,
    uefi_catalog_path: Option<String>,
    pub esp_lba: Option<u32>,
    pub esp_size_sectors: Option<u32>,
    profile: IsoLayoutProfile,
    disk_layout: Option<DiskLayout>,
    efi_boot_image_iso_path: Option<String>,
}

/// The section header that introduces the UEFI entries of the catalog.
pub open spec fn efi_section_header() -> BootCatalogEntry {
    BootCatalogEntry {
        platform_id: 0xEF,
        boot_image_lba: 0,
        boot_image_sectors: 0,
        entry_type: BootCatalogEntryType::SectionHeader { more_follow: false },
    }
}

/// The catalog entries of an image whose tree is `root`, with boot
/// configuration `bi` and the ESP image at `esp_lba` of `esp_size`
/// sectors: the BIOS entry first when there is one (SeaBIOS reads only
/// the first), then the UEFI entry under a section header; a UEFI-only
/// image has its UEFI entry alone (on the ESP: bootable, no emulation,
/// sector count 0). Where both ESP values are given the
/// UEFI entries point at the ESP; otherwise at the UEFI image in the tree.
pub open spec fn boot_entries_spec(
    root: DirView,
    bi: Option<BootInfo>,
    esp_lba: Option<u32>,
    esp_size: Option<u32>,
) -> Result<Seq<BootCatalogEntry>, IsoError> {
    if (esp_lba is Some) != (esp_size is Some) || (esp_lba is Some && esp_size == Some(0u32)) {
        Err(IsoError::InvalidEspConfig)
    } else {
        let has_uefi = esp_lba is Some;
        let uefi_lba = if has_uefi { esp_lba->0 } else { 0 };
        let esp_entry = boot_entry(0xEF, uefi_lba, 0);
        let bios = match bi {
            Some(b) => b.bios_boot,
            None => None,
        };
        let uefi = match bi {
            Some(b) => b.uefi_boot,
            None => None,
        };
        match bios {
            Some(b) => match file_boot_entry(root, b.destination_in_iso@, 0) {
                Err(e) => Err(e),
                Ok(be) => if has_uefi {
                    Ok(seq![be, efi_section_header(), esp_entry])
                } else {
                    match uefi {
                        Some(u) => match file_boot_entry(root, u.destination_in_iso@, 0xEF) {
                            Err(e) => Err(e),
                            Ok(ue) => Ok(seq![be, efi_section_header(), ue]),
                        },
                        None => Ok(seq![be]),
                    }
                },
            },
            None => if has_uefi {
                Ok(seq![boot_entry(0xEF, uefi_lba, 0)])
            } else {
                match uefi {
                    Some(u) => match file_boot_entry(root, u.destination_in_iso@, 0xEF) {
                        Err(e) => Err(e),
                        Ok(ue) => Ok(seq![ue]),
                    },
                    None => Ok(Seq::empty()),
                }
            },
        }
    }
}

/// Every boot entry the catalog gets for a configured boot image is
/// bootable, and the first entry (the initial/default entry firmware
/// reads) is a boot entry: the BIOS image's (platform 0) where there is
/// one, else the UEFI one (platform 0xEF). A UEFI-only configuration with
/// no ESP gets exactly one entry, for the UEFI image in the tree, bootable,
/// at the image's sector; with an ESP, exactly one bootable entry at the
/// ESP.
pub proof fn lemma_boot_entries_bootable(root: DirView, bi: Option<BootInfo>, esp_lba: Option<u32>, esp_size: Option<u32>)
    ensures
        boot_entries_spec(root, bi, esp_lba, esp_size) matches Ok(es) ==> {
            &&& forall|i: int|
                0 <= i < es.len() && (#[trigger] es[i]).entry_type is BootEntry ==> es[i].entry_type == (
                BootCatalogEntryType::BootEntry { bootable: true })
            &&& es.len() > 0 ==> es[0].entry_type == (BootCatalogEntryType::BootEntry { bootable: true })
            &&& (bi matches Some(b) && b.bios_boot is Some) ==> es.len() >= 1 && es[0].platform_id == 0
            &&& (bi matches Some(b) && b.bios_boot is None && b.uefi_boot is Some) ==> es.len() == 1
                && es[0].platform_id == 0xEF
            &&& (bi matches Some(b) && b.bios_boot is None && b.uefi_boot is Some && esp_lba is None) ==> (
            lookup_path(root, components(bi->0.uefi_boot->0.destination_in_iso@)) matches Some(NodeView::File(f))
                && es[0].boot_image_lba == f.lba)
            &&& (bi matches Some(b) && b.bios_boot is None && esp_lba is Some) ==> es.len() == 1
                && es[0].boot_image_lba == esp_lba->0 && es[0].platform_id == 0xEF
        },
{
    match bi {
        Some(b) => {
            match b.bios_boot {
                Some(x) => {
                    crate::iso::builder_utils::lemma_boot_entry_covers_file(root, x.destination_in_iso@, 0);
                },
                None => {},
            }
            match b.uefi_boot {
                Some(u) => {
                    crate::iso::builder_utils::lemma_boot_entry_covers_file(root, u.destination_in_iso@, 0xEF);
                },
                None => {},
            }
        },
        None => {},
    }
}

/// The file name of a path: its last component, where that names an entry.
pub open spec fn file_name_of(path: Seq<char>) -> Option<Seq<char>> {
    let cs = components(path);
    if cs.len() > 0 && is_normal(cs.last()) { Some(cs.last()) } else { None }
}

impl IsoBuilder {
    /// The tree of the image.
    pub closed spec fn spec_root(&self) -> IsoDirectory {
        self.root
    }

    /// The boot configuration.
    pub closed spec fn spec_boot_info(&self) -> Option<BootInfo> {
        self.boot_info
    }

    /// The volume identifier.
    pub closed spec fn spec_volume_id(&self) -> Option<String> {
        self.volume_id
    }

    /// Whether the image is a hybrid (isohybrid) image.
    pub closed spec fn spec_isohybrid(&self) -> bool {
        self.is_isohybrid
    }

    /// The layout profile.
    pub closed spec fn spec_profile(&self) -> IsoLayoutProfile {
        self.profile
    }

    /// The disk layout, if one was set.
    pub closed spec fn spec_disk_layout(&self) -> Option<DiskLayout> {
        self.disk_layout
    }

    /// The ESP image's sector, once resolved.
    pub closed spec fn spec_esp_lba(&self) -> Option<u32> {
        self.esp_lba
    }

    /// The ESP image's size in ISO sectors, once resolved.
    pub closed spec fn spec_esp_size(&self) -> Option<u32> {
        self.esp_size_sectors
    }

    /// The sector after the laid-out tree.
    pub closed spec fn spec_data_lba(&self) -> u32 {
        self.iso_data_lba
    }

    /// The path in the image of the ESP image, if one was added.
    pub closed spec fn spec_efi_image_path(&self) -> Option<String> {
        self.efi_boot_image_iso_path
    }

    /// The path of the UEFI boot image recorded for the catalog, if any.
    pub closed spec fn spec_uefi_catalog_path(&self) -> Option<String> {
        self.uefi_catalog_path
    }

    /// The builder's invariant: the tree keeps every directory's children
    /// in name order.
    pub closed spec fn wf(&self) -> bool {
        view_wf(dir_view(self.root))
    }

    /// A builder with an empty tree, no boot configuration and the default
    /// (hardware) profile.
    pub fn new() -> (b: Self)
        ensures
            b.wf(),
            dir_view(b.spec_root()) == (DirView { lba: 0, size: 2048, children: Seq::empty() }),
            b.spec_boot_info() is None,
            b.spec_volume_id() is None,
            !b.spec_isohybrid(),
            b.spec_disk_layout() is None,
            b.spec_efi_image_path() is None,
            b.spec_esp_lba() is None,
            b.spec_esp_size() is None,
            b.spec_uefi_catalog_path() is None,
            b.spec_data_lba() == 0,
            b.spec_profile().common(),
            b.spec_profile().hidden_sectors_mode == crate::iso::layout_profile::HiddenSectorMode::Zero,
            b.spec_profile().uefi_boot_strategy == crate::iso::disk_layout::UefiBootStrategy::EspPartition,
    {
        let root = IsoDirectory::new();
        assert(view_wf(dir_view(root)));
        IsoBuilder {
            volume_id: None,
            root,
            boot_info: None,
            iso_data_lba: 0,
            total_sectors: 0,
            is_isohybrid: false,
            uefi_catalog_path: None,
            esp_lba: None,
            esp_size_sectors: None,
            profile: IsoLayoutProfile::default(),
            disk_layout: None,
            efi_boot_image_iso_path: None,
        }
    }

    /// The tree of the image.
    pub fn root(&self) -> (r: &IsoDirectory)
        ensures
            *r == self.spec_root(),
    {
        &self.root
    }

    pub fn set_volume_id(&mut self, v: Option<String>)
        requires
            old(self).wf(),
        ensures
            final(self).wf(),
            final(self).spec_volume_id() == v,
            final(self).spec_root() == old(self).spec_root(),
    {
        self.volume_id = v;
    }

    pub fn set_boot_info(&mut self, bi: BootInfo)
        requires
            old(self).wf(),
        ensures
            final(self).wf(),
            final(self).spec_boot_info() == Some(bi),
            final(self).spec_root() == old(self).spec_root(),
    {
        self.boot_info = Some(bi);
    }

    pub fn set_profile(&mut self, p: IsoLayoutProfile)
        requires
            old(self).wf(),
        ensures
            final(self).wf(),
            final(self).spec_profile() == p,
            final(self).spec_root() == old(self).spec_root(),
    {
        self.profile = p;
    }

    pub fn set_isohybrid(&mut self, v: bool)
        requires
            old(self).wf(),
        ensures
            final(self).wf(),
            final(self).spec_isohybrid() == v,
            final(self).spec_root() == old(self).spec_root(),
    {
        self.is_isohybrid = v;
    }

    pub fn set_disk_layout(&mut self, l: DiskLayout)
        requires
            old(self).wf(),
        ensures
            final(self).wf(),
            final(self).spec_disk_layout() == Some(l),
            final(self).spec_root() == old(self).spec_root(),
    {
        self.disk_layout = Some(l);
    }

    /// Records that the ESP image is the file at `path` in the tree.
    pub fn set_efi_boot_image_path(&mut self, path: String)
        requires
            old(self).wf(),
        ensures
            final(self).wf(),
            final(self).spec_efi_image_path() == Some(path),
            final(self).spec_root() == old(self).spec_root(),
    {
        self.efi_boot_image_iso_path = Some(path);
    }

    /// Records the path of the UEFI boot image in the tree.
    pub fn set_uefi_catalog_path(&mut self, path: String)
        requires
            old(self).wf(),
        ensures
            final(self).wf(),
            final(self).spec_uefi_catalog_path() == Some(path),
            final(self).spec_root() == old(self).spec_root(),
    {
        self.uefi_catalog_path = Some(path);
    }

    /// Adds the file `real_path` of `size` bytes at `path_in_iso`, creating
    /// the directories on the way; fails where the path has no file name
    /// or one of its directories is a file.
    pub fn add_file(&mut self, path_in_iso: &str, real_path: PathBuf, size: u64) -> (r: Result<(), IsoError>)
        requires
            old(self).wf(),
        ensures
            final(self).wf(),
            ({
                let cs = components(path_in_iso@);
                let file = NodeView::File(IsoFile { path: real_path, size, lba: 0 });
                match file_name_of(path_in_iso@) {
                    None => r == Err::<(), IsoError>(IsoError::InvalidFileName) && final(self).spec_root()
                        == old(self).spec_root(),
                    Some(name) => match add_view(
                        dir_view(old(self).spec_root()),
                        cs.drop_last(),
                        Some((encode_utf8(name), file)),
                    ) {
                        Some(v2) => r is Ok && dir_view(final(self).spec_root()) == v2,
                        None => r == Err::<(), IsoError>(IsoError::NotADirectory) && dir_view(final(self).spec_root())
                            == dir_view(old(self).spec_root()),
                    },
                }
            }),
    {
        let comps = path_components(path_in_iso);
        let n = comps.len();
        if n == 0 {
            return Err(IsoError::InvalidFileName);
        }
        let last = comps[n - 1].as_str();
        let chars = crate::fat::collect_chars(last);
        let is_root = chars.len() == 1 && chars[0] == '/';
        let is_dot = chars.len() == 1 && chars[0] == '.';
        let is_dotdot = chars.len() == 2 && chars[0] == '.' && chars[1] == '.';
        proof {
            if chars@.len() == 1 {
                assert(chars@ == seq![chars@[0]]);
            }
            if chars@.len() == 2 {
                assert(chars@ == seq![chars@[0], chars@[1]]);
            }
        }
        if is_root || is_dot || is_dotdot {
            return Err(IsoError::InvalidFileName);
        }
        let name = comps[n - 1].clone();
        let leaf = (name, IsoFsNode::File(IsoFile { path: real_path, size, lba: 0 }));
        proof {
            assert(names_of(comps@).subrange(0, n - 1) =~= components(path_in_iso@).drop_last());
        }
        add_at(&mut self.root, &comps, 0, n - 1, Some(leaf))
    }

    /// The catalog entries for the ESP image at `esp_lba` of
    /// `esp_size_sectors` sectors (see `boot_entries_spec`).
    fn prepare_boot_entries(&self, esp_lba: Option<u32>, esp_size_sectors: Option<u32>) -> (r: Result<
        Vec<BootCatalogEntry>,
        IsoError,
    >)
        ensures
            match boot_entries_spec(dir_view(self.root), self.boot_info, esp_lba, esp_size_sectors) {
                Ok(es) => r is Ok && r->Ok_0@ == es,
                Err(e) => r == Err::<Vec<BootCatalogEntry>, IsoError>(e),
            },
    {
        let mut entries: Vec<BootCatalogEntry> = Vec::new();
        match (esp_lba, esp_size_sectors) {
            (Some(_), None) | (None, Some(_)) => {
                return Err(IsoError::InvalidEspConfig);
            },
            (Some(_), Some(0)) => {
                return Err(IsoError::InvalidEspConfig);
            },
            _ => {},
        }
        let (has_uefi, uefi_lba, uefi_size) = match (esp_lba, esp_size_sectors) {
            (Some(l), Some(s)) => (true, l, s),
            _ => (false, 0u32, 0u32),
        };
        let header = BootCatalogEntry {
            platform_id: BOOT_CATALOG_EFI_PLATFORM_ID,
            boot_image_lba: 0,
            boot_image_sectors: 0,
            entry_type: BootCatalogEntryType::SectionHeader { more_follow: false },
        };
        let (bios, uefi) = match &self.boot_info {
            Some(b) => (b.bios_boot.as_ref(), b.uefi_boot.as_ref()),
            None => (None, None),
        };
        match bios {
            Some(b) => {
                let be = match create_bios_boot_entry(&self.root, b.destination_in_iso.as_str()) {
                    Ok(e) => e,
                    Err(e) => return Err(e),
                };
                entries.push(be);
                if has_uefi {
                    entries.push(header);
                    let esp = match create_uefi_esp_boot_entry(uefi_lba, uefi_size) {
                        Ok(e) => e,
                        Err(e) => return Err(e),
                    };
                    entries.push(esp);
                } else {
                    match uefi {
                        Some(u) => {
                            let ue = match create_uefi_boot_entry(&self.root, u.destination_in_iso.as_str()) {
                                Ok(e) => e,
                                Err(e) => return Err(e),
                            };
                            entries.push(header);
                            entries.push(ue);
                        },
                        None => {},
                    }
                }
            },
            None => {
                if has_uefi {
                    entries.push(
                        BootCatalogEntry {
                            platform_id: BOOT_CATALOG_EFI_PLATFORM_ID,
                            boot_image_lba: uefi_lba,
                            boot_image_sectors: 0,
                            entry_type: BootCatalogEntryType::BootEntry { bootable: true },
                        },
                    );
                } else {
                    match uefi {
                        Some(u) => {
                            let ue = match create_uefi_boot_entry(&self.root, u.destination_in_iso.as_str()) {
                                Ok(e) => e,
                                Err(e) => return Err(e),
                            };
                            entries.push(ue);
                        },
                        None => {},
                    }
                }
            },
        }
        assert(entries@ =~= boot_entries_spec(dir_view(self.root), self.boot_info, esp_lba, esp_size_sectors)->Ok_0);
        Ok(entries)
    }

    /// Lays the tree out from sector `start` (see `layout_dir`); fails
    /// where the tree would pass the last 32-bit sector number.
    pub fn assign_lbas(&mut self, start: u32) -> (r: Result<(), IsoError>)
        ensures
            start + dir_extent(dir_view(old(self).spec_root())) > u32::MAX ==> r == Err::<(), IsoError>(
                IsoError::ImageTooLarge,
            ) && *final(self) == *old(self),
            start + dir_extent(dir_view(old(self).spec_root())) <= u32::MAX ==> {
                &&& r is Ok
                &&& dir_view(final(self).spec_root()) == layout_dir(dir_view(old(self).spec_root()), start as int)
                &&& final(self).spec_data_lba() == start + dir_extent(dir_view(old(self).spec_root()))
                &&& final(self).spec_boot_info() == old(self).spec_boot_info()
                &&& final(self).spec_volume_id() == old(self).spec_volume_id()
                &&& final(self).spec_isohybrid() == old(self).spec_isohybrid()
                &&& final(self).spec_profile() == old(self).spec_profile()
                &&& final(self).spec_disk_layout() == old(self).spec_disk_layout()
                &&& final(self).spec_efi_image_path() == old(self).spec_efi_image_path()
                &&& final(self).spec_esp_lba() == old(self).spec_esp_lba()
                &&& final(self).spec_esp_size() == old(self).spec_esp_size()
            },
    {
        let budget = 0xFFFF_FFFFu64 - start as u64;
        let ext = tree_extent(&self.root, budget);
        if ext > budget {
            return Err(IsoError::ImageTooLarge);
        }
        self.iso_data_lba = start;
        let _ = calculate_lbas(&mut self.iso_data_lba, &mut self.root);
        Ok(())
    }
}


/// The type GUID of the partition that covers the ISO 9660 data.
pub const BASIC_DATA_GUID: &'static str = "EBD0A0A2-B9E5-4433-87C0-68B6B72699C7";

/// The GPT bytes of the Microsoft basic data type GUID
/// (EBD0A0A2-B9E5-4433-87C0-68B6B72699C7).
pub open spec fn basic_data_type_bytes() -> Seq<u8> {
    seq![0xA2u8, 0xA0, 0xD0, 0xEB, 0xE5, 0xB9, 0x33, 0x44, 0x87, 0xC0, 0x68, 0xB6, 0xB7, 0x26, 0x99, 0xC7]
}

/// The GPT bytes of the EFI system partition type GUID
/// (C12A7328-F81F-11D2-BA4B-00A0C93EC93B).
pub open spec fn esp_type_bytes() -> Seq<u8> {
    seq![0x28u8, 0x73, 0x2A, 0xC1, 0x1F, 0xF8, 0xD2, 0x11, 0xBA, 0x4B, 0x00, 0xA0, 0xC9, 0x3E, 0xC9, 0x3B]
}

proof fn lemma_text_bytes(s: Seq<char>, b: Seq<u8>)
    requires
        s.len() == 36,
        s[8] == '-' && s[13] == '-' && s[18] == '-' && s[23] == '-',
        b.len() == 16,
        forall|k: int| 0 <= k < 16 ==> #[trigger] hex_at(s, digit_pos(k)) == Some(b[k]),
    ensures
        text_bytes(s) == Some(b),
{
    assert(Seq::new(16, |k: int| hex_at(s, digit_pos(k))->0) =~= b);
}

/// The two partition type GUID texts are hyphenated GUIDs, whose GPT
/// bytes are the ones stated.
pub proof fn lemma_type_guids()
    ensures
        hyphenated_guid(BASIC_DATA_GUID@) == Some(basic_data_type_bytes()),
        hyphenated_guid(EFI_SYSTEM_PARTITION_GUID@) == Some(esp_type_bytes()),
{
    reveal_strlit("EBD0A0A2-B9E5-4433-87C0-68B6B72699C7");
    reveal_strlit("C12A7328-F81F-11D2-BA4B-00A0C93EC93B");
    let s = BASIC_DATA_GUID@;
    let b = seq![0xEBu8, 0xD0, 0xA0, 0xA2, 0xB9, 0xE5, 0x44, 0x33, 0x87, 0xC0, 0x68, 0xB6, 0xB7, 0x26, 0x99, 0xC7];
    assert forall|k: int| 0 <= k < 16 implies #[trigger] hex_at(s, digit_pos(k)) == Some(b[k]) by {
        assert(0 <= k < 16);
    }
    lemma_text_bytes(s, b);
    assert(gpt_guid_order(b) =~= basic_data_type_bytes());
    let t = EFI_SYSTEM_PARTITION_GUID@;
    let c = seq![0xC1u8, 0x2A, 0x73, 0x28, 0xF8, 0x1F, 0x11, 0xD2, 0xBA, 0x4B, 0x00, 0xA0, 0xC9, 0x3E, 0xC9, 0x3B];
    assert forall|k: int| 0 <= k < 16 implies #[trigger] hex_at(t, digit_pos(k)) == Some(c[k]) by {
        assert(0 <= k < 16);
    }
    lemma_text_bytes(t, c);
    assert(gpt_guid_order(c) =~= esp_type_bytes());
}

/// The size in 512-byte sectors of the disk of a hybrid image of
/// `total_lbas` ISO sectors: the image plus the 33 sectors of the backup
/// GPT, rounded up to a multiple of 4.
pub open spec fn gpt_total(total_lbas: u64) -> int {
    ((total_lbas * 4 + 36) / 4) * 4
}

/// Where the ESP lies in 512-byte sectors: from the resolved ESP image
/// (its ISO sectors times 4, where that fits), else from the disk layout,
/// else after the profile's alignment for an ESP of `param` ISO sectors.
pub open spec fn esp_512(
    esp_lba: Option<u32>,
    esp_size: Option<u32>,
    dl: Option<DiskLayout>,
    profile: IsoLayoutProfile,
    param: Option<u32>,
) -> Result<(Option<u32>, Option<u32>), IsoError> {
    if esp_lba is Some && esp_size is Some {
        Ok(
            (
                if esp_lba->0 * 4 <= u32::MAX { Some((esp_lba->0 * 4) as u32) } else { None },
                if esp_size->0 * 4 <= u32::MAX { Some((esp_size->0 * 4) as u32) } else { None },
            ),
        )
    } else if dl is Some {
        if dl->0.partitions@.len() > 0 {
            Ok(
                (
                    Some(dl->0.partitions@[0].start_lba_512 as u32),
                    Some(dl->0.partitions@[0].size_lba_512 as u32),
                ),
            )
        } else {
            Ok((None, None))
        }
    } else if param is Some {
        if param->0 * 4 > u32::MAX {
            Err(IsoError::ImageTooLarge)
        } else {
            Ok((Some(profile.esp_alignment_lba_512), Some((param->0 * 4) as u32)))
        }
    } else {
        Ok((None, None))
    }
}

/// The last sector of an ESP of `size` sectors from `start`, saturating.
pub open spec fn esp_end(start: u32, size: u32) -> int {
    let e = if start + size > u32::MAX { u32::MAX as int } else { start + size };
    if e >= 1 { e - 1 } else { 0 }
}

/// Whether `e` is the entry with these fields.
pub open spec fn entry_is(
    e: GptPartitionEntry,
    type_guid: Option<Seq<u8>>,
    unique: Seq<u8>,
    start: int,
    end: int,
    name: Seq<char>,
    attributes: u64,
) -> bool {
    &&& type_guid == Some(e.partition_type_guid@)
    &&& e.unique_partition_guid@ == unique
    &&& e.starting_lba == start
    &&& e.ending_lba == end
    &&& e.attributes == attributes
    &&& e.partition_name@ == name_units(name)
}

/// The GPT partitions of a hybrid disk of `total` sectors: the ISO 9660
/// data from sector 34 to 34 before the end (where that is past 34), then
/// the ESP (where its end is past its start).
pub open spec fn hybrid_parts(
    parts: Seq<GptPartitionEntry>,
    total: int,
    esp: (Option<u32>, Option<u32>),
    iso_guid: Seq<u8>,
    esp_guid: Seq<u8>,
) -> bool {
    let iso_present = sat_sub(total, 34) > 34;
    let esp_present = esp.0 is Some && esp.1 is Some && esp_end(esp.0->0, esp.1->0) > esp.0->0;
    let k: int = if iso_present { 1 } else { 0 };
    &&& parts.len() == k + (if esp_present { 1int } else { 0 })
    &&& iso_present ==> entry_is(parts[0], Some(basic_data_type_bytes()), iso_guid, 34, sat_sub(total, 34), "ISO9660"@, 0)
    &&& esp_present ==> entry_is(
        parts[k],
        Some(esp_type_bytes()),
        esp_guid,
        esp.0->0 as int,
        esp_end(esp.0->0, esp.1->0),
        "EFI System Partition"@,
        1,
    )
}


/// The image after the MBR `m` and, when there are partitions, the GPT of
/// a disk of `total` sectors with disk GUID `guid`.
pub open spec fn hybrid_image(img: Seq<u8>, m: Mbr, parts: Seq<GptPartitionEntry>, total: int, guid: Seq<u8>) -> Seq<u8> {
    let with_mbr = write_at_spec(img, 0, m.spec_bytes());
    if parts.len() == 0 { with_mbr } else { gpt_disk(grown(with_mbr, total * 512), total as u64, guid, parts) }
}

/// What a successful write of the hybrid structures leaves: on a GPT
/// profile the MBR and the GPT (disk GUID `g1`, partition GUIDs `g2` and
/// `g3`), else the image as it was.
pub open spec fn hybrid_ok(
    esp: Result<(Option<u32>, Option<u32>), IsoError>,
    use_gpt: bool,
    isohybrid: bool,
    total_lbas: u64,
    before: Seq<u8>,
    after: Seq<u8>,
    g1: Seq<u8>,
    g2: Seq<u8>,
    g3: Seq<u8>,
) -> bool {
    match esp {
        Err(_) => false,
        Ok(esp) => if !use_gpt {
            after == before
        } else {
            exists|m: Mbr, parts: Seq<GptPartitionEntry>|
                hybrid_mbr(m, gpt_total(total_lbas) as u32, isohybrid, esp.0, esp.1) && hybrid_parts(
                    parts,
                    gpt_total(total_lbas),
                    esp,
                    g2,
                    g3,
                ) && after == hybrid_image(before, m, parts, gpt_total(total_lbas), g1)
        },
    }
}

/// Whether writing the hybrid structures of an image of `total_lbas` ISO
/// sectors succeeds, or the error it fails with: the disk (the image plus
/// the backup GPT) must fit 32-bit sector numbers and memory, the ESP must
/// resolve, and on a GPT profile the type GUIDs of the partitions written
/// must parse. The GUIDs chosen for the disk and the partitions play no
/// part in it.
pub open spec fn hybrid_outcome(
    esp: Result<(Option<u32>, Option<u32>), IsoError>,
    use_gpt: bool,
    total_lbas: u64,
) -> Result<(), IsoError> {
    let total = gpt_total(total_lbas);
    if total > u32::MAX {
        Err(IsoError::ImageTooLarge)
    } else {
        match esp {
            Err(e) => Err(e),
            Ok(esp) => if total * 512 > usize::MAX {
                Err(IsoError::ImageTooLarge)
            } else {
                Ok(())
            },
        }
    }
}

impl IsoBuilder {
    /// The ESP of the hybrid structures, in 512-byte sectors.
    fn esp_for_hybrid(&self, esp_size_sectors: Option<u32>) -> (r: Result<(Option<u32>, Option<u32>), IsoError>)
        ensures
            r == esp_512(self.esp_lba, self.esp_size_sectors, self.disk_layout, self.profile, esp_size_sectors),
    {
        match (self.esp_lba, self.esp_size_sectors) {
            (Some(l), Some(s)) => {
                let a = if (l as u64) * 4 <= 0xFFFF_FFFF {
                    Some(l * 4)
                } else {
                    None
                };
                let b = if (s as u64) * 4 <= 0xFFFF_FFFF {
                    Some(s * 4)
                } else {
                    None
                };
                return Ok((a, b));
            },
            _ => {},
        }
        match &self.disk_layout {
            Some(layout) => {
                match layout.esp_partition() {
                    Some(esp) => Ok((Some(esp.start_lba_512 as u32), Some(esp.size_lba_512 as u32))),
                    None => Ok((None, None)),
                }
            },
            None => match esp_size_sectors {
                Some(sz) => {
                    if (sz as u64) * 4 > 0xFFFF_FFFF {
                        Err(IsoError::ImageTooLarge)
                    } else {
                        Ok((Some(self.profile.esp_alignment_lba_512), Some(sz * 4)))
                    }
                },
                None => Ok((None, None)),
            },
        }
    }

    /// Writes the hybrid MBR and, on a GPT profile, the GPT (disk GUID
    /// `disk_guid`, unique partition GUIDs `iso_guid` and `esp_guid`) of an
    /// image of `total_lbas` ISO sectors.
    #[verifier::rlimit(40)]
    pub fn write_hybrid_structures_with(
        &self,
        iso: &mut Vec<u8>,
        total_lbas: u64,
        esp_size_sectors: Option<u32>,
        disk_guid: [u8; 16],
        iso_guid: [u8; 16],
        esp_guid: [u8; 16],
    ) -> (r: Result<(), IsoError>)
        requires
            total_lbas <= u32::MAX,
        ensures
            final(iso)@.len() >= old(iso)@.len(),
            r == hybrid_outcome(
                esp_512(
                    self.spec_esp_lba(),
                    self.spec_esp_size(),
                    self.spec_disk_layout(),
                    self.spec_profile(),
                    esp_size_sectors,
                ),
                self.spec_profile().use_gpt,
                total_lbas,
            ),
            match esp_512(
                self.spec_esp_lba(),
                self.spec_esp_size(),
                self.spec_disk_layout(),
                self.spec_profile(),
                esp_size_sectors,
            ) {
                Err(e) => gpt_total(total_lbas) <= u32::MAX ==> r == Err::<(), IsoError>(e),
                Ok(esp) => if gpt_total(total_lbas) > u32::MAX || gpt_total(total_lbas) * 512 > usize::MAX {
                    r == Err::<(), IsoError>(IsoError::ImageTooLarge)
                } else if !self.spec_profile().use_gpt {
                    r is Ok && final(iso)@ == old(iso)@
                } else {
                    let total = gpt_total(total_lbas);
                    &&& r is Ok
                    &&& exists|m: Mbr, parts: Seq<GptPartitionEntry>|
                        hybrid_mbr(m, total as u32, self.spec_isohybrid(), esp.0, esp.1) && hybrid_parts(
                            parts,
                            total,
                            esp,
                            iso_guid@,
                            esp_guid@,
                        ) && final(iso)@ == hybrid_image(old(iso)@, m, parts, total, disk_guid@)
                }
            },
            r is Ok ==> hybrid_ok(
                esp_512(
                    self.spec_esp_lba(),
                    self.spec_esp_size(),
                    self.spec_disk_layout(),
                    self.spec_profile(),
                    esp_size_sectors,
                ),
                self.spec_profile().use_gpt,
                self.spec_isohybrid(),
                total_lbas,
                old(iso)@,
                final(iso)@,
                disk_guid@,
                iso_guid@,
                esp_guid@,
            ),
    {
        let raw = total_lbas * 4;
        let total_512 = ((raw + 33) + 3) / 4 * 4;
        if total_512 > 0xFFFF_FFFF {
            return Err(IsoError::ImageTooLarge);
        }
        let esp = match self.esp_for_hybrid(esp_size_sectors) {
            Ok(e) => e,
            Err(e) => return Err(e),
        };
        if total_512 > (usize::MAX / 512) as u64 {
            return Err(IsoError::ImageTooLarge);
        }
        if !self.profile.use_gpt {
            return Ok(());
        }
        let mbr = match create_mbr_for_gpt_hybrid(total_512 as u32, self.is_isohybrid, esp.0, esp.1) {
            Ok(m) => m,
            Err(e) => return Err(e),
        };
        let mb = mbr.to_bytes();
        write_at(iso, 0, &mb);
        let ghost with_mbr = iso@;
        let mut parts: Vec<GptPartitionEntry> = Vec::new();
        proof {
            lemma_type_guids();
        }
        let start: u64 = 34;
        let end: u64 = total_512.saturating_sub(34);
        if end > start {
            let t = match parse_guid(BASIC_DATA_GUID) {
                Some(b) => b,
                None => return Err(IsoError::InvalidGuid),
            };
            parts.push(GptPartitionEntry::from_guid_bytes(t, iso_guid, start, end, "ISO9660", 0));
        }
        match esp {
            (Some(s), Some(sz)) => {
                let e = s.saturating_add(sz).saturating_sub(1);
                if e > s {
                    let t = match parse_guid(EFI_SYSTEM_PARTITION_GUID) {
                        Some(b) => b,
                        None => return Err(IsoError::InvalidGuid),
                    };
                    parts.push(
                        GptPartitionEntry::from_guid_bytes(t, esp_guid, s as u64, e as u64, "EFI System Partition", 1),
                    );
                }
            },
            _ => {},
        }
        if parts.len() > 0 {
            let need = (total_512 as usize) * 512;
            if iso.len() < need {
                let n = need - iso.len();
                push_zeros(iso, n);
            }
            assert(iso@ == grown(with_mbr, total_512 * 512));
            write_gpt_structures_with_guid(iso, total_512, parts.as_slice(), disk_guid);
        }
        assert(hybrid_parts(parts@, total_512 as int, esp, iso_guid@, esp_guid@));
        assert(total_512 == gpt_total(total_lbas));
        assert(hybrid_mbr(mbr, total_512 as u32, self.is_isohybrid, esp.0, esp.1));
        assert(with_mbr == write_at_spec(old(iso)@, 0, mbr.spec_bytes()));
        assert(iso@ == hybrid_image(old(iso)@, mbr, parts@, total_512 as int, disk_guid@));
        Ok(())
    }

    /// Writes the hybrid MBR and GPT with random (version 4) GUIDs.
    pub fn write_hybrid_structures(&self, iso: &mut Vec<u8>, total_lbas: u64, esp_size_sectors: Option<u32>) -> (r:
        Result<(), IsoError>)
        requires
            total_lbas <= u32::MAX,
        ensures
            final(iso)@.len() >= old(iso)@.len(),
            r == hybrid_outcome(
                esp_512(
                    self.spec_esp_lba(),
                    self.spec_esp_size(),
                    self.spec_disk_layout(),
                    self.spec_profile(),
                    esp_size_sectors,
                ),
                self.spec_profile().use_gpt,
                total_lbas,
            ),
            r is Ok ==> exists|g1: Seq<u8>, g2: Seq<u8>, g3: Seq<u8>|
                #[trigger] hybrid_ok(
                    esp_512(
                        self.spec_esp_lba(),
                        self.spec_esp_size(),
                        self.spec_disk_layout(),
                        self.spec_profile(),
                        esp_size_sectors,
                    ),
                    self.spec_profile().use_gpt,
                    self.spec_isohybrid(),
                    total_lbas,
                    old(iso)@,
                    final(iso)@,
                    g1,
                    g2,
                    g3,
                ),
    {
        let g1 = random_guid();
        let g2 = random_guid();
        let g3 = random_guid();
        let r = self.write_hybrid_structures_with(iso, total_lbas, esp_size_sectors, g1, g2, g3);
        proof {
            if r is Ok {
                assert(hybrid_ok(
                    esp_512(self.esp_lba, self.esp_size_sectors, self.disk_layout, self.profile, esp_size_sectors),
                    self.profile.use_gpt,
                    self.is_isohybrid,
                    total_lbas,
                    old(iso)@,
                    iso@,
                    g1@,
                    g2@,
                    g3@,
                ));
            }
        }
        r
    }
}


/// The optional volume identifier's bytes.
pub open spec fn volume_bytes(v: Option<String>) -> Option<Seq<u8>> {
    match v {
        Some(s) => Some(encode_utf8(s@)),
        None => None,
    }
}

/// The image after the boot information table of the BIOS boot image
/// (when there is one), or why it cannot be written.
pub open spec fn with_boot_info(img: Seq<u8>, root: DirView, bi: Option<BootInfo>) -> Result<Seq<u8>, IsoError> {
    let bios = match bi {
        Some(b) => b.bios_boot,
        None => None,
    };
    match bios {
        None => Ok(img),
        Some(b) => match lookup_path(root, components(b.destination_in_iso@)) {
            None => Err(IsoError::NotFound),
            Some(NodeView::Dir(_)) => Err(IsoError::IsDirectory),
            Some(NodeView::File(f)) => {
                let base = f.lba * 2048;
                if base + 64 > usize::MAX {
                    Err(IsoError::ImageTooLarge)
                } else if f.size > 64 && base + f.size > img.len() {
                    Err(IsoError::Truncated)
                } else {
                    Ok(write_at_spec(img, base + 8, boot_info_table(f.lba, f.size, boot_checksum(img, base, f.size as int))))
                }
            },
        },
    }
}

/// The bytes of the ISO 9660 part of an image, written over `img`, with the
/// position after the data and the volume size in sectors: the
/// descriptors, the boot catalog (when there are entries), the directory
/// sectors, the file data (`data[i]` for the i-th file of `files_in`), the
/// boot information table, and the padding to a whole sector.
pub open spec fn iso_image_spec(
    img: Seq<u8>,
    volume_id: Option<Seq<u8>>,
    root: DirView,
    data_lba: u32,
    bi: Option<BootInfo>,
    esp_lba: Option<u32>,
    esp_size: Option<u32>,
    data: Seq<Seq<u8>>,
) -> Result<(Seq<u8>, u64, u32), IsoError> {
    let img1 = descriptors_image(img, volume_id, root.lba, data_lba);
    match boot_entries_spec(root, bi, esp_lba, esp_size) {
        Err(e) => Err(e),
        Ok(entries) => {
            let img2 = if entries.len() > 0 { write_at_spec(img1, 38912int, catalog_image(entries)) } else { img1 };
            match write_dirs(img2, 0, root, root.lba) {
                Err(e) => Err(e),
                Ok((img3, pos3)) => {
                    let files = files_in(root);
                    if exists|i: int| 0 <= i < files.len() && files[i].lba * 2048 + (#[trigger] data[i]).len() > usize::MAX {
                        Err(IsoError::ImageTooLarge)
                    } else {
                        let (img4, pos4) = files_image(img3, pos3, files, data, files.len() as int);
                        match with_boot_info(img4, root, bi) {
                            Err(e) => Err(e),
                            Ok(img5) => if padded_pos(pos4) > usize::MAX || padded_pos(pos4) / 2048 > u32::MAX {
                                Err(IsoError::ImageTooLarge)
                            } else {
                                let total = (padded_pos(pos4) / 2048) as u32;
                                Ok((with_total_sectors(padded_image(img5, pos4), total), padded_pos(pos4) as u64, total))
                            },
                        }
                    }
                },
            }
        },
    }
}

impl IsoBuilder {
    /// Writes the ISO 9660 part of the image over `iso` from the laid-out
    /// tree: `data[i]` is the content of the i-th file of `list_files`.
    /// Returns the volume size in sectors.
    pub fn write_iso(&mut self, iso: &mut Vec<u8>, data: &Vec<Vec<u8>>) -> (r: Result<u32, IsoError>)
        requires
            data@.len() == files_in(dir_view(old(self).spec_root())).len(),
        ensures
            final(self).spec_root() == old(self).spec_root(),
            final(self).spec_esp_lba() == old(self).spec_esp_lba(),
            final(self).spec_esp_size() == old(self).spec_esp_size(),
            final(self).spec_profile() == old(self).spec_profile(),
            final(self).spec_isohybrid() == old(self).spec_isohybrid(),
            final(self).spec_disk_layout() == old(self).spec_disk_layout(),
            match iso_image_spec(
                old(iso)@,
                volume_bytes(old(self).spec_volume_id()),
                dir_view(old(self).spec_root()),
                old(self).spec_data_lba(),
                old(self).spec_boot_info(),
                old(self).spec_esp_lba(),
                old(self).spec_esp_size(),
                data@.map_values(|d: Vec<u8>| d@),
            ) {
                Ok((img, _, total)) => r == Ok::<u32, IsoError>(total) && final(iso)@ == img,
                Err(e) => r == Err::<u32, IsoError>(e),
            },
            r is Ok ==> final(iso)@.len() >= 32856,
            r is Ok ==> final(iso)@.subrange(32848, 32852) == le32(r->Ok_0),
            r is Ok ==> final(iso)@.subrange(32852, 32856) == be32(r->Ok_0),
    {
        let ghost ds = data@.map_values(|d: Vec<u8>| d@);
        let ghost root = dir_view(self.root);
        let vid: Option<&str> = match &self.volume_id {
            Some(v) => Some(v.as_str()),
            None => None,
        };
        write_descriptors(iso, vid, self.root.lba, self.iso_data_lba);
        let entries = match self.prepare_boot_entries(self.esp_lba, self.esp_size_sectors) {
            Ok(e) => e,
            Err(e) => return Err(e),
        };
        let ghost es = entries@;
        write_boot_catalog_to_iso(iso, LBA_BOOT_CATALOG, entries);
        let mut pos: u64 = 0;
        match write_directories(iso, &mut pos, &self.root, self.root.lba) {
            Ok(()) => {},
            Err(e) => return Err(e),
        }
        let files = list_files(&self.root);
        assert(derefs(files@) == files_in(root));
        match copy_files(iso, &mut pos, &files, data) {
            Ok(()) => {},
            Err(e) => {
                proof {
                    let fs = files_in(root);
                    let i = choose|i: int| 0 <= i < files@.len() && !(files@[i].lba * 2048 + (#[trigger] data@[i])@.len() <= usize::MAX);
                    assert(fs[i] == *files@[i]);
                    assert(ds[i] == data@[i]@);
                    assert(fs[i].lba * 2048 + ds[i].len() > usize::MAX);
                }
                return Err(e);
            },
        }
        proof {
            let fs = files_in(root);
            assert forall|i: int| 0 <= i < fs.len() implies fs[i].lba * 2048 + (#[trigger] ds[i]).len() <= usize::MAX by {
                assert(fs[i] == *files@[i]);
                assert(ds[i] == data@[i]@);
            }
        }
        let end_of_data = pos;
        match &self.boot_info {
            Some(bi) => match &bi.bios_boot {
                Some(bios) => {
                    let lba = match get_lba_for_path(&self.root, bios.destination_in_iso.as_str()) {
                        Ok(l) => l,
                        Err(e) => return Err(e),
                    };
                    let size = match get_file_size_in_iso(&self.root, bios.destination_in_iso.as_str()) {
                        Ok(s) => s,
                        Err(e) => return Err(e),
                    };
                    match write_boot_info_table(iso, lba, size) {
                        Ok(()) => {},
                        Err(e) => return Err(e),
                    }
                },
                None => {},
            },
            None => {},
        }
        pos = end_of_data;
        let mut total: u32 = 0;
        match finalize_iso(iso, &mut pos, &mut total) {
            Ok(()) => {},
            Err(e) => return Err(e),
        }
        self.total_sectors = total;
        Ok(total)
    }
}


/// What finishing a hybrid image of `total` ISO sectors over `img` gives
/// (`r`, and the bytes `fin`): the error of the hybrid structures where
/// they cannot be written; else, for GUIDs `g1`, `g2`, `g3`, the image with
/// the MBR and GPT (`hyb`), padded to a whole sector, with that size
/// recorded as the volume size, or `ImageTooLarge` where the padded size
/// passes memory or 32-bit sector numbers.
pub open spec fn hybrid_finish(
    esp: Result<(Option<u32>, Option<u32>), IsoError>,
    use_gpt: bool,
    total: u32,
    img: Seq<u8>,
    r: Result<u32, IsoError>,
    fin: Seq<u8>,
) -> bool {
    match hybrid_outcome(esp, use_gpt, total as u64) {
        Err(e) => r == Err::<u32, IsoError>(e),
        Ok(_) => exists|hyb: Seq<u8>, g1: Seq<u8>, g2: Seq<u8>, g3: Seq<u8>|
            #[trigger] hybrid_ok(esp, use_gpt, true, total as u64, img, hyb, g1, g2, g3) && if padded_to_sector(
                hyb,
            ).len() > usize::MAX || padded_to_sector(hyb).len() / 2048 > u32::MAX {
                r == Err::<u32, IsoError>(IsoError::ImageTooLarge)
            } else {
                r == Ok::<u32, IsoError>((padded_to_sector(hyb).len() / 2048) as u32) && fin == with_total_sectors(
                    padded_to_sector(hyb),
                    (padded_to_sector(hyb).len() / 2048) as u32,
                )
            },
    }
}

/// The sector where the tree starts: after the boot catalog, or where the
/// disk layout puts the ISO data.
pub open spec fn data_start(dl: Option<DiskLayout>) -> u32 {
    match dl {
        Some(l) => l.iso_region.data_start_lba,
        None => 20,
    }
}

/// The image grown with zeros to a whole sector.
pub open spec fn padded_to_sector(img: Seq<u8>) -> Seq<u8> {
    if img.len() % 2048 == 0 { img } else { img + zeros((2048 - img.len() % 2048) as nat) }
}

impl IsoBuilder {
    /// Lays the tree out after the boot catalog (or where the disk layout
    /// puts the ISO data) and resolves the ESP image: the file added as the
    /// ESP image when there is one (its sector and its size in ISO
    /// sectors), else `esp_lba` and `esp_size_sectors`.
    pub fn prepare_layout(&mut self, esp_lba: Option<u32>, esp_size_sectors: Option<u32>) -> (r: Result<(), IsoError>)
        ensures
            final(self).spec_boot_info() == old(self).spec_boot_info(),
            final(self).spec_volume_id() == old(self).spec_volume_id(),
            final(self).spec_isohybrid() == old(self).spec_isohybrid(),
            final(self).spec_profile() == old(self).spec_profile(),
            final(self).spec_disk_layout() == old(self).spec_disk_layout(),
            ({
                let start = data_start(old(self).spec_disk_layout());
                let v = dir_view(old(self).spec_root());
                if start + dir_extent(v) > u32::MAX {
                    r == Err::<(), IsoError>(IsoError::ImageTooLarge)
                } else {
                    let laid = layout_dir(v, start as int);
                    &&& dir_view(final(self).spec_root()) == laid
                    &&& final(self).spec_data_lba() == start + dir_extent(v)
                    &&& match old(self).spec_efi_image_path() {
                        None => r is Ok && final(self).spec_esp_lba() == esp_lba && final(self).spec_esp_size()
                            == esp_size_sectors,
                        Some(p) => match lookup_path(laid, components(p@)) {
                            Some(NodeView::File(f)) => r is Ok && final(self).spec_esp_lba() == Some(f.lba)
                                && final(self).spec_esp_size() == Some((((f.size + 2047) / 2048) as int) as u32),
                            Some(NodeView::Dir(_)) => r == Err::<(), IsoError>(IsoError::IsDirectory),
                            None => r == Err::<(), IsoError>(IsoError::NotFound),
                        },
                    }
                }
            }),
    {
        self.esp_lba = esp_lba;
        self.esp_size_sectors = esp_size_sectors;
        let start = match &self.disk_layout {
            Some(l) => l.iso_region.data_start_lba,
            None => LBA_BOOT_CATALOG + 1,
        };
        match self.assign_lbas(start) {
            Ok(()) => {},
            Err(e) => return Err(e),
        }
        let resolved: (Option<u32>, Option<u32>) = match &self.efi_boot_image_iso_path {
            Some(ip) => {
                let l = match get_lba_for_path(&self.root, ip.as_str()) {
                    Ok(l) => l,
                    Err(e) => return Err(e),
                };
                let sz = match get_file_size_in_iso(&self.root, ip.as_str()) {
                    Ok(s) => s,
                    Err(e) => return Err(e),
                };
                let sectors = sz / 2048 + if sz % 2048 != 0 {
                    1
                } else {
                    0
                };
                (Some(l), Some(sectors as u32))
            },
            None => (esp_lba, esp_size_sectors),
        };
        self.esp_lba = resolved.0;
        self.esp_size_sectors = resolved.1;
        Ok(())
    }

    /// Writes the image over `iso` once laid out (`data[i]` is the content
    /// of the i-th file of `list_files`): the ISO 9660 part, then on a
    /// hybrid image the MBR and GPT, padded to a whole sector, with the
    /// volume size recorded again. Returns the volume size in sectors.
    pub fn write_image(&mut self, iso: &mut Vec<u8>, esp_size_sectors: Option<u32>, data: &Vec<Vec<u8>>) -> (r:
        Result<u32, IsoError>)
        requires
            data@.len() == files_in(dir_view(old(self).spec_root())).len(),
        ensures
            ({
                let core = iso_image_spec(
                    old(iso)@,
                    volume_bytes(old(self).spec_volume_id()),
                    dir_view(old(self).spec_root()),
                    old(self).spec_data_lba(),
                    old(self).spec_boot_info(),
                    old(self).spec_esp_lba(),
                    old(self).spec_esp_size(),
                    data@.map_values(|d: Vec<u8>| d@),
                );
                match core {
                    Err(e) => r == Err::<u32, IsoError>(e),
                    Ok((img, _, total)) => if !old(self).spec_isohybrid() {
                        r == Ok::<u32, IsoError>(total) && final(iso)@ == img
                    } else {
                        hybrid_finish(
                            esp_512(
                                old(self).spec_esp_lba(),
                                old(self).spec_esp_size(),
                                old(self).spec_disk_layout(),
                                old(self).spec_profile(),
                                esp_size_sectors,
                            ),
                            old(self).spec_profile().use_gpt,
                            total,
                            img,
                            r,
                            final(iso)@,
                        )
                    },
                }
            }),
            r is Ok ==> final(iso)@.subrange(32848, 32852) == le32(r->Ok_0),
            r is Ok ==> final(iso)@.subrange(32852, 32856) == be32(r->Ok_0),
            r is Ok && old(self).spec_isohybrid() ==> final(iso)@.len() == r->Ok_0 * 2048,
    {
        let total = match self.write_iso(iso, data) {
            Ok(t) => t,
            Err(e) => return Err(e),
        };
        if !self.is_isohybrid {
            return Ok(total);
        }
        let r = self.finish_hybrid(iso, total, esp_size_sectors);
        if let Ok(blocks) = r {
            self.total_sectors = blocks;
        }
        r
    }

    /// The hybrid structures written over the ISO 9660 image `iso` of
    /// `total` sectors, the image padded to a whole sector and its new
    /// size recorded in the primary descriptor.
    fn finish_hybrid(&self, iso: &mut Vec<u8>, total: u32, esp_size_sectors: Option<u32>) -> (r: Result<u32, IsoError>)
        requires
            old(iso)@.len() >= 32856,
            self.is_isohybrid,
        ensures
            hybrid_finish(
                esp_512(self.esp_lba, self.esp_size_sectors, self.disk_layout, self.profile, esp_size_sectors),
                self.profile.use_gpt,
                total,
                old(iso)@,
                r,
                final(iso)@,
            ),
            r is Ok ==> final(iso)@.subrange(32848, 32852) == le32(r->Ok_0),
            r is Ok ==> final(iso)@.subrange(32852, 32856) == be32(r->Ok_0),
            r is Ok ==> final(iso)@.len() == r->Ok_0 * 2048,
    {
        let ghost img = iso@;
        match self.write_hybrid_structures(iso, total as u64, esp_size_sectors) {
            Ok(()) => {},
            Err(e) => return Err(e),
        }
        let ghost hyb = iso@;
        let len = iso.len();
        let rem = len % 2048;
        if rem != 0 {
            let pad = 2048 - rem;
            if len > usize::MAX - pad {
                return Err(IsoError::ImageTooLarge);
            }
            push_zeros(iso, pad);
        }
        let blocks = iso.len() / 2048;
        if blocks > 0xFFFF_FFFF {
            return Err(IsoError::ImageTooLarge);
        }
        assert(iso@ == padded_to_sector(hyb));
        crate::iso::volume_descriptor::update_total_sectors_in_pvd(iso, blocks as u32);
        Ok(blocks as u32)
    }
}

} // verus!

verus! {

/// Once `add_file` has put a file at `path`, looking the path up finds
/// that file (so `get_lba_for_path` and `get_file_size_in_iso` give its
/// sector and size).
pub proof fn lemma_added_file_found(v: DirView, path: Seq<char>, file: IsoFile)
    requires
        view_wf(v),
        file_name_of(path) is Some,
        add_view(
            v,
            components(path).drop_last(),
            Some((encode_utf8(file_name_of(path)->0), NodeView::File(file))),
        ) is Some,
    ensures
        lookup_path(
            add_view(
                v,
                components(path).drop_last(),
                Some((encode_utf8(file_name_of(path)->0), NodeView::File(file))),
            )->0,
            components(path),
        ) == Some(NodeView::File(file)),
{
    let cs = components(path);
    crate::iso::builder_utils::lemma_add_then_lookup(v, cs.drop_last(), cs.last(), NodeView::File(file));
    assert(cs.drop_last().push(cs.last()) =~= cs);
}

} // verus!
