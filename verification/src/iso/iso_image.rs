//! The description of an image to build.
use crate::iso::boot_info::BootInfo;
use crate::iso::layout_profile::IsoLayoutProfile;
use std::path::PathBuf;
use vstd::prelude::*;

verus! {

/// A file to add to the image: where its bytes come from and its path in
/// the image.
#[derive(Clone, Debug)]
pub struct IsoImageFile {
    pub source: PathBuf,
    pub destination: String,
}

/// Configuration for the entire ISO image to be built.
#[derive(Clone, Debug)]
pub struct IsoImage {
    /// Defaults to ISOBEMAKI; at most 32 bytes are used.
    pub volume_id: Option<String>,
    pub files: Vec<IsoImageFile>,
    pub boot_info: BootInfo,
    /// The layout profile; the default is the hardware profile.
    pub layout_profile: IsoLayoutProfile,
}

} // verus!
