pub mod boot_info;
pub mod constants;
pub mod disk_layout;
pub mod error;
pub mod gpt;
pub mod iso_image;
pub mod layout_profile;
pub mod mbr;
pub mod boot_catalog;
pub mod dir_record;
pub mod volume_descriptor;
pub mod fs_node;
pub mod builder_utils;
pub mod iso_writer;
pub mod builder;
pub mod boot_image_iso;
pub mod iso;

pub use boot_image_iso::create_iso_from_img;
