//! Read-only access to FAT12 disk images: boot parameter block decoding,
//! root directory enumeration, and cluster-chain traversal, all verified.
pub mod boot;
pub mod chain;
pub mod dir;
pub mod error;
pub mod image;
pub mod layout;
pub mod sector;

pub use error::FatError;
pub use image::FAT12;
