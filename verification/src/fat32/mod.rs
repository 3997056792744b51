//! The FAT32 filesystem.
pub mod datetime;
pub mod entry;
pub mod names;
pub mod lfn;
pub mod file_entry;
pub mod disk;
pub mod boot;
pub mod fs;
pub mod dir;
pub mod short_name;
pub mod dir_write;
pub mod files;
pub mod chain_laws;
pub mod fat_laws;
pub mod dir_chain;
