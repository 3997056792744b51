//! Static build configuration of the operating system.
use vstd::prelude::*;

verus! {

/// How the machine was booted.
#[derive(PartialEq, Eq, Structural)]
pub enum BootMode {
    Bios,
    Uefi,
}

/// Filesystem types the kernel can mount.
#[derive(PartialEq, Eq, Structural)]
pub enum FileSystem {
    Fat32,
}

/// The system configuration record.
pub struct Config {
    pub os_name: &'static str,
    pub os_version: &'static str,
    pub architecture: &'static str,
    pub processes_enabled: bool,
    pub boot_mode: BootMode,
    pub fs_type: FileSystem,
}

pub const OS_NAME: &'static str = "Goofy OS";
pub const OS_VERSION: &'static str = "0.1.0";
pub const ARCHITECTURE: &'static str = "x86_64";
pub const PROCESSES_ENABLED: bool = false;
pub const IS_UEFI: bool = true;
pub const APIC_ENABLED: bool = true;
pub const LEGACY_PIC_ENABLED: bool = false;

/// The configuration the kernel is built with.
pub fn config() -> (c: Config)
    ensures
        c.processes_enabled == PROCESSES_ENABLED,
        c.boot_mode == BootMode::Uefi,
        c.fs_type == FileSystem::Fat32,
        c.os_name@ == OS_NAME@,
        c.os_version@ == OS_VERSION@,
        c.architecture@ == ARCHITECTURE@,
{
    Config {
        os_name: OS_NAME,
        os_version: OS_VERSION,
        architecture: ARCHITECTURE,
        processes_enabled: PROCESSES_ENABLED,
        boot_mode: BootMode::Uefi,
        fs_type: FileSystem::Fat32,
    }
}

} // verus!
