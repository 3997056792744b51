//! System information: heap use, processor description, filesystem summary.
use vstd::prelude::*;
use crate::config::{ARCHITECTURE, OS_NAME, OS_VERSION};

verus! {

/// Heap use in bytes.
pub struct HeapInfo {
    pub used_bytes: u64,
    pub free_bytes: u64,
    pub total_bytes: u64,
}

/// What the processor reports about itself.
pub struct CpuInfo {
    pub features: Vec<String>,
    pub vendor_id: String,
    pub model: String,
    pub base_frequency: Option<u16>,
    pub max_frequency: Option<u16>,
}

/// A summary of the mounted volume.
pub struct FilesystemInfo {
    pub filesystem_type: String,
    pub total_size: u64,
    pub bytes_per_sector: u16,
    pub sectors_per_cluster: u8,
    pub total_clusters: u32,
    pub volume_label: String,
    pub root_entries: u32,
    pub fat_count: u8,
    pub filesystem_version: u16,
}

/// Everything the system-information window shows.
pub struct SystemInfo {
    pub os_name: String,
    pub os_version: String,
    pub architecture: String,
    pub processor_vendor: String,
    pub processor_model: String,
    pub base_frequency: Option<u16>,
    pub max_frequency: Option<u16>,
    pub heap_size: u64,
    pub heap_start: u64,
    pub heap_used: u64,
    pub stack_size: usize,
    pub cpu_features: Vec<String>,
    pub filesystem_info: Option<FilesystemInfo>,
}

/// Heap use from the bytes the allocator has handed out and the heap's size
/// (free bytes saturate at 0).
pub fn get_heap_info(estimated_used: u64, heap_size: u64) -> (r: HeapInfo)
    ensures
        r.used_bytes == estimated_used,
        r.total_bytes == heap_size,
        r.free_bytes == if heap_size >= estimated_used { heap_size - estimated_used } else { 0 },
{
    HeapInfo {
        used_bytes: estimated_used,
        free_bytes: heap_size.saturating_sub(estimated_used),
        total_bytes: heap_size,
    }
}

/// Maximum stack use reported: the size of the kernel stack.
pub const MAX_STACK_USAGE: usize = 20480;

/// Stack bytes in use between the stack's base and the stack pointer, at most
/// `MAX_STACK_USAGE`.
pub fn estimate_stack_usage(stack_base: usize, current_sp: usize) -> (r: usize)
    requires
        current_sp <= stack_base,
    ensures
        r == if stack_base - current_sp < MAX_STACK_USAGE { stack_base - current_sp } else { MAX_STACK_USAGE as int },
{
    let used = stack_base - current_sp;
    if used < MAX_STACK_USAGE { used } else { MAX_STACK_USAGE }
}

impl SystemInfo {
    /// Assembles the system description from the configuration, the heap's
    /// layout and use, the kernel stack size, the processor and the volume.
    pub fn gather(heap: HeapInfo, heap_start: u64, stack_size: usize, cpu_info: CpuInfo, filesystem_info: Option<FilesystemInfo>) -> (r: SystemInfo)
        ensures
            r.os_name@ == OS_NAME@,
            r.os_version@ == OS_VERSION@,
            r.architecture@ == ARCHITECTURE@,
            r.processor_vendor@ == cpu_info.vendor_id@,
            r.processor_model@ == cpu_info.model@,
            r.base_frequency == cpu_info.base_frequency,
            r.max_frequency == cpu_info.max_frequency,
            r.heap_size == heap.total_bytes,
            r.heap_start == heap_start,
            r.heap_used == heap.used_bytes,
            r.stack_size == stack_size,
            r.cpu_features@ == cpu_info.features@,
            r.filesystem_info == filesystem_info,
    {
        SystemInfo {
            os_name: String::from_str(OS_NAME),
            os_version: String::from_str(OS_VERSION),
            architecture: String::from_str(ARCHITECTURE),
            processor_vendor: cpu_info.vendor_id,
            processor_model: cpu_info.model,
            base_frequency: cpu_info.base_frequency,
            max_frequency: cpu_info.max_frequency,
            heap_size: heap.total_bytes,
            heap_start,
            heap_used: heap.used_bytes,
            stack_size,
            cpu_features: cpu_info.features,
            filesystem_info,
        }
    }
}

} // verus!
