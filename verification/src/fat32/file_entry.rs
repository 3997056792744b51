//! The user-facing description of a file or directory.
use vstd::prelude::*;
use crate::fat32::datetime::{
    Date, DateTime, raw_date_to_date, raw_time_to_time, spec_add_millis, spec_raw_to_date,
    spec_raw_to_time,
};
use crate::fat32::entry::{DirectoryEntry, ATTR_DIRECTORY};
use crate::fat32::names::{name_8_3_to_string, spec_name_8_3};

verus! {

/// A file or directory as listed from a directory.
#[derive(Debug, Clone)]
pub struct FileEntry {
    pub name: String,
    pub is_directory: bool,
    pub size: u32,
    pub first_cluster: u32,
    pub created_at: DateTime,
    pub last_access_at: Date,
    pub last_write_at: DateTime,
}

/// The plain-value view of a `FileEntry`.
pub struct FileEntryView {
    pub name: Seq<char>,
    pub is_directory: bool,
    pub size: u32,
    pub first_cluster: u32,
    pub created_at: DateTime,
    pub last_access_at: Date,
    pub last_write_at: DateTime,
}

impl View for FileEntry {
    type V = FileEntryView;

    open spec fn view(&self) -> FileEntryView {
        FileEntryView {
            name: self.name@,
            is_directory: self.is_directory,
            size: self.size,
            first_cluster: self.first_cluster,
            created_at: self.created_at,
            last_access_at: self.last_access_at,
            last_write_at: self.last_write_at,
        }
    }
}

/// A copy of a file entry.
pub fn copy_entry(e: &FileEntry) -> (r: FileEntry)
    ensures
        r@ == e@,
{
    let name = crate::text::chars_of(e.name.as_str());
    FileEntry {
        name: crate::text::string_from_chars(name.as_slice()),
        is_directory: e.is_directory,
        size: e.size,
        first_cluster: e.first_cluster,
        created_at: e.created_at,
        last_access_at: e.last_access_at,
        last_write_at: e.last_write_at,
    }
}

pub open spec fn date_time_of(d: Date, t: crate::fat32::datetime::Time) -> DateTime {
    DateTime {
        year: d.year,
        month: d.month,
        day: d.day,
        hours: t.hours,
        minutes: t.minutes,
        seconds: t.seconds,
        millis: t.millis,
    }
}

/// The first cluster an entry points to (high and low halves joined).
pub open spec fn entry_first_cluster(e: DirectoryEntry) -> u32 {
    (e.first_cluster_high * 65536 + e.first_cluster_low) as u32
}

pub open spec fn attr_bit(attr: u8, bit: u8) -> bool {
    (attr / bit) % 2 == 1
}

/// The file entry described by a short entry and its long name, if any: the
/// long name when present and the 8.3 name otherwise; creation time carries the
/// entry's hundredths of a second as milliseconds.
pub open spec fn spec_file_entry(long_name: Option<Seq<char>>, e: DirectoryEntry) -> FileEntryView {
    FileEntryView {
        name: match long_name {
            Some(n) => n,
            None => spec_name_8_3(e.name@),
        },
        is_directory: attr_bit(e.attributes, ATTR_DIRECTORY),
        size: e.file_size,
        first_cluster: entry_first_cluster(e),
        created_at: date_time_of(
            spec_raw_to_date(e.creation_date),
            spec_add_millis(spec_raw_to_time(e.creation_time), e.creation_time_tenths as nat * 10),
        ),
        last_access_at: spec_raw_to_date(e.last_access_date),
        last_write_at: date_time_of(spec_raw_to_date(e.last_write_date), spec_raw_to_time(e.last_write_time)),
    }
}

pub open spec fn opt_string_view(o: Option<String>) -> Option<Seq<char>> {
    match o {
        Some(s) => Some(s@),
        None => None,
    }
}

/// Converts a short entry and its long name into a `FileEntry`.
pub fn entry_to_file_entry_with_lfn(long_filename: Option<String>, entry: &DirectoryEntry) -> (r: FileEntry)
    ensures
        r@ == spec_file_entry(opt_string_view(long_filename), *entry),
{
    let name = match long_filename {
        Some(lfn) => lfn,
        None => name_8_3_to_string(&entry.name),
    };
    let first_cluster = entry.first_cluster_high as u32 * 65536 + entry.first_cluster_low as u32;
    let created_date = raw_date_to_date(entry.creation_date);
    let mut created_time = raw_time_to_time(entry.creation_time);
    created_time.add_millis(entry.creation_time_tenths as u32 * 10);
    let last_access_date = raw_date_to_date(entry.last_access_date);
    let last_write_date = raw_date_to_date(entry.last_write_date);
    let last_write_time = raw_time_to_time(entry.last_write_time);
    FileEntry {
        name,
        is_directory: (entry.attributes / ATTR_DIRECTORY) % 2 == 1,
        size: entry.file_size,
        first_cluster,
        created_at: DateTime::from_date_and_time(created_date, created_time),
        last_access_at: last_access_date,
        last_write_at: DateTime::from_date_and_time(last_write_date, last_write_time),
    }
}

} // verus!
