use goofy_os::fat32::datetime::{date_to_raw_date, raw_date_to_date, raw_time_to_time, time_to_raw_time, Date, DateTime, Time};
use goofy_os::fat32::disk::{DiskOperations, RamDisk};
use goofy_os::fat32::fs::Fat32FileSystem;
use goofy_os::fat32::lfn::{create_lfn_entries, reconstruct_long_filename, utf16_to_utf8, utf8_to_utf16};
use goofy_os::fat32::names::{calculate_checksum, fits_8_3_form, format_filename_8_3, name_8_3_to_string};

const TOTAL_SECTORS: u32 = 340;

fn boot_sector(bytes_per_sector: u16, fat16: u16) -> Vec<u8> {
    let mut b = vec![0u8; 512];
    b[0] = 0xEB;
    b[1] = 0x58;
    b[2] = 0x90;
    b[11] = (bytes_per_sector & 0xFF) as u8;
    b[12] = (bytes_per_sector >> 8) as u8;
    b[13] = 1; // sectors per cluster
    b[14] = 32; // reserved sectors
    b[16] = 2; // FAT copies
    b[21] = 0xF8;
    b[22] = (fat16 & 0xFF) as u8;
    b[23] = (fat16 >> 8) as u8;
    b[32..36].copy_from_slice(&TOTAL_SECTORS.to_le_bytes());
    b[36..40].copy_from_slice(&4u32.to_le_bytes()); // sectors per FAT
    b[44..48].copy_from_slice(&2u32.to_le_bytes()); // root cluster
    b[510] = 0x55;
    b[511] = 0xAA;
    b
}

fn formatted_disk() -> RamDisk {
    let mut disk = RamDisk::new(TOTAL_SECTORS as usize);
    disk.write_sector(0, &boot_sector(512, 0)).unwrap();
    let mut fat = vec![0u8; 512];
    fat[0..4].copy_from_slice(&0x0FFF_FFF8u32.to_le_bytes());
    fat[4..8].copy_from_slice(&0x0FFF_FFFFu32.to_le_bytes());
    fat[8..12].copy_from_slice(&0x0FFF_FFFFu32.to_le_bytes());
    disk.write_sector(32, &fat).unwrap();
    disk.write_sector(36, &fat).unwrap();
    disk
}

fn mounted() -> Fat32FileSystem<RamDisk> {
    match Fat32FileSystem::new(formatted_disk()) {
        Ok(fs) => fs,
        Err(e) => panic!("mount failed: {}", e),
    }
}

fn now() -> DateTime {
    DateTime { year: 2024, month: 5, day: 17, hours: 13, minutes: 45, seconds: 30, millis: 0 }
}

#[test]
fn mount_formatted_volume() {
    let fs = mounted();
    assert_eq!(fs.get_root_cluster(), 2);
    assert_eq!(fs.cluster_size_bytes(), 512);
    assert!(fs.is_root_directory(2));
    assert!(!fs.is_root_directory(3));
    assert_eq!(fs.boot_sector().fat_count, 2);
}

#[test]
fn mount_rejects_missing_signature() {
    let disk = RamDisk::new(TOTAL_SECTORS as usize);
    assert_eq!(Fat32FileSystem::new(disk).err(), Some("Invalid boot sector signature"));
}

#[test]
fn mount_rejects_fat16_volume() {
    let mut disk = RamDisk::new(TOTAL_SECTORS as usize);
    disk.write_sector(0, &boot_sector(512, 9)).unwrap();
    assert_eq!(Fat32FileSystem::new(disk).err(), Some("This is not a FAT32 filesystem (FAT16/12 detected)"));
}

#[test]
fn mount_rejects_other_sector_size() {
    let mut disk = RamDisk::new(TOTAL_SECTORS as usize);
    disk.write_sector(0, &boot_sector(1024, 0)).unwrap();
    assert_eq!(Fat32FileSystem::new(disk).err(), Some("Unsupported FAT32 layout"));
}

#[test]
fn ramdisk_rejects_out_of_range_sector() {
    let mut disk = RamDisk::new(2);
    let mut buf = vec![0u8; 512];
    assert_eq!(disk.read_sector(5, &mut buf), Err("Sector out of range"));
    let mut short = vec![0u8; 10];
    assert_eq!(disk.read_sector(0, &mut short), Err("Buffer size must match the sector size"));
    assert_eq!(disk.sector_count(), 2);
}

#[test]
fn ramdisk_write_checks_sector_and_length() {
    let mut disk = RamDisk::new(2);
    let data = vec![7u8; 512];
    assert_eq!(disk.write_sector(2, &data), Err("Sector out of range"));
    assert_eq!(disk.write_sector(1, &data[..100]), Err("Buffer size must match the sector size"));
    assert_eq!(disk.write_sector(1, &data), Ok(()));
    let mut buf = vec![0u8; 512];
    assert_eq!(disk.read_sector(1, &mut buf), Ok(()));
    assert_eq!(buf, data);
}

#[test]
fn create_then_find_and_read_back() {
    let mut fs = mounted();
    fs.create_file_in_root("hello.txt", b"Hello, FAT32!", now()).unwrap();
    let entry = fs.find_file_in_root("hello.txt").unwrap().expect("file is listed");
    assert_eq!(entry.name, "hello.txt");
    assert!(!entry.is_directory);
    assert_eq!(entry.size, 13);
    assert_eq!(entry.created_at.year, 2024);
    let data = fs.read_file(entry.first_cluster, entry.size).unwrap();
    assert_eq!(data, b"Hello, FAT32!".to_vec());
}

#[test]
fn create_twice_is_refused() {
    let mut fs = mounted();
    fs.create_file_in_root("a.txt", b"x", now()).unwrap();
    assert_eq!(fs.create_file_in_root("a.txt", b"y", now()), Err("File already exists"));
}

#[test]
fn multi_cluster_file_round_trip() {
    let mut fs = mounted();
    let data: Vec<u8> = (0..1500u32).map(|i| (i % 251) as u8).collect();
    fs.create_file_in_root("big.bin", &data, now()).unwrap();
    let entry = fs.find_file_in_root("big.bin").unwrap().unwrap();
    assert_eq!(entry.size, 1500);
    assert_eq!(fs.read_file(entry.first_cluster, entry.size).unwrap(), data);
}

#[test]
fn update_replaces_contents() {
    let mut fs = mounted();
    fs.create_file_in_root("note.txt", b"first", now()).unwrap();
    let longer: Vec<u8> = vec![b'z'; 700];
    fs.update_file_in_root("note.txt", &longer, now()).unwrap();
    let entry = fs.find_file_in_root("note.txt").unwrap().unwrap();
    assert_eq!(entry.size, 700);
    assert_eq!(fs.read_file(entry.first_cluster, entry.size).unwrap(), longer);
}

#[test]
fn update_of_missing_file_fails() {
    let mut fs = mounted();
    assert_eq!(fs.update_file_in_root("none.txt", b"x", now()), Err("File not found in directory"));
}

#[test]
fn delete_removes_file() {
    let mut fs = mounted();
    fs.create_file_in_root("gone.txt", b"bye", now()).unwrap();
    fs.delete_file_from_root("gone.txt").unwrap();
    assert!(fs.find_file_in_root("gone.txt").unwrap().is_none());
    assert_eq!(fs.delete_file_from_root("gone.txt"), Err("File not found"));
}

#[test]
fn long_file_name_is_listed() {
    let mut fs = mounted();
    fs.create_file_in_root("A rather long name.text", b"data", now()).unwrap();
    let names: Vec<String> = fs.list_root_directory().unwrap().into_iter().map(|e| e.name).collect();
    assert!(names.contains(&"A rather long name.text".to_string()));
    let entry = fs.find_file_in_root("A rather long name.text").unwrap().unwrap();
    assert_eq!(fs.read_file(entry.first_cluster, entry.size).unwrap(), b"data".to_vec());
}

#[test]
fn directories_are_created_and_removed() {
    let mut fs = mounted();
    fs.create_directory_in_root("docs", now()).unwrap();
    let entry = fs.find_file_in_root("docs").unwrap().unwrap();
    assert!(entry.is_directory);
    assert_eq!(fs.create_directory_in_root("docs", now()), Err("Directory already exists"));
    let inside: Vec<String> = fs.list_directory(entry.first_cluster).unwrap().into_iter().map(|e| e.name).collect();
    assert!(inside.contains(&".".to_string()));
    assert!(inside.contains(&"..".to_string()));
    assert!(fs.is_directory_empty(entry.first_cluster).unwrap());
    fs.create_file(entry.first_cluster, "inner.txt", b"in", now()).unwrap();
    assert!(!fs.is_directory_empty(entry.first_cluster).unwrap());
    assert_eq!(fs.delete_directory_from_root("docs"), Err("Directory not empty"));
    fs.delete_file(entry.first_cluster, "inner.txt").unwrap();
    fs.delete_directory_from_root("docs").unwrap();
    assert!(fs.find_file_in_root("docs").unwrap().is_none());
}

#[test]
fn delete_file_refuses_directories() {
    let mut fs = mounted();
    fs.create_directory_in_root("dir", now()).unwrap();
    assert_eq!(fs.delete_file_from_root("dir"), Err("Cannot delete directory using delete_file"));
}

#[test]
fn cluster_chain_write_then_read() {
    let mut fs = mounted();
    let first = fs.allocate_cluster_chain(3).unwrap();
    assert!(first >= 3);
    let data: Vec<u8> = (0..1200u32).map(|i| (i * 7 % 256) as u8).collect();
    fs.write_file(first, &data).unwrap();
    assert_eq!(fs.read_file(first, 1200).unwrap(), data);
    fs.free_cluster_chain(first).unwrap();
    assert_eq!(fs.get_next_cluster(first).unwrap(), 0);
}

#[test]
fn zero_cluster_chain_is_refused() {
    let mut fs = mounted();
    assert_eq!(fs.allocate_cluster_chain(0), Err("Cannot allocate zero clusters"));
}

#[test]
fn fat_entry_update_is_read_back() {
    let mut fs = mounted();
    fs.update_fat_entry(10, 0x0FFF_FFFF).unwrap();
    assert_eq!(fs.get_next_cluster(10).unwrap(), 0x0FFF_FFFF);
    assert_eq!(fs.find_free_cluster().unwrap(), 3);
}

#[test]
fn cluster_to_sector_formula() {
    let fs = mounted();
    // data region starts after 32 reserved and 2 x 4 FAT sectors
    assert_eq!(fs.cluster_to_sector(2), 40);
    assert_eq!(fs.cluster_to_sector(7), 45);
}

#[test]
fn short_names_are_formatted() {
    let chars: Vec<char> = "readme.txt".chars().collect();
    assert_eq!(&format_filename_8_3(&chars), b"README  TXT");
    let noext: Vec<char> = "kernel".chars().collect();
    assert_eq!(&format_filename_8_3(&noext), b"KERNEL     ");
    assert_eq!(name_8_3_to_string(b"README  TXT"), "README.TXT");
    assert_eq!(name_8_3_to_string(b"KERNEL     "), "KERNEL");
    assert!(!fits_8_3_form(&chars));
    let upper: Vec<char> = "README.TXT".chars().collect();
    assert!(fits_8_3_form(&upper));
    let long: Vec<char> = "a rather long name.text".chars().collect();
    assert!(!fits_8_3_form(&long));
}

#[test]
fn short_name_checksum() {
    // sum = ((sum & 1) << 7) + (sum >> 1) + byte over the 11 bytes
    let mut sum: u8 = 0;
    for &b in b"README  TXT" {
        sum = (if sum & 1 == 1 { 0x80u8 } else { 0 }).wrapping_add(sum >> 1).wrapping_add(b);
    }
    assert_eq!(calculate_checksum(b"README  TXT"), sum);
}

#[test]
fn utf16_round_trip() {
    let text: Vec<char> = "Grüße €".chars().collect();
    let units = utf8_to_utf16(&text);
    assert_eq!(units, "Grüße €".encode_utf16().collect::<Vec<u16>>());
    assert_eq!(utf16_to_utf8(&units), "Grüße €");
}

#[test]
fn long_name_entries_round_trip() {
    let name: Vec<char> = "My Document Name.txt".chars().collect();
    let short = b"MYDOCU~1TXT";
    let entries = create_lfn_entries(&name, calculate_checksum(short));
    assert_eq!(entries.len(), 2);
    assert_eq!(reconstruct_long_filename(&entries, short), Ok(Some("My Document Name.txt".to_string())));
}

#[test]
fn names_past_the_basic_plane_use_surrogate_pairs() {
    let text: Vec<char> = "a\u{1F600}b".chars().collect();
    let units = utf8_to_utf16(&text);
    assert_eq!(units, vec![0x61, 0xD83D, 0xDE00, 0x62]);
    assert_eq!(utf16_to_utf8(&units), "a\u{1F600}b");
    let lone = vec![0x61u16, 0xD83D, 0x62];
    assert_eq!(utf16_to_utf8(&lone), "ab");
    let name: Vec<char> = "smile \u{1F600} photo.jpeg".chars().collect();
    let short = b"SMILE~1 JPE";
    let entries = create_lfn_entries(&name, calculate_checksum(short));
    assert_eq!(entries.len(), 2);
    assert_eq!(reconstruct_long_filename(&entries, short), Ok(Some("smile \u{1F600} photo.jpeg".to_string())));
}

#[test]
fn raw_date_and_time_round_trip() {
    let d = Date { day: 17, month: 5, year: 2024 };
    let raw = date_to_raw_date(d);
    assert_eq!(raw, ((2024 - 1980) << 9) | (5 << 5) | 17);
    assert_eq!(raw_date_to_date(raw), d);
    let t = Time { millis: 0, seconds: 30, minutes: 45, hours: 13 };
    let rt = time_to_raw_time(t);
    assert_eq!(rt, (13 << 11) | (45 << 5) | 15);
    assert_eq!(raw_time_to_time(rt), t);
}

#[test]
fn time_adds_milliseconds() {
    let mut t = Time { millis: 900, seconds: 59, minutes: 59, hours: 23 };
    t.add_millis(200);
    assert_eq!((t.hours, t.minutes, t.seconds, t.millis), (0, 0, 0, 100));
    let d = DateTime::from_date_and_time(Date { day: 1, month: 2, year: 2003 }, t);
    assert_eq!((d.year, d.month, d.day, d.millis), (2003, 2, 1, 100));
    assert_eq!(d.to_time(), t);
}

#[test]
fn shrinking_update_frees_the_tail() {
    let mut fs = mounted();
    let data: Vec<u8> = (0..1500u32).map(|i| (i % 13) as u8).collect();
    fs.create_file_in_root("shrink.bin", &data, now()).unwrap();
    let before = fs.find_file_in_root("shrink.bin").unwrap().unwrap();
    let second = fs.get_next_cluster(before.first_cluster).unwrap();
    let third = fs.get_next_cluster(second).unwrap();
    let short: Vec<u8> = vec![b'q'; 600];
    fs.update_file_in_root("shrink.bin", &short, now()).unwrap();
    let after = fs.find_file_in_root("shrink.bin").unwrap().unwrap();
    assert_eq!(after.first_cluster, before.first_cluster);
    assert_eq!(after.size, 600);
    assert_eq!(fs.read_file(after.first_cluster, after.size).unwrap(), short);
    assert_eq!(fs.get_next_cluster(second).unwrap(), 0x0FFF_FFFF);
    assert_eq!(fs.get_next_cluster(third).unwrap(), 0);
}

#[test]
fn same_size_update_keeps_the_chain() {
    let mut fs = mounted();
    fs.create_file_in_root("same.txt", b"abc", now()).unwrap();
    let before = fs.find_file_in_root("same.txt").unwrap().unwrap();
    fs.update_file_in_root("same.txt", b"xyz!", now()).unwrap();
    let after = fs.find_file_in_root("same.txt").unwrap().unwrap();
    assert_eq!(after.first_cluster, before.first_cluster);
    assert_eq!(fs.read_file(after.first_cluster, after.size).unwrap(), b"xyz!".to_vec());
}

#[test]
fn emptying_update_releases_the_chain() {
    let mut fs = mounted();
    fs.create_file_in_root("gone.txt", b"some text", now()).unwrap();
    let before = fs.find_file_in_root("gone.txt").unwrap().unwrap();
    fs.update_file_in_root("gone.txt", b"", now()).unwrap();
    let after = fs.find_file_in_root("gone.txt").unwrap().unwrap();
    assert_eq!(after.first_cluster, 0);
    assert_eq!(after.size, 0);
    assert_eq!(fs.get_next_cluster(before.first_cluster).unwrap(), 0);
}

#[test]
fn freeing_a_chain_frees_every_cluster() {
    let mut fs = mounted();
    let first = fs.allocate_cluster_chain(3).unwrap();
    let second = fs.get_next_cluster(first).unwrap();
    let third = fs.get_next_cluster(second).unwrap();
    assert_eq!(fs.get_next_cluster(third).unwrap(), 0x0FFF_FFFF);
    fs.free_cluster_chain(first).unwrap();
    assert_eq!(fs.get_next_cluster(first).unwrap(), 0);
    assert_eq!(fs.get_next_cluster(second).unwrap(), 0);
    assert_eq!(fs.get_next_cluster(third).unwrap(), 0);
    assert_eq!(fs.free_cluster_chain(1), Err("Invalid cluster number for freeing"));
}

#[test]
fn deleted_entry_is_marked() {
    let mut fs = mounted();
    fs.create_file_in_root("mark.txt", b"m", now()).unwrap();
    fs.mark_directory_entry_deleted(2, "mark.txt").unwrap();
    assert!(fs.find_file_in_root("mark.txt").unwrap().is_none());
    let mut buf = vec![0u8; 512];
    fs.read_cluster(2, &mut buf).unwrap();
    assert_eq!(buf[0], 0xE5);
}

#[test]
fn mount_reports_device_errors_and_bad_signatures() {
    let mut disk = RamDisk::new(TOTAL_SECTORS as usize);
    let mut b = boot_sector(512, 0);
    b[510] = 0;
    disk.write_sector(0, &b).unwrap();
    assert_eq!(Fat32FileSystem::new(disk).err(), Some("Invalid boot sector signature"));
    let empty = RamDisk::new(0);
    assert_eq!(Fat32FileSystem::new(empty).err(), Some("Sector out of range"));
}
