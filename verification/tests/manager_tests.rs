use goofy_os::fat32::datetime::DateTime;
use goofy_os::fat32::disk::{DiskOperations, RamDisk};
use goofy_os::fat32::fs::Fat32FileSystem;
use goofy_os::manager::{
    copy_directory, copy_file, create_directory, create_file, create_text_file, delete_directory, delete_file,
    find_file, init_filesystem, is_file, list_directory, move_item, path_exists, read_file, read_text_file,
    rename_item, split_path, write_file,
};

const TOTAL_SECTORS: u32 = 340;

fn formatted_disk() -> RamDisk {
    let mut b = vec![0u8; 512];
    b[11] = 0x00;
    b[12] = 0x02;
    b[13] = 1;
    b[14] = 32;
    b[16] = 2;
    b[21] = 0xF8;
    b[32..36].copy_from_slice(&TOTAL_SECTORS.to_le_bytes());
    b[36..40].copy_from_slice(&4u32.to_le_bytes());
    b[44..48].copy_from_slice(&2u32.to_le_bytes());
    b[510] = 0x55;
    b[511] = 0xAA;
    let mut disk = RamDisk::new(TOTAL_SECTORS as usize);
    disk.write_sector(0, &b).unwrap();
    let mut fat = vec![0u8; 512];
    fat[0..4].copy_from_slice(&0x0FFF_FFF8u32.to_le_bytes());
    fat[4..8].copy_from_slice(&0x0FFF_FFFFu32.to_le_bytes());
    fat[8..12].copy_from_slice(&0x0FFF_FFFFu32.to_le_bytes());
    disk.write_sector(32, &fat).unwrap();
    disk.write_sector(36, &fat).unwrap();
    disk
}

fn volume() -> Option<Fat32FileSystem<RamDisk>> {
    let mut fs = None;
    init_filesystem(&mut fs, vec![RamDisk::new(4), formatted_disk()]).unwrap();
    fs
}

fn now() -> DateTime {
    DateTime { year: 2025, month: 1, day: 2, hours: 3, minutes: 4, seconds: 6, millis: 0 }
}

fn names(fs: &mut Option<Fat32FileSystem<RamDisk>>, path: &str) -> Vec<String> {
    list_directory(fs, path).unwrap().into_iter().map(|e| e.name).collect()
}

#[test]
fn mounting_needs_a_fat32_drive() {
    let mut fs: Option<Fat32FileSystem<RamDisk>> = None;
    assert_eq!(init_filesystem(&mut fs, vec![RamDisk::new(4)]), Err("No FAT32 filesystem found on any drive"));
    assert!(fs.is_none());
    assert_eq!(list_directory(&mut fs, "/").err(), Some("Filesystem not initialized"));
    assert!(volume().is_some());
}

#[test]
fn text_file_round_trip() {
    let mut fs = volume();
    create_text_file(&mut fs, "/notes.txt", "first line\nsecond", now()).unwrap();
    assert_eq!(read_text_file(&mut fs, "/notes.txt").unwrap(), "first line\nsecond");
    assert_eq!(path_exists(&mut fs, "/notes.txt"), Ok(Some(false)));
    assert_eq!(is_file(&mut fs, "/notes.txt"), Ok(true));
    assert_eq!(path_exists(&mut fs, "/missing"), Ok(None));
    assert_eq!(path_exists(&mut fs, "/"), Ok(Some(true)));
}

#[test]
fn invalid_utf8_is_reported() {
    let mut fs = volume();
    create_file(&mut fs, "/bin.dat", &[0xFF, 0xFE, 0x00], now()).unwrap();
    assert_eq!(read_file(&mut fs, "/bin.dat").unwrap(), vec![0xFF, 0xFE, 0x00]);
    assert_eq!(read_text_file(&mut fs, "/bin.dat"), Err("File is not valid UTF-8"));
}

#[test]
fn reading_missing_or_directory_fails() {
    let mut fs = volume();
    create_directory(&mut fs, "/docs", now()).unwrap();
    assert_eq!(read_file(&mut fs, "/nothing.txt"), Err("File not found"));
    assert_eq!(read_file(&mut fs, "/docs"), Err("Path does not specify a filename"));
}

#[test]
fn nested_directories() {
    let mut fs = volume();
    create_directory(&mut fs, "/docs", now()).unwrap();
    create_directory(&mut fs, "/docs/sub", now()).unwrap();
    create_text_file(&mut fs, "/docs/sub/deep.txt", "deep", now()).unwrap();
    assert!(names(&mut fs, "/").contains(&"docs".to_string()));
    assert!(names(&mut fs, "/docs").contains(&"sub".to_string()));
    assert!(names(&mut fs, "/docs/sub").contains(&"deep.txt".to_string()));
    let entry = find_file(&mut fs, "/docs/sub/deep.txt").unwrap().unwrap();
    assert_eq!(entry.size, 4);
    assert_eq!(path_exists(&mut fs, "/docs/sub"), Ok(Some(true)));
    assert_eq!(is_file(&mut fs, "/docs/sub"), Ok(false));
}

#[test]
fn creating_existing_names_fails() {
    let mut fs = volume();
    create_directory(&mut fs, "/docs", now()).unwrap();
    assert!(create_directory(&mut fs, "/docs", now()).is_err());
    create_text_file(&mut fs, "/a.txt", "a", now()).unwrap();
    assert!(create_file(&mut fs, "/a.txt", b"b", now()).is_err());
    assert_eq!(read_text_file(&mut fs, "/a.txt").unwrap(), "a");
}

#[test]
fn write_file_creates_then_overwrites() {
    let mut fs = volume();
    write_file(&mut fs, "/w.txt", b"one", now()).unwrap();
    assert_eq!(read_file(&mut fs, "/w.txt").unwrap(), b"one".to_vec());
    write_file(&mut fs, "/w.txt", b"two and more", now()).unwrap();
    assert_eq!(read_file(&mut fs, "/w.txt").unwrap(), b"two and more".to_vec());
}

#[test]
fn delete_file_and_directory() {
    let mut fs = volume();
    create_directory(&mut fs, "/d", now()).unwrap();
    create_text_file(&mut fs, "/d/f.txt", "x", now()).unwrap();
    assert_eq!(delete_directory(&mut fs, "/d"), Err("Directory not empty"));
    delete_file(&mut fs, "/d/f.txt").unwrap();
    assert_eq!(path_exists(&mut fs, "/d/f.txt"), Ok(None));
    delete_directory(&mut fs, "/d").unwrap();
    assert_eq!(path_exists(&mut fs, "/d"), Ok(None));
    assert!(delete_directory(&mut fs, "/").is_err());
}

#[test]
fn copy_file_duplicates_contents() {
    let mut fs = volume();
    create_text_file(&mut fs, "/src.txt", "payload", now()).unwrap();
    copy_file(&mut fs, "/src.txt", "/dst.txt", now()).unwrap();
    assert_eq!(read_text_file(&mut fs, "/dst.txt").unwrap(), "payload");
    assert_eq!(read_text_file(&mut fs, "/src.txt").unwrap(), "payload");
    assert_eq!(copy_file(&mut fs, "/src.txt", "/dst.txt", now()), Err("Destination already exists"));
    assert_eq!(copy_file(&mut fs, "/none.txt", "/x.txt", now()), Err("Source file not found"));
}

#[test]
fn copy_directory_stops_at_the_dot_entry() {
    // The listing of a subdirectory starts with its "." entry, whose copy
    // target already exists once the new directory is made.
    let mut fs = volume();
    create_directory(&mut fs, "/proj", now()).unwrap();
    create_text_file(&mut fs, "/proj/a.txt", "A", now()).unwrap();
    assert_eq!(copy_directory(&mut fs, "/proj", "/copy", now()), Err("Destination already exists"));
    assert_eq!(path_exists(&mut fs, "/copy"), Ok(Some(true)));
    assert_eq!(path_exists(&mut fs, "/copy/a.txt"), Ok(None));
    assert_eq!(copy_directory(&mut fs, "/proj/a.txt", "/x", now()), Err("Source path points to a file, not a directory"));
    assert_eq!(copy_directory(&mut fs, "/nothing", "/x", now()), Err("Source directory not found"));
    assert_eq!(read_text_file(&mut fs, "/proj/a.txt").unwrap(), "A");
}

#[test]
fn move_item_relocates() {
    let mut fs = volume();
    create_directory(&mut fs, "/box", now()).unwrap();
    create_text_file(&mut fs, "/item.txt", "thing", now()).unwrap();
    move_item(&mut fs, "/item.txt", "/box/item.txt", now()).unwrap();
    assert_eq!(path_exists(&mut fs, "/item.txt"), Ok(None));
    assert_eq!(read_text_file(&mut fs, "/box/item.txt").unwrap(), "thing");
    assert_eq!(move_item(&mut fs, "/item.txt", "/x.txt", now()), Err("Source path not found"));
}

#[test]
fn rename_keeps_directory() {
    let mut fs = volume();
    create_directory(&mut fs, "/box", now()).unwrap();
    create_text_file(&mut fs, "/box/old.txt", "content", now()).unwrap();
    rename_item(&mut fs, "/box/old.txt", "new.txt", now()).unwrap();
    assert_eq!(path_exists(&mut fs, "/box/old.txt"), Ok(None));
    assert_eq!(read_text_file(&mut fs, "/box/new.txt").unwrap(), "content");
    assert_eq!(rename_item(&mut fs, "/box/new.txt", "a/b", now()), Err("New name cannot contain path separators"));
}

#[test]
fn paths_split_into_components() {
    let parts: Vec<String> = split_path(&"/a//b/c/".chars().collect::<Vec<char>>())
        .into_iter()
        .map(|p| p.into_iter().collect())
        .collect();
    assert_eq!(parts, vec!["a".to_string(), "b".to_string(), "c".to_string()]);
    assert!(split_path(&['/']).is_empty());
}

#[test]
fn errors_name_what_is_wrong_with_the_path() {
    let mut fs = volume();
    create_directory(&mut fs, "/docs", now()).unwrap();
    create_text_file(&mut fs, "/a.txt", "a", now()).unwrap();
    assert!(matches!(list_directory(&mut fs, "/a.txt"), Err("Path points to a file, not a directory")));
    assert!(matches!(find_file(&mut fs, "/docs"), Err("Path does not specify a filename")));
    assert!(matches!(read_text_file(&mut fs, "/none.txt"), Err("File not found")));
    assert_eq!(copy_file(&mut fs, "/none.txt", "/b.txt", now()), Err("Source file not found"));
    assert_eq!(copy_file(&mut fs, "/a.txt", "/docs", now()), Err("Destination already exists"));
}

#[test]
fn volume_operations_report_their_errors() {
    let mut fs = volume();
    let f = fs.as_mut().unwrap();
    let root = f.get_root_cluster();
    f.create_file(root, "one.txt", b"1", now()).unwrap();
    assert_eq!(f.create_file(root, "ONE.TXT", b"2", now()), Err("File already exists"));
    f.create_directory(root, "dir", now()).unwrap();
    assert_eq!(f.create_directory(root, "dir", now()), Err("Directory already exists"));
    assert_eq!(f.delete_file(root, "two.txt"), Err("File not found"));
    assert_eq!(f.delete_file(root, "dir"), Err("Cannot delete directory using delete_file"));
    assert_eq!(f.delete_directory(root, "nope"), Err("Directory not found"));
    assert_eq!(f.delete_directory(root, "one.txt"), Err("Not a directory"));
    assert_eq!(f.update_file(root, "two.txt", b"x", now()), Err("File not found in directory"));
    assert_eq!(f.update_file(root, "dir", b"x", now()), Err("Cannot update directory as file"));
}

#[test]
fn a_new_directory_holds_dot_and_dotdot() {
    let mut fs = volume();
    create_directory(&mut fs, "/docs", now()).unwrap();
    let f = fs.as_mut().unwrap();
    let root = f.get_root_cluster();
    let docs = f.find_file_in_directory(root, "docs").unwrap().unwrap();
    let entries = f.read_directory_entries(docs.first_cluster).unwrap();
    assert_eq!(&entries[0].name, b".          ");
    assert_eq!(entries[0].first_cluster_high as u32 * 65536 + entries[0].first_cluster_low as u32, docs.first_cluster);
    assert_eq!(&entries[1].name, b"..         ");
    assert_eq!(entries[1].first_cluster_high as u32 * 65536 + entries[1].first_cluster_low as u32, root);
}

#[test]
fn deleting_a_file_frees_its_clusters() {
    let mut fs = volume();
    create_text_file(&mut fs, "/big.txt", &"x".repeat(1500), now()).unwrap();
    let first = find_file(&mut fs, "/big.txt").unwrap().unwrap().first_cluster;
    delete_file(&mut fs, "/big.txt").unwrap();
    let f = fs.as_mut().unwrap();
    assert_eq!(f.get_next_cluster(first), Ok(0));
    assert_eq!(f.find_free_cluster(), Ok(first));
}
