use goofy_os::fat32::datetime::DateTime;
use goofy_os::fat32::disk::{DiskOperations, RamDisk};
use goofy_os::fat32::fs::Fat32FileSystem;
use goofy_os::filemanager::{
    is_button_clicked, load_recommended_open_list, open_options_of, ClipboardOperation, FileManager, FileManagerKey,
    FileManagerMode,
};
use goofy_os::manager::{create_directory, create_text_file, init_filesystem, path_exists, read_text_file};

type Fs = Option<Fat32FileSystem<RamDisk>>;

const W: usize = 600;
const H: usize = 400;

fn volume() -> Fs {
    let mut b = vec![0u8; 512];
    b[12] = 0x02;
    b[13] = 1;
    b[14] = 32;
    b[16] = 2;
    b[32..36].copy_from_slice(&340u32.to_le_bytes());
    b[36..40].copy_from_slice(&4u32.to_le_bytes());
    b[44..48].copy_from_slice(&2u32.to_le_bytes());
    b[510] = 0x55;
    b[511] = 0xAA;
    let mut disk = RamDisk::new(340);
    disk.write_sector(0, &b).unwrap();
    let mut fat = vec![0u8; 512];
    fat[0..12].copy_from_slice(&[0xF8, 0xFF, 0xFF, 0x0F, 0xFF, 0xFF, 0xFF, 0x0F, 0xFF, 0xFF, 0xFF, 0x0F]);
    disk.write_sector(32, &fat).unwrap();
    disk.write_sector(36, &fat).unwrap();
    let mut fs = None;
    init_filesystem(&mut fs, vec![disk]).unwrap();
    fs
}

fn now() -> DateTime {
    DateTime { year: 2024, month: 3, day: 1, hours: 8, minutes: 30, seconds: 0, millis: 0 }
}

fn names(fm: &FileManager) -> Vec<String> {
    fm.files().iter().map(|f| f.name.clone()).collect()
}

fn enter_text(fm: &mut FileManager, fs: &mut Fs, s: &str) {
    for c in s.chars() {
        fm.handle_char_input(fs, now(), c);
    }
}

fn populated() -> Fs {
    let mut fs = volume();
    create_directory(&mut fs, "/docs", now()).unwrap();
    create_text_file(&mut fs, "/readme.txt", "hi", now()).unwrap();
    create_text_file(&mut fs, "/docs/inner.txt", "inside", now()).unwrap();
    fs
}

#[test]
fn starts_at_root_with_listing() {
    let mut fs = populated();
    let fm = FileManager::new(&mut fs);
    assert_eq!(fm.current_path(), "/");
    assert_eq!(names(&fm), vec!["docs", "readme.txt"]);
    assert_eq!(fm.status_message(), "Found 2 items");
    assert!(matches!(fm.mode(), FileManagerMode::Browse));
    assert_eq!(fm.get_breadcrumb_text(), "/ (Root)");
}

#[test]
fn listing_error_is_reported() {
    let mut fs: Fs = None;
    let fm = FileManager::new(&mut fs);
    assert_eq!(fm.status_message(), "Error: Filesystem not initialized");
    assert!(fm.files().is_empty());
}

#[test]
fn navigating_down_and_up() {
    let mut fs = populated();
    let mut fm = FileManager::new(&mut fs);
    assert_eq!(fm.navigate_up(&mut fs), Err("Already at root directory"));
    assert_eq!(fm.navigate_into_directory(&mut fs, "readme.txt"), Err("Directory not found or not a directory"));
    fm.navigate_into_directory(&mut fs, "docs").unwrap();
    assert_eq!(fm.current_path(), "/docs");
    assert_eq!(fm.get_breadcrumb_text(), "/docs");
    assert_eq!(fm.depth(), 1);
    assert_eq!(names(&fm), vec!["..", "inner.txt"]);
    fm.navigate_into_directory(&mut fs, "..").unwrap();
    assert_eq!(fm.current_path(), "/");
    assert_eq!(fm.depth(), 0);
    assert_eq!(fm.selected_file_index(), None);
}

#[test]
fn keyboard_selection_and_open() {
    let mut fs = populated();
    let mut fm = FileManager::new(&mut fs);
    fm.handle_key_input(&mut fs, now(), FileManagerKey::ArrowDown);
    assert_eq!(fm.selected_file_index(), Some(0));
    fm.handle_key_input(&mut fs, now(), FileManagerKey::ArrowDown);
    assert_eq!(fm.selected_file_index(), Some(1));
    fm.handle_key_input(&mut fs, now(), FileManagerKey::ArrowDown);
    assert_eq!(fm.selected_file_index(), Some(1));
    fm.handle_key_input(&mut fs, now(), FileManagerKey::ArrowUp);
    assert_eq!(fm.selected_file_index(), Some(0));
    fm.handle_key_input(&mut fs, now(), FileManagerKey::Return);
    assert_eq!(fm.current_path(), "/docs");
}

#[test]
fn opening_a_file_offers_applications() {
    let mut fs = populated();
    let mut fm = FileManager::new(&mut fs);
    fm.handle_click(&mut fs, now(), 50, 45 + 20 + 5, W, H); // second row: readme.txt
    assert_eq!(fm.selected_file_index(), Some(1));
    fm.open_selected(&mut fs);
    match fm.mode() {
        FileManagerMode::ViewFile(f) => assert_eq!(f.name, "readme.txt"),
        _ => panic!("expected the open dialog"),
    }
    fm.prepare_open_dialog();
    assert_eq!(fm.selected_open_file_app(), Some("notepad".to_string()));
    // choose the calculator row, then confirm
    let (used, open) = fm.handle_click(&mut fs, now(), 20, 135, W, H);
    assert!(used && open.is_none());
    assert_eq!(fm.selected_open_file_app(), Some("calculator".to_string()));
    let (used, open) = fm.handle_click(&mut fs, now(), 110, H - 50, W, H);
    assert!(used);
    assert_eq!(open, Some(("/readme.txt".to_string(), "calculator".to_string())));
    assert!(matches!(fm.mode(), FileManagerMode::Browse));
}

#[test]
fn recommended_applications() {
    let (rec, others) = load_recommended_open_list(&"NOTES.TXT".to_string());
    assert_eq!(rec, Some("notepad"));
    assert_eq!(others, vec!["calculator"]);
    let (rec, others) = load_recommended_open_list(&"image.png".to_string());
    assert_eq!(rec, None);
    assert_eq!(others, vec!["notepad", "calculator"]);
    assert_eq!(
        open_options_of(&"a.txt".to_string()),
        vec![(90, "notepad".to_string()), (130, "calculator".to_string())]
    );
}

#[test]
fn new_folder_dialog() {
    let mut fs = populated();
    let mut fm = FileManager::new(&mut fs);
    assert!(fm.handle_click(&mut fs, now(), 90, H - 50, W, H).0);
    assert!(matches!(fm.mode(), FileManagerMode::NewFolder));
    fm.handle_char_input(&mut fs, now(), '\n');
    assert_eq!(fm.status_message(), "Please enter a folder name");
    enter_text(&mut fm, &mut fs, "pics");
    assert_eq!(fm.input_text(), "pics");
    fm.handle_char_input(&mut fs, now(), '\n');
    assert_eq!(fm.status_message(), "Folder created successfully");
    assert!(matches!(fm.mode(), FileManagerMode::Browse));
    assert_eq!(fm.input_text(), "");
    assert_eq!(path_exists(&mut fs, "/pics"), Ok(Some(true)));
    assert!(names(&fm).contains(&"pics".to_string()));
}

#[test]
fn new_file_dialog() {
    let mut fs = populated();
    let mut fm = FileManager::new(&mut fs);
    fm.handle_click(&mut fs, now(), 20, H - 50, W, H);
    assert!(matches!(fm.mode(), FileManagerMode::NewFile));
    enter_text(&mut fm, &mut fs, "new.txt");
    fm.handle_key_input(&mut fs, now(), FileManagerKey::Backspace);
    enter_text(&mut fm, &mut fs, "t");
    fm.handle_key_input(&mut fs, now(), FileManagerKey::Return);
    assert_eq!(fm.status_message(), "Found 3 items");
    assert_eq!(path_exists(&mut fs, "/new.txt"), Ok(Some(false)));
}

#[test]
fn delete_dialogs() {
    let mut fs = populated();
    let mut fm = FileManager::new(&mut fs);
    fm.handle_click(&mut fs, now(), 170, H - 50, W, H);
    assert_eq!(fm.status_message(), "Please select a file or folder to delete");
    fm.handle_click(&mut fs, now(), 50, 50, W, H); // docs
    fm.delete_selected_file(&mut fs);
    assert_eq!(fm.status_message(), "Use Delete Folder for directories");
    fm.delete_selected_folder(&mut fs);
    assert!(fm.status_message().starts_with("Error deleting folder: "));
    fm.handle_click(&mut fs, now(), 50, 70, W, H); // readme.txt
    fm.handle_click(&mut fs, now(), 170, H - 50, W, H);
    assert!(matches!(fm.mode(), FileManagerMode::DeleteFile));
    fm.handle_click(&mut fs, now(), 20, H - 50, W, H);
    assert!(matches!(fm.mode(), FileManagerMode::Browse));
    assert_eq!(path_exists(&mut fs, "/readme.txt"), Ok(None));
    assert_eq!(names(&fm), vec!["docs"]);
}

#[test]
fn copy_and_paste() {
    let mut fs = populated();
    let mut fm = FileManager::new(&mut fs);
    fm.paste(&mut fs, now());
    assert_eq!(fm.status_message(), "Clipboard is empty");
    fm.set_clipboard(ClipboardOperation::Copy);
    assert_eq!(fm.status_message(), "Please select a file or folder to copy");
    fm.handle_click(&mut fs, now(), 50, 70, W, H); // readme.txt
    fm.handle_click(&mut fs, now(), 20, H - 80, W, H); // copy
    assert_eq!(fm.status_message(), "Copied 'readme.txt' to clipboard");
    let clip = fm.clipboard().as_ref().unwrap();
    assert_eq!(clip.file_path, "/readme.txt");
    assert_eq!(clip.operation, ClipboardOperation::Copy);
    fm.navigate_into_directory(&mut fs, "docs").unwrap();
    fm.handle_click(&mut fs, now(), 140, H - 80, W, H); // paste
    assert_eq!(read_text_file(&mut fs, "/docs/readme.txt").unwrap(), "hi");
    assert!(fm.clipboard().is_some());
    fm.paste(&mut fs, now());
    assert_eq!(fm.status_message(), "Paste failed: Destination already exists");
}

#[test]
fn cut_and_paste_moves() {
    let mut fs = populated();
    let mut fm = FileManager::new(&mut fs);
    fm.handle_click(&mut fs, now(), 50, 70, W, H); // readme.txt
    fm.handle_click(&mut fs, now(), 80, H - 80, W, H); // cut
    assert_eq!(fm.status_message(), "Cut 'readme.txt' to clipboard");
    fm.navigate_into_directory(&mut fs, "docs").unwrap();
    fm.paste(&mut fs, now());
    assert!(fm.clipboard().is_none());
    assert_eq!(path_exists(&mut fs, "/readme.txt"), Ok(None));
    assert_eq!(read_text_file(&mut fs, "/docs/readme.txt").unwrap(), "hi");
}

#[test]
fn rename_flow() {
    let mut fs = populated();
    let mut fm = FileManager::new(&mut fs);
    fm.start_rename();
    assert_eq!(fm.status_message(), "Please select a file or folder to rename");
    fm.handle_click(&mut fs, now(), 50, 70, W, H); // readme.txt
    fm.handle_click(&mut fs, now(), 200, H - 80, W, H); // rename
    assert!(matches!(fm.mode(), FileManagerMode::Rename(_)));
    assert_eq!(fm.input_text(), "readme.txt");
    for _ in 0..3 {
        fm.handle_char_input(&mut fs, now(), '\u{8}');
    }
    enter_text(&mut fm, &mut fs, "md");
    assert_eq!(fm.input_text(), "readme.md");
    fm.handle_char_input(&mut fs, now(), '\n');
    assert_eq!(fm.status_message(), "Successfully renamed to ''");
    assert_eq!(path_exists(&mut fs, "/readme.md"), Ok(Some(false)));
    assert_eq!(path_exists(&mut fs, "/readme.txt"), Ok(None));
}

#[test]
fn up_button_and_back_buttons() {
    let mut fs = populated();
    let mut fm = FileManager::new(&mut fs);
    fm.navigate_into_directory(&mut fs, "docs").unwrap();
    assert!(fm.handle_click(&mut fs, now(), W - 50, 10, W, H).0);
    assert_eq!(fm.current_path(), "/");
    fm.handle_click(&mut fs, now(), 90, H - 50, W, H); // new folder
    assert!(fm.handle_click(&mut fs, now(), 110, H - 50, W, H).0); // back
    assert!(matches!(fm.mode(), FileManagerMode::Browse));
    assert!(!fm.handle_click(&mut fs, now(), 590, 390, W, H).0);
}

#[test]
fn button_hit_test() {
    assert!(is_button_clicked(10, 10, 10, 10, 5, 5));
    assert!(is_button_clicked(14, 14, 10, 10, 5, 5));
    assert!(!is_button_clicked(15, 10, 10, 10, 5, 5));
    assert!(!is_button_clicked(9, 10, 10, 10, 5, 5));
}
