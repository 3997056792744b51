use goofy_os::fat32::datetime::DateTime;
use goofy_os::fat32::disk::{DiskOperations, RamDisk};
use goofy_os::fat32::fs::Fat32FileSystem;
use goofy_os::manager::{create_directory, create_text_file, init_filesystem, read_text_file};
use goofy_os::notepad::{EditorKey, Notepad, NotepadMode};

type Fs = Option<Fat32FileSystem<RamDisk>>;

fn volume() -> Fs {
    let mut b = vec![0u8; 512];
    b[12] = 0x02;
    b[13] = 1;
    b[14] = 32;
    b[16] = 2;
    b[32..36].copy_from_slice(&340u32.to_le_bytes());
    b[36..40].copy_from_slice(&4u32.to_le_bytes());
    b[44..48].copy_from_slice(&2u32.to_le_bytes());
    b[510] = 0x55;
    b[511] = 0xAA;
    let mut disk = RamDisk::new(340);
    disk.write_sector(0, &b).unwrap();
    let mut fat = vec![0u8; 512];
    fat[0..12].copy_from_slice(&[0xF8, 0xFF, 0xFF, 0x0F, 0xFF, 0xFF, 0xFF, 0x0F, 0xFF, 0xFF, 0xFF, 0x0F]);
    disk.write_sector(32, &fat).unwrap();
    disk.write_sector(36, &fat).unwrap();
    let mut fs = None;
    init_filesystem(&mut fs, vec![disk]).unwrap();
    fs
}

fn now() -> DateTime {
    DateTime { year: 2024, month: 2, day: 29, hours: 12, minutes: 0, seconds: 0, millis: 0 }
}

fn type_text(n: &mut Notepad, fs: &mut Fs, s: &str) {
    for c in s.chars() {
        n.handle_char_input(fs, c, false, now());
    }
}

#[test]
fn new_editor_is_empty() {
    let mut fs: Fs = None;
    let n = Notepad::new(&mut fs, None);
    assert_eq!(n.text(), "");
    assert_eq!(n.cursor_position(), 0);
    assert!(!n.has_changes());
    assert_eq!(n.mode(), NotepadMode::Normal);
    assert_eq!(n.save_as_filename(), "untitled.txt");
    assert_eq!(n.save_as_current_path(), "/");
    assert_eq!(n.get_title(), Some("Untitled - Notepad".to_string()));
}

#[test]
fn opening_a_file_loads_its_text() {
    let mut fs = volume();
    create_text_file(&mut fs, "/todo.txt", "buy milk", now()).unwrap();
    let n = Notepad::new(&mut fs, Some("/todo.txt".to_string()));
    assert_eq!(n.text(), "buy milk");
    assert_eq!(n.get_title(), Some("todo.txt - Notepad".to_string()));
    let missing = Notepad::new(&mut fs, Some("/none.txt".to_string()));
    assert_eq!(missing.text(), "");
}

#[test]
fn typing_edits_at_the_cursor() {
    let mut fs: Fs = None;
    let mut n = Notepad::new(&mut fs, None);
    type_text(&mut n, &mut fs, "helo");
    n.handle_key_input(EditorKey::ArrowLeft);
    type_text(&mut n, &mut fs, "l");
    assert_eq!(n.text(), "hello");
    assert_eq!(n.cursor_position(), 4);
    n.handle_key_input(EditorKey::ArrowRight);
    type_text(&mut n, &mut fs, "\nworld\u{8}");
    assert_eq!(n.text(), "hello\nworl");
    assert!(n.has_changes());
    assert_eq!(n.get_display_text(), "hello\nworl");
    assert_eq!(n.get_cursor_visual_position(), (3 + 4 * 7, 5 + 18));
    assert_eq!(n.get_title(), Some("Untitled* - Notepad".to_string()));
}

#[test]
fn long_lines_are_cut() {
    let mut fs: Fs = None;
    let mut n = Notepad::new(&mut fs, None);
    let line: String = std::iter::repeat('a').take(100).collect();
    type_text(&mut n, &mut fs, &line);
    let text = n.get_display_text();
    let parts: Vec<&str> = text.split('\n').collect();
    assert_eq!(parts.len(), 2);
    assert_eq!(parts[0].len(), 84);
    assert_eq!(parts[1].len(), 16);
}

#[test]
fn ctrl_s_without_a_path_opens_save_as() {
    let mut fs = volume();
    create_directory(&mut fs, "/docs", now()).unwrap();
    let mut n = Notepad::new(&mut fs, None);
    type_text(&mut n, &mut fs, "draft");
    n.handle_char_input(&mut fs, 's', true, now());
    assert_eq!(n.mode(), NotepadMode::SaveAs);
    assert_eq!(n.save_as_filename(), "untitled.txt");
    // choose the folder, then open it
    n.handle_key_input(EditorKey::ArrowDown);
    n.handle_char_input(&mut fs, '\n', false, now());
    assert_eq!(n.save_as_current_path(), "/docs");
    // edit the name: drop ".txt", add ".md"
    for _ in 0..4 {
        n.handle_char_input(&mut fs, '\u{8}', false, now());
    }
    type_text(&mut n, &mut fs, ".md");
    assert_eq!(n.save_as_filename(), "untitled.md");
    assert!(n.perform_save_as(&mut fs, now()));
    assert_eq!(n.mode(), NotepadMode::Normal);
    assert!(!n.has_changes());
    assert_eq!(read_text_file(&mut fs, "/docs/untitled.md").unwrap(), "draft");
    assert_eq!(n.get_title(), Some("untitled.md - Notepad".to_string()));
}

#[test]
fn ctrl_s_with_a_path_writes_the_file() {
    let mut fs = volume();
    create_text_file(&mut fs, "/a.txt", "old", now()).unwrap();
    let mut n = Notepad::new(&mut fs, Some("/a.txt".to_string()));
    type_text(&mut n, &mut fs, "new ");
    n.handle_save(&mut fs, now());
    assert!(!n.has_changes());
    assert_eq!(read_text_file(&mut fs, "/a.txt").unwrap(), "new old");
}

#[test]
fn save_as_dialog_can_be_cancelled() {
    let mut fs = volume();
    let mut n = Notepad::new(&mut fs, None);
    n.trigger_save_as(&mut fs);
    assert_eq!(n.mode(), NotepadMode::SaveAs);
    n.handle_key_input(EditorKey::Escape);
    assert_eq!(n.mode(), NotepadMode::Normal);
    n.trigger_save_as(&mut fs);
    n.handle_mouse_click(&mut fs, 120, 350, now());
    assert_eq!(n.mode(), NotepadMode::Normal);
}

#[test]
fn save_button_saves() {
    let mut fs = volume();
    let mut n = Notepad::new(&mut fs, None);
    type_text(&mut n, &mut fs, "x");
    n.trigger_save_as(&mut fs);
    n.handle_mouse_click(&mut fs, 50, 350, now());
    assert_eq!(n.mode(), NotepadMode::Normal);
    assert_eq!(read_text_file(&mut fs, "/untitled.txt").unwrap(), "x");
}

#[test]
fn blank_name_is_not_saved() {
    let mut fs = volume();
    let mut n = Notepad::new(&mut fs, None);
    n.trigger_save_as(&mut fs);
    for _ in 0..12 {
        n.handle_char_input(&mut fs, '\u{8}', false, now());
    }
    type_text(&mut n, &mut fs, "  ");
    assert!(!n.perform_save_as(&mut fs, now()));
    assert_eq!(n.mode(), NotepadMode::SaveAs);
}

#[test]
fn clicking_a_folder_selects_then_opens_it() {
    let mut fs = volume();
    create_directory(&mut fs, "/docs", now()).unwrap();
    let mut n = Notepad::new(&mut fs, None);
    type_text(&mut n, &mut fs, "hi");
    n.trigger_save_as(&mut fs);
    n.handle_mouse_click(&mut fs, 600, 600, now());
    assert_eq!(n.mode(), NotepadMode::SaveAs);
    n.handle_mouse_click(&mut fs, 50, 90, now());
    assert_eq!(n.save_as_current_path(), "/");
    n.handle_mouse_click(&mut fs, 50, 90, now());
    assert_eq!(n.save_as_current_path(), "/docs");
    n.handle_mouse_click(&mut fs, 50, 350, now());
    assert_eq!(n.mode(), NotepadMode::Normal);
    assert_eq!(read_text_file(&mut fs, "/docs/untitled.txt").unwrap(), "hi");
}
