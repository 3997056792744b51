use goofy_os::fat32::datetime::DateTime;
use goofy_os::fat32::disk::{DiskOperations, RamDisk};
use goofy_os::fat32::fs::Fat32FileSystem;
use goofy_os::manager::{create_directory, create_text_file, init_filesystem};
use goofy_os::terminal::{Terminal, TerminalKey, TerminalMode};
use goofy_os::terminal_text::{padded_decimal, text_lines_of, words_of};

type Fs = Option<Fat32FileSystem<RamDisk>>;

fn formatted_disk() -> RamDisk {
    let mut b = vec![0u8; 512];
    b[12] = 0x02;
    b[13] = 1;
    b[14] = 32;
    b[16] = 2;
    b[32..36].copy_from_slice(&340u32.to_le_bytes());
    b[36..40].copy_from_slice(&4u32.to_le_bytes());
    b[44..48].copy_from_slice(&2u32.to_le_bytes());
    b[510] = 0x55;
    b[511] = 0xAA;
    let mut disk = RamDisk::new(340);
    disk.write_sector(0, &b).unwrap();
    let mut fat = vec![0u8; 512];
    fat[0..12].copy_from_slice(&[0xF8, 0xFF, 0xFF, 0x0F, 0xFF, 0xFF, 0xFF, 0x0F, 0xFF, 0xFF, 0xFF, 0x0F]);
    disk.write_sector(32, &fat).unwrap();
    disk.write_sector(36, &fat).unwrap();
    disk
}

fn now() -> DateTime {
    DateTime { year: 2024, month: 5, day: 7, hours: 13, minutes: 4, seconds: 9, millis: 7 }
}

fn run(t: &mut Terminal, fs: &mut Fs, layout: &mut usize, line: &str) {
    for c in line.chars() {
        t.handle_char_input(fs, layout, now(), 3_723_000, c, false);
    }
    t.handle_char_input(fs, layout, now(), 3_723_000, '\n', false);
}

fn output(t: &Terminal) -> Vec<String> {
    t.output_lines()
}

fn last(t: &Terminal) -> String {
    output(t).last().cloned().unwrap()
}

#[test]
fn greeting_and_prompt() {
    let t = Terminal::new();
    assert_eq!(output(&t), vec!["GoofyOS Terminal v0.1.0", "Type 'help' for available commands", ""]);
    assert_eq!(t.display_lines().last().unwrap(), "goofy> ");
    assert_eq!(
        t.get_display_text(),
        "GoofyOS Terminal v0.1.0\nType 'help' for available commands\n\ngoofy> "
    );
    assert_eq!(t.get_cursor_visual_position(), (3 + 7 * 7, 5 + 3 * 18));
    assert_eq!(t.mode(), TerminalMode::Command);
    assert_eq!(t.get_title(), Some("Terminal".to_string()));
}

#[test]
fn echo_joins_words() {
    let (mut fs, mut layout): (Fs, usize) = (None, 0);
    let mut t = Terminal::new();
    run(&mut t, &mut fs, &mut layout, "echo  hello   world ");
    let out = output(&t);
    assert_eq!(out[out.len() - 2], "goofy> echo  hello   world ");
    assert_eq!(last(&t), "hello world");
    assert_eq!(t.history(), vec!["echo  hello   world "]);
    assert_eq!(t.current_command(), "");
    assert_eq!(t.command_cursor(), 0);
}

#[test]
fn unknown_command_is_reported() {
    let (mut fs, mut layout): (Fs, usize) = (None, 0);
    let mut t = Terminal::new();
    run(&mut t, &mut fs, &mut layout, "frobnicate now");
    assert_eq!(last(&t), "Command not found: frobnicate now");
}

#[test]
fn empty_line_prints_nothing() {
    let (mut fs, mut layout): (Fs, usize) = (None, 0);
    let mut t = Terminal::new();
    run(&mut t, &mut fs, &mut layout, "");
    assert_eq!(output(&t).len(), 3);
    assert!(t.history().is_empty());
}

#[test]
fn help_lists_commands() {
    let (mut fs, mut layout): (Fs, usize) = (None, 0);
    let mut t = Terminal::new();
    run(&mut t, &mut fs, &mut layout, "help");
    let out = output(&t);
    assert_eq!(out.len(), 3 + 1 + 12);
    assert_eq!(out[4], "Available commands:");
    assert_eq!(out[14], "  setkeyboard - Change keyboard layout");
    assert_eq!(out[15], "");
}

#[test]
fn clear_empties_output() {
    let (mut fs, mut layout): (Fs, usize) = (None, 0);
    let mut t = Terminal::new();
    run(&mut t, &mut fs, &mut layout, "clear");
    assert_eq!(output(&t), vec!["Terminal cleared."]);
    assert_eq!(t.display_lines(), vec!["Terminal cleared.", "goofy> "]);
}

#[test]
fn output_keeps_last_lines() {
    let (mut fs, mut layout): (Fs, usize) = (None, 0);
    let mut t = Terminal::new();
    run(&mut t, &mut fs, &mut layout, "help");
    run(&mut t, &mut fs, &mut layout, "help");
    let out = output(&t);
    assert_eq!(out.len(), 24);
    assert_eq!(out[23], "");
    assert_eq!(out[11], "goofy> help");
}

#[test]
fn date_time_and_uptime() {
    let (mut fs, mut layout): (Fs, usize) = (None, 0);
    let mut t = Terminal::new();
    run(&mut t, &mut fs, &mut layout, "date");
    assert_eq!(last(&t), "2024-05-07 13:04:09 UTC");
    run(&mut t, &mut fs, &mut layout, "time");
    assert_eq!(last(&t), "13:04:09.007");
    run(&mut t, &mut fs, &mut layout, "uptime");
    assert_eq!(last(&t), "Uptime: 01:02:03");
    run(&mut t, &mut fs, &mut layout, "version");
    assert_eq!(last(&t), "GoofyOS v0.1.0 - Built with Rust");
}

#[test]
fn keyboard_layout_command() {
    let (mut fs, mut layout): (Fs, usize) = (None, 0);
    let mut t = Terminal::new();
    run(&mut t, &mut fs, &mut layout, "setkeyboard qwerty");
    assert_eq!(layout, 1);
    assert_eq!(last(&t), "Keyboard layout changed to: qwerty");
    run(&mut t, &mut fs, &mut layout, "setkeyboard klingon");
    assert_eq!(layout, 1);
    assert_eq!(last(&t), "Failed to change keyboard layout to: klingon");
    run(&mut t, &mut fs, &mut layout, "setkeyboard");
    let out = output(&t);
    assert_eq!(out[out.len() - 2], "Current keyboard layout: \"qwerty\"");
    assert_eq!(last(&t), "Usage: setkeyboard <layout>");
}

#[test]
fn ls_and_cat_read_the_volume() {
    let mut fs: Fs = None;
    let mut layout = 0usize;
    let mut t = Terminal::new();
    run(&mut t, &mut fs, &mut layout, "ls");
    assert_eq!(last(&t), "Error listing directory: Filesystem not initialized");
    init_filesystem(&mut fs, vec![formatted_disk()]).unwrap();
    create_text_file(&mut fs, "/readme.txt", "line one\r\nline two\n", now()).unwrap();
    create_directory(&mut fs, "/docs", now()).unwrap();
    run(&mut t, &mut fs, &mut layout, "ls");
    let out = output(&t);
    assert_eq!(out[out.len() - 3], "Directory listing:");
    assert_eq!(out[out.len() - 2], "readme.txt");
    assert_eq!(out[out.len() - 1], "docs");
    run(&mut t, &mut fs, &mut layout, "cat /readme.txt");
    let out = output(&t);
    assert_eq!(out[out.len() - 2..].to_vec(), vec!["line one", "line two"]);
    run(&mut t, &mut fs, &mut layout, "cat /nope.txt");
    assert_eq!(last(&t), "Error reading file: File not found");
    run(&mut t, &mut fs, &mut layout, "cat");
    assert_eq!(last(&t), "Usage: cat <filename>");
}

#[test]
fn editing_at_the_cursor() {
    let (mut fs, mut layout): (Fs, usize) = (None, 0);
    let mut t = Terminal::new();
    for c in "eco".chars() {
        t.handle_char_input(&mut fs, &mut layout, now(), 0, c, false);
    }
    t.handle_key_input(TerminalKey::ArrowLeft);
    t.handle_char_input(&mut fs, &mut layout, now(), 0, 'h', false);
    assert_eq!(t.current_command(), "echo");
    assert_eq!(t.command_cursor(), 3);
    t.handle_char_input(&mut fs, &mut layout, now(), 0, '\u{8}', false);
    assert_eq!(t.current_command(), "eco");
    t.handle_char_input(&mut fs, &mut layout, now(), 0, 'h', false);
    t.handle_key_input(TerminalKey::End);
    t.handle_char_input(&mut fs, &mut layout, now(), 0, 'o', false);
    assert_eq!(t.current_command(), "echoo");
    t.handle_key_input(TerminalKey::Home);
    t.handle_key_input(TerminalKey::Delete);
    assert_eq!(t.current_command(), "choo");
    assert_eq!(t.command_cursor(), 0);
    assert_eq!(t.display_lines().last().unwrap(), "goofy> choo");
}

#[test]
fn ctrl_keys() {
    let (mut fs, mut layout): (Fs, usize) = (None, 0);
    let mut t = Terminal::new();
    for c in "abc".chars() {
        t.handle_char_input(&mut fs, &mut layout, now(), 0, c, false);
    }
    t.handle_char_input(&mut fs, &mut layout, now(), 0, 'c', true);
    assert_eq!(t.current_command(), "");
    assert_eq!(last(&t), "^C");
    t.handle_char_input(&mut fs, &mut layout, now(), 0, 'L', true);
    assert_eq!(output(&t), vec!["Terminal cleared", ""]);
}

#[test]
fn history_navigation() {
    let (mut fs, mut layout): (Fs, usize) = (None, 0);
    let mut t = Terminal::new();
    run(&mut t, &mut fs, &mut layout, "echo one");
    run(&mut t, &mut fs, &mut layout, "echo two");
    t.handle_char_input(&mut fs, &mut layout, now(), 0, 'x', false);
    t.handle_key_input(TerminalKey::ArrowUp);
    assert_eq!(t.current_command(), "echo two");
    t.handle_key_input(TerminalKey::ArrowUp);
    assert_eq!(t.current_command(), "echo one");
    t.handle_key_input(TerminalKey::ArrowDown);
    assert_eq!(t.current_command(), "echo two");
    t.handle_key_input(TerminalKey::ArrowDown);
    assert_eq!(t.current_command(), "");
    assert_eq!(t.command_cursor(), 0);
}

#[test]
fn history_keeps_fifty_commands() {
    let (mut fs, mut layout): (Fs, usize) = (None, 0);
    let mut t = Terminal::new();
    for i in 0..55 {
        run(&mut t, &mut fs, &mut layout, &format!("echo {}", i));
    }
    let h = t.history();
    assert_eq!(h.len(), 50);
    assert_eq!(h[0], "echo 5");
    assert_eq!(h[49], "echo 54");
}

#[test]
fn tab_completes_commands() {
    let (mut fs, mut layout): (Fs, usize) = (None, 0);
    let mut t = Terminal::new();
    t.handle_char_input(&mut fs, &mut layout, now(), 0, 'u', false);
    t.handle_char_input(&mut fs, &mut layout, now(), 0, '\t', false);
    assert_eq!(t.current_command(), "uptime");
    assert_eq!(t.command_cursor(), 6);
    let mut t2 = Terminal::new();
    t2.handle_char_input(&mut fs, &mut layout, now(), 0, 'c', false);
    t2.complete_command();
    assert_eq!(t2.current_command(), "clear");
    let mut t3 = Terminal::new();
    t3.handle_char_input(&mut fs, &mut layout, now(), 0, 'z', false);
    t3.complete_command();
    assert_eq!(t3.current_command(), "z");
}

#[test]
fn long_lines_wrap_at_spaces() {
    let (mut fs, mut layout): (Fs, usize) = (None, 0);
    let mut t = Terminal::new();
    let word = "abcdefghij";
    let text = vec![word; 10].join(" ");
    run(&mut t, &mut fs, &mut layout, &format!("echo {}", text));
    assert_eq!(last(&t), text);
    let display = t.display_lines();
    let n = display.len();
    assert_eq!(display[n - 3], vec![word; 7].join(" ") + " ");
    assert_eq!(display[n - 2], vec![word; 3].join(" "));
}

#[test]
fn scrolling_follows_the_prompt() {
    let (mut fs, mut layout): (Fs, usize) = (None, 0);
    let mut t = Terminal::new();
    run(&mut t, &mut fs, &mut layout, "help");
    run(&mut t, &mut fs, &mut layout, "help");
    assert_eq!(t.display_lines().len(), 25);
    assert_eq!(t.scroll_offset(), 1);
    t.handle_key_input(TerminalKey::PageUp);
    assert_eq!(t.scroll_offset(), 1);
    t.scroll_lines(-1);
    assert_eq!(t.scroll_offset(), 0);
    t.scroll_lines(5);
    assert_eq!(t.scroll_offset(), 1);
}

#[test]
fn cursor_blinks() {
    let mut t = Terminal::new();
    assert!(t.cursor_visible());
    t.update_cursor_blink(400);
    assert!(t.cursor_visible());
    t.update_cursor_blink(501);
    assert!(!t.cursor_visible());
    t.update_cursor_blink(900);
    assert!(!t.cursor_visible());
    t.update_cursor_blink(1002);
    assert!(t.cursor_visible());
}

#[test]
fn text_helpers() {
    let w: Vec<String> = words_of(&" a  bc\td ".chars().collect::<Vec<char>>())
        .into_iter()
        .map(|v| v.into_iter().collect())
        .collect();
    assert_eq!(w, vec!["a", "bc", "d"]);
    let l: Vec<String> = text_lines_of(&"x\r\ny\n\nz\r".chars().collect::<Vec<char>>())
        .into_iter()
        .map(|v| v.into_iter().collect())
        .collect();
    assert_eq!(l, "x\r\ny\n\nz\r".lines().collect::<Vec<&str>>());
    assert_eq!(padded_decimal(7, 3).into_iter().collect::<String>(), "007");
    assert_eq!(padded_decimal(12345, 2).into_iter().collect::<String>(), "12345");
}
