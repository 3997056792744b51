use goofy_os::calculator::{button_at, button_label, button_regions, Operation};
use goofy_os::config::{config, BootMode, FileSystem, ARCHITECTURE, OS_NAME, OS_VERSION};
use goofy_os::hardware::{APICOffset, EmptyFrameAllocator, InterruptIndex, LAPICAddress, KEYBOARD_INTERRUPT, PIC_1_OFFSET};
use goofy_os::input::CurrentMouseState;
use goofy_os::keyboard::{cycle_keyboard_layout, get_current_layout, set_keyboard_layout};
use goofy_os::surface::Rect;
use goofy_os::sysinfo::{estimate_stack_usage, get_heap_info, CpuInfo, SystemInfo};
use goofy_os::text_layout::{break_line, find_safe_split_point, split_lines_of};
use goofy_os::user_program::{fibonacci, format_number_to_buffer};

fn strings(v: Vec<Vec<char>>) -> Vec<String> {
    v.into_iter().map(|l| l.into_iter().collect()).collect()
}

#[test]
fn build_configuration() {
    let c = config();
    assert!(c.boot_mode == BootMode::Uefi);
    assert!(c.fs_type == FileSystem::Fat32);
    assert_eq!(c.os_name, "Goofy OS");
    assert_eq!((OS_NAME, OS_VERSION, ARCHITECTURE), ("Goofy OS", "0.1.0", "x86_64"));
    assert!(!c.processes_enabled);
}

#[test]
fn interrupt_vectors() {
    assert_eq!(InterruptIndex::Timer.as_u8(), PIC_1_OFFSET);
    assert_eq!(InterruptIndex::Keyboard.as_usize(), KEYBOARD_INTERRUPT as usize);
    assert_eq!(InterruptIndex::Mouse.as_u8(), 44);
}

#[test]
fn apic_register_addresses() {
    let mut a = LAPICAddress::new();
    assert_eq!(a.get(), 0);
    a.set(0xFEE0_0000);
    assert_eq!(APICOffset::Eoi.offset(), 0xB0);
    assert_eq!(a.register_address(APICOffset::Svr), Some(0xFEE0_00F0));
    a.set(u64::MAX);
    assert_eq!(a.register_address(APICOffset::Eoi), None);
    assert_eq!(EmptyFrameAllocator.allocate_frame(), None);
}

#[test]
fn mouse_stays_on_screen_and_reports_clicks() {
    let mut m = CurrentMouseState::new((800, 600));
    assert_eq!((m.x, m.y), (400, 300));
    assert_eq!(m.update(-1000, 0, true, false), None);
    assert_eq!(m.x, 0);
    assert_eq!(m.update(0, -1000, true, false), None);
    assert_eq!(m.y, 599);
    // releasing the button without moving is a click
    assert_eq!(m.update(0, 0, false, false), Some((0, 599)));
    assert!(!m.has_moved);
    assert_eq!(m.update(5, 5, false, false), None);
    assert_eq!((m.x, m.y), (5, 594));
}

#[test]
fn keyboard_layouts() {
    let mut layout = 0usize;
    assert!(set_keyboard_layout(&mut layout, "dvorak"));
    assert_eq!(get_current_layout(layout), "dvorak");
    assert!(!set_keyboard_layout(&mut layout, "colemak"));
    assert_eq!(layout, 2);
    assert!(cycle_keyboard_layout(&mut layout));
    assert_eq!(get_current_layout(layout), "azerty");
    cycle_keyboard_layout(&mut layout);
    assert_eq!(get_current_layout(layout), "qwerty");
    cycle_keyboard_layout(&mut layout);
    cycle_keyboard_layout(&mut layout);
    assert_eq!(get_current_layout(layout), "azerty");
}

#[test]
fn heap_and_stack_figures() {
    let h = get_heap_info(1024, 4096);
    assert_eq!((h.used_bytes, h.free_bytes, h.total_bytes), (1024, 3072, 4096));
    assert_eq!(get_heap_info(5000, 4096).free_bytes, 0);
    assert_eq!(estimate_stack_usage(0x9000, 0x8000), 0x1000);
    assert_eq!(estimate_stack_usage(0x100000, 0), 20480);
}

#[test]
fn system_information() {
    let cpu = CpuInfo {
        features: vec!["sse2".to_string()],
        vendor_id: "GenuineIntel".to_string(),
        model: "Test CPU".to_string(),
        base_frequency: Some(2000),
        max_frequency: None,
    };
    let heap = get_heap_info(10, 100);
    let info = SystemInfo::gather(heap, 0x4444_4444_0000, 4096, cpu, None);
    assert_eq!(info.os_name, "Goofy OS");
    assert_eq!(info.processor_vendor, "GenuineIntel");
    assert_eq!(info.heap_size, 100);
    assert_eq!(info.heap_used, 10);
    assert_eq!(info.cpu_features, vec!["sse2".to_string()]);
    assert!(info.filesystem_info.is_none());
}

#[test]
fn fibonacci_numbers() {
    assert_eq!(fibonacci(0), 0);
    assert_eq!(fibonacci(1), 1);
    assert_eq!(fibonacci(10), 55);
    assert_eq!(fibonacci(20), 6765);
}

#[test]
fn numbers_to_ascii() {
    let mut buf = [b'#'; 8];
    let n = format_number_to_buffer(40213, &mut buf);
    assert_eq!(n, 5);
    assert_eq!(&buf, b"40213###");
    let mut one = [0u8; 1];
    assert_eq!(format_number_to_buffer(0, &mut one), 1);
    assert_eq!(one[0], b'0');
}

#[test]
fn lines_and_wrapping() {
    let text: Vec<char> = "ab\n\ncd".chars().collect();
    assert_eq!(strings(split_lines_of(&text)), vec!["ab", "", "cd"]);
    let long: Vec<char> = "aaaaa bbbbbbb".chars().collect();
    assert_eq!(find_safe_split_point(&long, 8), 6);
    assert_eq!(strings(break_line(&long, 8)), vec!["aaaaa ", "bbbbbbb"]);
    let nospace: Vec<char> = "abcdefghij".chars().collect();
    assert_eq!(find_safe_split_point(&nospace, 4), 4);
    assert_eq!(strings(break_line(&nospace, 4)), vec!["abcd", "efgh", "ij"]);
    let early: Vec<char> = "a bcdefghij".chars().collect();
    assert_eq!(find_safe_split_point(&early, 8), 8);
    assert_eq!(strings(break_line(&['a', ' ', ' ', ' ', 'b'], 2)), vec!["a ", "b"]);
}

#[test]
fn rectangles() {
    let r = Rect::new(10, 10, 20, 20);
    assert!(r.contains_point(10, 10));
    assert!(!r.contains_point(30, 10));
    assert!(!r.intersects(&Rect::new(30, 30, 5, 5)));
}

#[test]
fn calculator_keypad() {
    assert_eq!(button_label(0), Some('7'));
    assert_eq!(button_label(14), Some('='));
    assert_eq!(button_label(16), None);
    let regions = button_regions();
    assert_eq!(regions.len(), 16);
    assert_eq!(regions[5], (60, 140, 40, 50));
    assert_eq!(button_at(16, 86), Some(0));
    assert_eq!(button_at(60 + 39, 140 + 49), Some(5));
    assert_eq!(button_at(57, 86), None);
    assert_eq!(button_at(0, 0), None);
    assert_ne!(Operation::Add, Operation::Divide);
}

#[test]
fn write_system_call_checks_its_arguments() {
    assert_eq!(goofy_os::hardware::sys_write_checked(1, 0x4000, 12), 12);
    assert_eq!(goofy_os::hardware::sys_write_checked(2, 0x4000, 12), 0);
    assert_eq!(goofy_os::hardware::sys_write_checked(1, 0, 12), 0);
    assert_eq!(goofy_os::hardware::sys_write_checked(1, 0xFFFF_8000_0000_0000, 12), 0);
    assert_eq!(goofy_os::hardware::sys_write_checked(1, 0x4000, 1024 * 1024 + 1), 0);
    assert_eq!(goofy_os::hardware::sys_write_checked(1, 0x4000, 1024 * 1024), 1024 * 1024);
}

#[test]
fn rflags_with_high_reserved_bits_are_refused() {
    assert!(goofy_os::process::ProcessError::validate_rflags(0x1_0000_0202).is_err());
    assert_eq!(goofy_os::process::ProcessError::validate_rflags(0x202), Ok(()));
}
