use goofy_os::desktop::{desktop_step, taskbar_button_count, taskbar_changed, taskbar_title, App, DesktopAction, DesktopEvent, DesktopState, Modifier};
use goofy_os::window_manager::{WindowInfo, WindowManager};

fn calculator() -> WindowInfo {
    WindowInfo::new(100, 100, 205, 315, "Calculator".to_string())
}

fn notepad() -> WindowInfo {
    WindowInfo::new(150, 150, 600, 400, "Notepad".to_string())
}

#[test]
fn new_windows_get_increasing_ids_and_the_focus() {
    let mut wm = WindowManager::new();
    assert_eq!(wm.get_focused_window_id(), None);
    assert_eq!(wm.add_window(calculator()), 1);
    assert_eq!(wm.add_window(notepad()), 2);
    assert_eq!(wm.get_focused_window_id(), Some(2));
    assert_eq!(wm.get_windows_in_render_order(), vec![1, 2]);
}

#[test]
fn focusing_moves_a_window_to_the_front() {
    let mut wm = WindowManager::new();
    wm.add_window(calculator());
    wm.add_window(notepad());
    wm.focus_window(1);
    assert_eq!(wm.get_windows_in_render_order(), vec![2, 1]);
    wm.focus_window(1);
    assert_eq!(wm.get_windows_in_render_order(), vec![2, 1]);
    wm.focus_window(7);
    assert_eq!(wm.get_windows_in_render_order(), vec![2, 1]);
    let bar = wm.get_taskbar_windows();
    assert_eq!(bar, vec![(1, "Calculator".to_string(), true), (2, "Notepad".to_string(), false)]);
}

#[test]
fn close_button_closes_the_window() {
    let mut wm = WindowManager::new();
    wm.add_window(calculator());
    // close button: x in [100 + 205 - 20, 305], y in [80, 100]
    let (handled, region) = wm.handle_mouse_click(300, 90);
    assert!(handled);
    assert_eq!(region, Some((99, 80, 207, 336)));
    assert_eq!(wm.get_windows_in_render_order(), Vec::<usize>::new());
}

#[test]
fn content_click_focuses_and_reports_the_local_point() {
    let mut wm = WindowManager::new();
    wm.add_window(calculator());
    wm.add_window(WindowInfo::new(500, 500, 200, 200, "Other".to_string()));
    assert_eq!(wm.content_click_target(110, 120), Some((1, 10, 20)));
    assert_eq!(wm.handle_mouse_click(110, 120), (true, None));
    assert_eq!(wm.get_focused_window_id(), Some(1));
    assert_eq!(wm.handle_mouse_click(20, 20), (false, None));
    assert!(wm.handle_taskbar_click(2));
    assert!(!wm.handle_taskbar_click(9));
    assert_eq!(wm.get_focused_window_id(), Some(2));
}

#[test]
fn dragging_the_title_bar_moves_the_window() {
    let mut wm = WindowManager::new();
    wm.add_window(calculator());
    assert_eq!(wm.handle_mouse_down(150, 90), Some(1));
    assert_eq!(wm.handle_mouse_move(170, 100), Some(1));
    let regions = wm.handle_mouse_release();
    assert_eq!(regions, vec![(99, 80, 207, 336), (119, 90, 207, 336)]);
    assert_eq!(wm.content_click_target(125, 115), Some((1, 5, 5)));
    assert_eq!(wm.handle_mouse_move(0, 0), None);
}

#[test]
fn dragging_stops_at_the_screen_edge() {
    let mut wm = WindowManager::new();
    wm.add_window(calculator());
    wm.handle_mouse_down(150, 90);
    wm.handle_mouse_move(-400, -400);
    let regions = wm.handle_mouse_release();
    assert_eq!(regions[1], (0, 0, 207, 336));
}

fn desk() -> DesktopState {
    DesktopState::new(1280, 800)
}

#[test]
fn start_button_toggles_the_menu_and_entries_launch() {
    let (s, a) = desktop_step(desk(), DesktopEvent::Click(50, 780));
    assert!(s.start_menu_open);
    assert_eq!(a, vec![DesktopAction::ShowStartMenu(true)]);
    let (s, a) = desktop_step(s, DesktopEvent::Click(50, 800 - 300));
    assert!(!s.start_menu_open);
    assert_eq!(a, vec![DesktopAction::Launch(App::Notepad), DesktopAction::ShowStartMenu(false)]);
    let (s, a) = desktop_step(s, DesktopEvent::Click(50, 800 - 300));
    assert!(!s.start_menu_open);
    assert!(a.is_empty());
}

#[test]
fn modifiers_are_tracked() {
    let (s, a) = desktop_step(desk(), DesktopEvent::ModifierKey(Modifier::Ctrl, true));
    assert!(s.ctrl && !s.shift && !s.alt);
    assert!(a.is_empty());
    let (s, _) = desktop_step(s, DesktopEvent::ModifierKey(Modifier::Ctrl, false));
    assert!(!s.ctrl);
}

#[test]
fn taskbar_buttons_are_rebuilt_when_windows_change() {
    let mut s = desk();
    let prev = vec![];
    let cur = vec![(1usize, "Calculator".to_string(), false), (2usize, "Notepad".to_string(), true)];
    assert!(s.update_taskbar(&prev, &cur));
    assert_eq!(s.taskbar_ids, vec![1, 2]);
    assert!(!taskbar_changed(&cur, &cur));
    let (_, a) = desktop_step(s, DesktopEvent::Click(170 + 125 + 10, 800 - 30));
    assert_eq!(a, vec![DesktopAction::FocusWindow(2)]);
    assert_eq!(taskbar_button_count(20, 1280), 8);
    assert_eq!(taskbar_button_count(2, 300), 0);
    let long: Vec<char> = "System Information".chars().collect();
    assert_eq!(taskbar_title(&long).iter().collect::<String>(), "System In...");
}
