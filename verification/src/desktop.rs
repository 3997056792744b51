//! The desktop's decisions: modifier keys, the taskbar's window buttons
//! (when to rebuild them, where they go, how titles are cut), and what a
//! click that no window took does on the taskbar and the start menu.
//! Drawing, input queues and launching are done by the caller, which
//! performs the actions handed back.
use vstd::prelude::*;
use crate::text::{chars_of, same_chars};

verus! {

/// Height of the taskbar at the bottom of the screen.
pub const TASKBAR_HEIGHT: usize = 50;
/// Left edge of the first window button (right of the start button).
pub const TASKBAR_START_X: usize = 170;
/// Width of a window button; buttons are 5 pixels apart.
pub const TASKBAR_BUTTON_WIDTH: usize = 120;
pub const TASKBAR_BUTTON_HEIGHT: usize = 30;
/// Width of the start button.
pub const START_BUTTON_WIDTH: usize = 160;

/// A modifier key.
#[derive(Clone, Copy, PartialEq, Eq, Debug, Structural)]
pub enum Modifier {
    Ctrl,
    Shift,
    Alt,
}

/// An application the start menu launches.
#[derive(Clone, Copy, PartialEq, Eq, Debug, Structural)]
pub enum App {
    Calculator,
    Notepad,
    FileManager,
    SysInfo,
}

/// What happened.
pub enum DesktopEvent {
    /// A modifier key went down (`true`) or up.
    ModifierKey(Modifier, bool),
    /// A click that no window took, at a screen position.
    Click(usize, usize),
}

/// What the caller is to do.
#[derive(Clone, Copy, PartialEq, Eq, Debug, Structural)]
pub enum DesktopAction {
    /// Bring a window to the front (its taskbar button was clicked).
    FocusWindow(usize),
    /// Start an application.
    Launch(App),
    /// Show (`true`) or hide the start menu.
    ShowStartMenu(bool),
}

/// The desktop's own state.
pub struct DesktopState {
    pub screen_width: usize,
    pub screen_height: usize,
    pub start_menu_open: bool,
    pub ctrl: bool,
    pub shift: bool,
    pub alt: bool,
    /// The window ids of the taskbar buttons, left to right.
    pub taskbar_ids: Vec<usize>,
}

pub struct DesktopView {
    pub screen_width: usize,
    pub screen_height: usize,
    pub start_menu_open: bool,
    pub ctrl: bool,
    pub shift: bool,
    pub alt: bool,
    pub taskbar_ids: Seq<usize>,
}

impl View for DesktopState {
    type V = DesktopView;

    open spec fn view(&self) -> DesktopView {
        DesktopView {
            screen_width: self.screen_width,
            screen_height: self.screen_height,
            start_menu_open: self.start_menu_open,
            ctrl: self.ctrl,
            shift: self.shift,
            alt: self.alt,
            taskbar_ids: self.taskbar_ids@,
        }
    }
}

/// The screen is large enough for the taskbar's clock and the start menu.
pub open spec fn screen_ok(w: usize, h: usize) -> bool {
    100 <= w && 350 <= h
}

/// Whether a screen of this size fits the taskbar's clock and the start menu.
pub fn screen_fits(w: usize, h: usize) -> (r: bool)
    ensures
        r == screen_ok(w, h),
{
    100 <= w && 350 <= h
}

/// The start menu's entries: (x, y, width, height, what it launches), top
/// to bottom; the first is the menu's frame and launches nothing.
pub open spec fn menu_entries(h: int) -> Seq<(int, int, int, int, Option<App>)> {
    seq![
        (0, h - 290 - 50, 200, 300, None),
        (0, h - 350, 200, 45, Some(App::Calculator)),
        (0, h - 305, 200, 45, Some(App::Notepad)),
        (0, h - 260, 200, 45, Some(App::FileManager)),
        (0, h - 215, 200, 45, Some(App::SysInfo)),
    ]
}

pub open spec fn in_box(x: int, y: int, bx: int, by: int, bw: int, bh: int) -> bool {
    bx <= x < bx + bw && by <= y < by + bh
}

/// The first launching start-menu entry from `i` on that holds the point.
pub open spec fn menu_hit(h: int, x: int, y: int, i: int) -> Option<App>
    decreases 5 - i,
{
    if i < 0 || i >= 5 {
        None
    } else {
        let e = menu_entries(h)[i];
        if in_box(x, y, e.0, e.1, e.2, e.3) && e.4 is Some {
            e.4
        } else {
            menu_hit(h, x, y, i + 1)
        }
    }
}

/// The point is on taskbar button `i`.
pub open spec fn on_taskbar_button(h: int, x: int, y: int, i: int) -> bool {
    in_box(x, y, 170 + 125 * i, h - 40, 120, 30)
}

/// The first taskbar button from `i` on that holds the point.
pub open spec fn taskbar_hit(ids: Seq<usize>, h: int, x: int, y: int, i: int) -> Option<int>
    decreases ids.len() - i,
{
    if i < 0 || i >= ids.len() {
        None
    } else if on_taskbar_button(h, x, y, i) {
        Some(i)
    } else {
        taskbar_hit(ids, h, x, y, i + 1)
    }
}

/// One step of the desktop: a modifier key sets its flag; a click that no
/// window took focuses the window of the taskbar button under it, else
/// (with the start menu open) launches the application of the entry under
/// it and closes the menu, else on the start button opens or closes the
/// menu, else does nothing.
pub open spec fn step_spec(s: DesktopView, e: DesktopEvent) -> (DesktopView, Seq<DesktopAction>) {
    match e {
        DesktopEvent::ModifierKey(m, down) => (
            match m {
                Modifier::Ctrl => DesktopView { ctrl: down, ..s },
                Modifier::Shift => DesktopView { shift: down, ..s },
                Modifier::Alt => DesktopView { alt: down, ..s },
            },
            Seq::empty(),
        ),
        DesktopEvent::Click(x, y) => {
            let h = s.screen_height as int;
            match taskbar_hit(s.taskbar_ids, h, x as int, y as int, 0) {
                Some(i) => (s, seq![DesktopAction::FocusWindow(s.taskbar_ids[i])]),
                None => {
                    if s.start_menu_open && menu_hit(h, x as int, y as int, 0) is Some {
                        (
                            DesktopView { start_menu_open: false, ..s },
                            seq![DesktopAction::Launch(menu_hit(h, x as int, y as int, 0)->0), DesktopAction::ShowStartMenu(false)],
                        )
                    } else if in_box(x as int, y as int, 0, h - 50, 160, 50) {
                        (
                            DesktopView { start_menu_open: !s.start_menu_open, ..s },
                            seq![DesktopAction::ShowStartMenu(!s.start_menu_open)],
                        )
                    } else {
                        (s, Seq::empty())
                    }
                },
            }
        },
    }
}

fn menu_click(h: usize, x: usize, y: usize) -> (r: Option<App>)
    requires
        350 <= h,
    ensures
        r == menu_hit(h as int, x as int, y as int, 0),
{
    let ghost hh = h as int;
    let ghost xi = x as int;
    let ghost yi = y as int;
    assert(menu_hit(hh, xi, yi, 5) is None);
    // The frame entry launches nothing, so the first launching entry decides.
    if x < 200 && h - 350 <= y && y < h - 350 + 45 {
        assert(menu_hit(hh, xi, yi, 1) == Some(App::Calculator));
        return Some(App::Calculator);
    }
    if x < 200 && h - 305 <= y && y < h - 305 + 45 {
        assert(menu_hit(hh, xi, yi, 2) == Some(App::Notepad));
        return Some(App::Notepad);
    }
    if x < 200 && h - 260 <= y && y < h - 260 + 45 {
        assert(menu_hit(hh, xi, yi, 3) == Some(App::FileManager));
        return Some(App::FileManager);
    }
    if x < 200 && h - 215 <= y && y < h - 215 + 45 {
        assert(menu_hit(hh, xi, yi, 4) == Some(App::SysInfo));
        return Some(App::SysInfo);
    }
    assert(menu_hit(hh, xi, yi, 4) is None);
    assert(menu_hit(hh, xi, yi, 3) is None);
    assert(menu_hit(hh, xi, yi, 2) is None);
    assert(menu_hit(hh, xi, yi, 1) is None);
    None
}

fn taskbar_click(ids: &Vec<usize>, h: usize, x: usize, y: usize) -> (r: Option<usize>)
    requires
        350 <= h,
    ensures
        r is None <==> taskbar_hit(ids@, h as int, x as int, y as int, 0) is None,
        r matches Some(i) ==> taskbar_hit(ids@, h as int, x as int, y as int, 0) == Some(i as int) && i < ids@.len(),
{
    let mut i: usize = 0;
    while i < ids.len()
        invariant
            i <= ids@.len(),
            350 <= h,
            taskbar_hit(ids@, h as int, x as int, y as int, 0) == taskbar_hit(ids@, h as int, x as int, y as int, i as int),
        decreases ids@.len() - i,
    {
        let bx: u128 = 170 + 125 * (i as u128);
        if bx <= x as u128 && (x as u128) < bx + 120 && y >= h - 40 && y < h - 10 {
            return Some(i);
        }
        i = i + 1;
    }
    None
}

impl DesktopState {
    /// The desktop on a screen of the given size: menu closed, no modifier
    /// held, no window buttons.
    pub fn new(screen_width: usize, screen_height: usize) -> (r: DesktopState)
        ensures
            r@ == (DesktopView {
                screen_width,
                screen_height,
                start_menu_open: false,
                ctrl: false,
                shift: false,
                alt: false,
                taskbar_ids: Seq::empty(),
            }),
    {
        DesktopState {
            screen_width,
            screen_height,
            start_menu_open: false,
            ctrl: false,
            shift: false,
            alt: false,
            taskbar_ids: Vec::new(),
        }
    }
}

/// One step of the desktop (see `step_spec`).
pub fn desktop_step(s: DesktopState, e: DesktopEvent) -> (r: (DesktopState, Vec<DesktopAction>))
    requires
        screen_ok(s.screen_width, s.screen_height),
    ensures
        r.0@ == step_spec(s@, e).0,
        r.1@ == step_spec(s@, e).1,
{
    let mut s = s;
    let mut actions: Vec<DesktopAction> = Vec::new();
    match e {
        DesktopEvent::ModifierKey(m, down) => {
            match m {
                Modifier::Ctrl => { s.ctrl = down; },
                Modifier::Shift => { s.shift = down; },
                Modifier::Alt => { s.alt = down; },
            }
        },
        DesktopEvent::Click(x, y) => {
            let h = s.screen_height;
            match taskbar_click(&s.taskbar_ids, h, x, y) {
                Some(i) => {
                    actions.push(DesktopAction::FocusWindow(s.taskbar_ids[i]));
                },
                None => {
                    let launched = if s.start_menu_open { menu_click(h, x, y) } else { None };
                    match launched {
                        Some(app) => {
                            s.start_menu_open = false;
                            actions.push(DesktopAction::Launch(app));
                            actions.push(DesktopAction::ShowStartMenu(false));
                        },
                        None => {
                            if x < 160 && y >= h - 50 && y < h {
                                s.start_menu_open = !s.start_menu_open;
                                actions.push(DesktopAction::ShowStartMenu(s.start_menu_open));
                            }
                        },
                    }
                },
            }
        },
    }
    (s, actions)
}


/// The taskbar entries (window id, title, focused) changed.
pub open spec fn entries_changed(prev: Seq<(usize, Seq<char>, bool)>, cur: Seq<(usize, Seq<char>, bool)>) -> bool {
    prev.len() != cur.len() || exists|i: int| 0 <= i < cur.len() && #[trigger] cur[i] != prev[i]
}

pub open spec fn entries_view(v: Seq<(usize, String, bool)>) -> Seq<(usize, Seq<char>, bool)> {
    v.map_values(|e: (usize, String, bool)| (e.0, e.1@, e.2))
}

/// Whether the taskbar's window entries differ from the ones it shows.
pub fn taskbar_changed(prev: &Vec<(usize, String, bool)>, cur: &Vec<(usize, String, bool)>) -> (r: bool)
    ensures
        r == entries_changed(entries_view(prev@), entries_view(cur@)),
{
    if prev.len() != cur.len() {
        return true;
    }
    let mut i: usize = 0;
    while i < cur.len()
        invariant
            i <= cur@.len(),
            prev@.len() == cur@.len(),
            forall|j: int| 0 <= j < i ==> entries_view(cur@)[j] == entries_view(prev@)[j],
        decreases cur@.len() - i,
    {
        let a = &cur[i];
        let b = &prev[i];
        let same = a.0 == b.0 && a.2 == b.2 && same_chars(&chars_of(a.1.as_str()), &chars_of(b.1.as_str()));
        assert(entries_view(cur@)[i as int] == (a.0, a.1@, a.2));
        assert(entries_view(prev@)[i as int] == (b.0, b.1@, b.2));
        if !same {
            assert(entries_view(cur@)[i as int] != entries_view(prev@)[i as int]);
            return true;
        }
        i = i + 1;
    }
    false
}

/// How many window buttons fit on a taskbar `w` pixels wide, left of the
/// clock (the 100 pixels at the right end), of `n` wanted.
pub open spec fn buttons_shown(n: int, w: int) -> int {
    let fit = if w >= 390 { (w - 390) / 125 + 1 } else { 0 };
    if n < fit { n } else { fit }
}

pub fn taskbar_button_count(n: usize, screen_width: usize) -> (r: usize)
    requires
        100 <= screen_width,
    ensures
        r == buttons_shown(n as int, screen_width as int),
{
    let mut i: usize = 0;
    while i < n
        invariant
            i <= n,
            100 <= screen_width,
            i == 0 || 170 + 125 * (i - 1) + 120 <= screen_width - 100,
        ensures
            i <= n,
            i == 0 || 170 + 125 * (i - 1) + 120 <= screen_width - 100,
            i < n ==> 170 + 125 * i + 120 > screen_width - 100,
        decreases n - i,
    {
        let x: u128 = 170 + 125 * (i as u128);
        if x + 120 > (screen_width - 100) as u128 {
            break;
        }
        i = i + 1;
    }
    proof {
        let w = screen_width as int;
        let fit = if w >= 390 { (w - 390) / 125 + 1 } else { 0 };
        if i < n {
            assert(170 + 125 * i + 120 > w - 100);
        }
        if w >= 390 {
            assert(fit * 125 <= w - 390 + 125 && w - 390 < fit * 125) by (nonlinear_arith)
                requires fit == (w - 390) / 125 + 1, w >= 390;
        }
        if i < fit && i < n {
            assert(false);
        }
        if i > fit {
            assert(170 + 125 * (i - 1) + 120 <= w - 100);
            assert(false);
        }
    }
    i
}

/// A title as its taskbar button shows it: past 12 characters, the first
/// 9 and `...`.
pub open spec fn button_title(t: Seq<char>) -> Seq<char> {
    if t.len() > 12 { t.subrange(0, 9) + seq!['.', '.', '.'] } else { t }
}

pub fn taskbar_title(title: &[char]) -> (r: Vec<char>)
    ensures
        r@ == button_title(title@),
{
    let mut out: Vec<char> = Vec::new();
    if title.len() > 12 {
        let mut i: usize = 0;
        while i < 9
            invariant
                i <= 9,
                title@.len() > 12,
                out@ == title@.subrange(0, i as int),
            decreases 9 - i,
        {
            out.push(title[i]);
            i = i + 1;
        }
        out.push('.');
        out.push('.');
        out.push('.');
        assert(out@ =~= button_title(title@));
    } else {
        let mut i: usize = 0;
        while i < title.len()
            invariant
                i <= title@.len(),
                out@ == title@.subrange(0, i as int),
            decreases title@.len() - i,
        {
            out.push(title[i]);
            i = i + 1;
        }
        assert(out@ =~= title@);
    }
    out
}

/// The ids of the buttons the taskbar shows for the window entries `cur`.
pub open spec fn shown_ids(cur: Seq<(usize, String, bool)>, w: int) -> Seq<usize> {
    cur.subrange(0, buttons_shown(cur.len() as int, w)).map_values(|e: (usize, String, bool)| e.0)
}

impl DesktopState {
    /// Takes the current window entries: when they differ from `prev`, the
    /// buttons are rebuilt for as many as fit. Returns whether they were.
    pub fn update_taskbar(&mut self, prev: &Vec<(usize, String, bool)>, cur: &Vec<(usize, String, bool)>) -> (changed: bool)
        requires
            screen_ok(old(self).screen_width, old(self).screen_height),
        ensures
            changed == entries_changed(entries_view(prev@), entries_view(cur@)),
            final(self)@ == (if changed {
                DesktopView { taskbar_ids: shown_ids(cur@, old(self).screen_width as int), ..old(self)@ }
            } else {
                old(self)@
            }),
    {
        let changed = taskbar_changed(prev, cur);
        if changed {
            let count = taskbar_button_count(cur.len(), self.screen_width);
            let mut ids: Vec<usize> = Vec::new();
            let mut i: usize = 0;
            while i < count
                invariant
                    i <= count,
                    count <= cur@.len(),
                    ids@ == cur@.subrange(0, i as int).map_values(|e: (usize, String, bool)| e.0),
                decreases count - i,
            {
                ids.push(cur[i].0);
                i = i + 1;
                assert(ids@ =~= cur@.subrange(0, i as int).map_values(|e: (usize, String, bool)| e.0));
            }
            self.taskbar_ids = ids;
        }
        changed
    }
}

/// Clicking the start button twice, away from the window buttons, leaves
/// the desktop as it was: the menu opens (or closes) and then closes (or
/// opens) again.
pub proof fn lemma_start_button_twice(s: DesktopView, x: usize, y: usize)
    requires
        350 <= s.screen_height,
        in_box(x as int, y as int, 0, s.screen_height - 50, 160, 50),
        taskbar_hit(s.taskbar_ids, s.screen_height as int, x as int, y as int, 0) is None,
    ensures
        step_spec(step_spec(s, DesktopEvent::Click(x, y)).0, DesktopEvent::Click(x, y)).0 == s,
{
    let h = s.screen_height as int;
    assert(menu_hit(h, x as int, y as int, 5) is None);
    assert(menu_hit(h, x as int, y as int, 4) is None);
    assert(menu_hit(h, x as int, y as int, 3) is None);
    assert(menu_hit(h, x as int, y as int, 2) is None);
    assert(menu_hit(h, x as int, y as int, 1) is None);
    assert(menu_hit(h, x as int, y as int, 0) is None);
}

} // verus!
