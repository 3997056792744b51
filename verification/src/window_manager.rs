//! The window manager's bookkeeping: which windows are open, where they are,
//! their stacking order, focus, closing, and dragging by the title bar.
//! Drawing and the applications inside the windows are kept by the caller,
//! keyed by window id.
use vstd::prelude::*;

verus! {

/// Largest coordinate or size a window may have.
pub const MAX_EXTENT: usize = 0x1000_0000;

/// One window: its content area (the title bar sits in the 20 pixels above
/// it), its title and its drag state.
pub struct WindowInfo {
    pub id: usize,
    pub x: usize,
    pub y: usize,
    pub width: usize,
    pub height: usize,
    pub title: String,
    pub dragging_offset: Option<(i16, i16)>,
    pub is_dragging: bool,
    pub drag_preview_x: usize,
    pub drag_preview_y: usize,
}

pub struct WindowView {
    pub id: usize,
    pub x: usize,
    pub y: usize,
    pub width: usize,
    pub height: usize,
    pub title: Seq<char>,
    pub dragging_offset: Option<(i16, i16)>,
    pub is_dragging: bool,
    pub preview_x: usize,
    pub preview_y: usize,
}

impl View for WindowInfo {
    type V = WindowView;

    open spec fn view(&self) -> WindowView {
        WindowView {
            id: self.id,
            x: self.x,
            y: self.y,
            width: self.width,
            height: self.height,
            title: self.title@,
            dragging_offset: self.dragging_offset,
            is_dragging: self.is_dragging,
            preview_x: self.drag_preview_x,
            preview_y: self.drag_preview_y,
        }
    }
}

impl WindowInfo {
    /// A window at (`x`, `y`) of the given size, not being dragged; its id is
    /// given by `WindowManager::add_window`.
    pub fn new(x: usize, y: usize, width: usize, height: usize, title: String) -> (w: WindowInfo)
        ensures
            w@ == (WindowView {
                id: 0,
                x,
                y,
                width,
                height,
                title: title@,
                dragging_offset: None,
                is_dragging: false,
                preview_x: x,
                preview_y: y,
            }),
    {
        WindowInfo {
            id: 0,
            x,
            y,
            width,
            height,
            title,
            dragging_offset: None,
            is_dragging: false,
            drag_preview_x: x,
            drag_preview_y: y,
        }
    }
}

/// A window's place and size stay within the bounds that keep its title bar
/// and border arithmetic in range.
pub open spec fn window_ok(w: WindowView) -> bool {
    &&& 1 <= w.x <= MAX_EXTENT
    &&& 20 <= w.y <= MAX_EXTENT
    &&& w.width <= MAX_EXTENT
    &&& w.height <= MAX_EXTENT
    &&& 20 <= w.width
    &&& 1 <= w.preview_x <= MAX_EXTENT
    &&& 20 <= w.preview_y <= MAX_EXTENT
}

pub struct WmView {
    pub windows: Seq<WindowView>,
    /// Window ids from back to front: the last one has the focus.
    pub order: Seq<usize>,
    pub next_id: usize,
}

pub struct WindowManager {
    windows: Vec<WindowInfo>,
    window_order: Vec<usize>,
    next_window_id: usize,
}

impl View for WindowManager {
    type V = WmView;

    closed spec fn view(&self) -> WmView {
        WmView {
            windows: self.windows@.map_values(|w: WindowInfo| w@),
            order: self.window_order@,
            next_id: self.next_window_id,
        }
    }
}

/// Every window is in bounds.
pub open spec fn wm_ok(v: WmView) -> bool {
    forall|i: int| 0 <= i < v.windows.len() ==> window_ok(#[trigger] v.windows[i])
}

pub open spec fn has_id(v: WmView, id: usize) -> bool {
    exists|i: int| 0 <= i < v.windows.len() && (#[trigger] v.windows[i]).id == id
}

/// The ids of `s` other than `id`, in order.
pub open spec fn without_id(s: Seq<usize>, id: usize) -> Seq<usize>
    decreases s.len(),
{
    if s.len() == 0 {
        s
    } else if s.last() == id {
        without_id(s.drop_last(), id)
    } else {
        without_id(s.drop_last(), id).push(s.last())
    }
}

/// The windows of `ws` whose id is not `id`, in order.
pub open spec fn windows_without(ws: Seq<WindowView>, id: usize) -> Seq<WindowView>
    decreases ws.len(),
{
    if ws.len() == 0 {
        ws
    } else if ws.last().id == id {
        windows_without(ws.drop_last(), id)
    } else {
        windows_without(ws.drop_last(), id).push(ws.last())
    }
}

/// The window `id` brought to the front, when there is such a window.
pub open spec fn focused(v: WmView, id: usize) -> WmView {
    if has_id(v, id) {
        WmView { order: without_id(v.order, id).push(id), ..v }
    } else {
        v
    }
}

/// The ids of `order` that name a window, back to front.
pub open spec fn render_order(ws: Seq<WindowView>, order: Seq<usize>) -> Seq<usize>
    decreases order.len(),
{
    if order.len() == 0 {
        Seq::empty()
    } else {
        let rest = render_order(ws, order.drop_last());
        if exists|i: int| 0 <= i < ws.len() && (#[trigger] ws[i]).id == order.last() {
            rest.push(order.last())
        } else {
            rest
        }
    }
}

/// The point (`x`, `y`) is on the close button of `w` (the 20 pixels at the
/// right end of the title bar).
pub open spec fn on_close_button(w: WindowView, x: i16, y: i16) -> bool {
    &&& x as usize >= w.x + w.width - 20
    &&& x as usize <= w.x + w.width
    &&& y as usize >= w.y - 20
    &&& y as usize <= w.y
}

/// The point is on the title bar of `w`, border included.
pub open spec fn on_title_bar(w: WindowView, x: i16, y: i16) -> bool {
    &&& x as usize >= w.x - 1
    &&& x as usize <= w.x + w.width
    &&& y as usize >= w.y - 20
    &&& y as usize <= w.y
}

/// The point is on the content area of `w`.
pub open spec fn on_content(w: WindowView, x: i16, y: i16) -> bool {
    &&& x as usize >= w.x
    &&& x as usize <= w.x + w.width
    &&& y as usize >= w.y
    &&& y as usize <= w.y + w.height
}

/// The point is on the part of the title bar that starts a drag (all of it
/// but the close button).
pub open spec fn on_drag_handle(w: WindowView, x: i16, y: i16) -> bool {
    &&& x as usize >= w.x
    &&& x as usize <= w.x + w.width - 20
    &&& y as usize >= w.y - 20
    &&& y as usize <= w.y
}

/// The first window from `i` on whose close button holds the point.
pub open spec fn close_hit(ws: Seq<WindowView>, x: i16, y: i16, i: int) -> Option<int>
    decreases ws.len() - i,
{
    if i < 0 || i >= ws.len() {
        None
    } else if on_close_button(ws[i], x, y) {
        Some(i)
    } else {
        close_hit(ws, x, y, i + 1)
    }
}

/// The first window from `i` on whose content area holds the point.
pub open spec fn content_hit(ws: Seq<WindowView>, x: i16, y: i16, i: int) -> Option<int>
    decreases ws.len() - i,
{
    if i < 0 || i >= ws.len() {
        None
    } else if on_content(ws[i], x, y) {
        Some(i)
    } else {
        content_hit(ws, x, y, i + 1)
    }
}

/// The last window before `end` whose title bar holds the point.
pub open spec fn last_title_hit(ws: Seq<WindowView>, x: i16, y: i16, end: int) -> Option<int>
    decreases end,
{
    if end <= 0 || end > ws.len() {
        None
    } else if on_title_bar(ws[end - 1], x, y) {
        Some(end - 1)
    } else {
        last_title_hit(ws, x, y, end - 1)
    }
}

/// The window a click that hit no close button focuses: the first window
/// whose content holds the point, else the last one whose title bar does.
/// (A title bar of a window before that first content hit loses to it.)
pub open spec fn focus_target(ws: Seq<WindowView>, x: i16, y: i16) -> Option<int> {
    match content_hit(ws, x, y, 0) {
        Some(k) => Some(k),
        None => last_title_hit(ws, x, y, ws.len() as int),
    }
}

/// The full bounds of a window, title bar and border included.
pub open spec fn full_bounds(w: WindowView) -> (usize, usize, usize, usize) {
    (
        if w.x >= 1 { (w.x - 1) as usize } else { 0 },
        if w.y >= 20 { (w.y - 20) as usize } else { 0 },
        (w.width + 2) as usize,
        (w.height + 21) as usize,
    )
}

/// What a click at (`x`, `y`) does: on a close button it closes that window
/// and reports its bounds to redraw; otherwise it focuses the window it
/// landed on. The flag says whether a window took the click.
pub open spec fn click_spec(v: WmView, x: i16, y: i16) -> ((bool, Option<(usize, usize, usize, usize)>), WmView) {
    match close_hit(v.windows, x, y, 0) {
        Some(i) => {
            let w = v.windows[i];
            (
                (true, Some(((w.x - 1) as usize, (w.y - 20) as usize, (w.width + 2) as usize, (w.height + 21) as usize))),
                WmView { windows: windows_without(v.windows, w.id), order: without_id(v.order, w.id), ..v },
            )
        },
        None => match focus_target(v.windows, x, y) {
            Some(k) => ((true, None), focused(v, v.windows[k].id)),
            None => ((false, None), v),
        },
    }
}

/// The window that starts a drag at (`x`, `y`): the first whose title bar,
/// but the close button, holds the point.
pub open spec fn drag_hit(ws: Seq<WindowView>, x: i16, y: i16, i: int) -> Option<int>
    decreases ws.len() - i,
{
    if i < 0 || i >= ws.len() {
        None
    } else if on_drag_handle(ws[i], x, y) {
        Some(i)
    } else {
        drag_hit(ws, x, y, i + 1)
    }
}

/// The first window from `i` on that is being dragged.
pub open spec fn dragged(ws: Seq<WindowView>, i: int) -> Option<int>
    decreases ws.len() - i,
{
    if i < 0 || i >= ws.len() {
        None
    } else if ws[i].dragging_offset is Some {
        Some(i)
    } else {
        dragged(ws, i + 1)
    }
}

/// `a + b` held to the range of `i16`.
pub open spec fn sat_add_i16(a: i16, b: i16) -> i16 {
    let s: int = a + b;
    if s > 32767 { 32767i16 } else if s < -32768 { -32768i16 } else { s as i16 }
}

/// Where the drag preview goes when the pointer moves by `d` from a preview
/// at `p`: the sum, held to `i16`, and at least `low`.
pub open spec fn preview_after(p: usize, d: i16, low: i16) -> usize {
    let s = sat_add_i16(p as i16, d);
    (if s < low { low } else { s }) as usize
}

/// A window after the pointer moved to (`x`, `y`) while dragging it.
pub open spec fn moved_window(w: WindowView, x: i16, y: i16) -> WindowView {
    let off = w.dragging_offset.unwrap();
    let nx = preview_after(w.preview_x, x.wrapping_sub(off.0), 1);
    let ny = preview_after(w.preview_y, y.wrapping_sub(off.1), 20);
    WindowView {
        dragging_offset: Some((x, y)),
        preview_x: if w.is_dragging { nx } else { w.preview_x },
        preview_y: if w.is_dragging { ny } else { w.preview_y },
        ..w
    }
}

/// A window after the mouse button was released over a drag.
pub open spec fn released_window(w: WindowView) -> WindowView {
    if w.dragging_offset is Some {
        if w.is_dragging {
            WindowView { dragging_offset: None, x: w.preview_x, y: w.preview_y, is_dragging: false, ..w }
        } else {
            WindowView { dragging_offset: None, ..w }
        }
    } else {
        w
    }
}

/// The regions to redraw when the drags of `ws` end: for each dragged
/// window its old bounds, then its new ones when they differ.
pub open spec fn release_regions(ws: Seq<WindowView>) -> Seq<(usize, usize, usize, usize)>
    decreases ws.len(),
{
    if ws.len() == 0 {
        Seq::empty()
    } else {
        let rest = release_regions(ws.drop_last());
        let w = ws.last();
        if w.dragging_offset is Some {
            let old_b = full_bounds(w);
            let new_b = full_bounds(released_window(w));
            if old_b == new_b { rest.push(old_b) } else { rest.push(old_b).push(new_b) }
        } else {
            rest
        }
    }
}

proof fn lemma_has_id_index(v: WmView, i: int)
    requires
        0 <= i < v.windows.len(),
    ensures
        has_id(v, v.windows[i].id),
{
}

/// The views of windows.
pub open spec fn views(ws: Seq<WindowInfo>) -> Seq<WindowView> {
    ws.map_values(|w: WindowInfo| w@)
}

impl WindowManager {
    pub closed spec fn wf(&self) -> bool {
        wm_ok(self@)
    }

    /// No windows; the first gets id 1.
    pub fn new() -> (r: WindowManager)
        ensures
            r.wf(),
            r@ == (WmView { windows: Seq::empty(), order: Seq::empty(), next_id: 1 }),
    {
        let r = WindowManager { windows: Vec::new(), window_order: Vec::new(), next_window_id: 1 };
        assert(r@.windows =~= Seq::<WindowView>::empty());
        r
    }

    /// Opens `window` in front of the others under the next id, which it returns.
    pub fn add_window(&mut self, window: WindowInfo) -> (id: usize)
        requires
            old(self).wf(),
            window_ok(WindowView { id: 0, ..window@ }),
            old(self)@.next_id < usize::MAX,
        ensures
            final(self).wf(),
            id == old(self)@.next_id,
            final(self)@ == (WmView {
                windows: old(self)@.windows.push(WindowView { id, ..window@ }),
                order: old(self)@.order.push(id),
                next_id: (id + 1) as usize,
            }),
    {
        let mut window = window;
        let id = self.next_window_id;
        window.id = id;
        self.next_window_id = id + 1;
        self.window_order.push(id);
        let ghost before = self.windows@;
        self.windows.push(window);
        assert(self.windows@.map_values(|w: WindowInfo| w@) =~= before.map_values(|w: WindowInfo| w@).push(window@));
        id
    }

    fn contains_id(&self, id: usize) -> (b: bool)
        ensures
            b == has_id(self@, id),
    {
        let mut i: usize = 0;
        while i < self.windows.len()
            invariant
                i <= self.windows@.len(),
                forall|j: int| 0 <= j < i ==> (#[trigger] self@.windows[j]).id != id,
            decreases self.windows@.len() - i,
        {
            assert(self@.windows[i as int] == self.windows@[i as int]@);
            if self.windows[i].id == id {
                proof {
                    lemma_has_id_index(self@, i as int);
                }
                return true;
            }
            i = i + 1;
        }
        false
    }

    fn remove_from_order(&mut self, id: usize)
        ensures
            final(self)@ == (WmView { order: without_id(old(self)@.order, id), ..old(self)@ }),
            final(self).windows@ == old(self).windows@,
    {
        let mut out: Vec<usize> = Vec::new();
        let mut i: usize = 0;
        while i < self.window_order.len()
            invariant
                i <= self.window_order@.len(),
                out@ == without_id(self.window_order@.subrange(0, i as int), id),
            decreases self.window_order@.len() - i,
        {
            assert(self.window_order@.subrange(0, i + 1).drop_last() =~= self.window_order@.subrange(0, i as int));
            let o = self.window_order[i];
            if o != id {
                out.push(o);
            }
            i = i + 1;
        }
        assert(self.window_order@.subrange(0, self.window_order@.len() as int) =~= self.window_order@);
        self.window_order = out;
    }

    /// Brings the window `id` to the front, when there is one.
    pub fn focus_window(&mut self, id: usize)
        requires
            old(self).wf(),
        ensures
            final(self).wf(),
            final(self)@ == focused(old(self)@, id),
    {
        if self.contains_id(id) {
            self.remove_from_order(id);
            self.window_order.push(id);
        }
    }

    /// The window in front.
    pub fn get_focused_window_id(&self) -> (r: Option<usize>)
        ensures
            r == (if self@.order.len() == 0 { None } else { Some(self@.order.last()) }),
    {
        if self.window_order.len() == 0 {
            None
        } else {
            Some(self.window_order[self.window_order.len() - 1])
        }
    }

    /// The ids of the open windows from back to front.
    pub fn get_windows_in_render_order(&self) -> (r: Vec<usize>)
        ensures
            r@ == render_order(self@.windows, self@.order),
    {
        let mut out: Vec<usize> = Vec::new();
        let mut i: usize = 0;
        while i < self.window_order.len()
            invariant
                i <= self.window_order@.len(),
                out@ == render_order(self@.windows, self.window_order@.subrange(0, i as int)),
            decreases self.window_order@.len() - i,
        {
            let ghost pre = self.window_order@.subrange(0, i + 1);
            assert(pre.drop_last() =~= self.window_order@.subrange(0, i as int));
            let o = self.window_order[i];
            let present = self.contains_id(o);
            if present {
                out.push(o);
            }
            i = i + 1;
        }
        assert(self.window_order@.subrange(0, self.window_order@.len() as int) =~= self.window_order@);
        out
    }

    /// The open windows for the taskbar, in opening order: id, title and
    /// whether it has the focus.
    pub fn get_taskbar_windows(&self) -> (r: Vec<(usize, String, bool)>)
        ensures
            r@.len() == self@.windows.len(),
            forall|i: int| 0 <= i < r@.len() ==> (#[trigger] r@[i]).0 == self@.windows[i].id
                && r@[i].1@ == self@.windows[i].title
                && r@[i].2 == (self@.order.len() > 0 && self@.order.last() == self@.windows[i].id),
    {
        let focused_id = self.get_focused_window_id();
        let mut out: Vec<(usize, String, bool)> = Vec::new();
        let mut i: usize = 0;
        while i < self.windows.len()
            invariant
                i <= self.windows@.len(),
                focused_id == (if self@.order.len() == 0 { None } else { Some(self@.order.last()) }),
                out@.len() == i,
                forall|j: int| 0 <= j < i ==> (#[trigger] out@[j]).0 == self@.windows[j].id
                    && out@[j].1@ == self@.windows[j].title
                    && out@[j].2 == (self@.order.len() > 0 && self@.order.last() == self@.windows[j].id),
            decreases self.windows@.len() - i,
        {
            assert(self@.windows[i as int] == self.windows@[i as int]@);
            let w = &self.windows[i];
            let is_focused = match focused_id {
                Some(f) => f == w.id,
                None => false,
            };
            out.push((w.id, w.title.clone(), is_focused));
            i = i + 1;
        }
        out
    }

    /// Removes the windows with id `id`.
    fn remove_windows(&mut self, id: usize)
        requires
            old(self).wf(),
        ensures
            final(self).wf(),
            final(self)@ == (WmView { windows: windows_without(old(self)@.windows, id), ..old(self)@ }),
    {
        let ghost all = self@.windows;
        let mut kept: Vec<WindowInfo> = Vec::new();
        let mut rest: Vec<WindowInfo> = Vec::new();
        std::mem::swap(&mut rest, &mut self.windows);
        assert(views(rest@) == all);
        let _l = rest.len();
        let mut taken: usize = 0;
        while rest.len() > 0
            invariant
                taken + rest@.len() == all.len(),
                views(rest@) == all.subrange(taken as int, all.len() as int),
                views(kept@) == windows_without(all.subrange(0, taken as int), id),
                all.len() <= usize::MAX,
            decreases rest@.len(),
        {
            let ghost before_rest = rest@;
            let w = rest.remove(0);
            assert(views(before_rest)[0] == w@);
            assert(w@ == all[taken as int]);
            assert(views(rest@) =~= all.subrange(taken + 1, all.len() as int)) by {
                assert forall|k: int| 0 <= k < rest@.len() implies #[trigger] views(rest@)[k] == all.subrange(taken + 1, all.len() as int)[k] by {
                    assert(rest@[k] == before_rest[k + 1]);
                    assert(views(before_rest)[k + 1] == all.subrange(taken as int, all.len() as int)[k + 1]);
                }
            }
            assert(all.subrange(0, taken + 1).drop_last() =~= all.subrange(0, taken as int));
            let ghost kept_before = kept@;
            if w.id != id {
                kept.push(w);
                assert(views(kept@) =~= views(kept_before).push(all[taken as int]));
            }
            taken = taken + 1;
        }
        assert(all.subrange(0, all.len() as int) =~= all);
        self.windows = kept;
        proof {
            lemma_windows_without_ok(all, id);
        }
    }

    /// A click at (`x`, `y`): see `click_spec`.
    pub fn handle_mouse_click(&mut self, x: i16, y: i16) -> (r: (bool, Option<(usize, usize, usize, usize)>))
        requires
            old(self).wf(),
        ensures
            final(self).wf(),
            r == click_spec(old(self)@, x, y).0,
            final(self)@ == click_spec(old(self)@, x, y).1,
    {
        let ghost v = self@;
        let n = self.windows.len();
        let mut i: usize = 0;
        while i < n
            invariant
                n == self.windows@.len(),
                v == self@,
                v == old(self)@,
                self.wf(),
                i <= n,
                close_hit(v.windows, x, y, 0) == close_hit(v.windows, x, y, i as int),
            decreases n - i,
        {
            let w = &self.windows[i];
            assert(v.windows[i as int] == w@);
            assert(window_ok(v.windows[i as int]));
            if x as usize >= w.x + w.width - 20 && x as usize <= w.x + w.width && y as usize >= w.y - 20 && y as usize <= w.y {
                assert(on_close_button(v.windows[i as int], x, y));
                assert(close_hit(v.windows, x, y, i as int) == Some(i as int));
                let id = w.id;
                let bounds = (w.x - 1, w.y - 20, w.width + 2, w.height + 21);
                self.remove_windows(id);
                self.remove_from_order(id);
                assert(self@.windows == windows_without(v.windows, id));
                assert(self@.order == without_id(v.order, id));
                assert(click_spec(v, x, y).0 == (true, Some(bounds)));
                assert(click_spec(v, x, y).1 == self@);
                return (true, Some(bounds));
            }
            i = i + 1;
        }
        let mut target: Option<usize> = None;
        let mut k: usize = 0;
        while k < n
            invariant
                n == self.windows@.len(),
                v == self@,
                v == old(self)@,
                self.wf(),
                k <= n,
                content_hit(v.windows, x, y, 0) == content_hit(v.windows, x, y, k as int),
                close_hit(v.windows, x, y, 0) is None,
                target is None <==> last_title_hit(v.windows, x, y, k as int) is None,
                target matches Some(t) ==> last_title_hit(v.windows, x, y, k as int) == Some(t as int) && t < n,
            decreases n - k,
        {
            let w = &self.windows[k];
            assert(v.windows[k as int] == w@);
            assert(window_ok(v.windows[k as int]));
            if x as usize >= w.x - 1 && x as usize <= w.x + w.width && y as usize >= w.y - 20 && y as usize <= w.y {
                target = Some(k);
            }
            if x as usize >= w.x && x as usize <= w.x + w.width && y as usize >= w.y && y as usize <= w.y + w.height {
                assert(on_content(v.windows[k as int], x, y));
                assert(content_hit(v.windows, x, y, k as int) == Some(k as int));
                let id = w.id;
                self.focus_window(id);
                return (true, None);
            }
            k = k + 1;
        }
        match target {
            Some(t) => {
                let id = self.windows[t].id;
                assert(id == v.windows[t as int].id);
                self.focus_window(id);
                (true, None)
            },
            None => (false, None),
        }
    }

    /// A click on the taskbar button of window `id`: focuses it when it is
    /// open and says whether it was.
    pub fn handle_taskbar_click(&mut self, id: usize) -> (r: bool)
        requires
            old(self).wf(),
        ensures
            final(self).wf(),
            r == has_id(old(self)@, id),
            final(self)@ == focused(old(self)@, id),
    {
        let present = self.contains_id(id);
        if present {
            self.focus_window(id);
            true
        } else {
            false
        }
    }

    /// The window whose content a click at (`x`, `y`) lands in, with the
    /// point relative to that content area, when no close button is hit.
    pub fn content_click_target(&self, x: i16, y: i16) -> (r: Option<(usize, usize, usize)>)
        requires
            self.wf(),
        ensures
            r == (if close_hit(self@.windows, x, y, 0) is None && content_hit(self@.windows, x, y, 0) is Some {
                let w = self@.windows[content_hit(self@.windows, x, y, 0)->0];
                Some((w.id, (x as usize - w.x) as usize, (y as usize - w.y) as usize))
            } else {
                None
            }),
    {
        let ghost v = self@;
        let n = self.windows.len();
        let mut i: usize = 0;
        while i < n
            invariant
                n == self.windows@.len(),
                v == self@,
                i <= n,
                close_hit(v.windows, x, y, 0) == close_hit(v.windows, x, y, i as int),
                wm_ok(v),
            decreases n - i,
        {
            let w = &self.windows[i];
            assert(v.windows[i as int] == w@);
            assert(window_ok(v.windows[i as int]));
            if x as usize >= w.x + w.width - 20 && x as usize <= w.x + w.width && y as usize >= w.y - 20 && y as usize <= w.y {
                return None;
            }
            i = i + 1;
        }
        let mut k: usize = 0;
        while k < n
            invariant
                n == self.windows@.len(),
                v == self@,
                k <= n,
                content_hit(v.windows, x, y, 0) == content_hit(v.windows, x, y, k as int),
                close_hit(v.windows, x, y, 0) is None,
                wm_ok(v),
            decreases n - k,
        {
            let w = &self.windows[k];
            assert(v.windows[k as int] == w@);
            assert(window_ok(v.windows[k as int]));
            if x as usize >= w.x && x as usize <= w.x + w.width && y as usize >= w.y && y as usize <= w.y + w.height {
                return Some((w.id, x as usize - w.x, y as usize - w.y));
            }
            k = k + 1;
        }
        None
    }

    /// A press at (`x`, `y`) on a title bar (but its close button) starts
    /// dragging the first such window; returns its id.
    pub fn handle_mouse_down(&mut self, x: i16, y: i16) -> (r: Option<usize>)
        requires
            old(self).wf(),
        ensures
            final(self).wf(),
            match drag_hit(old(self)@.windows, x, y, 0) {
                Some(i) => {
                    let w = old(self)@.windows[i];
                    &&& r == Some(w.id)
                    &&& final(self)@ == (WmView {
                        windows: old(self)@.windows.update(i, WindowView {
                            dragging_offset: Some((x, y)),
                            is_dragging: true,
                            preview_x: w.x,
                            preview_y: w.y,
                            ..w
                        }),
                        ..old(self)@
                    })
                },
                None => r is None && final(self)@ == old(self)@,
            },
    {
        let ghost v = self@;
        let n = self.windows.len();
        let mut i: usize = 0;
        while i < n
            invariant
                n == self.windows@.len(),
                v == self@,
                v == old(self)@,
                self.wf(),
                i <= n,
                drag_hit(v.windows, x, y, 0) == drag_hit(v.windows, x, y, i as int),
            decreases n - i,
        {
            assert(v.windows[i as int] == self.windows@[i as int]@);
            assert(window_ok(v.windows[i as int]));
            let hit = {
                let w = &self.windows[i];
                x as usize >= w.x && x as usize <= w.x + w.width - 20 && y as usize >= w.y - 20 && y as usize <= w.y
            };
            if hit {
                let mut w = self.windows.remove(i);
                let id = w.id;
                w.dragging_offset = Some((x, y));
                w.is_dragging = true;
                w.drag_preview_x = w.x;
                w.drag_preview_y = w.y;
                let ghost nw = w@;
                self.windows.insert(i, w);
                assert(self@.windows =~= v.windows.update(i as int, nw));
                assert(wm_ok(self@)) by {
                    assert forall|j: int| 0 <= j < self@.windows.len() implies window_ok(#[trigger] self@.windows[j]) by {
                        if j != i {
                            assert(self@.windows[j] == v.windows[j]);
                        }
                    }
                }
                return Some(id);
            }
            i = i + 1;
        }
        None
    }

    /// The pointer moved to (`x`, `y`): the first window being dragged
    /// follows it with its drag preview, which stays at x >= 1 and y >= 20.
    /// Returns its id.
    pub fn handle_mouse_move(&mut self, x: i16, y: i16) -> (r: Option<usize>)
        requires
            old(self).wf(),
        ensures
            final(self).wf(),
            match dragged(old(self)@.windows, 0) {
                Some(i) => r == Some(old(self)@.windows[i].id)
                    && final(self)@ == (WmView {
                        windows: old(self)@.windows.update(i, moved_window(old(self)@.windows[i], x, y)),
                        ..old(self)@
                    }),
                None => r is None && final(self)@ == old(self)@,
            },
    {
        let ghost v = self@;
        let n = self.windows.len();
        let mut i: usize = 0;
        while i < n
            invariant
                n == self.windows@.len(),
                v == self@,
                v == old(self)@,
                self.wf(),
                i <= n,
                dragged(v.windows, 0) == dragged(v.windows, i as int),
            decreases n - i,
        {
            assert(v.windows[i as int] == self.windows@[i as int]@);
            if self.windows[i].dragging_offset.is_some() {
                assert(dragged(v.windows, i as int) == Some(i as int));
                let mut w = self.windows.remove(i);
                let ghost old_w = w@;
                let off = w.dragging_offset.unwrap();
                let dx = x.wrapping_sub(off.0);
                let dy = y.wrapping_sub(off.1);
                w.dragging_offset = Some((x, y));
                if w.is_dragging {
                    w.drag_preview_x = preview_of(w.drag_preview_x, dx, 1);
                    w.drag_preview_y = preview_of(w.drag_preview_y, dy, 20);
                }
                let id = w.id;
                let ghost nw = w@;
                assert(nw == moved_window(old_w, x, y));
                self.windows.insert(i, w);
                assert(self@.windows =~= v.windows.update(i as int, nw));
                assert(wm_ok(self@)) by {
                    assert(window_ok(v.windows[i as int]));
                    assert forall|j: int| 0 <= j < self@.windows.len() implies window_ok(#[trigger] self@.windows[j]) by {
                        if j != i {
                            assert(self@.windows[j] == v.windows[j]);
                        }
                    }
                }
                return Some(id);
            }
            i = i + 1;
        }
        None
    }

    /// The mouse button was released: every dragged window moves to its
    /// preview place and stops dragging. Returns the regions to redraw.
    pub fn handle_mouse_release(&mut self) -> (r: Vec<(usize, usize, usize, usize)>)
        requires
            old(self).wf(),
        ensures
            final(self).wf(),
            final(self)@ == (WmView { windows: old(self)@.windows.map_values(|w: WindowView| released_window(w)), ..old(self)@ }),
            r@ == release_regions(old(self)@.windows),
    {
        let ghost v = self@;
        let n = self.windows.len();
        let mut out: Vec<(usize, usize, usize, usize)> = Vec::new();
        let mut i: usize = 0;
        while i < n
            invariant
                n == self.windows@.len(),
                n == v.windows.len(),
                wm_ok(v),
                i <= n,
                self@.order == v.order,
                self@.next_id == v.next_id,
                forall|j: int| 0 <= j < i ==> self@.windows[j] == released_window(v.windows[j]),
                forall|j: int| i <= j < n ==> self@.windows[j] == v.windows[j],
                out@ == release_regions(v.windows.subrange(0, i as int)),
            decreases n - i,
        {
            assert(self@.windows[i as int] == self.windows@[i as int]@);
            assert(window_ok(v.windows[i as int]));
            assert(v.windows.subrange(0, i + 1).drop_last() =~= v.windows.subrange(0, i as int));
            let ghost pre = self@.windows;
            if self.windows[i].dragging_offset.is_some() {
                let mut w = self.windows.remove(i);
                let ghost old_w = w@;
                let old_b = bounds_of(&w);
                w.dragging_offset = None;
                if w.is_dragging {
                    w.x = w.drag_preview_x;
                    w.y = w.drag_preview_y;
                    w.is_dragging = false;
                }
                let new_b = bounds_of(&w);
                assert(w@ == released_window(old_w));
                self.windows.insert(i, w);
                assert(self@.windows =~= pre.update(i as int, released_window(v.windows[i as int])));
                out.push(old_b);
                if old_b.0 != new_b.0 || old_b.1 != new_b.1 || old_b.2 != new_b.2 || old_b.3 != new_b.3 {
                    out.push(new_b);
                }
            }
            i = i + 1;
        }
        assert(self@.windows =~= v.windows.map_values(|w: WindowView| released_window(w)));
        assert(v.windows.subrange(0, n as int) =~= v.windows);
        assert(wm_ok(self@)) by {
            assert forall|j: int| 0 <= j < self@.windows.len() implies window_ok(#[trigger] self@.windows[j]) by {
                assert(window_ok(v.windows[j]));
            }
        }
        out
    }
}

fn preview_of(p: usize, d: i16, low: i16) -> (r: usize)
    ensures
        r == preview_after(p, d, low),
{
    let s: i32 = (p as i16) as i32 + d as i32;
    let c: i16 = if s > 32767 { 32767 } else if s < -32768 { -32768 } else { s as i16 };
    let m: i16 = if c < low { low } else { c };
    m as usize
}

fn bounds_of(w: &WindowInfo) -> (r: (usize, usize, usize, usize))
    requires
        window_ok(w@) || (w.width <= MAX_EXTENT && w.height <= MAX_EXTENT),
    ensures
        r == full_bounds(w@),
{
    (
        if w.x >= 1 { w.x - 1 } else { 0 },
        if w.y >= 20 { w.y - 20 } else { 0 },
        w.width + 2,
        w.height + 21,
    )
}

proof fn lemma_windows_without_ok(ws: Seq<WindowView>, id: usize)
    requires
        forall|i: int| 0 <= i < ws.len() ==> window_ok(#[trigger] ws[i]),
    ensures
        forall|i: int| 0 <= i < windows_without(ws, id).len() ==> window_ok(#[trigger] windows_without(ws, id)[i]),
    decreases ws.len(),
{
    if ws.len() > 0 {
        assert forall|i: int| 0 <= i < ws.drop_last().len() implies window_ok(#[trigger] ws.drop_last()[i]) by {
            assert(ws.drop_last()[i] == ws[i]);
        }
        lemma_windows_without_ok(ws.drop_last(), id);
        let r = windows_without(ws.drop_last(), id);
        if ws.last().id != id {
            assert(window_ok(ws[ws.len() - 1]));
            assert forall|i: int| 0 <= i < r.push(ws.last()).len() implies window_ok(#[trigger] r.push(ws.last())[i]) by {
                if i < r.len() {
                    assert(r.push(ws.last())[i] == r[i]);
                }
            }
        }
    }
}

/// Focusing a window twice is focusing it once.
pub proof fn lemma_focus_idempotent(v: WmView, id: usize)
    ensures
        focused(focused(v, id), id) == focused(v, id),
{
    if has_id(v, id) {
        lemma_without_push(v.order, id);
        let w = focused(v, id);
        assert(has_id(w, id));
    }
}

proof fn lemma_without_twice(s: Seq<usize>, id: usize)
    ensures
        without_id(without_id(s, id), id) == without_id(s, id),
    decreases s.len(),
{
    if s.len() > 0 {
        lemma_without_twice(s.drop_last(), id);
        if s.last() != id {
            let t = without_id(s.drop_last(), id).push(s.last());
            assert(t.drop_last() =~= without_id(s.drop_last(), id));
        }
    }
}

proof fn lemma_without_push(s: Seq<usize>, id: usize)
    ensures
        without_id(without_id(s, id).push(id), id) == without_id(s, id),
{
    let t = without_id(s, id).push(id);
    assert(t.drop_last() =~= without_id(s, id));
    lemma_without_twice(s, id);
}

/// After focusing an open window it is the one in front.
pub proof fn lemma_focused_in_front(v: WmView, id: usize)
    requires
        has_id(v, id),
    ensures
        focused(v, id).order.last() == id,
        focused(v, id).windows == v.windows,
{
}

/// While a window is dragged, a move to (`x`, `y`) makes (`x`, `y`) the
/// point the next move is measured from; so two moves take the drag preview
/// where one move straight to the second point would (away from the screen
/// edges, where the preview is held at x >= 1 and y >= 20).
pub proof fn lemma_moves_compose(w: WindowView, x1: i16, y1: i16, x2: i16, y2: i16)
    requires
        w.is_dragging,
        w.dragging_offset is Some,
        w.preview_x <= 32767,
        w.preview_y <= 32767,
        ({
            let (x0, y0) = w.dragging_offset.unwrap();
            &&& -32768 <= x1 - x0 <= 32767 && -32768 <= y1 - y0 <= 32767
            &&& -32768 <= x2 - x1 <= 32767 && -32768 <= y2 - y1 <= 32767
            &&& -32768 <= x2 - x0 <= 32767 && -32768 <= y2 - y0 <= 32767
            &&& 1 <= w.preview_x + (x1 - x0) <= 32767 && 20 <= w.preview_y + (y1 - y0) <= 32767
            &&& 1 <= w.preview_x + (x2 - x0) <= 32767 && 20 <= w.preview_y + (y2 - y0) <= 32767
        }),
    ensures
        moved_window(w, x1, y1).dragging_offset == Some((x1, y1)),
        moved_window(moved_window(w, x1, y1), x2, y2).preview_x == moved_window(w, x2, y2).preview_x,
        moved_window(moved_window(w, x1, y1), x2, y2).preview_y == moved_window(w, x2, y2).preview_y,
        moved_window(w, x2, y2).preview_x == w.preview_x + (x2 - w.dragging_offset.unwrap().0),
        moved_window(w, x2, y2).preview_y == w.preview_y + (y2 - w.dragging_offset.unwrap().1),
{
    let (x0, y0) = w.dragging_offset.unwrap();
    assert(x1.wrapping_sub(x0) == x1 - x0);
    assert(y1.wrapping_sub(y0) == y1 - y0);
    assert(x2.wrapping_sub(x1) == x2 - x1);
    assert(y2.wrapping_sub(y1) == y2 - y1);
    assert(x2.wrapping_sub(x0) == x2 - x0);
    assert(y2.wrapping_sub(y0) == y2 - y0);
    assert((w.preview_x as i16) == w.preview_x);
    assert((w.preview_y as i16) == w.preview_y);
    let m = moved_window(w, x1, y1);
    assert(m.preview_x == w.preview_x + (x1 - x0));
    assert(m.preview_y == w.preview_y + (y1 - y0));
    assert((m.preview_x as i16) == m.preview_x);
    assert((m.preview_y as i16) == m.preview_y);
}

} // verus!
