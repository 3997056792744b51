//! The text editor: editing at a cursor, the wrapped lines it shows, the
//! scroll position, and saving through the Save-As dialog.
use vstd::prelude::*;
use crate::fat32::datetime::DateTime;
use crate::fat32::disk::DiskOperations;
use crate::fat32::file_entry::{FileEntry, FileEntryView};
use vstd::utf8::{decode_utf8, encode_utf8, valid_utf8};
use crate::fat32::fs::{read_chain, Fat32FileSystem};
use crate::fat32::names::count_char;
use crate::manager::{child_path, file_created_at, find_spec, fs_inv, rewritten_at, last_slash, lemma_same_volume_layout_pub, list_directory, list_spec, read_text_file, same_layout, write_file};
use crate::text::{chars_of, copy_chars, is_control, is_dot, is_whitespace, spec_is_control, spec_is_whitespace, string_from_chars};
use crate::text_layout::{push_hard_wrap, split_lines, split_lines_of, wrap_all};

verus! {

#[derive(Debug, Clone, Copy, PartialEq, Eq, Structural)]
pub enum NotepadMode {
    Normal,
    SaveAs,
}

/// The keys the editors react to (other keys are `Other`).
#[derive(Debug, Clone, Copy, PartialEq, Eq, Structural)]
pub enum EditorKey {
    ArrowUp,
    ArrowDown,
    ArrowLeft,
    ArrowRight,
    Escape,
    Other,
}

/// Characters per displayed line.
pub const MAX_CHARS_PER_LINE: usize = 84;
/// Lines shown at once.
pub const MAX_VISIBLE_LINES: usize = 22;
/// Longest file name the Save-As dialog accepts.
pub const MAX_FILENAME_CHARS: usize = 50;

pub struct Notepad {
    text_content: Vec<char>,
    cursor_position: usize,
    scroll_offset: usize,
    display_lines: Vec<Vec<char>>,
    open_file_path: Option<String>,
    has_changes: bool,
    mode: NotepadMode,
    save_as_current_path: Vec<char>,
    save_as_filename: Vec<char>,
    save_as_folders: Vec<FileEntry>,
    save_as_selected_folder: Option<usize>,
    save_as_scroll_offset: usize,
}

/// What the editor holds: the text and cursor (positions count characters),
/// the displayed lines and scroll, the file it edits, and the Save-As dialog.
pub struct NotepadView {
    pub text: Seq<char>,
    pub cursor: usize,
    pub scroll: usize,
    pub display: Seq<Seq<char>>,
    pub open_file_path: Option<Seq<char>>,
    pub has_changes: bool,
    pub mode: NotepadMode,
    pub save_as_path: Seq<char>,
    pub save_as_filename: Seq<char>,
    pub save_as_folders: Seq<FileEntryView>,
    pub selected_folder: Option<usize>,
    pub save_as_scroll: usize,
}

impl View for Notepad {
    type V = NotepadView;

    closed spec fn view(&self) -> NotepadView {
        NotepadView {
            text: self.text_content@,
            cursor: self.cursor_position,
            scroll: self.scroll_offset,
            display: self.display_lines@.map_values(|v: Vec<char>| v@),
            open_file_path: match self.open_file_path {
                Some(s) => Some(s@),
                None => None,
            },
            has_changes: self.has_changes,
            mode: self.mode,
            save_as_path: self.save_as_current_path@,
            save_as_filename: self.save_as_filename@,
            save_as_folders: self.save_as_folders@.map_values(|f: FileEntry| f@),
            selected_folder: self.save_as_selected_folder,
            save_as_scroll: self.save_as_scroll_offset,
        }
    }
}

/// The editor's displayed lines for `text`.
pub open spec fn display_of(text: Seq<char>) -> Seq<Seq<char>> {
    wrap_all(split_lines(text), MAX_CHARS_PER_LINE as nat)
}

/// The displayed line the cursor is on: the first line `i` from `from` whose
/// end (with its newline) lies past the cursor, `count` characters coming
/// before line `from`; line 0 when there is none.
pub open spec fn cursor_line(lines: Seq<Seq<char>>, cursor: int, from: int, count: int) -> int
    decreases lines.len() - from,
{
    if from >= lines.len() || from < 0 {
        0
    } else if count + lines[from].len() + 1 > cursor {
        from
    } else {
        cursor_line(lines, cursor, from + 1, count + lines[from].len() + 1)
    }
}

/// The scroll offset that brings the cursor's line into view.
pub open spec fn scrolled(scroll: int, line: int) -> int {
    if line < scroll {
        line
    } else if line >= scroll + MAX_VISIBLE_LINES {
        line - MAX_VISIBLE_LINES + 1
    } else {
        scroll
    }
}

/// Lines joined with `\n` between them.
pub open spec fn join_lines(ls: Seq<Seq<char>>) -> Seq<char>
    decreases ls.len(),
{
    if ls.len() == 0 {
        Seq::empty()
    } else if ls.len() == 1 {
        ls[0]
    } else {
        join_lines(ls.drop_last()) + seq!['\n'] + ls.last()
    }
}

/// The lines visible from `scroll` on.
pub open spec fn visible_lines(ls: Seq<Seq<char>>, scroll: int) -> Seq<Seq<char>> {
    if scroll >= ls.len() {
        Seq::empty()
    } else {
        let end = if scroll + MAX_VISIBLE_LINES < ls.len() { scroll + MAX_VISIBLE_LINES } else { ls.len() as int };
        ls.subrange(scroll, end)
    }
}

/// The directory above `p` in the Save-As dialog: its `/`-separated parts
/// without the last one, `/` when at most one part is left.
pub open spec fn up_path(p: Seq<char>) -> Seq<char> {
    if count_char(p, '/') <= 1 {
        seq!['/']
    } else {
        match last_slash(p) {
            Some(i) => p.subrange(0, i),
            None => seq!['/'],
        }
    }
}

/// The window title of the editor.
pub open spec fn title_of(v: NotepadView) -> Seq<char> {
    let base = match v.open_file_path {
        Some(p) => last_segment(p),
        None => "Untitled"@,
    };
    let marked = if v.has_changes { base.push('*') } else { base };
    marked + " - Notepad"@
}

/// The part of a path after its last `/`.
pub open spec fn last_segment(p: Seq<char>) -> Seq<char> {
    match last_slash(p) {
        Some(i) => p.subrange(i + 1, p.len() as int),
        None => p,
    }
}

/// The text after a character typed at the cursor in the editing view:
/// backspace removes the character before the cursor, Enter inserts a newline,
/// other control characters change nothing, anything else is inserted.
pub open spec fn typed_text(text: Seq<char>, cursor: int, ch: char) -> (Seq<char>, int) {
    if ch == '\u{8}' {
        if cursor > 0 { (text.remove(cursor - 1), cursor - 1) } else { (text, cursor) }
    } else if ch == '\r' || ch == '\n' {
        (text.insert(cursor, '\n'), cursor + 1)
    } else if spec_is_control(ch) {
        (text, cursor)
    } else {
        (text.insert(cursor, ch), cursor + 1)
    }
}

/// A name is blank: nothing but whitespace.
pub open spec fn blank(s: Seq<char>) -> bool {
    forall|i: int| 0 <= i < s.len() ==> spec_is_whitespace(#[trigger] s[i])
}

pub(crate) fn is_blank(s: &Vec<char>) -> (r: bool)
    ensures
        r == blank(s@),
{
    let mut i: usize = 0;
    while i < s.len()
        invariant
            i <= s@.len(),
            forall|j: int| 0 <= j < i ==> spec_is_whitespace(#[trigger] s@[j]),
        decreases s@.len() - i,
    {
        if !is_whitespace(s[i]) {
            return false;
        }
        i = i + 1;
    }
    true
}


fn up_path_of(p: &Vec<char>) -> (r: Vec<char>)
    ensures
        r@ == up_path(p@),
{
    let mut slashes: usize = 0;
    let mut last: Option<usize> = None;
    let mut i: usize = 0;
    while i < p.len()
        invariant
            i <= p@.len(),
            slashes == count_char(p@.subrange(0, i as int), '/'),
            slashes <= i,
            last_slash(p@.subrange(0, i as int)) == match last { Some(k) => Some(k as int), None => None::<int> },
            last matches Some(k) ==> k < i,
        decreases p@.len() - i,
    {
        assert(p@.subrange(0, i + 1).drop_last() =~= p@.subrange(0, i as int));
        if p[i] == '/' {
            slashes = slashes + 1;
            last = Some(i);
        }
        i = i + 1;
    }
    assert(p@.subrange(0, p@.len() as int) =~= p@);
    let mut r: Vec<char> = Vec::new();
    if slashes <= 1 {
        r.push('/');
        assert(r@ =~= seq!['/']);
        return r;
    }
    match last {
        Some(k) => {
            let mut j: usize = 0;
            while j < k
                invariant
                    j <= k < p@.len(),
                    r@ == p@.subrange(0, j as int),
                decreases k - j,
            {
                r.push(p[j]);
                j = j + 1;
            }
            r
        },
        None => {
            r.push('/');
            assert(r@ =~= seq!['/']);
            r
        },
    }
}

pub(crate) fn last_segment_of(p: &Vec<char>) -> (r: Vec<char>)
    ensures
        r@ == last_segment(p@),
{
    let mut k = p.len();
    assert(p@.subrange(0, k as int) =~= p@);
    while k > 0 && p[k - 1] != '/'
        invariant
            k <= p@.len(),
            last_slash(p@) == last_slash(p@.subrange(0, k as int)),
        decreases k,
    {
        assert(p@.subrange(0, k as int).drop_last() =~= p@.subrange(0, k - 1));
        k = k - 1;
    }
    if k > 0 {
        assert(p@.subrange(0, k as int).last() == '/');
    }
    let mut r: Vec<char> = Vec::new();
    let mut j = k;
    while j < p.len()
        invariant
            k <= j <= p@.len(),
            r@ == p@.subrange(k as int, j as int),
        decreases p@.len() - j,
    {
        r.push(p[j]);
        j = j + 1;
    }
    r
}

pub(crate) fn join_path_chars(dir: &Vec<char>, name: &[char]) -> (r: Vec<char>)
    ensures
        r@ == child_path(dir@, name@),
{
    let mut out: Vec<char> = Vec::new();
    let is_root = dir.len() == 1 && dir[0] == '/';
    assert(is_root == (dir@ == seq!['/'])) by {
        if dir@ == seq!['/'] {
            assert(dir@[0] == '/');
        }
        if is_root {
            assert(dir@ =~= seq!['/']);
        }
    }
    if is_root {
        out.push('/');
    } else {
        out = copy_chars(dir);
        out.push('/');
    }
    let ghost head = out@;
    let mut j: usize = 0;
    while j < name.len()
        invariant
            j <= name@.len(),
            out@ == head + name@.subrange(0, j as int),
        decreases name@.len() - j,
    {
        out.push(name[j]);
        j = j + 1;
    }
    assert(name@.subrange(0, name@.len() as int) =~= name@);
    out
}

impl Notepad {
    pub closed spec fn wf(&self) -> bool {
        self.cursor_position <= self.text_content@.len()
    }

    /// The characters of the text.
    pub fn text(&self) -> (r: String)
        ensures
            r@ == self@.text,
    {
        string_from_chars(self.text_content.as_slice())
    }

    pub fn mode(&self) -> (m: NotepadMode)
        ensures
            m == self@.mode,
    {
        self.mode
    }

    /// Whether the Save-As dialog's selection, if any, is one of its listed folders.
    pub fn save_as_selection_in_list(&self) -> (b: bool)
        ensures
            b == (self@.selected_folder matches Some(i) ==> i < self@.save_as_folders.len()),
    {
        match self.save_as_selected_folder {
            Some(i) => i < self.save_as_folders.len(),
            None => true,
        }
    }

    pub fn cursor_position(&self) -> (c: usize)
        ensures
            c == self@.cursor,
    {
        self.cursor_position
    }

    pub fn has_changes(&self) -> (b: bool)
        ensures
            b == self@.has_changes,
    {
        self.has_changes
    }

    /// The file name typed in the Save-As dialog.
    pub fn save_as_filename(&self) -> (r: String)
        ensures
            r@ == self@.save_as_filename,
    {
        string_from_chars(self.save_as_filename.as_slice())
    }

    /// The directory the Save-As dialog shows.
    pub fn save_as_current_path(&self) -> (r: String)
        ensures
            r@ == self@.save_as_path,
    {
        string_from_chars(self.save_as_current_path.as_slice())
    }

    /// Recomputes the displayed lines from the text.
    pub fn update_display_lines(&mut self)
        requires
            old(self).wf(),
        ensures
            final(self).wf(),
            final(self)@ == (NotepadView { display: display_of(old(self)@.text), ..old(self)@ }),
    {
        let lines = split_lines_of(self.text_content.as_slice());
        let ghost ls = split_lines(self.text_content@);
        let mut out: Vec<Vec<char>> = Vec::new();
        let mut i: usize = 0;
        assert(out@.map_values(|v: Vec<char>| v@) =~= wrap_all(ls.subrange(0, 0), MAX_CHARS_PER_LINE as nat));
        while i < lines.len()
            invariant
                i <= lines@.len(),
                lines@.map_values(|v: Vec<char>| v@) == ls,
                out@.map_values(|v: Vec<char>| v@) == wrap_all(ls.subrange(0, i as int), MAX_CHARS_PER_LINE as nat),
            decreases lines@.len() - i,
        {
            assert(ls.subrange(0, i + 1).drop_last() =~= ls.subrange(0, i as int));
            assert(ls.subrange(0, i + 1).last() == lines@[i as int]@);
            push_hard_wrap(&mut out, lines[i].as_slice(), MAX_CHARS_PER_LINE);
            i = i + 1;
        }
        assert(ls.subrange(0, ls.len() as int) =~= ls);
        self.display_lines = out;
    }

    /// The displayed line the cursor is on (see `cursor_line`).
    fn find_cursor_line(&self) -> (line: usize)
        ensures
            line == cursor_line(self@.display, self@.cursor as int, 0, 0),
    {
        let ghost ls = self@.display;
        let cursor = self.cursor_position;
        let mut count: usize = 0;
        let mut i: usize = 0;
        while i < self.display_lines.len()
            invariant
                i <= self.display_lines@.len(),
                ls == self@.display,
                count <= cursor,
                cursor == self@.cursor,
                cursor_line(ls, cursor as int, 0, 0) == cursor_line(ls, cursor as int, i as int, count as int),
            decreases self.display_lines@.len() - i,
        {
            let len = self.display_lines[i].len();
            assert(self.display_lines@[i as int]@ == ls[i as int]);
            if len >= cursor - count {
                return i;
            }
            count = count + len + 1;
            i = i + 1;
        }
        0
    }

    /// Scrolls so that the cursor's line is visible.
    pub fn update_scroll_if_needed(&mut self)
        ensures
            final(self)@ == (NotepadView {
                scroll: scrolled(old(self)@.scroll as int, cursor_line(old(self)@.display, old(self)@.cursor as int, 0, 0)) as usize,
                ..old(self)@
            }),
            final(self).wf() == old(self).wf(),
    {
        let cursor_line = self.find_cursor_line();
        proof {
            lemma_cursor_line_bound(self@.display, self@.cursor as int, 0, 0);
        }
        if cursor_line < self.scroll_offset {
            self.scroll_offset = cursor_line;
        } else if cursor_line - self.scroll_offset >= MAX_VISIBLE_LINES {
            self.scroll_offset = cursor_line - MAX_VISIBLE_LINES + 1;
        }
    }
}

proof fn lemma_cursor_line_bound(lines: Seq<Seq<char>>, cursor: int, from: int, count: int)
    requires
        0 <= from,
    ensures
        0 <= cursor_line(lines, cursor, from, count) <= lines.len(),
    decreases lines.len() - from,
{
    if from < lines.len() && !(count + lines[from].len() + 1 > cursor) {
        lemma_cursor_line_bound(lines, cursor, from + 1, count + lines[from].len() + 1);
    }
}

/// The subdirectories among `es` that the Save-As dialog lists (`.` left out).
pub open spec fn dir_folders(es: Seq<FileEntryView>) -> Seq<FileEntryView>
    decreases es.len(),
{
    if es.len() == 0 {
        Seq::empty()
    } else {
        let rest = dir_folders(es.drop_last());
        let e = es.last();
        if e.is_directory && e.name != seq!['.'] { rest.push(e) } else { rest }
    }
}

fn keep_folders(entries: Vec<FileEntry>) -> (r: Vec<FileEntry>)
    ensures
        r@.map_values(|f: FileEntry| f@) == dir_folders(entries@.map_values(|f: FileEntry| f@)),
{
    let ghost es = entries@.map_values(|f: FileEntry| f@);
    let mut out: Vec<FileEntry> = Vec::new();
    let mut rest = entries;
    let ghost mut k: int = 0;
    let ghost all = rest@;
    assert(es.subrange(0, 0) =~= Seq::<FileEntryView>::empty());
    while rest.len() > 0
        invariant
            0 <= k <= all.len(),
            es == all.map_values(|f: FileEntry| f@),
            rest@ == all.subrange(k, all.len() as int),
            out@.map_values(|f: FileEntry| f@) == dir_folders(es.subrange(0, k)),
        decreases rest@.len(),
    {
        let e = rest.remove(0);
        let ghost before = out@;
        assert(e == all[k]);
        assert(es.subrange(0, k + 1).drop_last() =~= es.subrange(0, k));
        assert(es.subrange(0, k + 1).last() == e@);
        proof {
            k = k + 1;
        }
        assert(rest@ =~= all.subrange(k, all.len() as int));
        let keep = e.is_directory && !is_dot(&e.name);
        if keep {
            out.push(e);
            assert(out@.map_values(|f: FileEntry| f@) =~= before.map_values(|f: FileEntry| f@).push(e@));
        }
    }
    assert(es.subrange(0, all.len() as int) =~= es);
    out
}

impl Notepad {
    /// A new editor, holding the text of the file `args` names when it can
    /// be read (empty otherwise).
    pub fn new<D: DiskOperations>(fs: &mut Option<Fat32FileSystem<D>>, args: Option<String>) -> (r: Notepad)
        requires
            fs_inv(*old(fs)),
        ensures
            r.wf(),
            same_layout(*old(fs), *final(fs)),
            r@.cursor == 0 && r@.scroll == 0 && r@.display.len() == 0,
            args is None ==> r@.text.len() == 0,
            args matches Some(p) ==> (r@.text.len() == 0 || (*old(fs) matches Some(f)
                && (find_spec(f.geometry(), f.disk_view(), p@) matches Some(Some(e))
                && !e.is_directory
                && valid_utf8(read_chain(f.geometry(), f.disk_view(), e.first_cluster as int, e.size as nat))
                && r@.text == decode_utf8(read_chain(f.geometry(), f.disk_view(), e.first_cluster as int, e.size as nat))))),
            r@.open_file_path == match args { Some(s) => Some(s@), None => None::<Seq<char>> },
            !r@.has_changes,
            r@.mode == NotepadMode::Normal,
            r@.save_as_path == seq!['/'],
            r@.save_as_filename == "untitled.txt"@,
            r@.save_as_folders.len() == 0,
            r@.selected_folder is None,
            r@.save_as_scroll == 0,
    {
        let text_content = match &args {
            Some(path) => match read_text_file(fs, path.as_str()) {
                Ok(content) => chars_of(content.as_str()),
                Err(_) => Vec::new(),
            },
            None => Vec::new(),
        };
        proof {
            crate::manager::lemma_same_volume_layout_pub(*old(fs), *fs);
        }
        let root = vec!['/'];
        assert(root@ =~= seq!['/']);
        let name = chars_of("untitled.txt");
        let n = Notepad {
            text_content,
            cursor_position: 0,
            scroll_offset: 0,
            display_lines: Vec::new(),
            open_file_path: args,
            has_changes: false,
            mode: NotepadMode::Normal,
            save_as_current_path: root,
            save_as_filename: name,
            save_as_folders: Vec::new(),
            save_as_selected_folder: None,
            save_as_scroll_offset: 0,
        };
        assert(n@.display =~= Seq::<Seq<char>>::empty());
        assert(n@.save_as_folders =~= Seq::<FileEntryView>::empty());
        n
    }

    /// The visible lines joined with newlines.
    pub fn get_display_text(&self) -> (r: String)
        ensures
            r@ == join_lines(visible_lines(self@.display, self@.scroll as int)),
    {
        let n = self.display_lines.len();
        let ghost ls = self@.display;
        let mut out: Vec<char> = Vec::new();
        if self.scroll_offset >= n {
            assert(out@ =~= join_lines(Seq::<Seq<char>>::empty()));
            return string_from_chars(out.as_slice());
        }
        let end = if n - self.scroll_offset > MAX_VISIBLE_LINES { self.scroll_offset + MAX_VISIBLE_LINES } else { n };
        let ghost vis = ls.subrange(self.scroll_offset as int, end as int);
        assert(vis == visible_lines(ls, self.scroll_offset as int));
        let mut i = self.scroll_offset;
        while i < end
            invariant
                self.scroll_offset <= i <= end <= n,
                n == self.display_lines@.len(),
                ls == self@.display,
                vis == ls.subrange(self.scroll_offset as int, end as int),
                out@ == join_lines(vis.subrange(0, i - self.scroll_offset)),
            decreases end - i,
        {
            let ghost k = i - self.scroll_offset;
            let ghost before = out@;
            if i > self.scroll_offset {
                out.push('\n');
            }
            let line = &self.display_lines[i];
            assert(line@ == vis[k]);
            let mut j: usize = 0;
            let ghost mid = out@;
            while j < line.len()
                invariant
                    j <= line@.len(),
                    out@ == mid + line@.subrange(0, j as int),
                decreases line@.len() - j,
            {
                out.push(line[j]);
                j = j + 1;
            }
            assert(line@.subrange(0, line@.len() as int) =~= line@);
            let ghost sub = vis.subrange(0, k + 1);
            assert(sub.drop_last() =~= vis.subrange(0, k));
            assert(sub.last() == vis[k]);
            proof {
                if k == 0 {
                    assert(sub.len() == 1);
                    assert(out@ =~= join_lines(sub));
                } else {
                    assert(out@ =~= join_lines(sub.drop_last()) + seq!['\n'] + sub.last());
                }
            }
            i = i + 1;
        }
        assert(vis.subrange(0, end - self.scroll_offset) =~= vis);
        string_from_chars(out.as_slice())
    }
}

/// Where the cursor appears among the visible lines: its column and visible
/// line, scanning from line `i` with `count` characters before it and `liv`
/// visible lines passed; `None` when the cursor lies before the first visible
/// line.
pub open spec fn visual_from(ls: Seq<Seq<char>>, scroll: int, cursor: int, i: int, count: int, liv: int) -> Option<(int, int)>
    decreases ls.len() - i,
{
    if i >= ls.len() || i < 0 {
        Some((0, liv))
    } else if i < scroll {
        visual_from(ls, scroll, cursor, i + 1, count + ls[i].len() + 1, liv)
    } else if count + ls[i].len() + 1 > cursor {
        if cursor >= count { Some((cursor - count, liv)) } else { None }
    } else if liv + 1 >= MAX_VISIBLE_LINES {
        Some((0, liv + 1))
    } else {
        visual_from(ls, scroll, cursor, i + 1, count + ls[i].len() + 1, liv + 1)
    }
}

/// The state of the Save-As dialog fields other than the folder list.
pub open spec fn same_but_folders(a: NotepadView, b: NotepadView) -> bool {
    b == NotepadView { save_as_folders: b.save_as_folders, selected_folder: b.selected_folder, save_as_scroll: b.save_as_scroll, ..a }
}

/// Pixel (x, y) lies on the row of listed folder `i` of the Save-As dialog:
/// rows 18 pixels high every 20 from y = 85, between x = 30 and 550, for at
/// most eight folders from the scroll offset on.
pub open spec fn folder_row_hit(v: NotepadView, x: int, y: int, i: int) -> bool {
    &&& v.save_as_scroll <= i < v.save_as_folders.len()
    &&& i - v.save_as_scroll < 8
    &&& 30 <= x < 550
    &&& 85 + 20 * (i - v.save_as_scroll) <= y < 85 + 20 * (i - v.save_as_scroll) + 18
}

/// `b` is the editor `a` after the Save-As dialog moved into the folder
/// `name` (`..` is the parent, and at `/` nothing happens).
pub open spec fn navigated_to(a: NotepadView, b: NotepadView, name: Seq<char>) -> bool {
    if name == seq!['.', '.'] {
        if a.save_as_path == seq!['/'] {
            b == a
        } else {
            same_but_folders(NotepadView { save_as_path: up_path(a.save_as_path), ..a }, b)
        }
    } else {
        same_but_folders(NotepadView { save_as_path: child_path(a.save_as_path, name), ..a }, b)
    }
}

/// The editor `a` after its text was saved under the Save-As dialog's name.
pub open spec fn saved_as(a: NotepadView) -> NotepadView {
    NotepadView {
        open_file_path: Some(child_path(a.save_as_path, a.save_as_filename)),
        has_changes: false,
        mode: NotepadMode::Normal,
        ..a
    }
}

impl Notepad {
    /// The cursor's position in pixels within the text area: 7 pixels per
    /// column from 3, 18 pixels per visible line from 5.
    pub fn get_cursor_visual_position(&self) -> (r: (usize, usize))
        requires
            visual_from(self@.display, self@.scroll as int, self@.cursor as int, 0, 0, 0) matches Some((col, line))
                && 3 + col * 7 <= usize::MAX && 5 + line * 18 <= usize::MAX,
        ensures
            visual_from(self@.display, self@.scroll as int, self@.cursor as int, 0, 0, 0) matches Some((col, line))
                && r == ((3 + col * 7) as usize, (5 + line * 18) as usize),
    {
        let ghost ls = self@.display;
        let cursor = self.cursor_position;
        let scroll = self.scroll_offset;
        let mut count: u128 = 0;
        let mut liv: usize = 0;
        let mut i: usize = 0;
        let mut col: usize = 0;
        let mut done = false;
        while i < self.display_lines.len() && !done
            invariant
                i <= self.display_lines@.len(),
                ls == self@.display,
                cursor == self@.cursor,
                scroll == self@.scroll,
                count <= i * (usize::MAX as int + 1),
                liv <= i,
                visual_from(ls, scroll as int, cursor as int, 0, 0, 0) matches Some((c, l))
                    && 3 + c * 7 <= usize::MAX && 5 + l * 18 <= usize::MAX,
                !done ==> visual_from(ls, scroll as int, cursor as int, 0, 0, 0) == visual_from(ls, scroll as int, cursor as int, i as int, count as int, liv as int),
                done ==> visual_from(ls, scroll as int, cursor as int, 0, 0, 0) == Some((col as int, liv as int)),
                !done ==> col == 0,
            decreases self.display_lines@.len() - i, if done { 0int } else { 1int },
        {
            let len = self.display_lines[i].len();
            assert(self.display_lines@[i as int]@ == ls[i as int]);
            assert(count + len + 1 <= (i + 1) * (usize::MAX as int + 1)) by (nonlinear_arith)
                requires
                    count <= i * (usize::MAX as int + 1),
                    len <= usize::MAX,
            ;
            if i < scroll {
                count = count + len as u128 + 1;
                i = i + 1;
            } else if count + len as u128 + 1 > cursor as u128 {
                col = (cursor as u128 - count) as usize;
                done = true;
            } else {
                count = count + len as u128 + 1;
                liv = liv + 1;
                i = i + 1;
                if liv >= MAX_VISIBLE_LINES {
                    col = 0;
                    done = true;
                }
            }
        }
        (3 + col * 7, 5 + liv * 18)
    }

    /// Lists the subdirectories of the Save-As dialog's directory; on a
    /// failure the list is emptied.
    pub fn refresh_save_as_folder_list<D: DiskOperations>(&mut self, fs: &mut Option<Fat32FileSystem<D>>)
        requires
            fs_inv(*old(fs)),
        ensures
            same_layout(*old(fs), *final(fs)),
            final(self).wf() == old(self).wf(),
            same_but_folders(old(self)@, final(self)@),
            (*old(fs) matches Some(f) && (list_spec(f.geometry(), f.disk_view(), old(self)@.save_as_path) matches Some(es)
                && final(self)@.save_as_folders == dir_folders(es)
                && final(self)@.selected_folder is None && final(self)@.save_as_scroll == 0))
            || (final(self)@.save_as_folders.len() == 0 && final(self)@.selected_folder == old(self)@.selected_folder
                && final(self)@.save_as_scroll == old(self)@.save_as_scroll),
    {
        let path = string_from_chars(self.save_as_current_path.as_slice());
        let listed = list_directory(fs, path.as_str());
        proof {
            lemma_same_volume_layout_pub(*old(fs), *fs);
        }
        match listed {
            Ok(entries) => {
                self.save_as_folders = keep_folders(entries);
                self.save_as_selected_folder = None;
                self.save_as_scroll_offset = 0;
            },
            Err(_) => {
                self.save_as_folders = Vec::new();
                assert(self@.save_as_folders =~= Seq::<FileEntryView>::empty());
            },
        }
    }

    /// Opens the Save-As dialog on the root directory, proposing the edited
    /// file's name (`untitled.txt` for a new text).
    pub fn enter_save_as_mode<D: DiskOperations>(&mut self, fs: &mut Option<Fat32FileSystem<D>>)
        requires
            fs_inv(*old(fs)),
        ensures
            same_layout(*old(fs), *final(fs)),
            final(self).wf() == old(self).wf(),
            same_but_folders(NotepadView {
                mode: NotepadMode::SaveAs,
                save_as_filename: match old(self)@.open_file_path {
                    Some(p) => last_segment(p),
                    None => "untitled.txt"@,
                },
                save_as_path: seq!['/'],
                ..old(self)@
            }, final(self)@),
            (*old(fs) matches Some(f) && (list_spec(f.geometry(), f.disk_view(), seq!['/']) matches Some(es)
                && final(self)@.save_as_folders == dir_folders(es)))
            || final(self)@.save_as_folders.len() == 0,
    {
        self.mode = NotepadMode::SaveAs;
        self.save_as_filename = match &self.open_file_path {
            Some(path) => last_segment_of(&chars_of(path.as_str())),
            None => chars_of("untitled.txt"),
        };
        let root = vec!['/'];
        assert(root@ =~= seq!['/']);
        self.save_as_current_path = root;
        self.refresh_save_as_folder_list(fs);
    }

    /// Opens the Save-As dialog.
    pub fn trigger_save_as<D: DiskOperations>(&mut self, fs: &mut Option<Fat32FileSystem<D>>)
        requires
            fs_inv(*old(fs)),
        ensures
            same_layout(*old(fs), *final(fs)),
            final(self).wf() == old(self).wf(),
            same_but_folders(NotepadView {
                mode: NotepadMode::SaveAs,
                save_as_filename: match old(self)@.open_file_path {
                    Some(p) => last_segment(p),
                    None => "untitled.txt"@,
                },
                save_as_path: seq!['/'],
                ..old(self)@
            }, final(self)@),
            (*old(fs) matches Some(f) && (list_spec(f.geometry(), f.disk_view(), seq!['/']) matches Some(es)
                && final(self)@.save_as_folders == dir_folders(es)))
            || final(self)@.save_as_folders.len() == 0,
    {
        self.enter_save_as_mode(fs);
    }

    /// Moves the Save-As dialog into `folder_name`, or up for `..` (at the
    /// root, `..` does nothing).
    pub fn handle_save_as_navigation<D: DiskOperations>(&mut self, fs: &mut Option<Fat32FileSystem<D>>, folder_name: &[char])
        requires
            fs_inv(*old(fs)),
        ensures
            same_layout(*old(fs), *final(fs)),
            final(self).wf() == old(self).wf(),
            folder_name@ == seq!['.', '.'] && old(self)@.save_as_path == seq!['/'] ==> final(self)@ == old(self)@,
            folder_name@ == seq!['.', '.'] && old(self)@.save_as_path != seq!['/']
                ==> same_but_folders(NotepadView { save_as_path: up_path(old(self)@.save_as_path), ..old(self)@ }, final(self)@),
            folder_name@ != seq!['.', '.']
                ==> same_but_folders(NotepadView { save_as_path: child_path(old(self)@.save_as_path, folder_name@), ..old(self)@ }, final(self)@),
    {
        let is_up = folder_name.len() == 2 && folder_name[0] == '.' && folder_name[1] == '.';
        assert(is_up == (folder_name@ == seq!['.', '.'])) by {
            if is_up {
                assert(folder_name@ =~= seq!['.', '.']);
            }
        }
        if is_up {
            let at_root = self.save_as_current_path.len() == 1 && self.save_as_current_path[0] == '/';
            assert(at_root == (self@.save_as_path == seq!['/'])) by {
                if at_root {
                    assert(self@.save_as_path =~= seq!['/']);
                }
            }
            if !at_root {
                self.save_as_current_path = up_path_of(&self.save_as_current_path);
                self.refresh_save_as_folder_list(fs);
            } else {
                proof {
                    lemma_same_volume_layout_pub(*old(fs), *fs);
                }
            }
        } else {
            self.save_as_current_path = join_path_chars(&self.save_as_current_path, folder_name);
            self.refresh_save_as_folder_list(fs);
        }
    }

    /// Saves the text as the file named in the Save-As dialog, in the
    /// dialog's directory; on success the editor edits that file and leaves
    /// the dialog. A blank name saves nothing. Returns whether it saved.
    pub fn perform_save_as<D: DiskOperations>(&mut self, fs: &mut Option<Fat32FileSystem<D>>, now: DateTime) -> (r: bool)
        requires
            fs_inv(*old(fs)),
            now.year >= 1980,
        ensures
            same_layout(*old(fs), *final(fs)),
            final(self).wf() == old(self).wf(),
            blank(old(self)@.save_as_filename) ==> !r,
            !r ==> final(self)@ == old(self)@,
            r ==> final(self)@ == (NotepadView {
                open_file_path: Some(child_path(old(self)@.save_as_path, old(self)@.save_as_filename)),
                has_changes: false,
                mode: NotepadMode::Normal,
                ..old(self)@
            }),
            r ==> (*old(fs) matches Some(f) && (find_spec(f.geometry(), f.disk_view(), child_path(old(self)@.save_as_path, old(self)@.save_as_filename))
                matches Some(o) && (o matches Some(e) ==> !e.is_directory))),
            r ==> (*old(fs) matches Some(f) && find_spec(f.geometry(), f.disk_view(), child_path(old(self)@.save_as_path, old(self)@.save_as_filename))
                == Some(None::<FileEntryView>) ==> file_created_at(*old(fs), *final(fs),
                child_path(old(self)@.save_as_path, old(self)@.save_as_filename), encode_utf8(old(self)@.text), now)),
            r ==> (*old(fs) matches Some(f) && (find_spec(f.geometry(), f.disk_view(), child_path(old(self)@.save_as_path, old(self)@.save_as_filename))
                matches Some(Some(_))) ==> rewritten_at(*old(fs), *final(fs), encode_utf8(old(self)@.text).len() as u32, now)),
    {
        if is_blank(&self.save_as_filename) {
            proof {
                assert(same_layout(*old(fs), *fs)) by {
                    match *fs {
                        Some(f) => {},
                        None => {},
                    }
                }
            }
            return false;
        }
        let path = string_from_chars(join_path_chars(&self.save_as_current_path, self.save_as_filename.as_slice()).as_slice());
        let text = string_from_chars(self.text_content.as_slice());
        match write_file(fs, path.as_str(), text.as_str().as_bytes(), now) {
            Ok(_) => {
                self.open_file_path = Some(path);
                self.has_changes = false;
                self.mode = NotepadMode::Normal;
                true
            },
            Err(_) => false,
        }
    }

    /// Saves the text to the edited file, or opens the Save-As dialog when
    /// there is none.
    pub fn handle_save<D: DiskOperations>(&mut self, fs: &mut Option<Fat32FileSystem<D>>, now: DateTime)
        requires
            fs_inv(*old(fs)),
            now.year >= 1980,
        ensures
            same_layout(*old(fs), *final(fs)),
            final(self).wf() == old(self).wf(),
            old(self)@.open_file_path is Some ==> (final(self)@ == old(self)@
                || final(self)@ == (NotepadView { has_changes: false, ..old(self)@ })),
            old(self)@.open_file_path is None ==> final(self)@.mode == NotepadMode::SaveAs,
    {
        match &self.open_file_path {
            None => {
                self.enter_save_as_mode(fs);
            },
            Some(path) => {
                let text = string_from_chars(self.text_content.as_slice());
                match write_file(fs, path.as_str(), text.as_str().as_bytes(), now) {
                    Ok(_) => {
                        self.has_changes = false;
                    },
                    Err(_) => {},
                }
            },
        }
    }
}

/// The Save-As dialog's selection after the up arrow.
pub open spec fn selected_after_up(sel: Option<usize>, n: int) -> Option<usize> {
    match sel {
        Some(s) => if s > 0 { Some((s - 1) as usize) } else { Some(s) },
        None => if n > 0 { Some((n - 1) as usize) } else { None },
    }
}

/// The Save-As dialog's selection after the down arrow.
pub open spec fn selected_after_down(sel: Option<usize>, n: int) -> Option<usize> {
    match sel {
        Some(s) => if s < n - 1 { Some((s + 1) as usize) } else { Some(s) },
        None => if n > 0 { Some(0) } else { None },
    }
}

/// The editing view after typing `ch`: the text edit, a change recorded, the
/// lines redisplayed and the cursor's line scrolled into view.
pub open spec fn after_typing(v: NotepadView, ch: char) -> NotepadView {
    let (t, c) = typed_text(v.text, v.cursor as int, ch);
    let disp = display_of(t);
    NotepadView {
        text: t,
        cursor: c as usize,
        has_changes: true,
        display: disp,
        scroll: scrolled(v.scroll as int, cursor_line(disp, c, 0, 0)) as usize,
        ..v
    }
}

impl Notepad {
    fn push_filename_char(&mut self, ch: char)
        ensures
            final(self)@ == (NotepadView {
                save_as_filename: if old(self)@.save_as_filename.len() < MAX_FILENAME_CHARS { old(self)@.save_as_filename.push(ch) } else { old(self)@.save_as_filename },
                ..old(self)@
            }),
            final(self).wf() == old(self).wf(),
    {
        if self.save_as_filename.len() < MAX_FILENAME_CHARS {
            self.save_as_filename.push(ch);
        }
    }

    /// A typed character. In the Save-As dialog it edits the file name
    /// (backspace deletes, Enter opens the selected folder, at most 50
    /// characters); with Ctrl held, `s` saves; otherwise it edits the text at
    /// the cursor (see `after_typing`).
    pub fn handle_char_input<D: DiskOperations>(&mut self, fs: &mut Option<Fat32FileSystem<D>>, ch: char, ctrl_pressed: bool, now: DateTime)
        requires
            fs_inv(*old(fs)),
            now.year >= 1980,
            old(self).wf(),
            old(self)@.mode == NotepadMode::Normal && ctrl_pressed ==> ch != 'o' && ch != 'O',
            old(self)@.mode == NotepadMode::SaveAs && (ch == '\r' || ch == '\n')
                ==> (old(self)@.selected_folder matches Some(i) ==> i < old(self)@.save_as_folders.len()),
        ensures
            final(self).wf(),
            same_layout(*old(fs), *final(fs)),
            old(self)@.mode == NotepadMode::SaveAs && ch == '\u{8}' ==> final(self)@ == (NotepadView {
                save_as_filename: if old(self)@.save_as_filename.len() > 0 { old(self)@.save_as_filename.drop_last() } else { old(self)@.save_as_filename },
                ..old(self)@
            }),
            old(self)@.mode == NotepadMode::SaveAs && (ch == '\r' || ch == '\n') && old(self)@.selected_folder is None ==> final(self)@ == old(self)@,
            old(self)@.mode == NotepadMode::SaveAs && ch != '\u{8}' && ch != '\r' && ch != '\n' && spec_is_control(ch) ==> final(self)@ == old(self)@,
            old(self)@.mode == NotepadMode::SaveAs && !spec_is_control(ch) ==> final(self)@ == (NotepadView {
                save_as_filename: if old(self)@.save_as_filename.len() < MAX_FILENAME_CHARS { old(self)@.save_as_filename.push(ch) } else { old(self)@.save_as_filename },
                ..old(self)@
            }),
            old(self)@.mode == NotepadMode::Normal && ctrl_pressed && ch != 's' && ch != 'S' ==> final(self)@ == old(self)@,
            old(self)@.mode == NotepadMode::Normal && !ctrl_pressed ==> final(self)@ == after_typing(old(self)@, ch),
    {
        if self.mode == NotepadMode::SaveAs {
            if ch == '\u{8}' {
                if self.save_as_filename.len() > 0 {
                    self.save_as_filename.pop();
                }
            } else if ch == '\r' || ch == '\n' {
                if let Some(selected) = self.save_as_selected_folder {
                    let name = chars_of(self.save_as_folders[selected].name.as_str());
                    self.handle_save_as_navigation(fs, name.as_slice());
                    return;
                }
            } else if is_control(ch) {
            } else {
                self.push_filename_char(ch);
            }
            proof {
                lemma_same_volume_layout_pub(*old(fs), *fs);
            }
            return;
        }
        if ctrl_pressed {
            if ch == 's' || ch == 'S' {
                self.handle_save(fs, now);
            } else {
                proof {
                    lemma_same_volume_layout_pub(*old(fs), *fs);
                }
            }
            return;
        }
        proof {
            lemma_same_volume_layout_pub(*old(fs), *fs);
        }
        if ch == '\u{8}' {
            if self.cursor_position > 0 {
                self.text_content.remove(self.cursor_position - 1);
                self.cursor_position = self.cursor_position - 1;
            }
        } else if ch == '\r' || ch == '\n' {
            self.text_content.insert(self.cursor_position, '\n');
            let _len: usize = self.text_content.len();
            self.cursor_position = self.cursor_position + 1;
        } else if is_control(ch) {
        } else {
            self.text_content.insert(self.cursor_position, ch);
            let _len: usize = self.text_content.len();
            self.cursor_position = self.cursor_position + 1;
        }
        self.has_changes = true;
        self.update_display_lines();
        self.update_scroll_if_needed();
    }

    /// A key press: in the Save-As dialog the arrows move the folder
    /// selection and Escape leaves the dialog; otherwise the left and right
    /// arrows move the cursor within the text.
    pub fn handle_key_input(&mut self, key: EditorKey)
        requires
            old(self).wf(),
            old(self)@.mode == NotepadMode::SaveAs && key == EditorKey::ArrowDown && old(self)@.selected_folder is Some
                ==> old(self)@.save_as_folders.len() > 0,
        ensures
            final(self).wf(),
            old(self)@.mode == NotepadMode::SaveAs ==> final(self)@ == match key {
                EditorKey::ArrowUp => NotepadView { selected_folder: selected_after_up(old(self)@.selected_folder, old(self)@.save_as_folders.len() as int), ..old(self)@ },
                EditorKey::ArrowDown => NotepadView { selected_folder: selected_after_down(old(self)@.selected_folder, old(self)@.save_as_folders.len() as int), ..old(self)@ },
                EditorKey::Escape => NotepadView { mode: NotepadMode::Normal, ..old(self)@ },
                _ => old(self)@,
            },
            old(self)@.mode == NotepadMode::Normal ==> final(self)@ == match key {
                EditorKey::ArrowLeft => NotepadView { cursor: if old(self)@.cursor > 0 { (old(self)@.cursor - 1) as usize } else { old(self)@.cursor }, ..old(self)@ },
                EditorKey::ArrowRight => NotepadView { cursor: if old(self)@.cursor < old(self)@.text.len() { (old(self)@.cursor + 1) as usize } else { old(self)@.cursor }, ..old(self)@ },
                _ => old(self)@,
            },
    {
        if self.mode == NotepadMode::SaveAs {
            let n = self.save_as_folders.len();
            match key {
                EditorKey::ArrowUp => {
                    if let Some(selected) = self.save_as_selected_folder {
                        if selected > 0 {
                            self.save_as_selected_folder = Some(selected - 1);
                        }
                    } else if n > 0 {
                        self.save_as_selected_folder = Some(n - 1);
                    }
                },
                EditorKey::ArrowDown => {
                    if let Some(selected) = self.save_as_selected_folder {
                        if selected < n - 1 {
                            self.save_as_selected_folder = Some(selected + 1);
                        }
                    } else if n > 0 {
                        self.save_as_selected_folder = Some(0);
                    }
                },
                EditorKey::Escape => {
                    self.mode = NotepadMode::Normal;
                },
                _ => {},
            }
            return;
        }
        match key {
            EditorKey::ArrowLeft => {
                if self.cursor_position > 0 {
                    self.cursor_position = self.cursor_position - 1;
                }
            },
            EditorKey::ArrowRight => {
                if self.cursor_position < self.text_content.len() {
                    self.cursor_position = self.cursor_position + 1;
                }
            },
            _ => {},
        }
    }

    /// A click in the Save-As dialog: on a listed folder it selects it (or,
    /// when already selected, opens it), then the Save and Cancel buttons.
    /// Clicks outside the dialog change nothing.
    pub fn handle_mouse_click<D: DiskOperations>(&mut self, fs: &mut Option<Fat32FileSystem<D>>, x: usize, y: usize, now: DateTime)
        requires
            fs_inv(*old(fs)),
            now.year >= 1980,
            old(self).wf(),
        ensures
            final(self).wf(),
            same_layout(*old(fs), *final(fs)),
            old(self)@.mode == NotepadMode::Normal ==> final(self)@ == old(self)@,
            forall|i: int| old(self)@.mode == NotepadMode::SaveAs && #[trigger] folder_row_hit(old(self)@, x as int, y as int, i)
                ==> if old(self)@.selected_folder == Some(i as usize) {
                    navigated_to(old(self)@, final(self)@, old(self)@.save_as_folders[i].name)
                } else {
                    final(self)@ == NotepadView { selected_folder: Some(i as usize), ..old(self)@ }
                },
            old(self)@.mode == NotepadMode::SaveAs && (forall|i: int| !#[trigger] folder_row_hit(old(self)@, x as int, y as int, i))
                ==> if 30 <= x < 100 && 340 <= y < 365 {
                    (final(self)@ == old(self)@ || final(self)@ == saved_as(old(self)@))
                        && (blank(old(self)@.save_as_filename) ==> final(self)@ == old(self)@)
                } else if 110 <= x < 180 && 340 <= y < 365 {
                    final(self)@ == NotepadView { mode: NotepadMode::Normal, ..old(self)@ }
                } else {
                    final(self)@ == old(self)@
                },
    {
        proof {
            lemma_same_volume_layout_pub(*old(fs), *fs);
        }
        if self.mode != NotepadMode::SaveAs {
            return;
        }
        let n = self.save_as_folders.len();
        let scroll = self.save_as_scroll_offset;
        let mut i = scroll;
        while i < n && i - scroll < 8
            invariant
                scroll <= i,
                n == self.save_as_folders@.len(),
                scroll == self.save_as_scroll_offset,
                *self == *old(self),
                old(self)@.mode == NotepadMode::SaveAs,
                old(self).wf(),
                same_layout(*old(fs), *fs),
                *fs == *old(fs),
                forall|k: int| scroll <= k < i ==> !#[trigger] folder_row_hit(old(self)@, x as int, y as int, k),
            decreases n - i,
        {
            let y_pos = 85 + (i - scroll) * 20;
            if x >= 30 && x < 550 && y >= y_pos && y < y_pos + 18 {
                assert(folder_row_hit(old(self)@, x as int, y as int, i as int));
                assert forall|j: int| #[trigger] folder_row_hit(old(self)@, x as int, y as int, j) implies j == i by {}
                if self.save_as_selected_folder == Some(i) {
                    let name = chars_of(self.save_as_folders[i].name.as_str());
                    assert(name@ == old(self)@.save_as_folders[i as int].name);
                    self.handle_save_as_navigation(fs, name.as_slice());
                } else {
                    self.save_as_selected_folder = Some(i);
                    assert(self@ == NotepadView { selected_folder: Some(i), ..old(self)@ });
                }
                return;
            }
            i = i + 1;
        }
        assert forall|k: int| !#[trigger] folder_row_hit(old(self)@, x as int, y as int, k) by {}
        if x >= 30 && x < 100 && y >= 340 && y < 365 {
            let _ = self.perform_save_as(fs, now);
        }
        if x >= 110 && x < 180 && y >= 340 && y < 365 {
            self.mode = NotepadMode::Normal;
        }
    }

    /// The window title: the last part of the open file's path (or
    /// `Untitled`), a `*` when there are unsaved changes, then ` - Notepad`.
    pub fn get_title(&self) -> (r: Option<String>)
        ensures
            r matches Some(t) && t@ == title_of(self@),
    {
        let mut out: Vec<char> = match &self.open_file_path {
            Some(path) => {
                let cs = chars_of(path.as_str());
                last_segment_of(&cs)
            },
            None => {
                let u = chars_of("Untitled");
                proof { reveal_strlit("Untitled"); }
                u
            },
        };
        if self.has_changes {
            out.push('*');
        }
        let ghost head = out@;
        let suffix = chars_of(" - Notepad");
        proof { reveal_strlit(" - Notepad"); }
        let mut j: usize = 0;
        while j < suffix.len()
            invariant
                j <= suffix@.len(),
                out@ == head + suffix@.subrange(0, j as int),
            decreases suffix@.len() - j,
        {
            out.push(suffix[j]);
            j = j + 1;
        }
        assert(suffix@.subrange(0, suffix@.len() as int) =~= suffix@);
        Some(string_from_chars(out.as_slice()))
    }
}

/// Typing a printable character and then backspace gives back the text and
/// the cursor one started from.
pub proof fn lemma_type_then_backspace(text: Seq<char>, cursor: int, ch: char)
    requires
        0 <= cursor <= text.len(),
        !spec_is_control(ch),
    ensures
        typed_text(typed_text(text, cursor, ch).0, typed_text(text, cursor, ch).1, '\u{8}') == (text, cursor),
{
    assert(text.insert(cursor, ch).remove(cursor) =~= text);
}

proof fn lemma_count_append(a: Seq<char>, b: Seq<char>, c: char)
    ensures
        count_char(a + b, c) == count_char(a, c) + count_char(b, c),
    decreases b.len(),
{
    if b.len() == 0 {
        assert(a + b =~= a);
    } else {
        assert((a + b).drop_last() =~= a + b.drop_last());
        lemma_count_append(a, b.drop_last(), c);
    }
}

proof fn lemma_no_slash(n: Seq<char>)
    requires
        !n.contains('/'),
    ensures
        count_char(n, '/') == 0,
        last_slash(n) is None,
    decreases n.len(),
{
    if n.len() > 0 {
        assert(!n.drop_last().contains('/')) by {
            if n.drop_last().contains('/') {
                let k = choose|k: int| 0 <= k < n.drop_last().len() && n.drop_last()[k] == '/';
                assert(n[k] == '/');
            }
        }
        assert(n.last() != '/') by {
            if n.last() == '/' {
                assert(n[n.len() - 1] == '/');
            }
        }
        lemma_no_slash(n.drop_last());
    }
}

proof fn lemma_last_slash_before(a: Seq<char>, n: Seq<char>)
    requires
        !n.contains('/'),
    ensures
        last_slash(a.push('/') + n) == Some(a.len() as int),
    decreases n.len(),
{
    if n.len() == 0 {
        assert(a.push('/') + n =~= a.push('/'));
    } else {
        assert(!n.drop_last().contains('/')) by {
            if n.drop_last().contains('/') {
                let k = choose|k: int| 0 <= k < n.drop_last().len() && n.drop_last()[k] == '/';
                assert(n[k] == '/');
            }
        }
        assert(n.last() != '/') by {
            if n.last() == '/' {
                assert(n[n.len() - 1] == '/');
            }
        }
        assert((a.push('/') + n).drop_last() =~= a.push('/') + n.drop_last());
        lemma_last_slash_before(a, n.drop_last());
    }
}

/// Going up from a Save-As folder removes exactly its last component: for a
/// folder path `p` (starting with `/`) and a name `n` without `/`, going up
/// from `p`'s child `n` gives `p` back, and `/` for a child of the root.
pub proof fn lemma_up_of_child(p: Seq<char>, n: Seq<char>)
    requires
        p.len() > 0,
        p[0] == '/',
        !n.contains('/'),
    ensures
        up_path(child_path(p, n)) == p,
{
    lemma_no_slash(n);
    if p == seq!['/'] {
        lemma_count_append(seq!['/'], n, '/');
        assert(count_char(seq!['/'], '/') == 1) by {
            let e = Seq::<char>::empty();
            assert(seq!['/'].drop_last() =~= e);
            assert(count_char(e, '/') == 0);
        }
    } else {
        let c = p + seq!['/'] + n;
        assert(c =~= p.push('/') + n);
        lemma_count_append(p.push('/'), n, '/');
        lemma_count_append(p, seq!['/'], '/');
        assert(p.push('/') =~= p + seq!['/']);
        assert(count_char(seq!['/'], '/') == 1) by {
            let e = Seq::<char>::empty();
            assert(seq!['/'].drop_last() =~= e);
            assert(count_char(e, '/') == 0);
        }
        assert(count_char(p, '/') >= 1) by {
            lemma_count_append(seq![p[0]], p.subrange(1, p.len() as int), '/');
            assert(seq![p[0]] + p.subrange(1, p.len() as int) =~= p);
            let e = Seq::<char>::empty();
            assert(seq![p[0]].drop_last() =~= e);
            assert(count_char(e, '/') == 0);
        }
        lemma_last_slash_before(p, n);
        assert(c.subrange(0, p.len() as int) =~= p);
    }
}

} // verus!
