//! The command terminal: a prompt with a line being edited, the output of
//! the commands run so far, the wrapped lines shown, history and completion.
use vstd::prelude::*;
use vstd::utf8::{decode_utf8, valid_utf8};
use crate::fat32::datetime::DateTime;
use crate::fat32::disk::DiskOperations;
use crate::fat32::file_entry::FileEntryView;
use crate::fat32::fs::{read_chain, Fat32FileSystem};
use crate::keyboard::{get_current_layout, layout_index, layout_name, set_keyboard_layout};
use crate::manager::{find_spec, fs_inv, list_directory, list_spec, read_text_file, same_volume};
use crate::notepad::join_lines;
use crate::terminal_text::{append_chars, join_range, lines_view, join_rest, join_words, padded, padded_decimal, text_lines, text_lines_of, words, words_of};
use crate::text::{chars_of, is_control, same_chars, spec_is_control, string_from_chars};
use crate::text_layout::{break_line, break_spec};

verus! {

#[derive(Debug, Clone, Copy, PartialEq, Eq, Structural)]
pub enum TerminalMode {
    Normal,
    Command,
}

/// The keys, other than characters, that the terminal handles.
#[derive(Debug, Clone, Copy, PartialEq, Eq, Structural)]
pub enum TerminalKey {
    ArrowLeft,
    ArrowRight,
    ArrowUp,
    ArrowDown,
    Home,
    End,
    Delete,
    PageUp,
    PageDown,
    Other,
}

/// Width of a shown line, in characters.
pub const LINE_WIDTH: usize = 84;
/// Number of lines shown at once.
pub const VISIBLE_LINES: usize = 24;
/// Number of commands the history keeps.
pub const HISTORY_CAPACITY: usize = 50;
/// Number of output lines kept after a command.
pub const OUTPUT_CAPACITY: usize = 24;
/// Milliseconds between two blinks of the cursor.
pub const CURSOR_BLINK_INTERVAL: u64 = 500;

pub struct Terminal {
    command_history: Vec<Vec<char>>,
    current_command: Vec<char>,
    command_cursor: usize,
    output_lines: Vec<Vec<char>>,
    display_lines: Vec<Vec<char>>,
    command_lines: Vec<Vec<char>>,
    scroll_offset: usize,
    history_index: usize,
    completion_cache: Option<(Vec<char>, Vec<Vec<char>>)>,
    completion_index: usize,
    mode: TerminalMode,
    cursor_blink_state: bool,
    cursor_blink_timer: u64,
}

pub struct TerminalView {
    pub history: Seq<Seq<char>>,
    pub command: Seq<char>,
    pub cursor: usize,
    pub output: Seq<Seq<char>>,
    pub display: Seq<Seq<char>>,
    pub command_lines: Seq<Seq<char>>,
    pub scroll: usize,
    pub history_index: usize,
    pub completion: Option<(Seq<char>, Seq<Seq<char>>)>,
    pub completion_index: usize,
    pub mode: TerminalMode,
    pub blink_on: bool,
    pub blink_timer: u64,
}


impl View for Terminal {
    type V = TerminalView;

    closed spec fn view(&self) -> TerminalView {
        TerminalView {
            history: lines_view(self.command_history@),
            command: self.current_command@,
            cursor: self.command_cursor,
            output: lines_view(self.output_lines@),
            display: lines_view(self.display_lines@),
            command_lines: lines_view(self.command_lines@),
            scroll: self.scroll_offset,
            history_index: self.history_index,
            completion: match self.completion_cache {
                Some((input, cands)) => Some((input@, lines_view(cands@))),
                None => None,
            },
            completion_index: self.completion_index,
            mode: self.mode,
            blink_on: self.cursor_blink_state,
            blink_timer: self.cursor_blink_timer,
        }
    }
}

/// The prompt in front of the command being edited.
pub open spec fn prompt() -> Seq<char> {
    seq!['g', 'o', 'o', 'f', 'y', '>', ' ']
}

/// How one output line is shown: whole when it fits, else broken at safe points.
pub open spec fn shown_line(l: Seq<char>) -> Seq<Seq<char>> {
    if l.len() <= LINE_WIDTH { seq![l] } else { break_spec(l, LINE_WIDTH as nat) }
}

/// The shown lines of all output lines, one after the other.
pub open spec fn shown_lines(ls: Seq<Seq<char>>) -> Seq<Seq<char>>
    decreases ls.len(),
{
    if ls.len() == 0 {
        Seq::empty()
    } else {
        shown_lines(ls.drop_last()) + shown_line(ls.last())
    }
}

/// The shown lines of the prompt line.
pub open spec fn prompt_lines(cmd: Seq<char>) -> Seq<Seq<char>> {
    break_spec(prompt() + cmd, LINE_WIDTH as nat)
}

/// Everything the terminal shows: the output, then the prompt line.
pub open spec fn display_of(output: Seq<Seq<char>>, cmd: Seq<char>) -> Seq<Seq<char>> {
    shown_lines(output) + prompt_lines(cmd)
}

/// The first line of `cls` from `i` on by whose end `target` characters
/// (counting from `count` before line `i`) are reached, with the count of
/// characters before it.
pub open spec fn reach_line(cls: Seq<Seq<char>>, target: int, i: int, count: int) -> Option<(int, int)>
    decreases cls.len() - i,
{
    if i < 0 || i >= cls.len() {
        None
    } else if count + cls[i].len() >= target {
        Some((i, count))
    } else {
        reach_line(cls, target, i + 1, count + cls[i].len())
    }
}

/// The shown line that holds the cursor.
pub open spec fn cursor_line(v: TerminalView) -> int {
    if v.command_lines.len() == 0 {
        0
    } else {
        match reach_line(v.command_lines, prompt().len() + v.cursor, 0, 0) {
            Some((i, _)) => v.display.len() - v.command_lines.len() + i,
            None => v.display.len() - 1,
        }
    }
}

/// The scroll position that keeps line `line` in view.
pub open spec fn scroll_to(scroll: int, line: int) -> int {
    if line < scroll {
        line
    } else if line >= scroll + VISIBLE_LINES {
        line - VISIBLE_LINES + 1
    } else {
        scroll
    }
}

/// The lines in view from `scroll` on.
pub open spec fn visible_lines(ls: Seq<Seq<char>>, scroll: int) -> Seq<Seq<char>> {
    if scroll >= ls.len() {
        Seq::empty()
    } else {
        let end = if scroll + VISIBLE_LINES < ls.len() { scroll + VISIBLE_LINES } else { ls.len() as int };
        ls.subrange(scroll, end)
    }
}

/// Where the cursor is drawn, in pixels, for the terminal state `v`.
pub open spec fn cursor_pixel(v: TerminalView) -> (int, int) {
    if v.command_lines.len() == 0 {
        (5, 5)
    } else {
        let target = prompt().len() + v.cursor;
        let (line, col) = match reach_line(v.command_lines, target, 0, 0) {
            Some((i, count)) => (i, target - count),
            None => (0, 0),
        };
        let absolute = v.display.len() - v.command_lines.len() + line;
        let visible = if absolute > v.scroll { absolute - v.scroll } else { 0 };
        (3 + col * 7, 5 + visible * 18)
    }
}

/// `v` with the shown lines rebuilt from its output and command.
pub open spec fn refreshed(v: TerminalView) -> TerminalView {
    TerminalView {
        display: display_of(v.output, v.command),
        command_lines: prompt_lines(v.command),
        ..v
    }
}

/// `v` scrolled so that the line holding the cursor is in view.
pub open spec fn scroll_updated(v: TerminalView) -> TerminalView {
    TerminalView {
        scroll: if v.display.len() == 0 || v.command_lines.len() == 0 {
            v.scroll
        } else {
            scroll_to(v.scroll as int, cursor_line(v)) as usize
        },
        ..v
    }
}

/// The history after running `cmd`: an empty line is not kept, and the
/// oldest entry goes when the history is full.
pub open spec fn history_after(h: Seq<Seq<char>>, cmd: Seq<char>) -> Seq<Seq<char>> {
    if cmd.len() == 0 {
        h
    } else if h.len() >= HISTORY_CAPACITY {
        h.drop_first().push(cmd)
    } else {
        h.push(cmd)
    }
}

/// The last `n` lines of `ls` (all of them when there are fewer).
pub open spec fn keep_last(ls: Seq<Seq<char>>, n: nat) -> Seq<Seq<char>> {
    if ls.len() > n { ls.subrange(ls.len() - n, ls.len() as int) } else { ls }
}

/// The state after running `cmd`, which printed `r`, before the shown lines
/// are rebuilt.
pub open spec fn after_command(v: TerminalView, cmd: Seq<char>, r: Seq<Seq<char>>) -> TerminalView {
    let h = history_after(v.history, cmd);
    TerminalView {
        history: h,
        history_index: h.len() as usize,
        output: keep_last((if is_clear(cmd) { Seq::empty() } else { v.output }) + r, OUTPUT_CAPACITY as nat),
        completion: None,
        ..v
    }
}

/// The invariant of the terminal: the cursor within the command, the
/// history within its capacity, and the shown lines built from the output
/// and the command.
pub open spec fn view_ok(v: TerminalView) -> bool {
    &&& v.cursor <= v.command.len()
    &&& v.command.len() + prompt().len() <= usize::MAX
    &&& v.history.len() <= HISTORY_CAPACITY
    &&& v.history_index <= v.history.len()
    &&& forall|i: int| 0 <= i < v.history.len() ==> #[trigger] v.history[i].len() + prompt().len() <= usize::MAX
    &&& v.completion matches Some((_, cands)) ==> forall|i: int| 0 <= i < cands.len()
        ==> #[trigger] cands[i].len() + prompt().len() <= usize::MAX
    &&& v.command_lines == prompt_lines(v.command)
    &&& v.display == display_of(v.output, v.command)
}

impl Terminal {
    pub closed spec fn wf(&self) -> bool {
        view_ok(self@)
    }

    proof fn lemma_display_len(&self)
        requires
            self.wf(),
        ensures
            self.display_lines@.len() >= self.command_lines@.len(),
            self@.display.len() == self.display_lines@.len(),
            self@.command_lines.len() == self.command_lines@.len(),
    {
        assert(lines_view(self.display_lines@).len() == self.display_lines@.len());
        assert(lines_view(self.command_lines@).len() == self.command_lines@.len());
    }

    /// Rebuilds the shown lines from the output and the prompt line.
    fn update_display_lines(&mut self)
        requires
            old(self).current_command@.len() + prompt().len() <= usize::MAX,
        ensures
            final(self)@ == refreshed(old(self)@),
    {
        let mut display: Vec<Vec<char>> = Vec::new();
        let ghost out = lines_view(self.output_lines@);
        let mut i: usize = 0;
        while i < self.output_lines.len()
            invariant
                i <= self.output_lines@.len(),
                out == lines_view(self.output_lines@),
                lines_view(display@) == shown_lines(out.subrange(0, i as int)),
            decreases self.output_lines@.len() - i,
        {
            let ghost before = display@;
            let line = &self.output_lines[i];
            assert(line@ == out[i as int]);
            if line.len() <= LINE_WIDTH {
                display.push(line.clone());
                assert(lines_view(display@) =~= lines_view(before) + seq![line@]);
            } else {
                let pieces = break_line(line.as_slice(), LINE_WIDTH);
                display.append(&mut pieces.clone());
                assert(lines_view(display@) =~= lines_view(before) + lines_view(pieces@));
            }
            proof {
                let sub = out.subrange(0, i + 1);
                assert(sub.drop_last() =~= out.subrange(0, i as int));
                assert(sub.last() == out[i as int]);
            }
            i = i + 1;
        }
        assert(out.subrange(0, self.output_lines@.len() as int) =~= out);
        let mut line = chars_of("goofy> ");
        proof {
            reveal_strlit("goofy> ");
            assert(line@ =~= prompt());
        }
        let ghost p = line@;
        let mut j: usize = 0;
        while j < self.current_command.len()
            invariant
                j <= self.current_command@.len(),
                line@ == p + self.current_command@.subrange(0, j as int),
            decreases self.current_command@.len() - j,
        {
            line.push(self.current_command[j]);
            j = j + 1;
        }
        assert(self.current_command@.subrange(0, self.current_command@.len() as int) =~= self.current_command@);
        let pieces = break_line(line.as_slice(), LINE_WIDTH);
        let ghost before = display@;
        display.append(&mut pieces.clone());
        assert(lines_view(display@) =~= lines_view(before) + lines_view(pieces@));
        self.command_lines = pieces;
        self.display_lines = display;
    }

    /// The shown line that holds the cursor.
    fn get_cursor_line(&self) -> (r: usize)
        requires
            self.wf(),
        ensures
            r == cursor_line(self@),
    {
        proof {
            self.lemma_display_len();
        }
        if self.command_lines.len() == 0 {
            return 0;
        }
        let target = 7 + self.command_cursor;
        let mut count: usize = 0;
        let mut i: usize = 0;
        while i < self.command_lines.len()
            invariant
                self.wf(),
                i <= self.command_lines@.len(),
                count < target,
                target == prompt().len() + self.command_cursor,
                self.display_lines@.len() >= self.command_lines@.len(),
                reach_line(self@.command_lines, target as int, 0, 0) == reach_line(self@.command_lines, target as int, i as int, count as int),
            decreases self.command_lines@.len() - i,
        {
            let len = self.command_lines[i].len();
            assert(self@.command_lines[i as int].len() == len);
            if len >= target - count {
                return (self.display_lines.len() - self.command_lines.len()) + i;
            }
            count = count + len;
            i = i + 1;
        }
        self.display_lines.len() - 1
    }

    /// Scrolls so that the line holding the cursor is in view.
    pub fn update_scroll_if_needed(&mut self)
        requires
            old(self).wf(),
        ensures
            final(self).wf(),
            final(self)@ == scroll_updated(old(self)@),
    {
        proof {
            self.lemma_display_len();
        }
        if self.display_lines.len() == 0 || self.command_lines.len() == 0 {
            return;
        }
        let line = self.get_cursor_line();
        if line < self.scroll_offset {
            self.scroll_offset = line;
        } else if line - self.scroll_offset >= VISIBLE_LINES {
            self.scroll_offset = line - VISIBLE_LINES + 1;
        }
    }

    /// The lines in view, joined by newlines.
    pub fn get_display_text(&self) -> (r: String)
        requires
            self.wf(),
        ensures
            r@ == join_lines(visible_lines(self@.display, self@.scroll as int)),
    {
        proof {
            self.lemma_display_len();
        }
        let n = self.display_lines.len();
        let start = self.scroll_offset;
        if start >= n {
            assert(join_lines(Seq::<Seq<char>>::empty()) =~= Seq::<char>::empty());
            return String::new();
        }
        let end = if n - start > VISIBLE_LINES { start + VISIBLE_LINES } else { n };
        let out = join_range(&self.display_lines, start, end);
        crate::text::string_from_chars(out.as_slice())
    }

    /// Where the cursor is drawn, in pixels.
    pub fn get_cursor_visual_position(&self) -> (r: (usize, usize))
        requires
            self.wf(),
            (prompt().len() + self@.command.len()) * 7 + 3 <= usize::MAX,
            self@.display.len() * 18 + 5 <= usize::MAX,
        ensures
            r.0 == cursor_pixel(self@).0,
            r.1 == cursor_pixel(self@).1,
    {
        proof {
            self.lemma_display_len();
        }
        if self.command_lines.len() == 0 {
            return (5, 5);
        }
        let target = 7 + self.command_cursor;
        let mut count: usize = 0;
        let mut line_index: usize = 0;
        let mut col: usize = 0;
        let mut i: usize = 0;
        while i < self.command_lines.len()
            invariant_except_break
                self.wf(),
                i <= self.command_lines@.len(),
                count < target,
                target == prompt().len() + self.command_cursor,
                reach_line(self@.command_lines, target as int, 0, 0) == reach_line(self@.command_lines, target as int, i as int, count as int),
                line_index == 0 && col == 0,
                self.command_lines@.len() > 0,
            ensures
                match reach_line(self@.command_lines, target as int, 0, 0) {
                    Some((k, c)) => line_index == k && col == target - c,
                    None => line_index == 0 && col == 0,
                },
                line_index < self.command_lines@.len(),
                col <= target,
            decreases self.command_lines@.len() - i,
        {
            let len = self.command_lines[i].len();
            assert(self@.command_lines[i as int].len() == len);
            if len >= target - count {
                line_index = i;
                col = target - count;
                break;
            }
            count = count + len;
            i = i + 1;
        }
        let absolute = (self.display_lines.len() - self.command_lines.len()) + line_index;
        let visible = if absolute > self.scroll_offset { absolute - self.scroll_offset } else { 0 };
        assert(col * 7 <= (prompt().len() + self@.command.len()) * 7) by (nonlinear_arith)
            requires col <= prompt().len() + self@.command.len();
        assert(visible * 18 <= self@.display.len() * 18) by (nonlinear_arith)
            requires visible <= self@.display.len();
        (3 + col * 7, 5 + visible * 18)
    }
}


/// The lines `help` prints.
pub open spec fn help_lines() -> Seq<Seq<char>> {
    seq![
        "Available commands:"@,
        "  help        - Show this help"@,
        "  clear       - Clear terminal"@,
        "  echo        - Print arguments"@,
        "  ls          - List files"@,
        "  cat         - Show file contents"@,
        "  date        - Show current date/time"@,
        "  time        - Show current time"@,
        "  uptime      - Show system uptime"@,
        "  version     - Show OS version"@,
        "  setkeyboard - Change keyboard layout"@,
        Seq::<char>::empty(),
    ]
}

/// `YYYY-MM-DD hh:mm:ss UTC`.
pub open spec fn date_line(t: DateTime) -> Seq<char> {
    padded(t.year as nat, 4) + seq!['-'] + padded(t.month as nat, 2) + seq!['-'] + padded(t.day as nat, 2)
        + seq![' '] + padded(t.hours as nat, 2) + seq![':'] + padded(t.minutes as nat, 2) + seq![':']
        + padded(t.seconds as nat, 2) + seq![' ', 'U', 'T', 'C']
}

/// `hh:mm:ss.mmm`.
pub open spec fn time_line(t: DateTime) -> Seq<char> {
    padded(t.hours as nat, 2) + seq![':'] + padded(t.minutes as nat, 2) + seq![':'] + padded(t.seconds as nat, 2)
        + seq!['.'] + padded(t.millis as nat, 3)
}

/// `Uptime: hh:mm:ss` for `ms` milliseconds since start.
pub open spec fn uptime_line(ms: u64) -> Seq<char> {
    let s = ms as nat / 1000;
    "Uptime: "@ + padded(s / 3600, 2) + seq![':'] + padded((s % 3600) / 60, 2) + seq![':'] + padded(s % 60, 2)
}

/// The reply to `cat name`: the file's lines when it is a readable text
/// file, else an error line.
pub open spec fn cat_reply<D: DiskOperations>(fs: Option<Fat32FileSystem<D>>, name: Seq<char>, r: Seq<Seq<char>>) -> bool {
    ||| (exists|e: Seq<char>| r == seq!["Error reading file: "@ + e])
    ||| (fs matches Some(f) && (find_spec(f.geometry(), f.disk_view(), name) matches Some(Some(e))
        && !e.is_directory
        && valid_utf8(read_chain(f.geometry(), f.disk_view(), e.first_cluster as int, e.size as nat))
        && r == text_lines(decode_utf8(read_chain(f.geometry(), f.disk_view(), e.first_cluster as int, e.size as nat)))))
}

/// The reply to `ls`: the names in the root directory, else an error line.
pub open spec fn ls_reply<D: DiskOperations>(fs: Option<Fat32FileSystem<D>>, r: Seq<Seq<char>>) -> bool {
    ||| (exists|e: Seq<char>| r == seq!["Error listing directory: "@ + e])
    ||| (fs matches Some(f) && (list_spec(f.geometry(), f.disk_view(), "/"@) matches Some(es)
        && r == seq!["Directory listing:"@] + es.map_values(|e: FileEntryView| e.name)))
}

/// The reply to `setkeyboard` with the words `ws`, and the layout after it.
pub open spec fn keyboard_reply(ws: Seq<Seq<char>>, layout: usize, new_layout: usize, r: Seq<Seq<char>>) -> bool {
    if ws.len() >= 2 {
        &&& new_layout == match layout_index(ws[1]) { Some(i) => i, None => layout }
        &&& r == seq![if layout_index(ws[1]) is Some {
                "Keyboard layout changed to: "@ + ws[1]
            } else {
                "Failed to change keyboard layout to: "@ + ws[1]
            }]
    } else {
        &&& new_layout == layout
        &&& r == seq!["Current keyboard layout: "@ + seq!['"'] + layout_name(layout) + seq!['"'], "Usage: setkeyboard <layout>"@]
    }
}

/// What a command line prints (`r`), and the keyboard layout after it: the
/// first word names the command; a line without words prints nothing.
pub open spec fn reply_ok<D: DiskOperations>(
    fs: Option<Fat32FileSystem<D>>,
    layout: usize,
    new_layout: usize,
    now: DateTime,
    uptime_ms: u64,
    cmd: Seq<char>,
    r: Seq<Seq<char>>,
) -> bool {
    let ws = words(cmd);
    let kept = new_layout == layout;
    if ws.len() == 0 {
        kept && r.len() == 0
    } else if ws[0] == "help"@ {
        kept && r == help_lines()
    } else if ws[0] == "clear"@ {
        kept && r == seq!["Terminal cleared."@]
    } else if ws[0] == "echo"@ {
        kept && r == seq![join_words(ws.drop_first())]
    } else if ws[0] == "ls"@ {
        kept && ls_reply(fs, r)
    } else if ws[0] == "cat"@ {
        kept && if ws.len() >= 2 { cat_reply(fs, ws[1], r) } else { r == seq!["Usage: cat <filename>"@] }
    } else if ws[0] == "date"@ {
        kept && r == seq![date_line(now)]
    } else if ws[0] == "time"@ {
        kept && r == seq![time_line(now)]
    } else if ws[0] == "uptime"@ {
        kept && r == seq![uptime_line(uptime_ms)]
    } else if ws[0] == "version"@ {
        kept && r == seq!["GoofyOS v0.1.0 - Built with Rust"@]
    } else if ws[0] == "setkeyboard"@ {
        keyboard_reply(ws, layout, new_layout, r)
    } else {
        kept && r == seq!["Command not found: "@ + cmd]
    }
}

/// Whether a command line is `clear`.
pub open spec fn is_clear(cmd: Seq<char>) -> bool {
    words(cmd).len() > 0 && words(cmd)[0] != "help"@ && words(cmd)[0] == "clear"@
}

fn push_line(out: &mut Vec<Vec<char>>, line: Vec<char>)
    ensures
        lines_view(final(out)@) == lines_view(old(out)@).push(line@),
{
    let ghost before = out@;
    out.push(line);
    assert(lines_view(out@) =~= lines_view(before).push(line@));
}

fn one_line(line: Vec<char>) -> (r: Vec<Vec<char>>)
    ensures
        lines_view(r@) == seq![line@],
{
    let mut r: Vec<Vec<char>> = Vec::new();
    push_line(&mut r, line);
    assert(lines_view(r@) =~= seq![line@]);
    r
}

fn joined(a: &str, b: &[char]) -> (r: Vec<char>)
    ensures
        r@ == a@ + b@,
{
    let mut out = chars_of(a);
    append_chars(&mut out, b);
    out
}

fn help_lines_vec() -> (r: Vec<Vec<char>>)
    ensures
        lines_view(r@) == help_lines(),
{
    let mut r: Vec<Vec<char>> = Vec::new();
    push_line(&mut r, chars_of("Available commands:"));
    push_line(&mut r, chars_of("  help        - Show this help"));
    push_line(&mut r, chars_of("  clear       - Clear terminal"));
    push_line(&mut r, chars_of("  echo        - Print arguments"));
    push_line(&mut r, chars_of("  ls          - List files"));
    push_line(&mut r, chars_of("  cat         - Show file contents"));
    push_line(&mut r, chars_of("  date        - Show current date/time"));
    push_line(&mut r, chars_of("  time        - Show current time"));
    push_line(&mut r, chars_of("  uptime      - Show system uptime"));
    push_line(&mut r, chars_of("  version     - Show OS version"));
    push_line(&mut r, chars_of("  setkeyboard - Change keyboard layout"));
    push_line(&mut r, Vec::new());
    assert(lines_view(r@) =~= help_lines());
    r
}

fn date_line_of(t: DateTime) -> (r: Vec<char>)
    ensures
        r@ == date_line(t),
{
    let mut out = padded_decimal(t.year as u64, 4);
    out.push('-');
    append_chars(&mut out, padded_decimal(t.month as u64, 2).as_slice());
    out.push('-');
    append_chars(&mut out, padded_decimal(t.day as u64, 2).as_slice());
    out.push(' ');
    append_chars(&mut out, padded_decimal(t.hours as u64, 2).as_slice());
    out.push(':');
    append_chars(&mut out, padded_decimal(t.minutes as u64, 2).as_slice());
    out.push(':');
    append_chars(&mut out, padded_decimal(t.seconds as u64, 2).as_slice());
    out.push(' ');
    out.push('U');
    out.push('T');
    out.push('C');
    assert(out@ =~= date_line(t));
    out
}

fn time_line_of(t: DateTime) -> (r: Vec<char>)
    ensures
        r@ == time_line(t),
{
    let mut out = padded_decimal(t.hours as u64, 2);
    out.push(':');
    append_chars(&mut out, padded_decimal(t.minutes as u64, 2).as_slice());
    out.push(':');
    append_chars(&mut out, padded_decimal(t.seconds as u64, 2).as_slice());
    out.push('.');
    append_chars(&mut out, padded_decimal(t.millis as u64, 3).as_slice());
    assert(out@ =~= time_line(t));
    out
}

fn uptime_line_of(ms: u64) -> (r: Vec<char>)
    ensures
        r@ == uptime_line(ms),
{
    let s = ms / 1000;
    let mut out = chars_of("Uptime: ");
    append_chars(&mut out, padded_decimal(s / 3600, 2).as_slice());
    out.push(':');
    append_chars(&mut out, padded_decimal((s % 3600) / 60, 2).as_slice());
    out.push(':');
    append_chars(&mut out, padded_decimal(s % 60, 2).as_slice());
    assert(out@ =~= uptime_line(ms));
    out
}

fn keyboard_command(ws: &Vec<Vec<char>>, layout: &mut usize) -> (r: Vec<Vec<char>>)
    requires
        ws@.len() >= 1,
    ensures
        keyboard_reply(lines_view(ws@), *old(layout), *final(layout), lines_view(r@)),
{
    if ws.len() >= 2 {
        let name = string_from_chars(ws[1].as_slice());
        assert(lines_view(ws@)[1] == ws@[1]@);
        if set_keyboard_layout(layout, name.as_str()) {
            one_line(joined("Keyboard layout changed to: ", ws[1].as_slice()))
        } else {
            one_line(joined("Failed to change keyboard layout to: ", ws[1].as_slice()))
        }
    } else {
        let mut first = chars_of("Current keyboard layout: ");
        first.push('"');
        let name = chars_of(get_current_layout(*layout));
        append_chars(&mut first, name.as_slice());
        first.push('"');
        assert(first@ =~= "Current keyboard layout: "@ + seq!['"'] + layout_name(*old(layout)) + seq!['"']);
        let mut r = one_line(first);
        push_line(&mut r, chars_of("Usage: setkeyboard <layout>"));
        assert(lines_view(r@) =~= seq![
            "Current keyboard layout: "@ + seq!['"'] + layout_name(*old(layout)) + seq!['"'],
            "Usage: setkeyboard <layout>"@]);
        r
    }
}

fn ls_command<D: DiskOperations>(fs: &mut Option<Fat32FileSystem<D>>) -> (r: Vec<Vec<char>>)
    requires
        fs_inv(*old(fs)),
    ensures
        same_volume(*old(fs), *final(fs)),
        ls_reply(*old(fs), lines_view(r@)),
{
    match list_directory(fs, "/") {
        Ok(entries) => {
            let ghost es = entries@.map_values(|e: crate::fat32::file_entry::FileEntry| e@);
            let mut r = one_line(chars_of("Directory listing:"));
            let mut i: usize = 0;
            while i < entries.len()
                invariant
                    i <= entries@.len(),
                    es == entries@.map_values(|e: crate::fat32::file_entry::FileEntry| e@),
                    lines_view(r@) == seq!["Directory listing:"@] + es.subrange(0, i as int).map_values(|e: FileEntryView| e.name),
                decreases entries@.len() - i,
            {
                let ghost before = lines_view(r@);
                push_line(&mut r, chars_of(entries[i].name.as_str()));
                proof {
                    assert(es.subrange(0, i + 1).map_values(|e: FileEntryView| e.name)
                        =~= es.subrange(0, i as int).map_values(|e: FileEntryView| e.name).push(es[i as int].name));
                }
                i = i + 1;
            }
            assert(es.subrange(0, entries@.len() as int) =~= es);
            r
        },
        Err(e) => {
            let r = one_line(joined("Error listing directory: ", chars_of(e).as_slice()));
            assert(lines_view(r@) == seq!["Error listing directory: "@ + e@]);
            r
        },
    }
}

fn cat_command<D: DiskOperations>(fs: &mut Option<Fat32FileSystem<D>>, name: &Vec<char>) -> (r: Vec<Vec<char>>)
    requires
        fs_inv(*old(fs)),
    ensures
        same_volume(*old(fs), *final(fs)),
        cat_reply(*old(fs), name@, lines_view(r@)),
{
    let path = string_from_chars(name.as_slice());
    match read_text_file(fs, path.as_str()) {
        Ok(content) => {
            let cs = chars_of(content.as_str());
            text_lines_of(cs.as_slice())
        },
        Err(e) => {
            let r = one_line(joined("Error reading file: ", chars_of(e).as_slice()));
            assert(lines_view(r@) == seq!["Error reading file: "@ + e@]);
            r
        },
    }
}

impl Terminal {
    /// Runs a command line and gives back what it prints: `help`, `clear`
    /// (which also empties the output), `echo`, `ls`, `cat`, `date`, `time`,
    /// `uptime`, `version` and `setkeyboard`; anything else is answered with
    /// "Command not found".
    pub fn process_command<D: DiskOperations>(
        &mut self,
        fs: &mut Option<Fat32FileSystem<D>>,
        layout: &mut usize,
        now: DateTime,
        uptime_ms: u64,
        cmd: &[char],
    ) -> (r: Vec<Vec<char>>)
        requires
            fs_inv(*old(fs)),
        ensures
            same_volume(*old(fs), *final(fs)),
            reply_ok(*old(fs), *old(layout), *final(layout), now, uptime_ms, cmd@, lines_view(r@)),
            final(self)@ == if is_clear(cmd@) {
                TerminalView {
                    output: Seq::empty(),
                    display: Seq::empty(),
                    command_lines: Seq::empty(),
                    ..old(self)@
                }
            } else {
                old(self)@
            },
    {
        let ws = words_of(cmd);
        let ghost wv = words(cmd@);
        assert(lines_view(ws@) == wv);
        if ws.len() == 0 {
            return Vec::new();
        }
        let w = &ws[0];
        assert(w@ == wv[0]);
        if same_chars(w, &chars_of("help")) {
            return help_lines_vec();
        }
        if same_chars(w, &chars_of("clear")) {
            self.output_lines.clear();
            self.display_lines.clear();
            self.command_lines.clear();
            proof {
                assert(lines_view(self.output_lines@) =~= Seq::<Seq<char>>::empty());
                assert(lines_view(self.display_lines@) =~= Seq::<Seq<char>>::empty());
                assert(lines_view(self.command_lines@) =~= Seq::<Seq<char>>::empty());
            }
            return one_line(chars_of("Terminal cleared."));
        }
        if same_chars(w, &chars_of("echo")) {
            let rest = join_rest(&ws);
            let r = one_line(rest);
            return r;
        }
        if same_chars(w, &chars_of("ls")) {
            return ls_command(fs);
        }
        if same_chars(w, &chars_of("cat")) {
            if ws.len() >= 2 {
                assert(ws@[1]@ == wv[1]);
                return cat_command(fs, &ws[1]);
            }
            return one_line(chars_of("Usage: cat <filename>"));
        }
        if same_chars(w, &chars_of("date")) {
            return one_line(date_line_of(now));
        }
        if same_chars(w, &chars_of("time")) {
            return one_line(time_line_of(now));
        }
        if same_chars(w, &chars_of("uptime")) {
            return one_line(uptime_line_of(uptime_ms));
        }
        if same_chars(w, &chars_of("version")) {
            return one_line(chars_of("GoofyOS v0.1.0 - Built with Rust"));
        }
        if same_chars(w, &chars_of("setkeyboard")) {
            return keyboard_command(&ws, layout);
        }
        let mut line = chars_of("Command not found: ");
        append_chars(&mut line, cmd);
        one_line(line)
    }
}

impl Terminal {
    /// Runs a command line: keeps it in the history, appends what it prints
    /// to the output (keeping the last lines only), and scrolls to the prompt.
    pub fn execute_command<D: DiskOperations>(
        &mut self,
        fs: &mut Option<Fat32FileSystem<D>>,
        layout: &mut usize,
        now: DateTime,
        uptime_ms: u64,
        command: &[char],
    )
        requires
            old(self).wf(),
            fs_inv(*old(fs)),
            command@.len() + prompt().len() <= usize::MAX,
        ensures
            final(self).wf(),
            same_volume(*old(fs), *final(fs)),
            exists|r: Seq<Seq<char>>| reply_ok(*old(fs), *old(layout), *final(layout), now, uptime_ms, command@, r)
                && final(self)@ == scroll_updated(refreshed(after_command(old(self)@, command@, r))),
    {
        let ghost v0 = self@;
        if command.len() > 0 {
            let ghost h0 = self.command_history@;
            if self.command_history.len() >= HISTORY_CAPACITY {
                self.command_history.remove(0);
            }
            let mut copy: Vec<char> = Vec::new();
            append_chars(&mut copy, command);
            self.command_history.push(copy);
            proof {
                if h0.len() >= HISTORY_CAPACITY {
                    assert(lines_view(self.command_history@) =~= lines_view(h0).drop_first().push(command@));
                } else {
                    assert(lines_view(self.command_history@) =~= lines_view(h0).push(command@));
                }
            }
        }
        assert(lines_view(self.command_history@) == history_after(v0.history, command@));
        self.history_index = self.command_history.len();
        let ghost v1 = self@;
        let output = self.process_command(fs, layout, now, uptime_ms, command);
        let ghost r = lines_view(output@);
        let ghost base = lines_view(self.output_lines@);
        assert(base == if is_clear(command@) { Seq::<Seq<char>>::empty() } else { v0.output });
        let mut output = output;
        self.output_lines.append(&mut output);
        assert(lines_view(self.output_lines@) =~= base + r);
        if self.output_lines.len() > OUTPUT_CAPACITY {
            let remove_count = self.output_lines.len() - OUTPUT_CAPACITY;
            let kept = self.output_lines.split_off(remove_count);
            self.output_lines = kept;
            assert(lines_view(self.output_lines@) =~= keep_last(base + r, OUTPUT_CAPACITY as nat));
        }
        self.completion_cache = None;
        self.update_display_lines();
        assert(self@ == refreshed(after_command(v0, command@, r)));
        self.update_scroll_if_needed();
    }
}

/// The commands offered for completion, in order.
pub open spec fn commands() -> Seq<Seq<char>> {
    seq!["help"@, "clear"@, "echo"@, "ls"@, "cat"@, "date"@, "time"@, "uptime"@, "version"@, "setkeyboard"@]
}

/// The entries of `cs` that begin with `prefix`, in order.
pub open spec fn matching(cs: Seq<Seq<char>>, prefix: Seq<char>) -> Seq<Seq<char>>
    decreases cs.len(),
{
    if cs.len() == 0 {
        Seq::empty()
    } else if prefix.is_prefix_of(cs.last()) {
        matching(cs.drop_last(), prefix).push(cs.last())
    } else {
        matching(cs.drop_last(), prefix)
    }
}

proof fn lemma_matching_bounded(cs: Seq<Seq<char>>, prefix: Seq<char>, n: nat)
    requires
        forall|i: int| 0 <= i < cs.len() ==> #[trigger] cs[i].len() <= n,
    ensures
        forall|i: int| 0 <= i < matching(cs, prefix).len() ==> #[trigger] matching(cs, prefix)[i].len() <= n,
    decreases cs.len(),
{
    if cs.len() > 0 {
        let rest = cs.drop_last();
        assert forall|i: int| 0 <= i < rest.len() implies #[trigger] rest[i].len() <= n by {
            assert(rest[i] == cs[i]);
        }
        lemma_matching_bounded(rest, prefix, n);
        assert(cs.last() == cs[cs.len() - 1]);
        let m = matching(cs, prefix);
        assert forall|i: int| 0 <= i < m.len() implies #[trigger] m[i].len() <= n by {
            if i < matching(rest, prefix).len() {
                assert(m[i] == matching(rest, prefix)[i]);
            }
        }
    }
}

/// `v` with the completion candidates computed for its command, unless they
/// were computed for that command already.
pub open spec fn completion_updated(v: TerminalView) -> TerminalView {
    if v.completion matches Some((c, _)) && c == v.command {
        v
    } else {
        TerminalView {
            completion: Some((v.command, matching(commands(), v.command))),
            completion_index: 0,
            ..v
        }
    }
}

/// `v` after Tab: the next candidate replaces the command.
pub open spec fn completed(v: TerminalView) -> TerminalView {
    let u = completion_updated(v);
    match u.completion {
        Some((_, cands)) => if u.completion_index < cands.len() {
            refreshed(TerminalView {
                command: cands[u.completion_index as int],
                cursor: cands[u.completion_index as int].len() as usize,
                completion_index: ((u.completion_index + 1) % (cands.len() as int)) as usize,
                ..u
            })
        } else {
            u
        },
        None => u,
    }
}

/// `v` after moving through the history: `1` goes to an older entry, `-1`
/// to a newer one (past the newest, an empty command).
pub open spec fn history_moved(v: TerminalView, direction: isize) -> TerminalView {
    if v.history.len() == 0 {
        v
    } else if (direction == 1 && v.history_index > 0) || (direction == -1 && v.history_index < v.history.len()) {
        let i = if direction == 1 { v.history_index - 1 } else { v.history_index + 1 };
        let cmd = if i < v.history.len() { v.history[i] } else { Seq::empty() };
        refreshed(TerminalView { history_index: i as usize, command: cmd, cursor: cmd.len() as usize, ..v })
    } else {
        v
    }
}

/// `v` scrolled by `lines` lines (down when positive), within the lines shown.
pub open spec fn scrolled_by(v: TerminalView, lines: int) -> TerminalView {
    let total = v.display.len();
    if total <= VISIBLE_LINES {
        v
    } else {
        let max_offset = total - VISIBLE_LINES;
        let s = if lines > 0 {
            if v.scroll + lines < max_offset { v.scroll + lines } else { max_offset }
        } else if lines < 0 {
            if v.scroll + lines > 0 { v.scroll + lines } else { 0 }
        } else {
            v.scroll as int
        };
        TerminalView { scroll: s as usize, ..v }
    }
}

fn starts_with(s: &Vec<char>, prefix: &Vec<char>) -> (r: bool)
    ensures
        r == prefix@.is_prefix_of(s@),
{
    if prefix.len() > s.len() {
        return false;
    }
    let mut i: usize = 0;
    while i < prefix.len()
        invariant
            i <= prefix@.len() <= s@.len(),
            forall|j: int| 0 <= j < i ==> prefix@[j] == s@[j],
        decreases prefix@.len() - i,
    {
        if prefix[i] != s[i] {
            assert(prefix@[i as int] != s@.subrange(0, prefix@.len() as int)[i as int]);
            return false;
        }
        i = i + 1;
    }
    assert(prefix@ =~= s@.subrange(0, prefix@.len() as int));
    true
}

fn command_names() -> (r: Vec<Vec<char>>)
    ensures
        lines_view(r@) == commands(),
        forall|i: int| 0 <= i < commands().len() ==> #[trigger] commands()[i].len() <= 11,
{
    proof {
        reveal_strlit("help");
        reveal_strlit("clear");
        reveal_strlit("echo");
        reveal_strlit("ls");
        reveal_strlit("cat");
        reveal_strlit("date");
        reveal_strlit("time");
        reveal_strlit("uptime");
        reveal_strlit("version");
        reveal_strlit("setkeyboard");
    }
    let mut r: Vec<Vec<char>> = Vec::new();
    push_line(&mut r, chars_of("help"));
    push_line(&mut r, chars_of("clear"));
    push_line(&mut r, chars_of("echo"));
    push_line(&mut r, chars_of("ls"));
    push_line(&mut r, chars_of("cat"));
    push_line(&mut r, chars_of("date"));
    push_line(&mut r, chars_of("time"));
    push_line(&mut r, chars_of("uptime"));
    push_line(&mut r, chars_of("version"));
    push_line(&mut r, chars_of("setkeyboard"));
    assert(lines_view(r@) =~= commands());
    r
}

impl Terminal {
    /// A terminal showing its greeting and an empty prompt.
    pub fn new() -> (t: Terminal)
        ensures
            t.wf(),
            t@.output == seq!["GoofyOS Terminal v0.1.0"@, "Type 'help' for available commands"@, Seq::<char>::empty()],
            t@.command_lines == seq![prompt()],
            t@.display == t@.output + seq![prompt()],
            t@.command.len() == 0,
            t@.cursor == 0,
            t@.history.len() == 0,
            t@.history_index == 0,
            t@.scroll == 0,
            t@.completion is None,
            t@.completion_index == 0,
            t@.mode == TerminalMode::Command,
            t@.blink_on,
            t@.blink_timer == 0,
    {
        let mut output: Vec<Vec<char>> = Vec::new();
        push_line(&mut output, chars_of("GoofyOS Terminal v0.1.0"));
        push_line(&mut output, chars_of("Type 'help' for available commands"));
        push_line(&mut output, Vec::new());
        assert(lines_view(output@) =~= seq!["GoofyOS Terminal v0.1.0"@, "Type 'help' for available commands"@, Seq::<char>::empty()]);
        let mut t = Terminal {
            command_history: Vec::new(),
            current_command: Vec::new(),
            command_cursor: 0,
            output_lines: output,
            display_lines: Vec::new(),
            command_lines: Vec::new(),
            scroll_offset: 0,
            history_index: 0,
            completion_cache: None,
            completion_index: 0,
            mode: TerminalMode::Command,
            cursor_blink_state: true,
            cursor_blink_timer: 0,
        };
        assert(lines_view(t.command_history@) =~= Seq::<Seq<char>>::empty());
        t.update_display_lines();
        proof {
            reveal_strlit("GoofyOS Terminal v0.1.0");
            reveal_strlit("Type 'help' for available commands");
            let out = t@.output;
            assert(prompt() + Seq::<char>::empty() =~= prompt());
            assert(shown_lines(out.subrange(0, 0)) =~= Seq::<Seq<char>>::empty());
            let o1 = out.drop_last().drop_last();
            let o2 = out.drop_last();
            assert(o1.drop_last() =~= Seq::<Seq<char>>::empty());
            assert(o1.last() == "GoofyOS Terminal v0.1.0"@);
            assert(o2.last() == "Type 'help' for available commands"@);
            assert(o1.last().len() <= LINE_WIDTH);
            assert(o2.last().len() <= LINE_WIDTH);
            assert(shown_lines(o1.drop_last()) =~= Seq::<Seq<char>>::empty());
            assert(shown_line(o1.last()) == seq![o1.last()]);
            assert(o1 =~= seq![o1.last()]);
            assert(shown_lines(o1) =~= o1);
            assert(shown_lines(o2) =~= o2);
            assert(shown_lines(out) =~= out);
        }
        t
    }

    /// Computes the commands that begin with the command typed so far,
    /// unless they were computed for it already.
    fn update_completion_candidates(&mut self)
        requires
            old(self).wf(),
        ensures
            final(self).wf(),
            final(self)@ == completion_updated(old(self)@),
    {
        if let Some((cached, _)) = &self.completion_cache {
            if same_chars(cached, &self.current_command) {
                return;
            }
        }
        let names = command_names();
        let mut cands: Vec<Vec<char>> = Vec::new();
        let mut i: usize = 0;
        while i < names.len()
            invariant
                i <= names@.len(),
                lines_view(names@) == commands(),
                lines_view(cands@) == matching(commands().subrange(0, i as int), self.current_command@),
            decreases names@.len() - i,
        {
            let ghost before = lines_view(cands@);
            assert(commands().subrange(0, i + 1).drop_last() =~= commands().subrange(0, i as int));
            assert(names@[i as int]@ == commands()[i as int]);
            if starts_with(&names[i], &self.current_command) {
                push_line(&mut cands, names[i].clone());
            }
            i = i + 1;
        }
        assert(commands().subrange(0, names@.len() as int) =~= commands());
        proof {
            lemma_matching_bounded(commands(), self.current_command@, 11);
        }
        let mut input: Vec<char> = Vec::new();
        append_chars(&mut input, self.current_command.as_slice());
        self.completion_cache = Some((input, cands));
        self.completion_index = 0;
    }

    /// Tab: replaces the command by the next command that begins with what
    /// was typed.
    pub fn complete_command(&mut self)
        requires
            old(self).wf(),
        ensures
            final(self).wf(),
            final(self)@ == completed(old(self)@),
    {
        self.update_completion_candidates();
        let ghost u = self@;
        let mut next: Option<Vec<char>> = None;
        if let Some((_, cands)) = &self.completion_cache {
            if self.completion_index < cands.len() {
                assert(u.completion matches Some((_, cs)) && cs[self.completion_index as int] == cands@[self.completion_index as int]@);
                next = Some(cands[self.completion_index].clone());
                self.completion_index = (self.completion_index + 1) % cands.len();
            }
        }
        if let Some(c) = next {
            self.current_command = c;
            self.command_cursor = self.current_command.len();
            self.update_display_lines();
        }
    }

    /// Up and down through the history (`1` older, `-1` newer).
    pub fn navigate_history(&mut self, direction: isize)
        requires
            old(self).wf(),
        ensures
            final(self).wf(),
            final(self)@ == history_moved(old(self)@, direction),
    {
        if self.command_history.len() == 0 {
            return;
        }
        let new_index = if direction == 1 && self.history_index > 0 {
            self.history_index - 1
        } else if direction == -1 && self.history_index < self.command_history.len() {
            self.history_index + 1
        } else {
            return;
        };
        self.history_index = new_index;
        if new_index < self.command_history.len() {
            assert(self@.history[new_index as int] == self.command_history@[new_index as int]@);
            self.current_command = self.command_history[new_index].clone();
        } else {
            self.current_command = Vec::new();
        }
        self.command_cursor = self.current_command.len();
        self.update_display_lines();
    }

    /// Toggles the cursor when more than the blink interval has passed since
    /// the last toggle.
    pub fn update_cursor_blink(&mut self, current_time: u64)
        requires
            old(self).wf(),
            current_time >= old(self)@.blink_timer,
        ensures
            final(self).wf(),
            final(self)@ == if current_time - old(self)@.blink_timer > CURSOR_BLINK_INTERVAL {
                TerminalView { blink_on: !old(self)@.blink_on, blink_timer: current_time, ..old(self)@ }
            } else {
                old(self)@
            },
    {
        if current_time - self.cursor_blink_timer > CURSOR_BLINK_INTERVAL {
            self.cursor_blink_state = !self.cursor_blink_state;
            self.cursor_blink_timer = current_time;
        }
    }

    /// Scrolls by `lines` lines (down when positive), within the lines shown.
    pub fn scroll_lines(&mut self, lines: isize)
        requires
            old(self).wf(),
            lines > isize::MIN,
        ensures
            final(self).wf(),
            final(self)@ == scrolled_by(old(self)@, lines as int),
    {
        let total = self.display_lines.len();
        if total <= VISIBLE_LINES {
            return;
        }
        let max_offset = total - VISIBLE_LINES;
        let new_offset = if lines > 0 {
            let up = self.scroll_offset.saturating_add(lines as usize);
            if up < max_offset { up } else { max_offset }
        } else if lines < 0 {
            self.scroll_offset.saturating_sub((-lines) as usize)
        } else {
            self.scroll_offset
        };
        self.scroll_offset = new_offset;
    }

    /// The window title.
    pub fn get_title(&self) -> (r: Option<String>)
        ensures
            r matches Some(t) && t@ == "Terminal"@,
    {
        Some(string_from_chars(chars_of("Terminal").as_slice()))
    }
}

/// Scrolling to the cursor a second time changes nothing.
pub proof fn lemma_scroll_updated_twice(v: TerminalView)
    ensures
        scroll_updated(scroll_updated(v)) == scroll_updated(v),
{
}

/// `v` after Ctrl and a character: Ctrl+L clears the output, Ctrl+C drops
/// the command being typed.
pub open spec fn ctrl_effect(v: TerminalView, ch: char) -> TerminalView {
    if ch == 'l' || ch == 'L' {
        refreshed(TerminalView { output: seq!["Terminal cleared"@, Seq::<char>::empty()], ..v })
    } else if ch == 'c' || ch == 'C' {
        refreshed(TerminalView { command: Seq::empty(), cursor: 0, output: v.output.push(seq!['^', 'C']), ..v })
    } else {
        v
    }
}

/// `v` once Enter took the command: the prompt line goes to the output
/// (when something was typed) and the command is empty.
pub open spec fn entered(v: TerminalView) -> TerminalView {
    TerminalView {
        command: Seq::empty(),
        cursor: 0,
        output: if v.command.len() > 0 { v.output.push(prompt() + v.command) } else { v.output },
        ..v
    }
}

/// `v` after typing `ch` (neither Enter nor Tab): backspace removes the
/// character before the cursor, other control characters change nothing,
/// anything else is inserted at the cursor.
pub open spec fn edited(v: TerminalView, ch: char) -> TerminalView {
    if ch == '\u{8}' {
        if v.cursor > 0 {
            refreshed(TerminalView { command: v.command.remove(v.cursor - 1), cursor: (v.cursor - 1) as usize, ..v })
        } else {
            v
        }
    } else if spec_is_control(ch) {
        v
    } else {
        refreshed(TerminalView { command: v.command.insert(v.cursor as int, ch), cursor: (v.cursor + 1) as usize, ..v })
    }
}

/// What a key does to `v`, if it does anything.
pub open spec fn key_effect(v: TerminalView, key: TerminalKey) -> Option<TerminalView> {
    match key {
        TerminalKey::ArrowLeft => if v.cursor > 0 { Some(TerminalView { cursor: (v.cursor - 1) as usize, ..v }) } else { None },
        TerminalKey::ArrowRight => if v.cursor < v.command.len() { Some(TerminalView { cursor: (v.cursor + 1) as usize, ..v }) } else { None },
        TerminalKey::ArrowUp => Some(if v.command.len() == 0 { scrolled_by(v, -1) } else { history_moved(v, 1isize) }),
        TerminalKey::ArrowDown => Some(if v.command.len() == 0 { scrolled_by(v, 1) } else { history_moved(v, -1isize) }),
        TerminalKey::Home => Some(TerminalView { cursor: 0, ..v }),
        TerminalKey::End => Some(TerminalView { cursor: v.command.len() as usize, ..v }),
        TerminalKey::Delete => if v.cursor < v.command.len() {
            Some(refreshed(TerminalView { command: v.command.remove(v.cursor as int), ..v }))
        } else {
            None
        },
        TerminalKey::PageUp => Some(scrolled_by(v, -12)),
        TerminalKey::PageDown => Some(scrolled_by(v, 12)),
        TerminalKey::Other => None,
    }
}

impl Terminal {
    /// A typed character: Enter runs the command, Tab completes it,
    /// backspace and other characters edit it; with Ctrl, `l` clears the
    /// output and `c` drops the command.
    pub fn handle_char_input<D: DiskOperations>(
        &mut self,
        fs: &mut Option<Fat32FileSystem<D>>,
        layout: &mut usize,
        now: DateTime,
        uptime_ms: u64,
        ch: char,
        ctrl_pressed: bool,
    )
        requires
            old(self).wf(),
            fs_inv(*old(fs)),
            old(self)@.command.len() + prompt().len() + 1 <= usize::MAX,
        ensures
            final(self).wf(),
            same_volume(*old(fs), *final(fs)),
            old(self)@.mode != TerminalMode::Command ==> final(self)@ == old(self)@ && *final(layout) == *old(layout),
            old(self)@.mode == TerminalMode::Command && ctrl_pressed
                ==> final(self)@ == ctrl_effect(old(self)@, ch) && *final(layout) == *old(layout),
            old(self)@.mode == TerminalMode::Command && !ctrl_pressed && (ch == '\r' || ch == '\n')
                ==> exists|r: Seq<Seq<char>>| reply_ok(*old(fs), *old(layout), *final(layout), now, uptime_ms, old(self)@.command, r)
                    && final(self)@ == scroll_updated(refreshed(after_command(entered(old(self)@), old(self)@.command, r))),
            old(self)@.mode == TerminalMode::Command && !ctrl_pressed && ch == '\t'
                ==> final(self)@ == scroll_updated(completed(old(self)@)) && *final(layout) == *old(layout),
            old(self)@.mode == TerminalMode::Command && !ctrl_pressed && ch != '\r' && ch != '\n' && ch != '\t'
                ==> final(self)@ == scroll_updated(edited(old(self)@, ch)) && *final(layout) == *old(layout),
    {
        if self.mode != TerminalMode::Command {
            return;
        }
        if ctrl_pressed {
            if ch == 'l' || ch == 'L' {
                self.output_lines.clear();
                self.display_lines.clear();
                self.command_lines.clear();
                push_line(&mut self.output_lines, chars_of("Terminal cleared"));
                push_line(&mut self.output_lines, Vec::new());
                assert(lines_view(self.output_lines@) =~= seq!["Terminal cleared"@, Seq::<char>::empty()]);
                self.update_display_lines();
            } else if ch == 'c' || ch == 'C' {
                self.current_command.clear();
                self.command_cursor = 0;
                let mut caret: Vec<char> = Vec::new();
                caret.push('^');
                caret.push('C');
                push_line(&mut self.output_lines, caret);
                assert(caret@ =~= seq!['^', 'C']);
                self.update_display_lines();
            }
            return;
        }
        if ch == '\r' || ch == '\n' {
            let ghost v0 = self@;
            let mut command: Vec<char> = Vec::new();
            core::mem::swap(&mut command, &mut self.current_command);
            self.command_cursor = 0;
            if command.len() > 0 {
                let mut line = chars_of("goofy> ");
                proof {
                    reveal_strlit("goofy> ");
                    assert(line@ =~= prompt());
                }
                append_chars(&mut line, command.as_slice());
                push_line(&mut self.output_lines, line);
            }
            self.update_display_lines();
            assert(self@ == refreshed(entered(v0)));
            self.execute_command(fs, layout, now, uptime_ms, command.as_slice());
            proof {
                let r = choose|r: Seq<Seq<char>>| reply_ok(*old(fs), *old(layout), *layout, now, uptime_ms, command@, r)
                    && self@ == scroll_updated(refreshed(after_command(refreshed(entered(v0)), command@, r)));
                assert(refreshed(after_command(refreshed(entered(v0)), command@, r)) == refreshed(after_command(entered(v0), command@, r)));
                lemma_scroll_updated_twice(refreshed(after_command(entered(v0), command@, r)));
            }
            self.update_scroll_if_needed();
            return;
        }
        if ch == '\u{8}' {
            if self.command_cursor > 0 {
                self.current_command.remove(self.command_cursor - 1);
                self.command_cursor = self.command_cursor - 1;
                self.update_display_lines();
            }
        } else if ch == '\t' {
            self.complete_command();
        } else if !is_control(ch) {
            self.current_command.insert(self.command_cursor, ch);
            self.command_cursor = self.command_cursor + 1;
            self.update_display_lines();
        }
        self.update_scroll_if_needed();
    }

    /// A key press: arrows move the cursor, go through the history or scroll
    /// (when nothing is typed); Home, End, Delete, Page Up and Page Down.
    pub fn handle_key_input(&mut self, key: TerminalKey)
        requires
            old(self).wf(),
        ensures
            final(self).wf(),
            old(self)@.mode != TerminalMode::Command ==> final(self)@ == old(self)@,
            old(self)@.mode == TerminalMode::Command ==> final(self)@ == match key_effect(old(self)@, key) {
                Some(w) => scroll_updated(w),
                None => old(self)@,
            },
    {
        if self.mode != TerminalMode::Command {
            return;
        }
        match key {
            TerminalKey::ArrowLeft => {
                if self.command_cursor == 0 {
                    return;
                }
                self.command_cursor = self.command_cursor - 1;
            },
            TerminalKey::ArrowRight => {
                if self.command_cursor >= self.current_command.len() {
                    return;
                }
                self.command_cursor = self.command_cursor + 1;
            },
            TerminalKey::ArrowUp => {
                if self.current_command.len() == 0 {
                    self.scroll_lines(-1);
                } else {
                    self.navigate_history(1);
                }
            },
            TerminalKey::ArrowDown => {
                if self.current_command.len() == 0 {
                    self.scroll_lines(1);
                } else {
                    self.navigate_history(-1);
                }
            },
            TerminalKey::Home => {
                self.command_cursor = 0;
            },
            TerminalKey::End => {
                self.command_cursor = self.current_command.len();
            },
            TerminalKey::Delete => {
                if self.command_cursor >= self.current_command.len() {
                    return;
                }
                self.current_command.remove(self.command_cursor);
                self.update_display_lines();
            },
            TerminalKey::PageUp => {
                self.scroll_lines(-12);
            },
            TerminalKey::PageDown => {
                self.scroll_lines(12);
            },
            TerminalKey::Other => {
                return;
            },
        }
        self.update_scroll_if_needed();
    }
}

fn strings_of(ls: &Vec<Vec<char>>) -> (r: Vec<String>)
    ensures
        r@.map_values(|x: String| x@) == lines_view(ls@),
{
    let mut out: Vec<String> = Vec::new();
    let mut i: usize = 0;
    while i < ls.len()
        invariant
            i <= ls@.len(),
            out@.map_values(|x: String| x@) == lines_view(ls@).subrange(0, i as int),
        decreases ls@.len() - i,
    {
        let ghost before = out@;
        let line = string_from_chars(ls[i].as_slice());
        out.push(line);
        assert(line@ == lines_view(ls@)[i as int]);
        assert(out@.map_values(|x: String| x@) =~= before.map_values(|x: String| x@).push(line@));
        assert(lines_view(ls@).subrange(0, i + 1) =~= lines_view(ls@).subrange(0, i as int).push(lines_view(ls@)[i as int]));
        i = i + 1;
    }
    assert(lines_view(ls@).subrange(0, ls@.len() as int) =~= lines_view(ls@));
    out
}

impl Terminal {
    /// The output lines.
    pub fn output_lines(&self) -> (r: Vec<String>)
        ensures
            r@.map_values(|x: String| x@) == self@.output,
    {
        strings_of(&self.output_lines)
    }

    /// The shown lines.
    pub fn display_lines(&self) -> (r: Vec<String>)
        ensures
            r@.map_values(|x: String| x@) == self@.display,
    {
        strings_of(&self.display_lines)
    }

    /// The commands kept in the history, oldest first.
    pub fn history(&self) -> (r: Vec<String>)
        ensures
            r@.map_values(|x: String| x@) == self@.history,
    {
        strings_of(&self.command_history)
    }

    /// The command being typed.
    pub fn current_command(&self) -> (r: String)
        ensures
            r@ == self@.command,
    {
        string_from_chars(self.current_command.as_slice())
    }

    /// Where the cursor is within the command.
    pub fn command_cursor(&self) -> (r: usize)
        ensures
            r == self@.cursor,
    {
        self.command_cursor
    }

    /// The first shown line in view.
    pub fn scroll_offset(&self) -> (r: usize)
        ensures
            r == self@.scroll,
    {
        self.scroll_offset
    }

    /// Whether the cursor is drawn at the moment.
    pub fn cursor_visible(&self) -> (r: bool)
        ensures
            r == self@.blink_on,
    {
        self.cursor_blink_state
    }

    pub fn mode(&self) -> (r: TerminalMode)
        ensures
            r == self@.mode,
    {
        self.mode
    }
}
/// Typing a printable character at the prompt and then backspace gives back
/// the terminal as it was.
#[verifier::rlimit(40)]
pub proof fn lemma_type_then_backspace(v: TerminalView, ch: char)
    requires
        view_ok(v),
        !spec_is_control(ch),
    ensures
        edited(edited(v, ch), '\u{8}') == v,
{
    let w = edited(v, ch);
    assert(w.command.remove(w.cursor - 1) =~= v.command);
}

/// After a command the output holds at most `OUTPUT_CAPACITY` lines and the
/// history at most `HISTORY_CAPACITY` commands.
pub proof fn lemma_command_bounds(v: TerminalView, cmd: Seq<char>, r: Seq<Seq<char>>)
    requires
        view_ok(v),
    ensures
        after_command(v, cmd, r).output.len() <= OUTPUT_CAPACITY,
        after_command(v, cmd, r).history.len() <= HISTORY_CAPACITY,
{
}

} // verus!
