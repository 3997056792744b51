//! The file manager: the listing of the current directory, the selection,
//! navigation into and out of directories, the clipboard, and the dialogs
//! that create, delete and rename entries.
use vstd::prelude::*;
use crate::fat32::datetime::DateTime;
use crate::fat32::disk::DiskOperations;
use crate::fat32::file_entry::{copy_entry, FileEntry, FileEntryView};
use crate::fat32::fs::Fat32FileSystem;
use crate::manager::{child_path, copy_directory, copy_file, create_directory, create_file, delete_directory, delete_file, fs_inv, list_directory, list_spec, move_item, rename_item, same_layout, same_volume};
use crate::notepad::{blank, is_blank, join_path_chars, last_segment, last_segment_of};
use crate::terminal_text::append_chars;
use crate::text::{chars_of, decimal_digits, decimal_string, is_control, is_dot, same_chars, spec_is_control, spec_to_lowercase, string_from_chars, to_lowercase};

verus! {

/// The dialog the file manager shows.
#[derive(Debug, Clone)]
pub enum FileManagerMode {
    Browse,
    NewFile,
    NewFolder,
    DeleteFile,
    DeleteFolder,
    ViewFile(FileEntry),
    Rename(FileEntry),
}

/// The plain-value view of a `FileManagerMode`.
pub enum ModeView {
    Browse,
    NewFile,
    NewFolder,
    DeleteFile,
    DeleteFolder,
    ViewFile(FileEntryView),
    Rename(FileEntryView),
}

impl View for FileManagerMode {
    type V = ModeView;

    open spec fn view(&self) -> ModeView {
        match self {
            FileManagerMode::Browse => ModeView::Browse,
            FileManagerMode::NewFile => ModeView::NewFile,
            FileManagerMode::NewFolder => ModeView::NewFolder,
            FileManagerMode::DeleteFile => ModeView::DeleteFile,
            FileManagerMode::DeleteFolder => ModeView::DeleteFolder,
            FileManagerMode::ViewFile(e) => ModeView::ViewFile(e@),
            FileManagerMode::Rename(e) => ModeView::Rename(e@),
        }
    }
}

#[derive(Debug, Clone, Copy, PartialEq, Eq, Structural)]
pub enum ClipboardOperation {
    Copy,
    Cut,
}

/// An entry copied or cut, waiting to be pasted.
pub struct ClipboardEntry {
    pub file_path: String,
    pub file_name: String,
    pub is_directory: bool,
    pub operation: ClipboardOperation,
}

pub struct ClipboardView {
    pub file_path: Seq<char>,
    pub file_name: Seq<char>,
    pub is_directory: bool,
    pub operation: ClipboardOperation,
}

impl View for ClipboardEntry {
    type V = ClipboardView;

    open spec fn view(&self) -> ClipboardView {
        ClipboardView {
            file_path: self.file_path@,
            file_name: self.file_name@,
            is_directory: self.is_directory,
            operation: self.operation,
        }
    }
}

/// A directory left for one of its subdirectories: its path and the name
/// shown for it.
pub struct DirectoryPath {
    pub path: String,
    pub name: String,
}

pub struct FileManager {
    mode: FileManagerMode,
    files: Vec<FileEntry>,
    selected_file_index: Option<usize>,
    scroll_offset: usize,
    input_text: Vec<char>,
    status_message: Vec<char>,
    selected_open_file_app: Option<Vec<char>>,
    clipboard: Option<ClipboardEntry>,
    current_path: Vec<char>,
    directory_stack: Vec<DirectoryPath>,
}

pub struct FileManagerView {
    pub mode: ModeView,
    pub files: Seq<FileEntryView>,
    pub selected: Option<usize>,
    pub scroll: usize,
    pub input: Seq<char>,
    pub status: Seq<char>,
    pub open_app: Option<Seq<char>>,
    pub clipboard: Option<ClipboardView>,
    pub path: Seq<char>,
    pub stack: Seq<(Seq<char>, Seq<char>)>,
}

impl View for FileManager {
    type V = FileManagerView;

    closed spec fn view(&self) -> FileManagerView {
        FileManagerView {
            mode: self.mode@,
            files: self.files@.map_values(|f: FileEntry| f@),
            selected: self.selected_file_index,
            scroll: self.scroll_offset,
            input: self.input_text@,
            status: self.status_message@,
            open_app: match self.selected_open_file_app {
                Some(a) => Some(a@),
                None => None,
            },
            clipboard: match self.clipboard {
                Some(c) => Some(c@),
                None => None,
            },
            path: self.current_path@,
            stack: self.directory_stack@.map_values(|d: DirectoryPath| (d.path@, d.name@)),
        }
    }
}

/// The entries of a listing without the `.` entry.
pub open spec fn without_dot(es: Seq<FileEntryView>) -> Seq<FileEntryView>
    decreases es.len(),
{
    if es.len() == 0 {
        Seq::empty()
    } else if es.last().name == seq!['.'] {
        without_dot(es.drop_last())
    } else {
        without_dot(es.drop_last()).push(es.last())
    }
}

/// `w` is `v` after the listing of its directory was read again: either the
/// new entries and their count, or an error message.
pub open spec fn refresh_ok<D: DiskOperations>(fs: Option<Fat32FileSystem<D>>, v: FileManagerView, w: FileManagerView) -> bool {
    ||| (exists|e: Seq<char>| w == (FileManagerView { status: "Error: "@ + e, ..v }))
    ||| (fs matches Some(f) && (list_spec(f.geometry(), f.disk_view(), v.path) matches Some(es)
        && w == (FileManagerView {
            files: without_dot(es),
            status: "Found "@ + decimal_digits(without_dot(es).len()) + " items"@,
            ..v
        })))
}

/// The directory above `v`'s: the last one left, else the root.
pub open spec fn up_view(v: FileManagerView) -> FileManagerView {
    if v.stack.len() > 0 {
        FileManagerView { path: v.stack.last().0, stack: v.stack.drop_last(), ..v }
    } else {
        FileManagerView { path: seq!['/'], ..v }
    }
}

/// Whether `v`'s listing holds a directory named `name`.
pub open spec fn has_dir(v: FileManagerView, name: Seq<char>) -> bool {
    exists|i: int| 0 <= i < v.files.len() && (#[trigger] v.files[i]).is_directory && v.files[i].name == name
}

/// The name shown for a directory left: `Root` for the root, else the last
/// part of its path.
pub open spec fn dir_label(path: Seq<char>) -> Seq<char> {
    if path == seq!['/'] { "Root"@ } else { last_segment(path) }
}

/// `v` moved into its subdirectory `name`.
pub open spec fn into_view(v: FileManagerView, name: Seq<char>) -> FileManagerView {
    FileManagerView {
        path: child_path(v.path, name),
        stack: v.stack.push((v.path, dir_label(v.path))),
        ..v
    }
}

/// `w` is `v` after going up one directory; `ok` tells whether it could.
pub open spec fn up_ok<D: DiskOperations>(fs: Option<Fat32FileSystem<D>>, v: FileManagerView, ok: bool, w: FileManagerView) -> bool {
    if v.stack.len() > 0 || v.path != seq!['/'] {
        ok && exists|u: FileManagerView| refresh_ok(fs, up_view(v), u) && w == (FileManagerView { selected: None, ..u })
    } else {
        !ok && w == v
    }
}

/// `w` is `v` after entering `name` (`..` goes up); `ok` tells whether it could.
pub open spec fn into_ok<D: DiskOperations>(fs: Option<Fat32FileSystem<D>>, v: FileManagerView, name: Seq<char>, ok: bool, w: FileManagerView) -> bool {
    if name == seq!['.', '.'] {
        up_ok(fs, v, ok, w)
    } else if has_dir(v, name) {
        ok && exists|u: FileManagerView| refresh_ok(fs, into_view(v, name), u) && w == (FileManagerView { selected: None, ..u })
    } else {
        !ok && w == v
    }
}

fn drop_dot_entries(entries: Vec<FileEntry>) -> (r: Vec<FileEntry>)
    ensures
        r@.map_values(|f: FileEntry| f@) == without_dot(entries@.map_values(|f: FileEntry| f@)),
{
    let ghost es = entries@.map_values(|f: FileEntry| f@);
    let mut out: Vec<FileEntry> = Vec::new();
    let mut i: usize = 0;
    while i < entries.len()
        invariant
            i <= entries@.len(),
            es == entries@.map_values(|f: FileEntry| f@),
            out@.map_values(|f: FileEntry| f@) == without_dot(es.subrange(0, i as int)),
        decreases entries@.len() - i,
    {
        let ghost before = out@;
        assert(es.subrange(0, i + 1).drop_last() =~= es.subrange(0, i as int));
        assert(es.subrange(0, i + 1).last() == entries@[i as int]@);
        if !is_dot(&entries[i].name) {
            out.push(copy_entry(&entries[i]));
            assert(out@.map_values(|f: FileEntry| f@) =~= before.map_values(|f: FileEntry| f@).push(entries@[i as int]@));
        }
        i = i + 1;
    }
    assert(es.subrange(0, entries@.len() as int) =~= es);
    out
}

fn message(a: &str, b: &[char], c: &str) -> (r: Vec<char>)
    ensures
        r@ == a@ + b@ + c@,
{
    let mut out = chars_of(a);
    append_chars(&mut out, b);
    let tail = chars_of(c);
    append_chars(&mut out, tail.as_slice());
    out
}

fn is_root(p: &Vec<char>) -> (r: bool)
    ensures
        r == (p@ == seq!['/']),
{
    let root: Vec<char> = vec!['/'];
    assert(root@ =~= seq!['/']);
    same_chars(p, &root)
}

impl FileManager {
    /// Reads the listing of the current directory again.
    fn refresh_file_list<D: DiskOperations>(&mut self, fs: &mut Option<Fat32FileSystem<D>>)
        requires
            fs_inv(*old(fs)),
        ensures
            same_volume(*old(fs), *final(fs)),
            refresh_ok(*old(fs), old(self)@, final(self)@),
    {
        let path = string_from_chars(self.current_path.as_slice());
        match list_directory(fs, path.as_str()) {
            Ok(files) => {
                self.files = drop_dot_entries(files);
                let count = decimal_string(self.files.len() as u64);
                self.status_message = message("Found ", count.as_slice(), " items");
            },
            Err(e) => {
                let text = chars_of(e);
                self.status_message = message("Error: ", text.as_slice(), "");
                proof {
                    reveal_strlit("");
                    assert(self.status_message@ =~= "Error: "@ + e@);
                }
            },
        }
    }

    /// A file manager in the root directory, with its listing read.
    pub fn new<D: DiskOperations>(fs: &mut Option<Fat32FileSystem<D>>) -> (r: FileManager)
        requires
            fs_inv(*old(fs)),
        ensures
            same_volume(*old(fs), *final(fs)),
            refresh_ok(*old(fs), FileManagerView {
                mode: ModeView::Browse,
                files: Seq::empty(),
                selected: None,
                scroll: 0,
                input: Seq::empty(),
                status: "Ready"@,
                open_app: None,
                clipboard: None,
                path: seq!['/'],
                stack: Seq::empty(),
            }, r@),
    {
        let root: Vec<char> = vec!['/'];
        let mut fm = FileManager {
            mode: FileManagerMode::Browse,
            files: Vec::new(),
            selected_file_index: None,
            scroll_offset: 0,
            input_text: Vec::new(),
            status_message: chars_of("Ready"),
            selected_open_file_app: None,
            clipboard: None,
            current_path: root,
            directory_stack: Vec::new(),
        };
        proof {
            assert(fm@.files =~= Seq::<FileEntryView>::empty());
            assert(fm@.stack =~= Seq::<(Seq<char>, Seq<char>)>::empty());
            assert(fm@.path =~= seq!['/']);
        }
        fm.refresh_file_list(fs);
        fm
    }

    /// Goes up to the directory last left, or to the root; fails with
    /// "Already at root directory" at the root.
    pub fn navigate_up<D: DiskOperations>(&mut self, fs: &mut Option<Fat32FileSystem<D>>) -> (r: Result<(), &'static str>)
        requires
            fs_inv(*old(fs)),
        ensures
            same_volume(*old(fs), *final(fs)),
            up_ok(*old(fs), old(self)@, r is Ok, final(self)@),
            r is Err ==> r == Err::<(), &'static str>("Already at root directory"),
    {
        let ghost v = self@;
        if self.directory_stack.len() > 0 {
            let parent = self.directory_stack.pop().unwrap();
            assert(self@.stack =~= v.stack.drop_last());
            self.current_path = chars_of(parent.path.as_str());
            let ghost mid = self@;
            assert(mid == up_view(v));
            self.refresh_file_list(fs);
            let ghost u = self@;
            self.selected_file_index = None;
            assert(self@ == (FileManagerView { selected: None, ..u }));
            Ok(())
        } else if !is_root(&self.current_path) {
            self.current_path = vec!['/'];
            let ghost mid = self@;
            assert(mid.path =~= seq!['/']);
            assert(mid == up_view(v));
            self.refresh_file_list(fs);
            let ghost u = self@;
            self.selected_file_index = None;
            assert(self@ == (FileManagerView { selected: None, ..u }));
            Ok(())
        } else {
            Err("Already at root directory")
        }
    }

    /// Enters the subdirectory `dir_name` of the current directory (`..`
    /// goes up); fails with "Directory not found or not a directory" when the
    /// listing holds no such directory.
    pub fn navigate_into_directory<D: DiskOperations>(&mut self, fs: &mut Option<Fat32FileSystem<D>>, dir_name: &str) -> (r: Result<(), &'static str>)
        requires
            fs_inv(*old(fs)),
        ensures
            same_volume(*old(fs), *final(fs)),
            into_ok(*old(fs), old(self)@, dir_name@, r is Ok, final(self)@),
            dir_name@ != seq!['.', '.'] && !has_dir(old(self)@, dir_name@)
                ==> r == Err::<(), &'static str>("Directory not found or not a directory"),
    {
        let ghost v = self@;
        let name = chars_of(dir_name);
        let dots: Vec<char> = vec!['.', '.'];
        assert(dots@ =~= seq!['.', '.']);
        if same_chars(&name, &dots) {
            return self.navigate_up(fs);
        }
        let mut found = false;
        let mut i: usize = 0;
        while i < self.files.len()
            invariant
                i <= self.files@.len(),
                v == self@,
                name@ == dir_name@,
                found ==> has_dir(v, name@),
                !found ==> forall|j: int| 0 <= j < i ==> !((#[trigger] v.files[j]).is_directory && v.files[j].name == name@),
            decreases self.files@.len() - i,
        {
            assert(v.files[i as int] == self.files@[i as int]@);
            if self.files[i].is_directory && same_chars(&chars_of(self.files[i].name.as_str()), &name) {
                found = true;
            }
            i = i + 1;
        }
        if !found {
            return Err("Directory not found or not a directory");
        }
        let label = if is_root(&self.current_path) {
            chars_of("Root")
        } else {
            last_segment_of(&self.current_path)
        };
        let entry = DirectoryPath {
            path: string_from_chars(self.current_path.as_slice()),
            name: string_from_chars(label.as_slice()),
        };
        self.directory_stack.push(entry);
        self.current_path = join_path_chars(&self.current_path, name.as_slice());
        let ghost mid = self@;
        assert(mid.stack =~= v.stack.push((v.path, dir_label(v.path))));
        assert(mid == into_view(v, name@));
        self.refresh_file_list(fs);
        let ghost u = self@;
        self.selected_file_index = None;
        assert(self@ == (FileManagerView { selected: None, ..u }));
        Ok(())
    }

    /// The path shown above the listing: `/ (Root)` at the root.
    pub fn get_breadcrumb_text(&self) -> (r: String)
        ensures
            r@ == if self@.path == seq!['/'] { "/ (Root)"@ } else { self@.path },
    {
        if is_root(&self.current_path) {
            string_from_chars(chars_of("/ (Root)").as_slice())
        } else {
            string_from_chars(self.current_path.as_slice())
        }
    }
}


/// `w` is `v` after opening the selected entry: a directory is entered, a
/// file opens the dialog that chooses an application for it.
pub open spec fn open_ok<D: DiskOperations>(fs: Option<Fat32FileSystem<D>>, v: FileManagerView, w: FileManagerView) -> bool {
    match v.selected {
        Some(i) => if i < v.files.len() {
            if v.files[i as int].is_directory {
                exists|ok: bool, u: FileManagerView| into_ok(fs, v, v.files[i as int].name, ok, u)
                    && w == if ok { u } else { FileManagerView { status: "Failed to enter directory"@, ..u } }
            } else {
                w == (FileManagerView { mode: ModeView::ViewFile(v.files[i as int]), ..v })
            }
        } else {
            w == v
        },
        None => w == (FileManagerView { status: "Please select a file or folder to open"@, ..v }),
    }
}

/// `w` is `v` after creating the folder named by the input.
pub open spec fn create_folder_ok<D: DiskOperations>(fs: Option<Fat32FileSystem<D>>, v: FileManagerView, w: FileManagerView) -> bool {
    if blank(v.input) {
        w == (FileManagerView { status: "Please enter a folder name"@, ..v })
    } else {
        ||| (exists|e: Seq<char>| w == (FileManagerView { status: "Error creating folder: "@ + e, ..v }))
        ||| (exists|u: FileManagerView| refresh_ok(fs, v, u)
            && w == (FileManagerView { mode: ModeView::Browse, input: Seq::empty(), status: "Folder created successfully"@, ..u }))
    }
}

/// `w` is `v` after deleting the selected folder.
pub open spec fn delete_folder_ok<D: DiskOperations>(fs: Option<Fat32FileSystem<D>>, v: FileManagerView, w: FileManagerView) -> bool {
    match v.selected {
        Some(i) => if i < v.files.len() {
            if !v.files[i as int].is_directory {
                w == (FileManagerView { status: "Selected item is not a folder"@, ..v })
            } else {
                ||| (exists|e: Seq<char>| w == (FileManagerView { status: "Error deleting folder: "@ + e, ..v }))
                ||| (exists|u: FileManagerView| refresh_ok(fs, v, u)
                    && w == (FileManagerView { selected: None, mode: ModeView::Browse, status: "Folder deleted successfully"@, ..u }))
            }
        } else {
            w == v
        },
        None => w == v,
    }
}

/// `w` is `v` after creating the empty file named by the input.
pub open spec fn create_file_ok<D: DiskOperations>(fs: Option<Fat32FileSystem<D>>, v: FileManagerView, w: FileManagerView) -> bool {
    if v.input.len() == 0 {
        w == (FileManagerView { status: "Please enter a filename"@, ..v })
    } else {
        ||| (exists|e: Seq<char>| w == (FileManagerView { status: "Error creating file: "@ + e, ..v }))
        ||| (exists|u: FileManagerView| refresh_ok(fs, FileManagerView { status: "File '"@ + v.input + "' created successfully"@, ..v }, u)
            && w == (FileManagerView { mode: ModeView::Browse, input: Seq::empty(), ..u }))
    }
}

/// `w` is `v` after deleting the selected file.
pub open spec fn delete_file_ok<D: DiskOperations>(fs: Option<Fat32FileSystem<D>>, v: FileManagerView, w: FileManagerView) -> bool {
    match v.selected {
        Some(i) => if i < v.files.len() {
            let f = v.files[i as int];
            if f.is_directory {
                w == (FileManagerView { status: "Use Delete Folder for directories"@, ..v })
            } else {
                ||| (exists|e: Seq<char>| w == (FileManagerView { status: "Error deleting file: "@ + e, mode: ModeView::Browse, ..v }))
                ||| (exists|u: FileManagerView| refresh_ok(fs, FileManagerView { status: "File '"@ + f.name + "' deleted successfully"@, ..v }, u)
                    && w == (FileManagerView { selected: None, mode: ModeView::Browse, ..u }))
            }
        } else {
            w == v
        },
        None => w == v,
    }
}

/// `v` after copying or cutting the selected entry to the clipboard.
pub open spec fn clipboard_set(v: FileManagerView, op: ClipboardOperation) -> FileManagerView {
    match v.selected {
        Some(i) => if i < v.files.len() {
            let f = v.files[i as int];
            FileManagerView {
                clipboard: Some(ClipboardView {
                    file_path: child_path(v.path, f.name),
                    file_name: f.name,
                    is_directory: f.is_directory,
                    operation: op,
                }),
                status: (if op == ClipboardOperation::Copy { "Copied '"@ } else { "Cut '"@ }) + f.name + "' to clipboard"@,
                ..v
            }
        } else {
            v
        },
        None => FileManagerView {
            status: if op == ClipboardOperation::Copy {
                "Please select a file or folder to copy"@
            } else {
                "Please select a file or folder to cut"@
            },
            ..v
        },
    }
}

/// `w` is `v` after pasting the clipboard into the current directory.
pub open spec fn paste_ok<D: DiskOperations>(fs: Option<Fat32FileSystem<D>>, v: FileManagerView, w: FileManagerView) -> bool {
    match v.clipboard {
        Some(c) => {
            ||| (exists|e: Seq<char>| w == (FileManagerView { status: "Paste failed: "@ + e, ..v }))
            ||| refresh_ok(fs, FileManagerView {
                    status: "Successfully "@ + (if c.operation == ClipboardOperation::Copy { "copied"@ } else { "moved"@ })
                        + " '"@ + c.file_name + "'"@,
                    clipboard: if c.operation == ClipboardOperation::Cut { None } else { v.clipboard },
                    ..v
                }, w)
        },
        None => w == (FileManagerView { status: "Clipboard is empty"@, ..v }),
    }
}

/// `v` after choosing to rename the selected entry.
pub open spec fn rename_started(v: FileManagerView) -> FileManagerView {
    match v.selected {
        Some(i) => if i < v.files.len() {
            FileManagerView { mode: ModeView::Rename(v.files[i as int]), input: v.files[i as int].name, ..v }
        } else {
            v
        },
        None => FileManagerView { status: "Please select a file or folder to rename"@, ..v },
    }
}

/// `w` is `v` after renaming the entry being renamed to the input.
pub open spec fn rename_ok<D: DiskOperations>(fs: Option<Fat32FileSystem<D>>, v: FileManagerView, w: FileManagerView) -> bool {
    if blank(v.input) {
        w == (FileManagerView { status: "Please enter a new name"@, ..v })
    } else {
        match v.mode {
            ModeView::Rename(_) => {
                ||| (exists|e: Seq<char>| w == (FileManagerView { status: "Rename failed: "@ + e, ..v }))
                ||| (exists|u: FileManagerView| refresh_ok(fs, v, u)
                    && w == (FileManagerView { mode: ModeView::Browse, input: Seq::empty(), status: "Successfully renamed to ''"@, ..u }))
            },
            _ => w == v,
        }
    }
}

fn path_string(dir: &Vec<char>, name: &[char]) -> (r: String)
    ensures
        r@ == child_path(dir@, name@),
{
    let p = join_path_chars(dir, name);
    string_from_chars(p.as_slice())
}

fn error_message(prefix: &str, e: &str) -> (r: Vec<char>)
    ensures
        r@ == prefix@ + e@,
{
    let mut out = chars_of(prefix);
    append_chars(&mut out, chars_of(e).as_slice());
    out
}

impl FileManager {
    /// Opens the selected entry: enters a directory, or offers the
    /// applications that can open a file.
    pub fn open_selected<D: DiskOperations>(&mut self, fs: &mut Option<Fat32FileSystem<D>>)
        requires
            fs_inv(*old(fs)),
        ensures
            same_volume(*old(fs), *final(fs)),
            open_ok(*old(fs), old(self)@, final(self)@),
    {
        let ghost v = self@;
        match self.selected_file_index {
            Some(idx) => {
                if idx < self.files.len() {
                    let file = copy_entry(&self.files[idx]);
                    assert(file@ == v.files[idx as int]);
                    if file.is_directory {
                        let r = self.navigate_into_directory(fs, file.name.as_str());
                        let ghost u = self@;
                        let ghost ok = r is Ok;
                        assert(into_ok(*old(fs), v, v.files[idx as int].name, ok, u));
                        if r.is_err() {
                            self.status_message = chars_of("Failed to enter directory");
                            assert(self@ == (FileManagerView { status: "Failed to enter directory"@, ..u }));
                        }
                        assert(self@ == if ok { u } else { FileManagerView { status: "Failed to enter directory"@, ..u } });
                    } else {
                        self.mode = FileManagerMode::ViewFile(file);
                    }
                }
            },
            None => {
                self.status_message = chars_of("Please select a file or folder to open");
            },
        }
    }

    /// Creates the folder named by the input in the current directory.
    pub fn create_folder<D: DiskOperations>(&mut self, fs: &mut Option<Fat32FileSystem<D>>, now: DateTime)
        requires
            fs_inv(*old(fs)),
            now.year >= 1980,
        ensures
            same_layout(*old(fs), *final(fs)),
            create_folder_ok(*final(fs), old(self)@, final(self)@),
    {
        if is_blank(&self.input_text) {
            self.status_message = chars_of("Please enter a folder name");
            proof { crate::manager::lemma_same_volume_layout_pub(*old(fs), *fs); }
            return;
        }
        let ghost v = self@;
        let path = path_string(&self.current_path, self.input_text.as_slice());
        match create_directory(fs, path.as_str(), now) {
            Ok(()) => {
                let ghost fs_mid = *fs;
                self.refresh_file_list(fs);
                let ghost u = self@;
                assert(refresh_ok(*fs, v, u));
                self.mode = FileManagerMode::Browse;
                self.input_text = Vec::new();
                self.status_message = chars_of("Folder created successfully");
            },
            Err(e) => {
                self.status_message = error_message("Error creating folder: ", e);
                assert(self@ == (FileManagerView { status: "Error creating folder: "@ + e@, ..v }));
            },
        }
    }

    /// Deletes the selected folder.
    pub fn delete_selected_folder<D: DiskOperations>(&mut self, fs: &mut Option<Fat32FileSystem<D>>)
        requires
            fs_inv(*old(fs)),
        ensures
            same_layout(*old(fs), *final(fs)),
            delete_folder_ok(*final(fs), old(self)@, final(self)@),
    {
        proof { crate::manager::lemma_same_volume_layout_pub(*old(fs), *fs); }
        let ghost v = self@;
        if let Some(index) = self.selected_file_index {
            if index < self.files.len() {
                if !self.files[index].is_directory {
                    self.status_message = chars_of("Selected item is not a folder");
                    return;
                }
                let name = chars_of(self.files[index].name.as_str());
                let path = path_string(&self.current_path, name.as_slice());
                match delete_directory(fs, path.as_str()) {
                    Ok(()) => {
                        self.refresh_file_list(fs);
                        let ghost u = self@;
                        assert(refresh_ok(*fs, v, u));
                        self.selected_file_index = None;
                        self.mode = FileManagerMode::Browse;
                        self.status_message = chars_of("Folder deleted successfully");
                    },
                    Err(e) => {
                        self.status_message = error_message("Error deleting folder: ", e);
                        assert(self@ == (FileManagerView { status: "Error deleting folder: "@ + e@, ..v }));
                    },
                }
            }
        }
    }

    /// Creates an empty file named by the input in the current directory.
    pub fn create_file<D: DiskOperations>(&mut self, fs: &mut Option<Fat32FileSystem<D>>, now: DateTime)
        requires
            fs_inv(*old(fs)),
            now.year >= 1980,
        ensures
            same_layout(*old(fs), *final(fs)),
            create_file_ok(*final(fs), old(self)@, final(self)@),
    {
        if self.input_text.len() == 0 {
            self.status_message = chars_of("Please enter a filename");
            proof { crate::manager::lemma_same_volume_layout_pub(*old(fs), *fs); }
            return;
        }
        let ghost v = self@;
        let path = path_string(&self.current_path, self.input_text.as_slice());
        let empty: Vec<u8> = Vec::new();
        match create_file(fs, path.as_str(), empty.as_slice(), now) {
            Ok(()) => {
                self.status_message = message("File '", self.input_text.as_slice(), "' created successfully");
                let ghost v1 = self@;
                assert(v1 == (FileManagerView { status: "File '"@ + v.input + "' created successfully"@, ..v }));
                self.refresh_file_list(fs);
                let ghost u = self@;
                assert(refresh_ok(*fs, v1, u));
                self.mode = FileManagerMode::Browse;
                self.input_text = Vec::new();
            },
            Err(e) => {
                self.status_message = error_message("Error creating file: ", e);
                assert(self@ == (FileManagerView { status: "Error creating file: "@ + e@, ..v }));
            },
        }
    }

    /// Deletes the selected file.
    pub fn delete_selected_file<D: DiskOperations>(&mut self, fs: &mut Option<Fat32FileSystem<D>>)
        requires
            fs_inv(*old(fs)),
        ensures
            same_layout(*old(fs), *final(fs)),
            delete_file_ok(*final(fs), old(self)@, final(self)@),
    {
        proof { crate::manager::lemma_same_volume_layout_pub(*old(fs), *fs); }
        let ghost v = self@;
        if let Some(idx) = self.selected_file_index {
            if idx < self.files.len() {
                if self.files[idx].is_directory {
                    self.status_message = chars_of("Use Delete Folder for directories");
                    return;
                }
                let name = chars_of(self.files[idx].name.as_str());
                let path = path_string(&self.current_path, name.as_slice());
                match delete_file(fs, path.as_str()) {
                    Ok(()) => {
                        self.status_message = message("File '", name.as_slice(), "' deleted successfully");
                        let ghost v1 = self@;
                        assert(v1 == (FileManagerView { status: "File '"@ + v.files[idx as int].name + "' deleted successfully"@, ..v }));
                        self.refresh_file_list(fs);
                        let ghost u = self@;
                        assert(refresh_ok(*fs, v1, u));
                        self.selected_file_index = None;
                        self.mode = FileManagerMode::Browse;
                    },
                    Err(e) => {
                        self.status_message = error_message("Error deleting file: ", e);
                        self.mode = FileManagerMode::Browse;
                        assert(self@ == (FileManagerView { status: "Error deleting file: "@ + e@, mode: ModeView::Browse, ..v }));
                    },
                }
            }
        }
    }

    /// Copies (or cuts) the selected entry to the clipboard.
    pub fn set_clipboard(&mut self, op: ClipboardOperation)
        ensures
            final(self)@ == clipboard_set(old(self)@, op),
    {
        match self.selected_file_index {
            Some(idx) => {
                if idx < self.files.len() {
                    let name = chars_of(self.files[idx].name.as_str());
                    let path = path_string(&self.current_path, name.as_slice());
                    self.clipboard = Some(ClipboardEntry {
                        file_path: path,
                        file_name: string_from_chars(name.as_slice()),
                        is_directory: self.files[idx].is_directory,
                        operation: op,
                    });
                    self.status_message = match op {
                        ClipboardOperation::Copy => message("Copied '", name.as_slice(), "' to clipboard"),
                        ClipboardOperation::Cut => message("Cut '", name.as_slice(), "' to clipboard"),
                    };
                }
            },
            None => {
                self.status_message = match op {
                    ClipboardOperation::Copy => chars_of("Please select a file or folder to copy"),
                    ClipboardOperation::Cut => chars_of("Please select a file or folder to cut"),
                };
            },
        }
    }

    /// Pastes the clipboard into the current directory: a copied entry is
    /// copied there, a cut one moved (and the clipboard emptied).
    pub fn paste<D: DiskOperations>(&mut self, fs: &mut Option<Fat32FileSystem<D>>, now: DateTime)
        requires
            fs_inv(*old(fs)),
            now.year >= 1980,
        ensures
            same_layout(*old(fs), *final(fs)),
            paste_ok(*final(fs), old(self)@, final(self)@),
    {
        proof { crate::manager::lemma_same_volume_layout_pub(*old(fs), *fs); }
        let ghost v = self@;
        let entry = match &self.clipboard {
            Some(c) => ClipboardEntry {
                file_path: string_from_chars(chars_of(c.file_path.as_str()).as_slice()),
                file_name: string_from_chars(chars_of(c.file_name.as_str()).as_slice()),
                is_directory: c.is_directory,
                operation: c.operation,
            },
            None => {
                self.status_message = chars_of("Clipboard is empty");
                return;
            },
        };
        let name = chars_of(entry.file_name.as_str());
        let dest = path_string(&self.current_path, name.as_slice());
        let result = match entry.operation {
            ClipboardOperation::Copy => {
                if entry.is_directory {
                    copy_directory(fs, entry.file_path.as_str(), dest.as_str(), now)
                } else {
                    copy_file(fs, entry.file_path.as_str(), dest.as_str(), now)
                }
            },
            ClipboardOperation::Cut => move_item(fs, entry.file_path.as_str(), dest.as_str(), now),
        };
        match result {
            Ok(()) => {
                let mut status = chars_of("Successfully ");
                let verb = match entry.operation {
                    ClipboardOperation::Copy => chars_of("copied"),
                    ClipboardOperation::Cut => chars_of("moved"),
                };
                append_chars(&mut status, verb.as_slice());
                let tail = message(" '", name.as_slice(), "'");
                append_chars(&mut status, tail.as_slice());
                self.status_message = status;
                if entry.operation == ClipboardOperation::Cut {
                    self.clipboard = None;
                }
                self.refresh_file_list(fs);
            },
            Err(e) => {
                self.status_message = error_message("Paste failed: ", e);
            },
        }
    }

    /// Starts renaming the selected entry, with its name as the input.
    pub fn start_rename(&mut self)
        ensures
            final(self)@ == rename_started(old(self)@),
    {
        match self.selected_file_index {
            Some(idx) => {
                if idx < self.files.len() {
                    let file = copy_entry(&self.files[idx]);
                    self.input_text = chars_of(file.name.as_str());
                    self.mode = FileManagerMode::Rename(file);
                }
            },
            None => {
                self.status_message = chars_of("Please select a file or folder to rename");
            },
        }
    }

    /// Renames the entry being renamed to the input.
    pub fn perform_rename<D: DiskOperations>(&mut self, fs: &mut Option<Fat32FileSystem<D>>, now: DateTime)
        requires
            fs_inv(*old(fs)),
            now.year >= 1980,
        ensures
            same_layout(*old(fs), *final(fs)),
            rename_ok(*final(fs), old(self)@, final(self)@),
    {
        proof { crate::manager::lemma_same_volume_layout_pub(*old(fs), *fs); }
        if is_blank(&self.input_text) {
            self.status_message = chars_of("Please enter a new name");
            return;
        }
        let old_name = match &self.mode {
            FileManagerMode::Rename(file) => chars_of(file.name.as_str()),
            _ => { return; },
        };
        let ghost v = self@;
        let old_path = path_string(&self.current_path, old_name.as_slice());
        let new_name = string_from_chars(self.input_text.as_slice());
        match rename_item(fs, old_path.as_str(), new_name.as_str(), now) {
            Ok(()) => {
                self.refresh_file_list(fs);
                let ghost u = self@;
                assert(refresh_ok(*fs, v, u));
                self.mode = FileManagerMode::Browse;
                self.input_text = Vec::new();
                self.status_message = chars_of("Successfully renamed to ''");
            },
            Err(e) => {
                self.status_message = error_message("Rename failed: ", e);
                assert(self@ == (FileManagerView { status: "Rename failed: "@ + e@, ..v }));
            },
        }
    }
}

/// The application recommended for a file: the editor for names ending in
/// `.txt` (in any case).
pub open spec fn recommended_app(name: Seq<char>) -> Option<Seq<char>> {
    if ".txt"@.is_suffix_of(spec_to_lowercase(name)) { Some("notepad"@) } else { None }
}

/// The other applications offered for a file.
pub open spec fn other_apps(name: Seq<char>) -> Seq<Seq<char>> {
    if recommended_app(name) is Some { seq!["calculator"@] } else { seq!["notepad"@, "calculator"@] }
}

/// The applications offered in the open dialog, with the row each is drawn
/// at: the recommended one first, then the others from row 130 down.
pub open spec fn open_options(name: Seq<char>) -> Seq<(usize, Seq<char>)> {
    let others = Seq::new(other_apps(name).len(), |i: int| ((130 + i * 20) as usize, other_apps(name)[i]));
    match recommended_app(name) {
        Some(a) => seq![(90usize, a)] + others,
        None => others,
    }
}

/// Whether the point lies in the rectangle at (`bx`, `by`) of the given size.
pub open spec fn hit(x: int, y: int, bx: int, by: int, bw: int, bh: int) -> bool {
    x >= bx && x < bx + bw && y >= by && y < by + bh
}

/// Whether a point lies in a button.
pub fn is_button_clicked(x: usize, y: usize, btn_x: usize, btn_y: usize, btn_width: usize, btn_height: usize) -> (r: bool)
    ensures
        r == hit(x as int, y as int, btn_x as int, btn_y as int, btn_width as int, btn_height as int),
{
    x >= btn_x && x - btn_x < btn_width && y >= btn_y && y - btn_y < btn_height
}

fn suffix_is(s: &Vec<char>, suffix: &Vec<char>) -> (r: bool)
    ensures
        r == suffix@.is_suffix_of(s@),
{
    if suffix.len() > s.len() {
        return false;
    }
    let off = s.len() - suffix.len();
    let mut i: usize = 0;
    while i < suffix.len()
        invariant
            i <= suffix@.len(),
            off + suffix@.len() == s@.len(),
            s@.len() == s.len(),
            forall|j: int| 0 <= j < i ==> suffix@[j] == s@[off + j],
        decreases suffix@.len() - i,
    {
        if suffix[i] != s[off + i] {
            assert(s@.subrange(off as int, s@.len() as int)[i as int] == s@[off + i]);
            return false;
        }
        i = i + 1;
    }
    assert(suffix@ =~= s@.subrange(off as int, s@.len() as int));
    true
}

/// The application recommended for a file, and the other ones offered.
pub fn load_recommended_open_list(file_name: &String) -> (r: (Option<&'static str>, Vec<&'static str>))
    ensures
        match (r.0, recommended_app(file_name@)) {
            (Some(a), Some(b)) => a@ == b,
            (None, None) => true,
            _ => false,
        },
        r.1@.len() == other_apps(file_name@).len(),
        forall|i: int| 0 <= i < r.1@.len() ==> (#[trigger] r.1@[i])@ == other_apps(file_name@)[i],
{
    let lower = chars_of(to_lowercase(file_name.as_str()).as_str());
    let txt = chars_of(".txt");
    let mut others: Vec<&'static str> = Vec::new();
    if suffix_is(&lower, &txt) {
        others.push("calculator");
        (Some("notepad"), others)
    } else {
        others.push("notepad");
        others.push("calculator");
        (None, others)
    }
}

/// The applications offered for a file, with their rows.
pub fn open_options_of(file_name: &String) -> (r: Vec<(usize, String)>)
    ensures
        r@.map_values(|o: (usize, String)| (o.0, o.1@)) == open_options(file_name@),
{
    let (rec, others) = load_recommended_open_list(file_name);
    let ghost want = open_options(file_name@);
    let mut out: Vec<(usize, String)> = Vec::new();
    let ghost head: Seq<(usize, Seq<char>)> = Seq::empty();
    if let Some(a) = rec {
        out.push((90, string_from_chars(chars_of(a).as_slice())));
        proof { head = seq![(90usize, a@)]; }
    }
    assert(out@.map_values(|o: (usize, String)| (o.0, o.1@)) =~= head);
    let ghost others_spec = Seq::new(other_apps(file_name@).len(), |i: int| ((130 + i * 20) as usize, other_apps(file_name@)[i]));
    assert(want == head + others_spec);
    let mut i: usize = 0;
    while i < others.len()
        invariant
            i <= others@.len(),
            others@.len() == other_apps(file_name@).len(),
            others@.len() <= 2,
            forall|k: int| 0 <= k < others@.len() ==> (#[trigger] others@[k])@ == other_apps(file_name@)[k],
            others_spec == Seq::new(other_apps(file_name@).len(), |k: int| ((130 + k * 20) as usize, other_apps(file_name@)[k])),
            out@.map_values(|o: (usize, String)| (o.0, o.1@)) == head + others_spec.subrange(0, i as int),
        decreases others@.len() - i,
    {
        let ghost before = out@;
        let row: usize = 130 + i * 20;
        out.push((row, string_from_chars(chars_of(others[i]).as_slice())));
        assert(out@.map_values(|o: (usize, String)| (o.0, o.1@)) =~= before.map_values(|o: (usize, String)| (o.0, o.1@)).push((row, others@[i as int]@)));
        assert(others_spec.subrange(0, i + 1) =~= others_spec.subrange(0, i as int).push(others_spec[i as int]));
        i = i + 1;
    }
    assert(others_spec.subrange(0, others@.len() as int) =~= others_spec);
    out
}

/// The character typed into a name field: backspace removes the last
/// character, a printable ASCII character is appended.
pub open spec fn input_edited(v: FileManagerView, c: char) -> FileManagerView {
    if c == '\u{8}' {
        FileManagerView { input: if v.input.len() > 0 { v.input.drop_last() } else { v.input }, ..v }
    } else if (c as u32) < 128 && !spec_is_control(c) {
        FileManagerView { input: v.input.push(c), ..v }
    } else {
        v
    }
}

/// Keys the file manager handles.
#[derive(Debug, Clone, Copy, PartialEq, Eq, Structural)]
pub enum FileManagerKey {
    Backspace,
    Return,
    ArrowUp,
    ArrowDown,
    Other,
}

/// The selection after an arrow key in the listing.
pub open spec fn selection_moved(v: FileManagerView, up: bool) -> Option<usize> {
    match v.selected {
        Some(i) => if up {
            if i > 0 { Some((i - 1) as usize) } else { Some(i) }
        } else {
            if i + 1 < v.files.len() { Some((i + 1) as usize) } else { Some(i) }
        },
        None => if v.files.len() == 0 {
            None
        } else if up {
            Some((v.files.len() - 1) as usize)
        } else {
            Some(0usize)
        },
    }
}

/// `w` is `v` after Return in the listing: the selected directory is
/// entered (if it can be), the selected file opens the open dialog.
pub open spec fn return_ok<D: DiskOperations>(fs: Option<Fat32FileSystem<D>>, v: FileManagerView, w: FileManagerView) -> bool {
    match v.selected {
        Some(i) => if i < v.files.len() {
            if v.files[i as int].is_directory {
                exists|ok: bool| #[trigger] into_ok(fs, v, v.files[i as int].name, ok, w)
            } else {
                w == (FileManagerView { mode: ModeView::ViewFile(v.files[i as int]), ..v })
            }
        } else {
            w == v
        },
        None => w == v,
    }
}

impl FileManager {
    /// When the open dialog comes up, the recommended application is
    /// chosen unless one already is.
    pub fn prepare_open_dialog(&mut self)
        ensures
            final(self)@ == match old(self)@.mode {
                ModeView::ViewFile(f) => if recommended_app(f.name) is Some && old(self)@.open_app is None {
                    FileManagerView { open_app: recommended_app(f.name), ..old(self)@ }
                } else {
                    old(self)@
                },
                _ => old(self)@,
            },
    {
        let rec = match &self.mode {
            FileManagerMode::ViewFile(file) => load_recommended_open_list(&file.name).0,
            _ => None,
        };
        if let Some(a) = rec {
            if self.selected_open_file_app.is_none() {
                self.selected_open_file_app = Some(chars_of(a));
            }
        }
    }

    /// A typed character: Enter opens the selection or confirms the
    /// dialog; in the name fields other characters edit the name.
    pub fn handle_char_input<D: DiskOperations>(&mut self, fs: &mut Option<Fat32FileSystem<D>>, now: DateTime, c: char)
        requires
            fs_inv(*old(fs)),
            now.year >= 1980,
        ensures
            same_layout(*old(fs), *final(fs)),
            old(self)@.mode is Browse ==> if c == '\n' {
                open_ok(*old(fs), old(self)@, final(self)@)
            } else {
                final(self)@ == old(self)@
            },
            old(self)@.mode is NewFile ==> if c == '\n' {
                create_file_ok(*final(fs), old(self)@, final(self)@)
            } else {
                final(self)@ == input_edited(old(self)@, c)
            },
            old(self)@.mode is NewFolder ==> if c == '\n' {
                create_folder_ok(*final(fs), old(self)@, final(self)@)
            } else {
                final(self)@ == input_edited(old(self)@, c)
            },
            old(self)@.mode is Rename ==> if c == '\n' {
                rename_ok(*final(fs), old(self)@, final(self)@)
            } else {
                final(self)@ == input_edited(old(self)@, c)
            },
            (old(self)@.mode is DeleteFile || old(self)@.mode is DeleteFolder || old(self)@.mode is ViewFile)
                ==> final(self)@ == old(self)@,
    {
        proof { crate::manager::lemma_same_volume_layout_pub(*old(fs), *fs); }
        let kind: u8 = match &self.mode {
            FileManagerMode::Browse => 0,
            FileManagerMode::NewFile => 1,
            FileManagerMode::NewFolder => 2,
            FileManagerMode::Rename(_) => 3,
            _ => 4,
        };
        if kind == 0 {
            if c == '\n' {
                self.open_selected(fs);
                proof { crate::manager::lemma_same_volume_layout_pub(*old(fs), *fs); }
            }
            return;
        }
        if kind == 4 {
            return;
        }
        if c == '\u{8}' {
            if self.input_text.len() > 0 {
                self.input_text.pop();
            }
        } else if c == '\n' {
            if kind == 1 {
                self.create_file(fs, now);
            } else if kind == 2 {
                self.create_folder(fs, now);
            } else {
                self.perform_rename(fs, now);
            }
        } else if (c as u32) < 128 && !is_control(c) {
            self.input_text.push(c);
        }
    }

    /// A key: Backspace and Return in the name fields; the arrows move the
    /// selection and Return opens it in the listing.
    pub fn handle_key_input<D: DiskOperations>(&mut self, fs: &mut Option<Fat32FileSystem<D>>, now: DateTime, key: FileManagerKey)
        requires
            fs_inv(*old(fs)),
            now.year >= 1980,
            old(self)@.mode is Browse && key == FileManagerKey::ArrowDown && old(self)@.selected is Some
                ==> old(self)@.files.len() > 0,
        ensures
            same_layout(*old(fs), *final(fs)),
            (old(self)@.mode is NewFile || old(self)@.mode is NewFolder || old(self)@.mode is Rename) && key == FileManagerKey::Backspace
                ==> final(self)@ == (FileManagerView {
                    input: if old(self)@.input.len() > 0 { old(self)@.input.drop_last() } else { old(self)@.input },
                    ..old(self)@
                }),
            old(self)@.mode is NewFile && key == FileManagerKey::Return ==> create_file_ok(*final(fs), old(self)@, final(self)@),
            old(self)@.mode is NewFolder && key == FileManagerKey::Return ==> create_folder_ok(*final(fs), old(self)@, final(self)@),
            old(self)@.mode is Rename && key == FileManagerKey::Return ==> rename_ok(*final(fs), old(self)@, final(self)@),
            old(self)@.mode is Browse && key == FileManagerKey::ArrowUp
                ==> final(self)@ == (FileManagerView { selected: selection_moved(old(self)@, true), ..old(self)@ }),
            old(self)@.mode is Browse && key == FileManagerKey::ArrowDown
                ==> final(self)@ == (FileManagerView { selected: selection_moved(old(self)@, false), ..old(self)@ }),
            old(self)@.mode is Browse && key == FileManagerKey::Return ==> return_ok(*old(fs), old(self)@, final(self)@),
            !(key == FileManagerKey::Backspace && (old(self)@.mode is NewFile || old(self)@.mode is NewFolder || old(self)@.mode is Rename))
                && !(key == FileManagerKey::Return && !(old(self)@.mode is DeleteFile || old(self)@.mode is DeleteFolder || old(self)@.mode is ViewFile))
                && !((key == FileManagerKey::ArrowUp || key == FileManagerKey::ArrowDown) && old(self)@.mode is Browse)
                ==> final(self)@ == old(self)@,
    {
        proof { crate::manager::lemma_same_volume_layout_pub(*old(fs), *fs); }
        let kind: u8 = match &self.mode {
            FileManagerMode::Browse => 0,
            FileManagerMode::NewFile => 1,
            FileManagerMode::NewFolder => 2,
            FileManagerMode::Rename(_) => 3,
            _ => 4,
        };
        if kind == 4 {
            return;
        }
        if kind != 0 {
            match key {
                FileManagerKey::Backspace => {
                    if self.input_text.len() > 0 {
                        self.input_text.pop();
                    }
                },
                FileManagerKey::Return => {
                    if kind == 1 {
                        self.create_file(fs, now);
                    } else if kind == 2 {
                        self.create_folder(fs, now);
                    } else {
                        self.perform_rename(fs, now);
                    }
                },
                _ => {},
            }
            return;
        }
        match key {
            FileManagerKey::ArrowUp => {
                if let Some(idx) = self.selected_file_index {
                    if idx > 0 {
                        self.selected_file_index = Some(idx - 1);
                    }
                } else if self.files.len() > 0 {
                    self.selected_file_index = Some(self.files.len() - 1);
                }
            },
            FileManagerKey::ArrowDown => {
                if let Some(idx) = self.selected_file_index {
                    if idx < self.files.len() - 1 {
                        self.selected_file_index = Some(idx + 1);
                    }
                } else if self.files.len() > 0 {
                    self.selected_file_index = Some(0);
                }
            },
            FileManagerKey::Return => {
                let ghost v = self@;
                if let Some(idx) = self.selected_file_index {
                    if idx < self.files.len() {
                        let file = copy_entry(&self.files[idx]);
                        assert(file@ == v.files[idx as int]);
                        if file.is_directory {
                            let r = self.navigate_into_directory(fs, file.name.as_str());
                            assert(into_ok(*old(fs), v, v.files[idx as int].name, r is Ok, self@));
                            proof { crate::manager::lemma_same_volume_layout_pub(*old(fs), *fs); }
                        } else {
                            self.mode = FileManagerMode::ViewFile(file);
                        }
                    }
                }
            },
            _ => {},
        }
    }
}

/// What a click in the listing view does.
pub enum BrowseAction {
    Select(usize),
    Up,
    NewFile,
    NewFolder,
    Delete,
    Open,
    Copy,
    Cut,
    Paste,
    Rename,
    Nothing,
}

/// The action of a click at (`x`, `y`) in the listing view of a window of
/// the given size: a row of the listing, the up button (away from the
/// root), then the buttons of the two bottom rows.
pub open spec fn browse_action(v: FileManagerView, x: int, y: int, width: int, height: int) -> BrowseAction {
    if x >= 10 && x < width - 10 && y >= 45 && y < 45 + 260 && v.scroll + (y - 45) / 20 < v.files.len() {
        BrowseAction::Select((v.scroll + (y - 45) / 20) as usize)
    } else if v.path != seq!['/'] && hit(x, y, width - 60, 8, 50, 20) {
        BrowseAction::Up
    } else if hit(x, y, 10, height - 60, 65, 25) {
        BrowseAction::NewFile
    } else if hit(x, y, 85, height - 60, 65, 25) {
        BrowseAction::NewFolder
    } else if hit(x, y, 160, height - 60, 65, 25) {
        BrowseAction::Delete
    } else if hit(x, y, 235, height - 60, 65, 25) {
        BrowseAction::Open
    } else if hit(x, y, 10, height - 90, 50, 25) {
        BrowseAction::Copy
    } else if hit(x, y, 70, height - 90, 50, 25) {
        BrowseAction::Cut
    } else if v.clipboard is Some && hit(x, y, 130, height - 90, 50, 25) {
        BrowseAction::Paste
    } else if hit(x, y, 190, height - 90, 60, 25) {
        BrowseAction::Rename
    } else {
        BrowseAction::Nothing
    }
}

/// `v` after the delete button: the dialog for the selected entry's kind.
pub open spec fn delete_requested(v: FileManagerView) -> FileManagerView {
    match v.selected {
        Some(i) => if i < v.files.len() {
            FileManagerView {
                mode: if v.files[i as int].is_directory { ModeView::DeleteFolder } else { ModeView::DeleteFile },
                ..v
            }
        } else {
            v
        },
        None => FileManagerView { status: "Please select a file or folder to delete"@, ..v },
    }
}

/// `w` (with volume `fs1` after it) is `v` (with volume `fs0`) after a
/// click with action `a` in the listing view.
pub open spec fn browse_click_ok<D: DiskOperations>(
    fs0: Option<Fat32FileSystem<D>>,
    fs1: Option<Fat32FileSystem<D>>,
    v: FileManagerView,
    a: BrowseAction,
    w: FileManagerView,
) -> bool {
    match a {
        BrowseAction::Select(i) => w == (FileManagerView { selected: Some(i), ..v }),
        BrowseAction::Up => exists|ok: bool, u: FileManagerView| up_ok(fs0, v, ok, u)
            && w == if ok { u } else { FileManagerView { status: "Already at root directory"@, ..u } },
        BrowseAction::NewFile => w == (FileManagerView { mode: ModeView::NewFile, input: Seq::empty(), ..v }),
        BrowseAction::NewFolder => w == (FileManagerView { mode: ModeView::NewFolder, input: Seq::empty(), ..v }),
        BrowseAction::Delete => w == delete_requested(v),
        BrowseAction::Open => open_ok(fs0, v, w),
        BrowseAction::Copy => w == clipboard_set(v, ClipboardOperation::Copy),
        BrowseAction::Cut => w == clipboard_set(v, ClipboardOperation::Cut),
        BrowseAction::Paste => paste_ok(fs1, v, w),
        BrowseAction::Rename => w == rename_started(v),
        BrowseAction::Nothing => w == v,
    }
}

/// Which button of a dialog a click hits: 1 for the one that confirms,
/// 2 for the one that goes back, 0 for none.
pub open spec fn dialog_button(mode: ModeView, x: int, y: int, height: int) -> int {
    match mode {
        ModeView::DeleteFile | ModeView::DeleteFolder => {
            if hit(x, y, 10, height - 60, 100, 25) { 1 } else if hit(x, y, 120, height - 60, 80, 25) { 2 } else { 0 }
        },
        ModeView::ViewFile(_) => {
            if hit(x, y, 10, height - 60, 80, 25) { 2 } else if hit(x, y, 100, height - 60, 80, 25) { 1 } else { 0 }
        },
        _ => {
            if hit(x, y, 10, height - 60, 80, 25) { 1 } else if hit(x, y, 100, height - 60, 80, 25) { 2 } else { 0 }
        },
    }
}

/// The application whose row in the open dialog a click hits, the first
/// such from `i` on.
pub open spec fn option_hit(opts: Seq<(usize, Seq<char>)>, x: int, y: int, i: int) -> Option<Seq<char>>
    decreases opts.len() - i,
{
    if i < 0 || i >= opts.len() {
        None
    } else if hit(x, y, 10, opts[i].0 as int, 200, 20) {
        Some(opts[i].1)
    } else {
        option_hit(opts, x, y, i + 1)
    }
}

/// `w` is `v` after a click (hitting button `b`) in one of the dialogs;
/// `done` tells whether the click was used and `open` what to open.
pub open spec fn dialog_click_ok<D: DiskOperations>(
    fs0: Option<Fat32FileSystem<D>>,
    fs1: Option<Fat32FileSystem<D>>,
    v: FileManagerView,
    b: int,
    x: int,
    y: int,
    w: FileManagerView,
    done: bool,
    open: Option<(Seq<char>, Seq<char>)>,
) -> bool {
    if b == 2 {
        done && open is None && w == (FileManagerView { mode: ModeView::Browse, ..v })
    } else if b == 1 {
        done && match v.mode {
            ModeView::NewFile => open is None && create_file_ok(fs1, v, w),
            ModeView::NewFolder => open is None && create_folder_ok(fs1, v, w),
            ModeView::DeleteFile => open is None && delete_file_ok(fs1, v, w),
            ModeView::DeleteFolder => open is None && delete_folder_ok(fs1, v, w),
            ModeView::Rename(_) => open is None && rename_ok(fs1, v, w),
            ModeView::ViewFile(_) => match v.open_app {
                Some(a) => open == Some((child_path(v.path, v.files[v.selected.unwrap() as int].name), a))
                    && w == (FileManagerView { open_app: None, mode: ModeView::Browse, ..v }),
                None => open is None && w == (FileManagerView { status: "Please select an application to open the file"@, ..v }),
            },
            ModeView::Browse => false,
        }
    } else {
        open is None && match v.mode {
            ModeView::ViewFile(f) => match option_hit(open_options(f.name), x, y, 0) {
                Some(a) => done && w == (FileManagerView { open_app: Some(a), ..v }),
                None => !done && w == v,
            },
            _ => !done && w == v,
        }
    }
}

fn browse_action_of(v: &FileManager, x: usize, y: usize, width: usize, height: usize) -> (r: BrowseAction)
    requires
        width >= 60,
        height >= 90,
    ensures
        r == browse_action(v@, x as int, y as int, width as int, height as int),
{
    if x >= 10 && x < width - 10 && y >= 45 && y < 45 + 260 {
        let row = (y - 45) / 20;
        if v.scroll_offset <= v.files.len() && row < v.files.len() - v.scroll_offset {
            return BrowseAction::Select(v.scroll_offset + row);
        }
    }
    if !is_root(&v.current_path) && is_button_clicked(x, y, width - 60, 8, 50, 20) {
        BrowseAction::Up
    } else if is_button_clicked(x, y, 10, height - 60, 65, 25) {
        BrowseAction::NewFile
    } else if is_button_clicked(x, y, 85, height - 60, 65, 25) {
        BrowseAction::NewFolder
    } else if is_button_clicked(x, y, 160, height - 60, 65, 25) {
        BrowseAction::Delete
    } else if is_button_clicked(x, y, 235, height - 60, 65, 25) {
        BrowseAction::Open
    } else if is_button_clicked(x, y, 10, height - 90, 50, 25) {
        BrowseAction::Copy
    } else if is_button_clicked(x, y, 70, height - 90, 50, 25) {
        BrowseAction::Cut
    } else if v.clipboard.is_some() && is_button_clicked(x, y, 130, height - 90, 50, 25) {
        BrowseAction::Paste
    } else if is_button_clicked(x, y, 190, height - 90, 60, 25) {
        BrowseAction::Rename
    } else {
        BrowseAction::Nothing
    }
}

fn dialog_button_of(mode: &FileManagerMode, x: usize, y: usize, height: usize) -> (r: u8)
    requires
        height >= 60,
    ensures
        r as int == dialog_button(mode@, x as int, y as int, height as int),
{
    match mode {
        FileManagerMode::DeleteFile | FileManagerMode::DeleteFolder => {
            if is_button_clicked(x, y, 10, height - 60, 100, 25) {
                1
            } else if is_button_clicked(x, y, 120, height - 60, 80, 25) {
                2
            } else {
                0
            }
        },
        FileManagerMode::ViewFile(_) => {
            if is_button_clicked(x, y, 10, height - 60, 80, 25) {
                2
            } else if is_button_clicked(x, y, 100, height - 60, 80, 25) {
                1
            } else {
                0
            }
        },
        _ => {
            if is_button_clicked(x, y, 10, height - 60, 80, 25) {
                1
            } else if is_button_clicked(x, y, 100, height - 60, 80, 25) {
                2
            } else {
                0
            }
        },
    }
}

fn option_hit_of(opts: &Vec<(usize, String)>, x: usize, y: usize) -> (r: Option<Vec<char>>)
    ensures
        match (r, option_hit(opts@.map_values(|o: (usize, String)| (o.0, o.1@)), x as int, y as int, 0)) {
            (Some(a), Some(b)) => a@ == b,
            (None, None) => true,
            _ => false,
        },
{
    let ghost os = opts@.map_values(|o: (usize, String)| (o.0, o.1@));
    let mut i: usize = 0;
    while i < opts.len()
        invariant
            i <= opts@.len(),
            os == opts@.map_values(|o: (usize, String)| (o.0, o.1@)),
            option_hit(os, x as int, y as int, 0) == option_hit(os, x as int, y as int, i as int),
        decreases opts@.len() - i,
    {
        assert(os[i as int] == (opts@[i as int].0, opts@[i as int].1@));
        if is_button_clicked(x, y, 10, opts[i].0, 200, 20) {
            return Some(chars_of(opts[i].1.as_str()));
        }
        i = i + 1;
    }
    None
}

impl FileManager {
    /// A click at (`x`, `y`) in a window of the given size: whether it was
    /// used, and the file to open with which application when the open
    /// dialog was confirmed. The buttons are those the current view shows.
    pub fn handle_click<D: DiskOperations>(
        &mut self,
        fs: &mut Option<Fat32FileSystem<D>>,
        now: DateTime,
        x: usize,
        y: usize,
        width: usize,
        height: usize,
    ) -> (r: (bool, Option<(String, String)>))
        requires
            fs_inv(*old(fs)),
            now.year >= 1980,
            width >= 60,
            height >= 90,
            old(self)@.mode is ViewFile && old(self)@.open_app is Some
                && dialog_button(old(self)@.mode, x as int, y as int, height as int) == 1
                ==> (old(self)@.selected matches Some(i) && i < old(self)@.files.len()),
        ensures
            same_layout(*old(fs), *final(fs)),
            old(self)@.mode is Browse ==> {
                let a = browse_action(old(self)@, x as int, y as int, width as int, height as int);
                &&& r.0 == !(a is Nothing)
                &&& r.1 is None
                &&& browse_click_ok(*old(fs), *final(fs), old(self)@, a, final(self)@)
            },
            !(old(self)@.mode is Browse) ==> dialog_click_ok(*old(fs), *final(fs), old(self)@,
                dialog_button(old(self)@.mode, x as int, y as int, height as int), x as int, y as int,
                final(self)@, r.0, match r.1 { Some(p) => Some((p.0@, p.1@)), None => None }),
    {
        proof { crate::manager::lemma_same_volume_layout_pub(*old(fs), *fs); }
        let ghost v = self@;
        if let FileManagerMode::Browse = self.mode {
            let action = browse_action_of(self, x, y, width, height);
            match action {
                BrowseAction::Select(i) => {
                    self.selected_file_index = Some(i);
                },
                BrowseAction::Up => {
                    let res = self.navigate_up(fs);
                    let ghost u = self@;
                    assert(up_ok(*old(fs), v, res is Ok, u));
                    if res.is_err() {
                        self.status_message = chars_of("Already at root directory");
                    }
                    assert(self@ == if res is Ok { u } else { FileManagerView { status: "Already at root directory"@, ..u } });
                    proof { crate::manager::lemma_same_volume_layout_pub(*old(fs), *fs); }
                },
                BrowseAction::NewFile => {
                    self.mode = FileManagerMode::NewFile;
                    self.input_text = Vec::new();
                },
                BrowseAction::NewFolder => {
                    self.mode = FileManagerMode::NewFolder;
                    self.input_text = Vec::new();
                },
                BrowseAction::Delete => {
                    match self.selected_file_index {
                        Some(idx) => {
                            if idx < self.files.len() {
                                if self.files[idx].is_directory {
                                    self.mode = FileManagerMode::DeleteFolder;
                                } else {
                                    self.mode = FileManagerMode::DeleteFile;
                                }
                            }
                        },
                        None => {
                            self.status_message = chars_of("Please select a file or folder to delete");
                        },
                    }
                },
                BrowseAction::Open => {
                    self.open_selected(fs);
                    proof { crate::manager::lemma_same_volume_layout_pub(*old(fs), *fs); }
                },
                BrowseAction::Copy => {
                    self.set_clipboard(ClipboardOperation::Copy);
                },
                BrowseAction::Cut => {
                    self.set_clipboard(ClipboardOperation::Cut);
                },
                BrowseAction::Paste => {
                    self.paste(fs, now);
                },
                BrowseAction::Rename => {
                    self.start_rename();
                },
                BrowseAction::Nothing => {
                    return (false, None);
                },
            }
            return (true, None);
        }
        let b = dialog_button_of(&self.mode, x, y, height);
        if b == 2 {
            self.mode = FileManagerMode::Browse;
            return (true, None);
        }
        if b == 1 {
            let kind: u8 = match &self.mode {
                FileManagerMode::NewFile => 1,
                FileManagerMode::NewFolder => 2,
                FileManagerMode::DeleteFile => 3,
                FileManagerMode::DeleteFolder => 4,
                FileManagerMode::Rename(_) => 5,
                _ => 6,
            };
            if kind == 1 {
                self.create_file(fs, now);
            } else if kind == 2 {
                self.create_folder(fs, now);
            } else if kind == 3 {
                self.delete_selected_file(fs);
            } else if kind == 4 {
                self.delete_selected_folder(fs);
            } else if kind == 5 {
                self.perform_rename(fs, now);
            } else {
                match &self.selected_open_file_app {
                    Some(app) => {
                        let app_name = string_from_chars(app.as_slice());
                        let idx = self.selected_file_index.unwrap();
                        let name = chars_of(self.files[idx].name.as_str());
                        let path = path_string(&self.current_path, name.as_slice());
                        self.selected_open_file_app = None;
                        self.mode = FileManagerMode::Browse;
                        return (true, Some((path, app_name)));
                    },
                    None => {
                        self.status_message = chars_of("Please select an application to open the file");
                    },
                }
            }
            return (true, None);
        }
        let opts = match &self.mode {
            FileManagerMode::ViewFile(file) => open_options_of(&file.name),
            _ => { return (false, None); },
        };
        match option_hit_of(&opts, x, y) {
            Some(a) => {
                self.selected_open_file_app = Some(a);
                (true, None)
            },
            None => (false, None),
        }
    }
}

impl FileManager {
    /// The dialog shown.
    pub fn mode(&self) -> (r: FileManagerMode)
        ensures
            r@ == self@.mode,
    {
        match &self.mode {
            FileManagerMode::Browse => FileManagerMode::Browse,
            FileManagerMode::NewFile => FileManagerMode::NewFile,
            FileManagerMode::NewFolder => FileManagerMode::NewFolder,
            FileManagerMode::DeleteFile => FileManagerMode::DeleteFile,
            FileManagerMode::DeleteFolder => FileManagerMode::DeleteFolder,
            FileManagerMode::ViewFile(f) => FileManagerMode::ViewFile(copy_entry(f)),
            FileManagerMode::Rename(f) => FileManagerMode::Rename(copy_entry(f)),
        }
    }

    /// The entries of the current directory.
    pub fn files(&self) -> (r: &Vec<FileEntry>)
        ensures
            r@.map_values(|f: FileEntry| f@) == self@.files,
    {
        &self.files
    }

    /// The selected entry's index.
    pub fn selected_file_index(&self) -> (r: Option<usize>)
        ensures
            r == self@.selected,
    {
        self.selected_file_index
    }

    /// The message in the status line.
    pub fn status_message(&self) -> (r: String)
        ensures
            r@ == self@.status,
    {
        string_from_chars(self.status_message.as_slice())
    }

    /// The text typed into the name field.
    pub fn input_text(&self) -> (r: String)
        ensures
            r@ == self@.input,
    {
        string_from_chars(self.input_text.as_slice())
    }

    /// The path of the current directory.
    pub fn current_path(&self) -> (r: String)
        ensures
            r@ == self@.path,
    {
        string_from_chars(self.current_path.as_slice())
    }

    /// The application chosen in the open dialog.
    pub fn selected_open_file_app(&self) -> (r: Option<String>)
        ensures
            match (r, self@.open_app) {
                (Some(a), Some(b)) => a@ == b,
                (None, None) => true,
                _ => false,
            },
    {
        match &self.selected_open_file_app {
            Some(a) => Some(string_from_chars(a.as_slice())),
            None => None,
        }
    }

    /// The entry on the clipboard.
    pub fn clipboard(&self) -> (r: &Option<ClipboardEntry>)
        ensures
            match (*r, self@.clipboard) {
                (Some(a), Some(b)) => a@ == b,
                (None, None) => true,
                _ => false,
            },
    {
        &self.clipboard
    }

    /// How many directories were left on the way here.
    pub fn depth(&self) -> (r: usize)
        ensures
            r == self@.stack.len(),
    {
        self.directory_stack.len()
    }

    /// The first row of the listing in view.
    pub fn scroll_offset(&self) -> (r: usize)
        ensures
            r == self@.scroll,
    {
        self.scroll_offset
    }
}
/// Entering a subdirectory and going up again gives back the directory, and
/// the way back, one started from.
pub proof fn lemma_into_then_up(v: FileManagerView, name: Seq<char>)
    ensures
        up_view(into_view(v, name)) == v,
{
    assert(into_view(v, name).stack.drop_last() =~= v.stack);
}

/// In the listing view, a click inside the Open button (235 <= x < 300,
/// 60 to 35 pixels above the bottom) that is not on a listed row opens the
/// selected entry; a click on a listed row selects that row.
pub proof fn lemma_open_button_opens(v: FileManagerView, x: int, y: int, width: int, height: int)
    requires
        height >= 90,
        235 <= x < 300,
        height - 60 <= y < height - 35,
        !(x >= 10 && x < width - 10 && y >= 45 && y < 45 + 260 && v.scroll + (y - 45) / 20 < v.files.len()),
    ensures
        browse_action(v, x, y, width, height) == BrowseAction::Open,
{
}

/// A click on a listed row selects the entry shown there.
pub proof fn lemma_row_click_selects(v: FileManagerView, x: int, y: int, width: int, height: int, k: int)
    requires
        10 <= x < width - 10,
        0 <= k < 13,
        45 + 20 * k <= y < 45 + 20 * k + 20,
        v.scroll + k < v.files.len(),
    ensures
        browse_action(v, x, y, width, height) == BrowseAction::Select((v.scroll + k) as usize),
{
    assert((y - 45) / 20 == k) by (nonlinear_arith)
        requires
            45 + 20 * k <= y < 45 + 20 * k + 20,
    ;
}

} // verus!
