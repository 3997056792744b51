//! Verified core of the Goofy OS kernel: the FAT32 filesystem, path-based
//! file management, process bookkeeping, editor text layout, the
//! tic-tac-toe game engine and a few small geometric and input helpers.
use vstd::prelude::*;

pub mod config;
pub mod surface;
pub mod text;
pub mod fat32;
pub mod manager;
pub mod tictactoe;
pub mod process;
pub mod hardware;
pub mod input;
pub mod keyboard;
pub mod sysinfo;
pub mod user_program;
pub mod text_layout;
pub mod terminal_text;
pub mod notepad;
pub mod terminal;
pub mod filemanager;
pub mod calculator;
pub mod window_manager;
pub mod desktop;

verus! {

} // verus!
