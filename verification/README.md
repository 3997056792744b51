# goofy_os

The verified core of a small hobby operating system's desktop and storage:
every function in `src/` carries a `requires`/`ensures` contract that Verus
proves.

## Layout

- `src/fat32/`: the FAT32 filesystem. It covers the boot sector check,
  cluster chains (allocate, free, read and write), directory scanning,
  long file names (UTF-16 with surrogate pairs), 8.3 aliases, and creating,
  updating and deleting files and directories. It works over any device that
  implements `DiskOperations`, including `RamDisk`, an in-memory disk.
- `src/manager.rs`: path-based operations on the mounted volume (list,
  find, read, write, copy, move, rename, delete).
- `src/window_manager.rs`: the window list, stacking order and focus,
  close buttons, and dragging windows by their title bars.
- `src/desktop.rs`: the taskbar's window buttons, the start menu, and
  modifier keys, as a step function from state and event to the next state
  and actions.
- `src/notepad.rs`, `src/terminal.rs`, `src/filemanager.rs`,
  `src/calculator.rs`, `src/tictactoe.rs`: the applications' logic.
- `src/process.rs`, `src/hardware.rs`, `src/user_program.rs`: process
  bookkeeping, register checks and the system-call argument checks.
- `app/`: the unverified part. It launches the system under QEMU and holds the
  glue for device I/O, keyboard decoding and drawing.
- `tests/`: tests that run the library on concrete values.

The proofs are checked by running Verus on `src/lib.rs`; the tests are ordinary Rust tests.
