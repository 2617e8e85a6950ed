# rusty_mikanos

The logic of a small x86-64 hobby operating system, written in Verus and
proved against its contracts: the bitmap frame allocator, page-table
entries and linear addresses, segment and interrupt descriptors, the
priority scheduler and its message queues, timers, the FAT32 volume
reader, the layer manager and window drawing, the mouse and keyboard
handling, the console, the terminal's line editor and command planning,
the main task's message dispatch, file descriptors and pipes, and the
system calls that applications make.

Layout:

- `src/` is the verified library, one module per subsystem (`lib.rs` lists
  them). The few calls into std and into `bit_field` that Verus cannot read
  sit behind small trusted wrappers whose contracts say what the called
  function does (`src/bits.rs`, the UTF-8 and `String` helpers in
  `src/lib.rs` and `src/terminal.rs`).
- `tests/` holds the tests, which run the library as ordinary Rust.
- `app/` is a hosted program around the library: it reads a FAT volume
  image and keys from standard input and drives one terminal. It holds what
  needs the machine or the host: locks, logging, I/O, and the line drawing
  of applications, which uses floating point.

Hardware-only parts (the boot path, interrupt and system-call entry
stubs, page-table walks through physical memory, loading and starting an
application) are not part of this library.
