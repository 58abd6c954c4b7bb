# HeineOS kernel logic, verified

The decision-making parts of the HeineOS teaching kernel, written in Verus:
each function states in its contract what it computes, and Verus proves it.

- `src/shell/` — the shell: parser, command table and Tab completion,
  bounded history, the line editor, and the commands, which validate their
  arguments and yield an `Action`.
- `src/device/` — the terminal (text state, scrollback and the drawing it
  requests), key events, and the interval timer's decisions.
- `src/filesystem/tarfs.rs` — a read-only file system over a tar archive,
  read with the `tar-no-std` crate.
- `src/filesystem/archive_check.rs` — the check an archive passes before its
  entries are walked, so that the walk cannot panic.
- `src/library/` — the BMP loader and the Ctrl key combinations.
- `src/allocator/` — the first-fit free list of the kernel heap.
- `src/thread/`, `src/coroutine/` — the round-robin scheduler and the stack
  layout of new threads and coroutines.
- `src/logger.rs`, `src/machine.rs`, `src/demo/` — log line prefixes, the
  power-off and reset requests, the demo menu and the Game Boy frontend's own
  logic.

`app/` holds the unverified glue: the `log` backend, the console that carries
out the terminal's drawing, the shell loop that performs the actions on the
machine through a `Platform` trait, and the demo menu loop. The tests under `tests/` run the library
with the real `tar-no-std` crate.
