# enos

The logic of ENOS, a small educational x86 kernel, as a Verus-verified
library: the scheduler, the RAM filesystem, the shell (keyboard decoding,
line editing, history, command parsing and evaluation, the calculator), the
physical frame allocator over the boot loader's memory map, the heap bump
allocator, the system call gate, and the descriptor tables, page tables and
device programming sequences (PIC, PIT, UART) as values.

Every public function states what it does in its contract over a model of
its data (sequences, ghost structs, views), and the laws that relate
several operations are public proof functions named `law_*`.

## Layout

- `src/` — the verified library, one module per subsystem:
  `task` (scheduler), `fs` (files), `shell`, `keyboard`, `history`,
  `command`, `console` (evaluating a command line), `calc`, `text`, `format`,
  `memory` (memory map and frame allocator), `allocator` (heap), `syscall`,
  `fault`, `gdt`, `idt`, `paging`, `pic`, `pit`, `serial`, `port`, `boot`.
- `tests/` — ordinary Rust tests of the library.
- `app/` — a host program around the library: global state behind `spin`
  locks (`lazy_static`), the interrupt entry points, the boot sequence, and
  the console that prints what the library computes. Port writes are
  recorded and the serial line goes to standard error.
