# atom_kernel

The logic of a small x86_64 kernel, verified with Verus: schedulers, memory
allocators (bump, slab, frame, block pool), page-table mapping, the in-memory
file system, ELF loading, the system-call dispatcher, the user shell (as a
state machine over system calls), and the table and device encodings (GDT,
IDT, PIC, UART, text screen, keyboard).

- `src/` is the verified library. Nothing in it touches hardware: where the
  kernel must read or write ports, registers or physical memory, a function
  returns what to do (port writes, screen cell writes, serial bytes, page-table
  actions, a load plan) and takes back what was read.
- `app/` is the machine layer around it: port and register access, the
  descriptor-table loads, interrupt entry stubs, locks, and the handlers that
  perform what the library decides; `app/shell.rs` is the user side of the
  shell, which performs its system calls with `int 0x80`.
- `tests/` runs the library on concrete inputs.

Laws of the library are public proof functions named `law_*` next to the code
they speak about.
