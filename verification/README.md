# glenda

The core of the Glenda microkernel (RISC-V, Sv39) as a Verus library: each
function carries a contract that Verus proves, and the properties that span
several calls are stated and proved as laws (`law_*` proof functions).

- `src/mem`: addresses, page-table entries, three-level page tables and their
  walk, mapping with table allocation, the boot-time physical allocator,
  untyped memory, kernel stacks, the user heap, stack and mapping areas, the
  contents of physical memory and the copies between user and kernel memory,
  and the kernel's and the root task's address spaces.
- `src/proc`: threads, the priority scheduler with work stealing and its
  watchdog, ASIDs, ELF loading, the initial ramdisk, virtual CPUs.
- `src/ipc`: message tags, user thread control blocks, endpoints, and the
  send, receive, call, reply and notify operations.
- `src/irq`, `src/cap`, `src/shell`: interrupt routing, capabilities, and the
  kernel shell's line editing and command decoding.
- `src/platform`: the platform description built from what a flattened
  device tree reports.
- `app/`: a host driver around the library: it reads the device tree (with
  the `fdt` crate) and the initrd file, loads the root task and runs the shell.
- `tests/`: the library's tests.
