# pangea_kernel

The verified core of a small x86-64 ring-0 kernel, written in Verus.

`src/` holds everything the kernel decides or computes, each function with a
contract proved by Verus:

- `allocator::mesh` – segregated free lists for 8–2048-byte blocks over a bump
  allocator; the free lists and the bump cursor are modelled exactly
  (`MeshModel`), with laws on block reuse and on the disjointness of the
  blocks of any run of bump allocations.
- `pmm` – the frame bitmap built from the boot loader's memory map, and the
  circular first-fit frame scan.
- `scheduler` – initial thread frames and round-robin switching by saved stack
  pointer, with the round-robin law.
- `sip::ash` – the ASH bytecode interpreter and its x86-64 code generator:
  the jump-target (control-flow integrity) law, constant blinding of
  immediates with a random key, code limited to one 4 KiB page, and the law
  that a handler's result depends only on the packet bytes it loads.
- `sip::ipc`, `sip`, `executor`, `task::timer`, `task::keyboard` – the bounded
  channel with its FIFO law, unique process ids, the FIFO run queue, sleeping
  until a tick, and scancodes decoded by `pc_keyboard` into console actions.
- `writer` – the console's line ring, scrolling, and pixel-exact rendering of
  the visible text with the `font8x8` glyphs.
- `mpk`, `cpu`, `memory`, `apic`, `syscall`, `interrupts`, `smp` – register and
  page-table-entry arithmetic and system-call routing.

`app/` is the boot code around it: Limine requests, descriptor tables,
interrupt entry points, MMIO and port I/O, the JIT page and its W^X flips,
and the futures that drive the library's state machines.  It needs a nightly
toolchain and a bare-metal target.
