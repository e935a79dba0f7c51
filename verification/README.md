# rust_os

The verified core of a small x86_64 kernel, written in Verus.

- `src/memory/addr.rs`: canonical virtual addresses and physical addresses
  as the `x86_64` crate builds them.
- `src/memory/mapper.rs`: the physical-memory window (`to_virt`, `to_phys`).
- `src/memory/frame.rs`: the frame allocator built from the boot memory map.
- `src/memory/page_alloc.rs`: the virtual page allocator, page ranges, and
  the step that backs a page range with frames.
- `src/memory/allocator.rs`: where the kernel heap lives.
- `src/thread/`: thread identities, stack set-up, round-robin scheduling.
- `src/common/once.rs`: a cell written once at boot.

`app/` is the kernel around the library: boot entry, global state, page
table writes, the heap allocator, serial output and the register switch.
