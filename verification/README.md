# arceos_arm

Verified ARMv7 pieces of a small kernel, written in Verus.

- `src/` is the verified library: page table entries (`page_table_entry`,
  `page_table`), the MLFQ scheduler (`mlfq`), CPU register arithmetic
  (`cpu`), ext2 volume step decisions (`volume`) and a test workload
  (`workload`).  Each public function states its result in `ensures`; the
  public `lemma_*` proof functions state the laws that relate several
  functions (descriptor round trips, the scheduler's rules).
- `tests/` runs the library on concrete values.
- `app/` holds what cannot be verified: inline assembly for the CPU
  registers, the `memory_addr` address types, the disk loops, and the
  multi-threaded starvation test program.
