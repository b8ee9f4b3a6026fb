# ebpfkit

Rules of a kernel-space eBPF filter toolkit, verified with Verus.

- `src/compiler`: character classes (what a class means, and how it is read), the
  instruction limit, and the size of the programs that patterns compile to.
- `src/loader`: capability detection from a kernel release, the requests made of the
  `bpf()` system call and the reports of its failures, and the ring buffer reader as a
  state machine over what is read from shared memory.
- `src/text.rs`: decimal numerals, trimming and the conversions left to the standard
  library.
- `app`: the system calls, as an ordinary crate on top of the library.
- `tests`: tests of the library.

Linux only: eBPF is a feature of the Linux kernel.
