//! Verified core of a kernel-space eBPF filter toolkit.
//!
//! [`compiler`] holds the rules that bound and read patterns before bytecode is
//! assembled; [`loader`] holds the decisions around the `bpf()` system call: what
//! is asked of the kernel, what its answers mean, and how records are taken off a
//! ring buffer. System calls themselves are made by the code around this library.

pub mod compiler;
pub mod loader;
pub mod text;

