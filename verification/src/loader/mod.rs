//! Decisions around the `bpf()` system call.

pub mod core_detect;
pub mod error;
pub mod prog;
pub mod ring_laws;
pub mod ringbuf;

pub use error::LoaderError;
pub use error::LoaderErrorKind;
pub use prog::load_filter_request;
pub use prog::ProgLoadRequest;
pub use ringbuf::create_ringbuf_request;
pub use ringbuf::MapCreateRequest;
pub use ringbuf::RingReader;
