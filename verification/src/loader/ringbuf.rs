//! Ring buffers: creating one, mapping one, and taking records off one.
//!
//! The reader is a state machine. Its caller reads the producer position or a record
//! header from shared memory, hands the value to [`RingReader::step`], and does what
//! the returned [`RingAction`] says.

use crate::loader::error::LoaderError;
use crate::text;
use vstd::prelude::*;
use vstd::string::*;

verus! {

/// The `bpf()` command that creates a map.
pub const BPF_MAP_CREATE: u32 = 0;

/// The `bpf()` command that describes the object of a file descriptor.
pub const BPF_OBJ_GET_INFO_BY_FD: u32 = 15;

/// The map type of a ring buffer.
pub const BPF_MAP_TYPE_RINGBUF: u32 = 27;

/// Set in the header of a record that is still being written.
pub const BPF_RINGBUF_BUSY_BIT: u32 = 0x8000_0000;

/// Set in the header of a record that is to be passed over.
pub const BPF_RINGBUF_DISCARD_BIT: u32 = 0x4000_0000;

/// The bytes of a record header.
pub const BPF_RINGBUF_HDR_SZ: usize = 8;

/// What the creation of a map asks of the kernel. All that is not named here is zero.
#[derive(Clone, Copy, Debug, PartialEq, Eq, Structural)]
pub struct MapCreateRequest {
    /// The map type.
    pub map_type: u32,
    /// The capacity; of a ring buffer, in bytes.
    pub max_entries: u32,
}

fn is_power_of_two(n: u32) -> (b: bool)
    ensures
        b == vstd::arithmetic::power2::is_pow2(n as int),
{
    let mut m: u32 = n;
    while m > 1 && m % 2 == 0
        invariant
            vstd::arithmetic::power2::is_pow2(n as int) == vstd::arithmetic::power2::is_pow2(
                m as int,
            ),
        decreases m,
    {
        proof {
            reveal(vstd::arithmetic::power2::is_pow2);
        }
        m = m / 2;
    }
    proof {
        reveal(vstd::arithmetic::power2::is_pow2);
    }
    m == 1
}

/// The request that creates a `BPF_MAP_TYPE_RINGBUF` map with the requested capacity.
///
/// `size_bytes` must be a non-zero power of two because the kernel uses it as
/// the ring size directly.
pub fn create_ringbuf_request(size_bytes: u32) -> (res: Result<MapCreateRequest, LoaderError>)
    ensures
        match res {
            Ok(r) => vstd::arithmetic::power2::is_pow2(size_bytes as int) && r == (
            MapCreateRequest { map_type: BPF_MAP_TYPE_RINGBUF, max_entries: size_bytes }),
            Err(e) => !vstd::arithmetic::power2::is_pow2(size_bytes as int) && e
                == LoaderError::RingSizeNotPowerOfTwo,
        },
{
    proof {
        reveal(vstd::arithmetic::power2::is_pow2);
    }
    if size_bytes == 0 || !is_power_of_two(size_bytes) {
        return Err(LoaderError::RingSizeNotPowerOfTwo);
    }
    Ok(MapCreateRequest { map_type: BPF_MAP_TYPE_RINGBUF, max_entries: size_bytes })
}

/// The ring size of a map that the kernel describes by its type and capacity.
pub fn ring_size_of_map(map_type: u32, max_entries: u32) -> (res: Result<usize, LoaderError>)
    ensures
        match res {
            Ok(size) => map_type == BPF_MAP_TYPE_RINGBUF && size == max_entries,
            Err(e) => map_type != BPF_MAP_TYPE_RINGBUF && e == LoaderError::NotARingBuffer,
        },
{
    if map_type != BPF_MAP_TYPE_RINGBUF {
        return Err(LoaderError::NotARingBuffer);
    }
    Ok(max_entries as usize)
}

/// Why there is no page size.
#[derive(Clone, Copy, Debug, PartialEq, Eq, Structural)]
pub enum PageSizeError {
    /// The system did not tell; its last error says why.
    Os,
    /// The system told one that cannot be used.
    Loader(LoaderError),
}

/// The page size that `sysconf` returned.
pub fn page_size(value: i64) -> (res: Result<usize, PageSizeError>)
    ensures
        match res {
            Ok(size) => value > 0 && size == value,
            Err(PageSizeError::Os) => value <= 0,
            Err(PageSizeError::Loader(e)) => value > usize::MAX && e
                == LoaderError::PageSizeTooGreat,
        },
{
    if value <= 0 {
        return Err(PageSizeError::Os);
    }
    if value as u64 > usize::MAX as u64 {
        return Err(PageSizeError::Loader(LoaderError::PageSizeTooGreat));
    }
    Ok(value as usize)
}

/// How a ring buffer is mapped: the consumer page, writable, from the start of the map;
/// behind it, read-only, the producer page followed by the data twice over.
#[derive(Clone, Copy, Debug, PartialEq, Eq, Structural)]
pub struct RingLayout {
    /// The bytes of the consumer mapping, which starts at offset zero.
    pub consumer_len: usize,
    /// Where in the map the producer mapping starts.
    pub producer_offset: usize,
    /// The bytes of the producer mapping.
    pub producer_len: usize,
    /// Where in the producer mapping the data starts.
    pub data_offset: usize,
}

impl RingLayout {
    /// The layout for pages of `page_size` and data of `ring_size` bytes.
    pub fn new(page_size: usize, ring_size: usize) -> (res: Result<RingLayout, LoaderError>)
        ensures
            match res {
                Ok(layout) => {
                    &&& layout.consumer_len == page_size
                    &&& layout.producer_offset == page_size
                    &&& layout.producer_len == page_size + 2 * ring_size
                    &&& layout.data_offset == page_size
                },
                Err(e) => page_size + 2 * ring_size > usize::MAX && e
                    == LoaderError::MappingTooLong,
            },
    {
        match ring_size.checked_mul(2) {
            Some(data_len) => match page_size.checked_add(data_len) {
                Some(producer_len) => Ok(
                    RingLayout {
                        consumer_len: page_size,
                        producer_offset: page_size,
                        producer_len,
                        data_offset: page_size,
                    },
                ),
                None => Err(LoaderError::MappingTooLong),
            },
            None => Err(LoaderError::MappingTooLong),
        }
    }
}

/// What to make of the end of a wait for events.
#[derive(Clone, Copy, Debug, PartialEq, Eq, Structural)]
pub enum WaitOutcome {
    /// There are events.
    Ready,
    /// A signal came in between: wait again.
    Retry,
    /// The wait failed.
    Failed,
}

/// What to make of what `epoll_wait` returned; `interrupted` tells whether the system's
/// last error is an interruption.
pub fn wait_outcome(rc: i32, interrupted: bool) -> (outcome: WaitOutcome)
    ensures
        outcome == if rc >= 0 {
            WaitOutcome::Ready
        } else if interrupted {
            WaitOutcome::Retry
        } else {
            WaitOutcome::Failed
        },
{
    if rc < 0 {
        if interrupted {
            return WaitOutcome::Retry;
        }
        return WaitOutcome::Failed;
    }
    WaitOutcome::Ready
}

/// Whether `len` bytes from `offset` stay within the two copies of a ring's data, and
/// the two copies can be addressed.
pub open spec fn within_mapping(offset: nat, len: nat, ring_size: nat) -> bool {
    offset + len <= 2 * ring_size <= usize::MAX
}

/// Whether a record's data slice `[data_offset, data_offset + data_len)` stays
/// within the readable data region. The ring data pages are mapped TWICE (the
/// kernel's wraparound mirror), so `2 * ring_size` bytes are addressable from
/// the start of the data. A corrupt/hostile `data_len` in the record header that would
/// read past that mirror must be rejected before the slice is built. All arithmetic is
/// checked so a near-`usize::MAX` length or offset cannot wrap the bound into a false
/// pass.
pub fn record_within_mapping(data_offset: usize, data_len: usize, ring_size: usize) -> (within:
    bool)
    ensures
        within == within_mapping(data_offset as nat, data_len as nat, ring_size as nat),
        within <==> data_offset + data_len <= 2 * ring_size && 2 * ring_size <= usize::MAX,
{
    match (data_offset.checked_add(data_len), ring_size.checked_mul(2)) {
        (Some(end), Some(bound)) => end <= bound,
        _ => false,
    }
}

/// The bytes that a record of `data_len` bytes takes on the ring: data and header,
/// rounded up to a multiple of eight, or the greatest such `usize` where that is too
/// great.
pub open spec fn record_len(data_len: nat) -> nat {
    if data_len + 15 <= usize::MAX {
        (data_len + 15) / 8 * 8
    } else {
        usize::MAX as nat / 8 * 8
    }
}

/// The bytes that a record of `data_len` bytes takes on the ring.
pub fn round_record_len(data_len: usize) -> (len: usize)
    ensures
        len == record_len(data_len as nat),
        len % 8 == 0,
        data_len + 15 <= usize::MAX ==> data_len + 8 <= len < data_len + 16,
        data_len + 15 > usize::MAX ==> len > usize::MAX - 8,
{
    // Round `data_len + header` up to the next multiple of 8. Every step
    // saturates so a near-`usize::MAX` `data_len` cannot wrap: `total + 7` would
    // overflow, so we saturate it, and the mask then yields the largest 8-aligned
    // value. (A ring record this large never occurs in practice, but the arith
    // must be closed against a hostile/corrupt length.)
    let total: usize = data_len.saturating_add(BPF_RINGBUF_HDR_SZ);
    let padded: usize = total.saturating_add(7);
    assert(padded & !7usize == padded / 8 * 8) by (bit_vector);
    padded & !7
}

/// Whether a record is still being written.
pub open spec fn is_busy(header: u32) -> bool {
    header >= 0x8000_0000
}

/// Whether a record is to be passed over.
pub open spec fn is_discarded(header: u32) -> bool {
    header / 0x4000_0000 % 2 == 1
}

/// The bytes of a record's data.
pub open spec fn data_len(header: u32) -> nat {
    (header % 0x4000_0000) as nat
}

proof fn lemma_header_bits(header: u32)
    ensures
        header & BPF_RINGBUF_BUSY_BIT != 0 <==> is_busy(header),
        header & BPF_RINGBUF_DISCARD_BIT != 0 <==> is_discarded(header),
        header & !(BPF_RINGBUF_BUSY_BIT | BPF_RINGBUF_DISCARD_BIT) == data_len(header),
{
    assert(header & 0x8000_0000u32 != 0 <==> header >= 0x8000_0000u32) by (bit_vector);
    assert(header & 0x4000_0000u32 != 0 <==> header / 0x4000_0000u32 % 2 == 1) by (bit_vector);
    assert(header & !(0x8000_0000u32 | 0x4000_0000u32) == header % 0x4000_0000u32) by (bit_vector);
}

/// Where in the ring the position `pos` lies; `mask` is the ring size less one.
pub open spec fn ring_offset(pos: u64, mask: usize) -> usize {
    (pos as usize) & mask
}

/// A stretch of the mapped data.
#[derive(Clone, Copy, Debug, PartialEq, Eq, Structural)]
pub struct DataSpan {
    /// Where it starts, from the start of the data.
    pub offset: usize,
    /// Its bytes.
    pub len: usize,
}

/// The warning that a record does not lie within the mapping.
pub open spec fn corrupt_warning_chars(span: DataSpan, mask: usize) -> Seq<char> {
    "ebpfkit: ringbuf record out of bounds (data_offset="@ + text::decimal(span.offset as nat)
        + ", data_len="@ + text::decimal(span.len as nat) + ", mask="@ + text::decimal(mask as nat)
        + "); stopping consumption to avoid an out-of-bounds read"@
}

/// The warning that the data of a record does not lie within the mapping of a ring whose
/// size less one is `mask`, and that no more is read.
pub fn corrupt_record_warning(span: DataSpan, mask: usize) -> (s: String)
    ensures
        s@ == corrupt_warning_chars(span, mask),
{
    let mut s = "ebpfkit: ringbuf record out of bounds (data_offset=".to_owned();
    s.append(text::decimal_text(span.offset as u64).as_str());
    s.append(", data_len=");
    s.append(text::decimal_text(span.len as u64).as_str());
    s.append(", mask=");
    s.append(text::decimal_text(mask as u64).as_str());
    s.append("); stopping consumption to avoid an out-of-bounds read");
    s
}

/// What the caller has read from shared memory.
#[derive(Clone, Copy, Debug, PartialEq, Eq, Structural)]
pub enum RingEvent {
    /// The producer position.
    Producer(u64),
    /// The length word of the header that the last action asked for.
    Header(u32),
}

/// What the caller reads next.
#[derive(Clone, Copy, Debug, PartialEq, Eq, Structural)]
pub enum RingNext {
    /// The producer position.
    ReadProducer,
    /// The length word of the record header at `offset`.
    ReadHeader {
        /// Where the header starts, from the start of the data.
        offset: usize,
    },
    /// Nothing: the reader is done for now.
    Stop,
}

/// What the caller does, in this order: deliver a record, warn of a corrupt one,
/// publish the consumer position, go on.
#[derive(Clone, Copy, Debug, PartialEq, Eq, Structural)]
pub struct RingAction {
    /// The data of a record to hand on.
    pub deliver: Option<DataSpan>,
    /// The data of a record that does not lie within the mapping.
    pub corrupt: Option<DataSpan>,
    /// The consumer position to store.
    pub publish: Option<u64>,
    /// What to read next.
    pub next: RingNext,
}

/// The state of a reader: the ring size less one, the position of the next record, and
/// the producer position last seen.
pub ghost struct RingState {
    pub mask: usize,
    pub pos: u64,
    pub limit: u64,
}

impl RingState {
    /// The bytes of the ring.
    pub open spec fn ring_size(self) -> nat {
        self.mask as nat + 1
    }

    /// Where the header of the next record lies.
    pub open spec fn offset(self) -> usize {
        ring_offset(self.pos, self.mask)
    }

    /// Whether a record with this header is handed on.
    pub open spec fn delivers(self, header: u32) -> bool {
        &&& !is_busy(header)
        &&& !is_discarded(header)
        &&& within_mapping(self.offset() as nat + 8, data_len(header), self.ring_size())
    }

    /// Whether the reader moves past a record with this header.
    pub open spec fn passes(self, header: u32) -> bool {
        self.delivers(header) || (!is_busy(header) && is_discarded(header))
    }

    /// The data of a record with this header.
    pub open spec fn span(self, header: u32) -> DataSpan {
        DataSpan { offset: (self.offset() + 8) as usize, len: data_len(header) as usize }
    }

    /// Whether the positions that a step computes can be represented.
    pub open spec fn accepts_event(self, event: RingEvent) -> bool {
        match event {
            RingEvent::Producer(_) => true,
            RingEvent::Header(header) => {
                &&& !is_busy(header) && !is_discarded(header) ==> self.offset() + 8 <= usize::MAX
                &&& self.passes(header) ==> self.pos + record_len(data_len(header)) <= u64::MAX
            },
        }
    }

    /// What is read next in this state, given that there was a record to read.
    pub open spec fn next_read(self) -> RingNext {
        if self.pos < self.limit {
            RingNext::ReadHeader { offset: self.offset() }
        } else {
            RingNext::ReadProducer
        }
    }

    /// The state after an event and the action to take.
    ///
    /// A producer position that is not ahead ends the reading. A header that is busy,
    /// or that leads out of the mapping, ends it too, with the position left on that
    /// record. Any other record is passed, and handed on unless it is discarded.
    pub open spec fn step_to(self, event: RingEvent) -> (RingState, RingAction) {
        match event {
            RingEvent::Producer(limit) => {
                let after = RingState { limit, ..self };
                let next = if self.pos < limit {
                    RingNext::ReadHeader { offset: self.offset() }
                } else {
                    RingNext::Stop
                };
                (after, RingAction { deliver: None, corrupt: None, publish: None, next })
            },
            RingEvent::Header(header) => if self.passes(header) {
                let after = RingState {
                    pos: (self.pos + record_len(data_len(header))) as u64,
                    ..self
                };
                let deliver = if self.delivers(header) {
                    Some(self.span(header))
                } else {
                    None
                };
                (
                    after,
                    RingAction {
                        deliver,
                        corrupt: None,
                        publish: Some(after.pos),
                        next: after.next_read(),
                    },
                )
            } else {
                let corrupt = if is_busy(header) {
                    None
                } else {
                    Some(self.span(header))
                };
                (
                    self,
                    RingAction {
                        deliver: None,
                        corrupt,
                        publish: Some(self.pos),
                        next: RingNext::Stop,
                    },
                )
            },
        }
    }
}

/// Takes the records off a ring buffer.
pub struct RingReader {
    mask: usize,
    pos: u64,
    limit: u64,
}

impl View for RingReader {
    type V = RingState;

    closed spec fn view(&self) -> RingState {
        RingState { mask: self.mask, pos: self.pos, limit: self.limit }
    }
}

impl RingReader {
    /// A reader of a ring of `ring_size` bytes, at the stored consumer position. It
    /// begins by reading the producer position.
    pub fn new(ring_size: usize, consumer_pos: u64) -> (reader: Self)
        requires
            ring_size > 0,
        ensures
            reader@ == (RingState {
                mask: (ring_size - 1) as usize,
                pos: consumer_pos,
                limit: consumer_pos,
            }),
    {
        RingReader { mask: ring_size - 1, pos: consumer_pos, limit: consumer_pos }
    }

    /// The position of the next record.
    pub fn position(&self) -> (pos: u64)
        ensures
            pos == self@.pos,
    {
        self.pos
    }

    /// The ring size less one.
    pub fn mask(&self) -> (mask: usize)
        ensures
            mask == self@.mask,
    {
        self.mask
    }

    /// Whether the positions that a step on `event` computes can be represented.
    pub fn accepts(&self, event: RingEvent) -> (b: bool)
        ensures
            b == self@.accepts_event(event),
    {
        match event {
            RingEvent::Producer(_) => true,
            RingEvent::Header(header) => {
                proof {
                    lemma_header_bits(header);
                }
                if header & BPF_RINGBUF_BUSY_BIT != 0 {
                    return true;
                }
                let offset: usize = (#[verifier::truncate] (self.pos as usize)) & self.mask;
                let len: usize = (header & !(BPF_RINGBUF_BUSY_BIT | BPF_RINGBUF_DISCARD_BIT))
                    as usize;
                if header & BPF_RINGBUF_DISCARD_BIT == 0 {
                    if offset > usize::MAX - BPF_RINGBUF_HDR_SZ {
                        return false;
                    }
                    if self.mask == usize::MAX || !record_within_mapping(
                        offset + BPF_RINGBUF_HDR_SZ,
                        len,
                        self.mask + 1,
                    ) {
                        return true;
                    }
                }
                self.pos <= u64::MAX - round_record_len(len) as u64
            },
        }
    }

    /// Takes in what was read and tells what to do about it.
    pub fn step(&mut self, event: RingEvent) -> (action: RingAction)
        requires
            old(self)@.accepts_event(event),
        ensures
            (final(self)@, action) == old(self)@.step_to(event),
    {
        match event {
            RingEvent::Producer(limit) => {
                self.limit = limit;
                let next = if self.pos < limit {
                    RingNext::ReadHeader {
                        offset: (#[verifier::truncate] (self.pos as usize)) & self.mask,
                    }
                } else {
                    RingNext::Stop
                };
                RingAction { deliver: None, corrupt: None, publish: None, next }
            },
            RingEvent::Header(header) => {
                proof {
                    lemma_header_bits(header);
                }
                if header & BPF_RINGBUF_BUSY_BIT != 0 {
                    return RingAction {
                        deliver: None,
                        corrupt: None,
                        publish: Some(self.pos),
                        next: RingNext::Stop,
                    };
                }
                let offset: usize = (#[verifier::truncate] (self.pos as usize)) & self.mask;
                let len: usize = (header & !(BPF_RINGBUF_BUSY_BIT | BPF_RINGBUF_DISCARD_BIT))
                    as usize;
                let mut deliver: Option<DataSpan> = None;
                if header & BPF_RINGBUF_DISCARD_BIT == 0 {
                    // A record that extends past the mirror means that the ring is
                    // corrupt: stop, and do not advance past it.
                    let span = DataSpan { offset: offset + BPF_RINGBUF_HDR_SZ, len };
                    let within = match self.mask.checked_add(1) {
                        Some(ring_size) => record_within_mapping(span.offset, len, ring_size),
                        None => false,
                    };
                    if !within {
                        return RingAction {
                            deliver: None,
                            corrupt: Some(span),
                            publish: Some(self.pos),
                            next: RingNext::Stop,
                        };
                    }
                    deliver = Some(span);
                }
                self.pos = self.pos + round_record_len(len) as u64;
                let next = if self.pos < self.limit {
                    RingNext::ReadHeader {
                        offset: (#[verifier::truncate] (self.pos as usize)) & self.mask,
                    }
                } else {
                    RingNext::ReadProducer
                };
                RingAction { deliver, corrupt: None, publish: Some(self.pos), next }
            },
        }
    }
}

} // verus!
