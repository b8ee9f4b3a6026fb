//! Laws of the ring buffer reader.

use crate::loader::ringbuf;
use crate::loader::ringbuf::DataSpan;
use crate::loader::ringbuf::RingEvent;
use crate::loader::ringbuf::RingLayout;
use crate::loader::ringbuf::RingNext;
use crate::text;
use vstd::prelude::*;

verus! {

/// A record takes a multiple of eight bytes, holds its header and its data, and wastes
/// less than eight bytes.
pub proof fn law_record_len_is_the_next_multiple_of_eight(data_len: nat)
    requires
        data_len + 15 <= usize::MAX,
    ensures
        ringbuf::record_len(data_len) % 8 == 0,
        data_len + 8 <= ringbuf::record_len(data_len) < data_len + 16,
{
}

/// However great a length a header claims, a record takes a multiple of eight bytes, and
/// at least eight.
pub proof fn law_record_len_saturates(data_len: nat)
    ensures
        ringbuf::record_len(data_len) % 8 == 0,
        8 <= ringbuf::record_len(data_len) <= usize::MAX,
{
}

/// Whatever header is read, data that is handed on lies within the mapping.
pub proof fn law_delivered_data_is_mapped(s: ringbuf::RingState, event: RingEvent)
    ensures
        s.step_to(event).1.deliver matches Some(d) ==> d.offset + d.len <= 2 * s.ring_size()
            && 2 * s.ring_size() <= usize::MAX,
{
}

/// Whatever is read off the ring lies within the producer mapping of its layout: the data
/// that is handed on, and the headers that are asked for where the ring holds at least one.
pub proof fn law_reads_stay_in_the_producer_mapping(
    s: ringbuf::RingState,
    event: RingEvent,
    layout: RingLayout,
)
    requires
        s.ring_size() >= 8,
        layout.producer_len == layout.data_offset + 2 * s.ring_size(),
    ensures
        s.step_to(event).1.deliver matches Some(d) ==> layout.data_offset + d.offset + d.len
            <= layout.producer_len,
        s.step_to(event).1.next matches RingNext::ReadHeader { offset } ==> layout.data_offset
            + offset + 8 <= layout.producer_len,
{
    lemma_offset_within_ring(s.pos, s.mask);
    lemma_offset_within_ring(s.step_to(event).0.pos, s.mask);
}

/// The position never moves back, and what is published is the position reached.
pub proof fn law_position_only_advances(s: ringbuf::RingState, event: RingEvent)
    requires
        s.accepts_event(event),
    ensures
        s.step_to(event).0.pos >= s.pos,
        s.step_to(event).0.mask == s.mask,
        s.step_to(event).1.publish matches Some(p) ==> p == s.step_to(event).0.pos,
        s.step_to(event).1.publish is None ==> s.step_to(event).0.pos == s.pos,
        s.pos % 8 == 0 ==> s.step_to(event).0.pos % 8 == 0,
{
}

/// A record that is still being written, or that is corrupt, is not passed: the reader
/// stops with its position on it and hands nothing on.
pub proof fn law_reader_stops_on_unfinished_or_corrupt(s: ringbuf::RingState, header: u32)
    requires
        ringbuf::is_busy(header) || (!ringbuf::is_discarded(header) && !ringbuf::within_mapping(
            s.offset() as nat + 8,
            ringbuf::data_len(header),
            s.ring_size(),
        )),
    ensures
        ({
            let (after, action) = s.step_to(RingEvent::Header(header));
            &&& after == s
            &&& action.deliver is None
            &&& action.publish == Some(s.pos)
            &&& action.next == RingNext::Stop
            &&& action.corrupt is Some <==> !ringbuf::is_busy(header)
        }),
{
}

/// A finished record on the ring.
pub ghost struct Record {
    /// The bytes of its data.
    pub len: nat,
    /// Whether it is to be passed over.
    pub discarded: bool,
}

impl Record {
    /// Whether a header can hold it, and a ring of `ring_size` bytes the header and the data
    /// that are to be handed on.
    pub open spec fn fits(self, ring_size: nat) -> bool {
        self.len < 0x4000_0000 && (self.discarded || 8 + self.len <= ring_size)
    }

    /// The length word of its header.
    pub open spec fn header(self) -> u32 {
        if self.discarded {
            (self.len + 0x4000_0000) as u32
        } else {
            self.len as u32
        }
    }
}

/// The bytes that the records take on the ring.
pub open spec fn total_len(records: Seq<Record>) -> nat
    decreases records.len(),
{
    if records.len() == 0 {
        0
    } else {
        ringbuf::record_len(records[0].len) + total_len(records.skip(1))
    }
}

/// Whether the records stand one behind the other from `pos` on, as far as their headers
/// tell; `headers` gives the length word at each offset.
pub open spec fn placed(
    mask: usize,
    headers: spec_fn(usize) -> u32,
    pos: nat,
    records: Seq<Record>,
) -> bool
    decreases records.len(),
{
    records.len() == 0 || {
        &&& headers(ringbuf::ring_offset(pos as u64, mask)) == records[0].header()
        &&& placed(mask, headers, pos + ringbuf::record_len(records[0].len), records.skip(1))
    }
}

/// Where the data of the records lies that are not discarded, in order.
pub open spec fn live_spans(mask: usize, pos: nat, records: Seq<Record>) -> Seq<DataSpan>
    decreases records.len(),
{
    if records.len() == 0 {
        seq![]
    } else {
        let rest = live_spans(
            mask,
            pos + ringbuf::record_len(records[0].len),
            records.skip(1),
        );
        if records[0].discarded {
            rest
        } else {
            seq![
                DataSpan {
                    offset: (ringbuf::ring_offset(pos as u64, mask) + 8) as usize,
                    len: records[0].len as usize,
                },
            ] + rest
        }
    }
}

/// What a reader does with a ring that nobody writes to in the meantime.
pub ghost struct Drained {
    /// What it hands on, in order.
    pub delivered: Seq<DataSpan>,
    /// Where it ends.
    pub end: ringbuf::RingState,
}

/// Steps a reader over the headers of an unchanging ring until it asks for the producer
/// position again or stops.
pub open spec fn drain(s: ringbuf::RingState, headers: spec_fn(usize) -> u32) -> Drained
    decreases
            if s.pos < s.limit {
                s.limit - s.pos
            } else {
                0
            },
{
    let event = RingEvent::Header(headers(s.offset()));
    if s.pos >= s.limit || !s.accepts_event(event) {
        Drained { delivered: seq![], end: s }
    } else {
        let (after, action) = s.step_to(event);
        let here = match action.deliver {
            Some(d) => seq![d],
            None => seq![],
        };
        if action.next == RingNext::Stop {
            Drained { delivered: here, end: after }
        } else {
            let rest = drain(after, headers);
            Drained { delivered: here + rest.delivered, end: rest.end }
        }
    }
}

/// Whether the reader gets no further than `s`: it has reached the producer position, or
/// stands on a record that is unfinished or corrupt.
pub open spec fn held(s: ringbuf::RingState, headers: spec_fn(usize) -> u32) -> bool {
    s.pos >= s.limit || (s.accepts_event(RingEvent::Header(headers(s.offset()))) && !s.passes(
        headers(s.offset()),
    ))
}

proof fn lemma_offset_within_ring(pos: u64, mask: usize)
    ensures
        ringbuf::ring_offset(pos, mask) <= mask,
{
    let p = pos as usize;
    assert(p & mask <= mask) by (bit_vector);
}

/// Whether a header can hold each of the records, and the reader passes it where it stands:
/// a discarded record whatever its length, another one where its data lies within the two
/// copies of the ring.
pub open spec fn passable(s: ringbuf::RingState, records: Seq<Record>) -> bool
    decreases records.len(),
{
    records.len() == 0 || {
        &&& records[0].len < 0x4000_0000
        &&& s.passes(records[0].header())
        &&& passable(
            (ringbuf::RingState {
                pos: (s.pos + ringbuf::record_len(records[0].len)) as u64,
                ..s
            }),
            records.skip(1),
        )
    }
}

/// Draining gives back what was put on the ring: the records between the reader's position
/// and the point where it is held are handed on in order, each exactly once, the discarded
/// ones left out, and the position ends at that point.
pub proof fn law_drain_delivers_the_records(
    s: ringbuf::RingState,
    headers: spec_fn(usize) -> u32,
    records: Seq<Record>,
)
    requires
        passable(s, records),
        placed(s.mask, headers, s.pos as nat, records),
        s.pos + total_len(records) <= s.limit,
        held(
            (ringbuf::RingState { pos: (s.pos + total_len(records)) as u64, ..s }),
            headers,
        ),
    ensures
        drain(s, headers).delivered == live_spans(s.mask, s.pos as nat, records),
        drain(s, headers).end == (ringbuf::RingState {
            pos: (s.pos + total_len(records)) as u64,
            ..s
        }),
    decreases records.len(),
{
    if records.len() > 0 {
        let r = records[0];
        let header = headers(s.offset());
        assert(header == r.header());
        assert(ringbuf::data_len(header) == r.len);
        assert(!ringbuf::is_busy(header));
        assert(ringbuf::is_discarded(header) == r.discarded);
        assert(total_len(records) == ringbuf::record_len(r.len) + total_len(records.skip(1)));
        let (after, action) = s.step_to(RingEvent::Header(header));
        let rest = records.skip(1);
        assert((ringbuf::RingState { pos: (s.pos + total_len(records)) as u64, ..s }) == (
        ringbuf::RingState { pos: (after.pos + total_len(rest)) as u64, ..after }));
        law_drain_delivers_the_records(after, headers, rest);
        if r.discarded {
            assert(Seq::<DataSpan>::empty() + live_spans(s.mask, after.pos as nat, rest)
                =~= live_spans(s.mask, after.pos as nat, rest));
        }
    }
}

/// Records that fit the ring are passed wherever they stand.
pub proof fn law_fitting_records_are_passed(s: ringbuf::RingState, records: Seq<Record>)
    requires
        2 * s.ring_size() <= usize::MAX,
        forall|i: int| 0 <= i < records.len() ==> (#[trigger] records[i]).fits(s.ring_size()),
    ensures
        passable(s, records),
    decreases records.len(),
{
    if records.len() > 0 {
        let r = records[0];
        assert(r.fits(s.ring_size()));
        lemma_offset_within_ring(s.pos, s.mask);
        assert(ringbuf::data_len(r.header()) == r.len);
        assert(!ringbuf::is_busy(r.header()));
        assert(ringbuf::is_discarded(r.header()) == r.discarded);
        let after = ringbuf::RingState {
            pos: (s.pos + ringbuf::record_len(r.len)) as u64,
            ..s
        };
        let rest = records.skip(1);
        assert forall|i: int| 0 <= i < rest.len() implies (#[trigger] rest[i]).fits(
            after.ring_size(),
        ) by {
            assert(rest[i] == records[i + 1]);
        }
        law_fitting_records_are_passed(after, rest);
    }
}

/// On a ring whose size is a power of two, a position lies at its remainder.
pub proof fn law_offset_is_the_remainder(pos: u64, mask: usize)
    requires
        vstd::arithmetic::power2::is_pow2(mask + 1),
    ensures
        ringbuf::ring_offset(pos, mask) == pos as int % (mask + 1),
{
    vstd::arithmetic::power2::is_pow2_equiv(mask + 1);
    let k = choose|i: nat| vstd::arithmetic::power::pow(2, i) == mask + 1;
    vstd::arithmetic::power2::lemma_pow2(k);
    assert(k <= 64) by {
        if k > 64 {
            vstd::arithmetic::power2::lemma_pow2_strictly_increases(64, k);
            vstd::arithmetic::power2::lemma2_to64_rest();
        }
    }
    let m = mask as u64;
    assert((pos & m) as usize == (pos as usize) & mask) by (bit_vector)
        requires
            m == mask as u64,
    ;
    assert(pos & m <= m) by (bit_vector);
    if k == 64 {
        vstd::arithmetic::power2::lemma2_to64_rest();
        assert(pos & 0xffff_ffff_ffff_ffffu64 == pos) by (bit_vector);
        assert(pos as int % (mask + 1) == pos) by {
            vstd::arithmetic::div_mod::lemma_small_mod(pos as nat, (mask + 1) as nat);
        }
    } else {
        vstd::bits::lemma_u64_low_bits_mask_is_mod(pos, k);
        assert(vstd::bits::low_bits_mask(k) == m);
        assert(mask + 1 <= u64::MAX) by {
            vstd::arithmetic::power2::lemma_pow2_strictly_increases(k, 64);
            vstd::arithmetic::power2::lemma2_to64_rest();
        }
    }
}

/// The ring's data as it is mapped: twice over.
pub open spec fn mirrored(ring: Seq<u8>) -> Seq<u8> {
    ring + ring
}

/// A record that wraps round the end of the ring is read in one piece: what is handed on
/// are the bytes that follow the header, taken round the ring.
pub proof fn law_delivered_bytes_wrap_round(
    ring: Seq<u8>,
    s: ringbuf::RingState,
    header: u32,
)
    requires
        ring.len() == s.ring_size(),
        vstd::arithmetic::power2::is_pow2(s.mask + 1),
        s.delivers(header),
    ensures
        s.step_to(RingEvent::Header(header)).1.deliver matches Some(d) && mirrored(ring).subrange(
            d.offset as int,
            d.offset + d.len,
        ) == Seq::new(
            ringbuf::data_len(header),
            |i: int| ring[(s.pos + 8 + i) % (ring.len() as int)],
        ),
{
    let d = s.step_to(RingEvent::Header(header)).1.deliver->Some_0;
    let size = ring.len() as int;
    let whole = mirrored(ring);
    law_offset_is_the_remainder(s.pos, s.mask);
    let read = whole.subrange(d.offset as int, d.offset + d.len);
    assert forall|i: int| 0 <= i < d.len implies #[trigger] read[i] == ring[(s.pos + 8 + i)
        % size] by {
        let at = d.offset + i;
        assert((s.pos + 8 + i) % size == at % size) by {
            vstd::arithmetic::div_mod::lemma_add_mod_noop_right(8 + i, s.pos as int, size);
        }
        if at < size {
            vstd::arithmetic::div_mod::lemma_small_mod(at as nat, size as nat);
        } else {
            vstd::arithmetic::div_mod::lemma_small_mod((at - size) as nat, size as nat);
            vstd::arithmetic::div_mod::lemma_mod_add_multiples_vanish(at - size, size);
        }
    }
    assert(read =~= Seq::new(
        ringbuf::data_len(header),
        |i: int| ring[(s.pos + 8 + i) % size],
    ));
}

/// A record with its data.
pub ghost struct Payload {
    /// The bytes of its data.
    pub data: Seq<u8>,
    /// Whether it is to be passed over.
    pub discarded: bool,
}

/// What the headers of the payloads tell.
pub open spec fn records_of(payloads: Seq<Payload>) -> Seq<Record> {
    payloads.map_values(|p: Payload| Record { len: p.data.len(), discarded: p.discarded })
}

/// Whether the payloads stand on the ring, one behind the other from `pos` on, the data of
/// each that is not discarded behind its header and taken round the ring. What a discarded
/// one holds is left open.
pub open spec fn written(ring: Seq<u8>, pos: nat, payloads: Seq<Payload>) -> bool
    decreases payloads.len(),
{
    payloads.len() == 0 || {
        &&& payloads[0].discarded || forall|i: int|
            0 <= i < payloads[0].data.len() ==> #[trigger] payloads[0].data[i] == ring[(pos + 8
                + i) % (ring.len() as int)]
        &&& written(ring, pos + ringbuf::record_len(payloads[0].data.len()), payloads.skip(1))
    }
}

/// The data of the payloads that are not discarded, in order.
pub open spec fn live_data(payloads: Seq<Payload>) -> Seq<Seq<u8>>
    decreases payloads.len(),
{
    if payloads.len() == 0 {
        seq![]
    } else if payloads[0].discarded {
        live_data(payloads.skip(1))
    } else {
        seq![payloads[0].data] + live_data(payloads.skip(1))
    }
}

/// The bytes that stand at the given spans of the mapped data.
pub open spec fn bytes_at(ring: Seq<u8>, spans: Seq<DataSpan>) -> Seq<Seq<u8>> {
    spans.map_values(|d: DataSpan| mirrored(ring).subrange(d.offset as int, d.offset + d.len))
}

proof fn lemma_live_spans_hold_the_data(
    ring: Seq<u8>,
    s: ringbuf::RingState,
    payloads: Seq<Payload>,
)
    requires
        ring.len() == s.ring_size(),
        vstd::arithmetic::power2::is_pow2(s.mask + 1),
        passable(s, records_of(payloads)),
        written(ring, s.pos as nat, payloads),
        s.pos + total_len(records_of(payloads)) <= u64::MAX,
    ensures
        bytes_at(ring, live_spans(s.mask, s.pos as nat, records_of(payloads))) == live_data(
            payloads,
        ),
    decreases payloads.len(),
{
    let records = records_of(payloads);
    if payloads.len() == 0 {
        assert(bytes_at(ring, live_spans(s.mask, s.pos as nat, records)) =~= live_data(payloads));
    } else {
        let p = payloads[0];
        let r = records[0];
        let after = ringbuf::RingState {
            pos: (s.pos + ringbuf::record_len(r.len)) as u64,
            ..s
        };
        let rest = payloads.skip(1);
        assert(records_of(rest) =~= records.skip(1));
        lemma_live_spans_hold_the_data(ring, after, rest);
        let tail = live_spans(s.mask, after.pos as nat, records.skip(1));
        if !r.discarded {
            let header = r.header();
            assert(ringbuf::data_len(header) == r.len);
            assert(!ringbuf::is_busy(header));
            assert(!ringbuf::is_discarded(header));
            law_delivered_bytes_wrap_round(ring, s, header);
            let d = s.span(header);
            let read = mirrored(ring).subrange(d.offset as int, d.offset + d.len);
            assert(read =~= p.data);
            assert(live_spans(s.mask, s.pos as nat, records) =~= seq![d] + tail);
            assert(bytes_at(ring, seq![d] + tail) =~= seq![read] + bytes_at(ring, tail));
        }
    }
}

/// What is read is what was written: draining a ring hands on the data of the payloads that
/// were put on it, byte for byte and in order, the discarded ones left out.
pub proof fn law_reader_returns_what_was_written(
    ring: Seq<u8>,
    s: ringbuf::RingState,
    headers: spec_fn(usize) -> u32,
    payloads: Seq<Payload>,
)
    requires
        ring.len() == s.ring_size(),
        vstd::arithmetic::power2::is_pow2(s.mask + 1),
        passable(s, records_of(payloads)),
        placed(s.mask, headers, s.pos as nat, records_of(payloads)),
        written(ring, s.pos as nat, payloads),
        s.pos + total_len(records_of(payloads)) <= s.limit,
        held(
            (ringbuf::RingState {
                pos: (s.pos + total_len(records_of(payloads))) as u64,
                ..s
            }),
            headers,
        ),
    ensures
        bytes_at(ring, drain(s, headers).delivered) == live_data(payloads),
        drain(s, headers).end.pos == s.pos + total_len(records_of(payloads)),
{
    law_drain_delivers_the_records(s, headers, records_of(payloads));
    lemma_live_spans_hold_the_data(ring, s, payloads);
}

/// Of the warning about a corrupt record, only the three numbers vary, each in decimal.
pub proof fn law_corrupt_warning_varies_only_in_its_numbers(span: DataSpan, mask: usize)
    ensures
        ringbuf::corrupt_warning_chars(DataSpan { offset: 0, len: 0 }, 0)
            == "ebpfkit: ringbuf record out of bounds (data_offset=0, data_len=0, mask=0); stopping consumption to avoid an out-of-bounds read"@,
        ({
            let t = ringbuf::corrupt_warning_chars(DataSpan { offset: 0, len: 0 }, 0);
            ringbuf::corrupt_warning_chars(span, mask) == t.subrange(0, 51)
                + text::decimal(span.offset as nat) + t.subrange(52, 63)
                + text::decimal(span.len as nat) + t.subrange(64, 71) + text::decimal(mask as nat)
                + t.subrange(72, 126)
        }),
{
    reveal_strlit(
        "ebpfkit: ringbuf record out of bounds (data_offset=0, data_len=0, mask=0); stopping consumption to avoid an out-of-bounds read",
    );
    reveal_strlit("ebpfkit: ringbuf record out of bounds (data_offset=");
    reveal_strlit(", data_len=");
    reveal_strlit(", mask=");
    reveal_strlit("); stopping consumption to avoid an out-of-bounds read");
    let t = ringbuf::corrupt_warning_chars(DataSpan { offset: 0, len: 0 }, 0);
    assert(text::decimal(0) =~= seq!['0']);
    assert(t
        =~= "ebpfkit: ringbuf record out of bounds (data_offset=0, data_len=0, mask=0); stopping consumption to avoid an out-of-bounds read"@);
    assert(t.subrange(0, 51) =~= "ebpfkit: ringbuf record out of bounds (data_offset="@);
    assert(t.subrange(52, 63) =~= ", data_len="@);
    assert(t.subrange(64, 71) =~= ", mask="@);
    assert(t.subrange(72, 126) =~= "); stopping consumption to avoid an out-of-bounds read"@);
    assert(ringbuf::corrupt_warning_chars(span, mask) =~= t.subrange(0, 51)
        + text::decimal(span.offset as nat) + t.subrange(52, 63) + text::decimal(span.len as nat)
        + t.subrange(64, 71) + text::decimal(mask as nat) + t.subrange(72, 126));
}

/// A record too long to be rounded up takes the greatest multiple of eight there is.
pub proof fn law_record_len_saturates_at_the_greatest_multiple(data_len: nat)
    requires
        data_len + 15 > usize::MAX,
    ensures
        ringbuf::record_len(data_len) % 8 == 0,
        usize::MAX - 8 < ringbuf::record_len(data_len) <= usize::MAX,
{
}

/// Data lies within the mapping where each byte of it does: a further byte is within where
/// the bytes before it are and it is not beyond the second copy of the ring. The two copies
/// must be addressable.
pub proof fn law_within_mapping_is_byte_by_byte(offset: nat, len: nat, ring_size: nat)
    ensures
        ringbuf::within_mapping(offset, 0, ring_size) <==> offset <= 2 * ring_size && 2 * ring_size
            <= usize::MAX,
        ringbuf::within_mapping(offset, len + 1, ring_size) <==> ringbuf::within_mapping(
            offset,
            len,
            ring_size,
        ) && offset + len < 2 * ring_size,
{
}

/// The numbers of the ring buffer's commands and its map type are the kernel's.
pub proof fn law_map_numbers_are_the_kernels()
    ensures
        ringbuf::BPF_MAP_CREATE == 0,
        ringbuf::BPF_OBJ_GET_INFO_BY_FD == 15,
        ringbuf::BPF_MAP_TYPE_RINGBUF == 27,
        ringbuf::BPF_RINGBUF_HDR_SZ == 8,
{
}

/// A header is the length of the data and two flags, the one for a record that is to be
/// passed over in the bit above the length, the one for an unfinished record above that.
pub proof fn law_header_is_length_and_flags(header: u32, len: u32, discarded: bool, busy: bool)
    requires
        len < 0x4000_0000,
        header == len + (if discarded {
            0x4000_0000int
        } else {
            0
        }) + (if busy {
            0x8000_0000int
        } else {
            0
        }),
    ensures
        ringbuf::data_len(header) == len,
        ringbuf::is_discarded(header) == discarded,
        ringbuf::is_busy(header) == busy,
        header & ringbuf::BPF_RINGBUF_BUSY_BIT != 0 <==> busy,
        header & ringbuf::BPF_RINGBUF_DISCARD_BIT != 0 <==> discarded,
{
    assert(header & 0x8000_0000u32 != 0 <==> header >= 0x8000_0000u32) by (bit_vector);
    assert(header & 0x4000_0000u32 != 0 <==> header / 0x4000_0000u32 % 2 == 1) by (bit_vector);
}

/// A position lies in the ring where its bits under the mask say.
pub proof fn law_offset_is_the_masked_position(pos: u64, mask: usize)
    ensures
        ringbuf::ring_offset(pos, mask) as u64 == pos & (mask as u64),
        ringbuf::ring_offset(pos, mask) <= mask,
{
    let m = mask as u64;
    assert((pos & m) as usize == (pos as usize) & mask && ((pos as usize) & mask) as u64 == pos & m)
        by (bit_vector)
        requires
            m == mask as u64,
    ;
    lemma_offset_within_ring(pos, mask);
}

/// Wherever the reader stands on whatever ring, a producer position ahead of it makes it read
/// the header at its own position, and only one that is not ahead stops it. Nothing is
/// handed on or published, and the reader stays where it is.
pub proof fn law_producer_ahead_is_followed(s: ringbuf::RingState, limit: u64)
    ensures
        s.accepts_event(RingEvent::Producer(limit)),
        ({
            let (after, action) = s.step_to(RingEvent::Producer(limit));
            &&& after.mask == s.mask && after.pos == s.pos && after.limit == limit
            &&& action.deliver is None && action.corrupt is None && action.publish is None
            &&& limit > s.pos ==> action.next == (RingNext::ReadHeader {
                offset: (s.pos & (s.mask as u64)) as usize,
            })
            &&& limit <= s.pos ==> action.next == RingNext::Stop
        }),
{
    law_offset_is_the_masked_position(s.pos, s.mask);
}

/// A finished record is passed: the reader moves on by its header and data, rounded up to a
/// multiple of eight, and publishes where it now is. Unless the record is to be passed over,
/// the bytes behind its header are handed on. The next header is read as long as the last
/// producer position is ahead; then that position is read again.
pub proof fn law_finished_record_is_passed(
    s: ringbuf::RingState,
    header: u32,
    len: u32,
    discarded: bool,
)
    requires
        len < 0x4000_0000,
        header == len + (if discarded {
            0x4000_0000int
        } else {
            0
        }),
        discarded || (s.pos & (s.mask as u64)) + 8 + len <= 2 * (s.mask + 1) <= usize::MAX,
        s.pos + (len + 15) / 8 * 8 <= u64::MAX,
    ensures
        s.accepts_event(RingEvent::Header(header)),
        ({
            let (after, action) = s.step_to(RingEvent::Header(header));
            &&& after.mask == s.mask && after.limit == s.limit
            &&& after.pos % 8 == s.pos % 8
            &&& s.pos + 8 + len <= after.pos < s.pos + 16 + len
            &&& action.corrupt is None
            &&& action.publish == Some(after.pos)
            &&& discarded ==> action.deliver is None
            &&& !discarded ==> (action.deliver matches Some(d) && d.offset == (s.pos & (
            s.mask as u64)) + 8 && d.len == len)
            &&& after.pos < s.limit ==> action.next == (RingNext::ReadHeader {
                offset: (after.pos & (s.mask as u64)) as usize,
            })
            &&& after.pos >= s.limit ==> action.next == RingNext::ReadProducer
        }),
{
    law_offset_is_the_masked_position(s.pos, s.mask);
    law_header_is_length_and_flags(header, len, discarded, false);
    law_record_len_is_the_next_multiple_of_eight(len as nat);
    let (after, action) = s.step_to(RingEvent::Header(header));
    law_offset_is_the_masked_position(after.pos, s.mask);
}

/// A record that is still being written holds the reader: it publishes where it is, hands
/// nothing on, and stops, on any ring and whatever the rest of the header says.
pub proof fn law_unfinished_record_holds_the_reader(s: ringbuf::RingState, header: u32)
    requires
        header >= 0x8000_0000,
    ensures
        s.accepts_event(RingEvent::Header(header)),
        s.step_to(RingEvent::Header(header)).0 == s,
        s.step_to(RingEvent::Header(header)).1.deliver is None,
        s.step_to(RingEvent::Header(header)).1.corrupt is None,
        s.step_to(RingEvent::Header(header)).1.publish == Some(s.pos),
        s.step_to(RingEvent::Header(header)).1.next == RingNext::Stop,
{
}

/// A record whose data leads out of the two copies of the ring is reported, with where it
/// claims to lie, and holds the reader as an unfinished one does.
pub proof fn law_corrupt_record_holds_the_reader(s: ringbuf::RingState, len: u32)
    requires
        len < 0x4000_0000,
        !((s.pos & (s.mask as u64)) + 8 + len <= 2 * (s.mask + 1) <= usize::MAX),
        (s.pos & (s.mask as u64)) + 8 <= usize::MAX,
    ensures
        s.accepts_event(RingEvent::Header(len)),
        s.step_to(RingEvent::Header(len)).0 == s,
        s.step_to(RingEvent::Header(len)).1.deliver is None,
        s.step_to(RingEvent::Header(len)).1.corrupt matches Some(d) && d.offset == (s.pos & (
        s.mask as u64)) + 8 && d.len == len,
        s.step_to(RingEvent::Header(len)).1.publish == Some(s.pos),
        s.step_to(RingEvent::Header(len)).1.next == RingNext::Stop,
{
    law_offset_is_the_masked_position(s.pos, s.mask);
    law_header_is_length_and_flags(len, len, false, false);
}

/// Only a header is ever not accepted, and only where a finished record would lead to an
/// offset or a position that cannot be represented.
pub proof fn law_only_unrepresentable_steps_are_not_accepted(
    s: ringbuf::RingState,
    event: RingEvent,
)
    ensures
        !s.accepts_event(event) ==> (event matches RingEvent::Header(header) && header < 0x8000_0000
            && ((s.pos & (s.mask as u64)) + 8 > usize::MAX || s.pos + (header % 0x4000_0000 + 15)
            / 8 * 8 > u64::MAX)),
{
    law_offset_is_the_masked_position(s.pos, s.mask);
}

/// What a reader does with a ring that nobody writes to in the meantime, when its caller
/// reads what each action asks for.
pub ghost struct Run {
    /// What it hands on, in order.
    pub delivered: Seq<DataSpan>,
    /// The corrupt record that it reports.
    pub corrupt: Option<DataSpan>,
    /// The position that it publishes last.
    pub published: Option<u64>,
    /// Where it ends.
    pub end: ringbuf::RingState,
}

/// Steps a reader on `event` and then on what its actions ask for, until an action says to
/// stop: the producer position, or the length word at an offset.
pub open spec fn run(
    s: ringbuf::RingState,
    event: RingEvent,
    producer: u64,
    headers: spec_fn(usize) -> u32,
) -> Run
    decreases
            u64::MAX - s.pos,
            if event is Producer {
                1int
            } else {
                0int
            },
{
    if !s.accepts_event(event) {
        Run { delivered: seq![], corrupt: None, published: None, end: s }
    } else {
        let (after, action) = s.step_to(event);
        let here = match action.deliver {
            Some(d) => seq![d],
            None => seq![],
        };
        if action.next == RingNext::Stop {
            Run {
                delivered: here,
                corrupt: action.corrupt,
                published: action.publish,
                end: after,
            }
        } else {
            let rest = match action.next {
                RingNext::ReadHeader { offset } => run(
                    after,
                    RingEvent::Header(headers(offset)),
                    producer,
                    headers,
                ),
                _ => run(after, RingEvent::Producer(producer), producer, headers),
            };
            Run {
                delivered: here + rest.delivered,
                corrupt: rest.corrupt,
                published: if rest.published is Some {
                    rest.published
                } else {
                    action.publish
                },
                end: rest.end,
            }
        }
    }
}

/// What the caller reads when the reader goes on from `s`.
spec fn goes_on_with(s: ringbuf::RingState, headers: spec_fn(usize) -> u32) -> RingEvent {
    if s.pos < s.limit {
        RingEvent::Header(headers(s.offset()))
    } else {
        RingEvent::Producer(s.limit)
    }
}

proof fn lemma_run_takes_the_records(
    s: ringbuf::RingState,
    headers: spec_fn(usize) -> u32,
    records: Seq<Record>,
)
    requires
        passable(s, records),
        placed(s.mask, headers, s.pos as nat, records),
        s.pos + total_len(records) <= s.limit,
        held(
            (ringbuf::RingState { pos: (s.pos + total_len(records)) as u64, ..s }),
            headers,
        ),
    ensures
        ({
            let stop = ringbuf::RingState { pos: (s.pos + total_len(records)) as u64, ..s };
            let done = run(s, goes_on_with(s, headers), s.limit, headers);
            &&& done.delivered == live_spans(s.mask, s.pos as nat, records)
            &&& done.end == stop
            &&& s.pos < s.limit ==> done.published == Some(stop.pos)
            &&& s.pos == s.limit ==> done.published is None
            &&& done.corrupt is Some <==> stop.pos < s.limit && headers(stop.offset())
                < 0x8000_0000
        }),
    decreases records.len(),
{
    if records.len() == 0 {
        assert(ringbuf::RingState { pos: (s.pos + total_len(records)) as u64, ..s } == s);
    } else {
        let r = records[0];
        let header = headers(s.offset());
        assert(header == r.header());
        assert(ringbuf::data_len(header) == r.len);
        assert(!ringbuf::is_busy(header));
        assert(ringbuf::is_discarded(header) == r.discarded);
        assert(total_len(records) == ringbuf::record_len(r.len) + total_len(records.skip(1)));
        let (after, action) = s.step_to(RingEvent::Header(header));
        let rest = records.skip(1);
        assert((ringbuf::RingState { pos: (s.pos + total_len(records)) as u64, ..s }) == (
        ringbuf::RingState { pos: (after.pos + total_len(rest)) as u64, ..after }));
        lemma_run_takes_the_records(after, headers, rest);
        assert(s.pos < s.limit);
        if r.discarded {
            assert(Seq::<DataSpan>::empty() + live_spans(s.mask, after.pos as nat, rest)
                =~= live_spans(s.mask, after.pos as nat, rest));
        }
    }
}

/// A reader that is told the producer position, and then reads whatever its own actions ask
/// for, hands on the data of the payloads that were put on the ring, byte for byte and in
/// order, the discarded ones left out. It ends behind the last of them: at the producer
/// position, or on an unfinished or corrupt record before it. That is the position it
/// publishes, unless there was nothing to read.
pub proof fn law_run_delivers_what_was_written(
    ring: Seq<u8>,
    s: ringbuf::RingState,
    producer: u64,
    headers: spec_fn(usize) -> u32,
    payloads: Seq<Payload>,
)
    requires
        ring.len() == s.ring_size(),
        vstd::arithmetic::power2::is_pow2(s.mask + 1),
        passable(s, records_of(payloads)),
        placed(s.mask, headers, s.pos as nat, records_of(payloads)),
        written(ring, s.pos as nat, payloads),
        s.pos + total_len(records_of(payloads)) <= producer,
        held(
            (ringbuf::RingState {
                mask: s.mask,
                pos: (s.pos + total_len(records_of(payloads))) as u64,
                limit: producer,
            }),
            headers,
        ),
    ensures
        ({
            let stop = s.pos + total_len(records_of(payloads));
            let done = run(s, RingEvent::Producer(producer), producer, headers);
            &&& bytes_at(ring, done.delivered) == live_data(payloads)
            &&& done.end.pos == stop
            &&& producer > s.pos ==> (done.published matches Some(p) && p == stop)
            &&& producer == s.pos ==> done.published is None
            &&& done.corrupt is Some <==> stop < producer && headers(
                ringbuf::ring_offset(stop as u64, s.mask),
            ) < 0x8000_0000
        }),
{
    let told = ringbuf::RingState { limit: producer, ..s };
    lemma_passable_whatever_the_limit(s, producer, records_of(payloads));
    lemma_run_takes_the_records(told, headers, records_of(payloads));
    lemma_live_spans_hold_the_data(ring, told, payloads);
    assert(s.step_to(RingEvent::Producer(producer)).0 == told);
    let rest = run(told, goes_on_with(told, headers), producer, headers);
    assert(Seq::<DataSpan>::empty() + rest.delivered =~= rest.delivered);
    if producer == s.pos {
        assert(total_len(records_of(payloads)) == 0);
        assert(payloads.len() == 0) by {
            if payloads.len() > 0 {
                law_record_len_saturates(records_of(payloads)[0].len);
            }
        }
    }
}

/// Whether records are passed does not depend on the producer position last seen.
proof fn lemma_passable_whatever_the_limit(
    s: ringbuf::RingState,
    limit: u64,
    records: Seq<Record>,
)
    requires
        passable(s, records),
    ensures
        passable(ringbuf::RingState { limit, ..s }, records),
    decreases records.len(),
{
    if records.len() > 0 {
        let after = ringbuf::RingState {
            pos: (s.pos + ringbuf::record_len(records[0].len)) as u64,
            ..s
        };
        lemma_passable_whatever_the_limit(after, limit, records.skip(1));
    }
}

} // verus!
