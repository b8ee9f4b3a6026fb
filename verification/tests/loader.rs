use ebpfkit::loader::core_detect::diagnostics;
use ebpfkit::loader::core_detect::has_fentry;
use ebpfkit::loader::core_detect::has_ringbuf;
use ebpfkit::loader::core_detect::kernel_undetected_warning;
use ebpfkit::loader::core_detect::kernel_version;
use ebpfkit::loader::core_detect::parse_kernel_release;
use ebpfkit::loader::core_detect::unparseable_release_reason;
use ebpfkit::loader::create_ringbuf_request;
use ebpfkit::loader::load_filter_request;
use ebpfkit::loader::prog::fd_from_syscall;
use ebpfkit::loader::prog::load_failure_message;
use ebpfkit::loader::prog::load_failure_report;
use ebpfkit::loader::ringbuf::corrupt_record_warning;
use ebpfkit::loader::ringbuf::page_size;
use ebpfkit::loader::ringbuf::record_within_mapping;
use ebpfkit::loader::ringbuf::ring_size_of_map;
use ebpfkit::loader::ringbuf::round_record_len;
use ebpfkit::loader::ringbuf::wait_outcome;
use ebpfkit::loader::ringbuf::DataSpan;
use ebpfkit::loader::ringbuf::PageSizeError;
use ebpfkit::loader::ringbuf::RingEvent;
use ebpfkit::loader::ringbuf::RingLayout;
use ebpfkit::loader::ringbuf::RingNext;
use ebpfkit::loader::ringbuf::WaitOutcome;
use ebpfkit::loader::ringbuf::BPF_MAP_TYPE_RINGBUF;
use ebpfkit::loader::ringbuf::BPF_RINGBUF_BUSY_BIT;
use ebpfkit::loader::ringbuf::BPF_RINGBUF_DISCARD_BIT;
use ebpfkit::loader::ringbuf::BPF_RINGBUF_HDR_SZ;
use ebpfkit::loader::LoaderError;
use ebpfkit::loader::LoaderErrorKind;
use ebpfkit::loader::RingReader;
use ebpfkit::text::bool_text;
use ebpfkit::text::decimal_text;
use ebpfkit::text::trim;
use ebpfkit::text::TrimSet;

#[test]
fn parses_full_and_partial_versions() {
    assert_eq!(parse_kernel_release("6.1.0"), Some((6, 1, 0)));
    assert_eq!(parse_kernel_release("5.15.137-generic"), Some((5, 15, 137)));
    // Absent minor/patch legitimately default to 0 (not a failure).
    assert_eq!(parse_kernel_release("6"), Some((6, 0, 0)));
    assert_eq!(parse_kernel_release("6.1"), Some((6, 1, 0)));
    // Vendor suffixes and separators after the digits are ignored.
    assert_eq!(parse_kernel_release("6.8.0-31-generic"), Some((6, 8, 0)));
}

#[test]
fn rejects_unparseable_major_so_caller_fails_closed() {
    assert_eq!(parse_kernel_release(""), None);
    assert_eq!(parse_kernel_release("unknown"), None);
    assert_eq!(parse_kernel_release("-generic"), None); // leading non-digit -> empty major
                                                        // u32-overflowing major must NOT wrap to a small number.
    assert_eq!(parse_kernel_release("99999999999.1.0"), None);
}

#[test]
fn rejects_unparseable_minor_or_patch() {
    // Overflowing or non-numeric minor/patch must not silently default to 0.
    assert_eq!(parse_kernel_release("6.99999999999.0"), None);
    assert_eq!(parse_kernel_release("6.abc"), None);
    assert_eq!(parse_kernel_release("6.1.xyz"), None);
}

#[test]
fn load_filter_rejects_empty_program() {
    let err = load_filter_request(0).unwrap_err();
    assert_eq!(err.kind(), LoaderErrorKind::InvalidInput);
}

#[test]
fn load_filter_includes_verifier_log_in_error() {
    let msg = load_failure_message("Operation not permitted (os error 1)", &[0u8; 64]);
    assert!(
        msg.contains("BPF verifier log:"),
        "error should include the captured verifier log: {msg}"
    );
}

#[test]
fn round_record_len_rounds_up_to_8() {
    assert_eq!(round_record_len(0), 8); // header only
    assert_eq!(round_record_len(1), 16); // 1 + 8 = 9 -> 16
    assert_eq!(round_record_len(8), 16); // 8 + 8 = 16
    assert_eq!(round_record_len(9), 24); // 9 + 8 = 17 -> 24
}

#[test]
fn round_record_len_saturates_without_overflow() {
    // A hostile/corrupt near-usize::MAX data_len must saturate, not wrap/panic in
    // debug on `total + 7`.
    let r = round_record_len(usize::MAX);
    assert_eq!(r, usize::MAX & !7, "largest 8-aligned value, no overflow");
    assert_eq!(r % 8, 0);
    // A value just below the rounding boundary also saturates cleanly.
    assert_eq!(round_record_len(usize::MAX - 8), usize::MAX & !7);
}

#[test]
fn record_within_mapping_accepts_valid_and_rejects_out_of_bounds() {
    let ring = 4096usize; // readable data region = 2*ring = 8192
                          // Ordinary record well inside the ring.
    assert!(record_within_mapping(BPF_RINGBUF_HDR_SZ, 100, ring));
    // Exactly at the 2*ring boundary is fine (end == bound).
    assert!(record_within_mapping(0, 2 * ring, ring));
    assert!(record_within_mapping(ring, ring, ring));
    // One byte past the mirror must be rejected.
    assert!(!record_within_mapping(0, 2 * ring + 1, ring));
    assert!(!record_within_mapping(ring + 1, ring, ring));
}

#[test]
fn record_within_mapping_rejects_corrupt_lengths_without_wrapping() {
    // A corrupt header length must be rejected via CHECKED arithmetic, never wrap
    // into a false pass.
    let ring = 4096usize;
    assert!(!record_within_mapping(8, usize::MAX, ring));
    assert!(!record_within_mapping(usize::MAX, 1, ring));
    assert!(!record_within_mapping(usize::MAX, usize::MAX, ring));
    // A pathological ring_size whose double overflows also fails closed.
    assert!(!record_within_mapping(0, 1, usize::MAX));
}

#[test]
fn create_ringbuf_rejects_non_power_of_two_sizes() {
    let error = create_ringbuf_request(3).unwrap_err();
    assert_eq!(error.kind(), LoaderErrorKind::InvalidInput);
}

#[test]
fn create_ringbuf_accepts_exactly_the_powers_of_two() {
    for k in 0..32 {
        let request = create_ringbuf_request(1u32 << k).unwrap();
        assert_eq!(request.map_type, 27);
        assert_eq!(request.max_entries, 1u32 << k);
    }
    for size in (0u32..5000).chain([u32::MAX, u32::MAX - 1, 0x8000_0001]) {
        assert_eq!(create_ringbuf_request(size).is_ok(), size.is_power_of_two());
    }
    assert_eq!(
        create_ringbuf_request(0).unwrap_err(),
        LoaderError::RingSizeNotPowerOfTwo
    );
}

#[test]
fn load_request_is_complete() {
    let request = load_filter_request(2).unwrap();
    assert_eq!(request.prog_type, 1);
    assert_eq!(request.insn_cnt, 2);
    assert_eq!(&request.license, b"GPL\0");
    assert_eq!(request.log_level, 1);
    assert_eq!(request.log_size, 16 * 1024);
    assert_eq!(load_filter_request(4096).unwrap().insn_cnt, 4096);
    assert_eq!(
        load_filter_request(4097).unwrap_err(),
        LoaderError::TooManyInstructions {
            count: 4097,
            max: 4096
        }
    );
}

#[test]
fn loader_messages_say_what_to_do() {
    assert_eq!(
        LoaderError::EmptyProgram.message(),
        "BPF program is empty. Fix: provide at least one instruction."
    );
    assert_eq!(
        load_filter_request(5000).unwrap_err().message(),
        "BPF program has 5000 instructions, exceeding the 4096-instruction verifier limit. Fix: simplify the pattern or split into multiple programs."
    );
    assert_eq!(
        LoaderError::RingSizeNotPowerOfTwo.message(),
        "ring buffer size must be a non-zero power of two. Fix: pass 4096, 8192, 16384, or another power of two."
    );
    assert_eq!(
        LoaderError::NotARingBuffer.message(),
        "fd does not reference a BPF ring buffer map. Fix: pass the fd returned by create_ringbuf or a BPF_MAP_TYPE_RINGBUF map."
    );
    assert_eq!(
        LoaderError::PageSizeTooGreat.message(),
        "system page size does not fit in usize. Fix: run on a supported userspace architecture."
    );
    assert_eq!(LoaderError::PageSizeTooGreat.kind(), LoaderErrorKind::InvalidData);
    assert_eq!(
        LoaderError::MappingTooLong.message(),
        "ring buffer mapping length overflowed. Fix: use a smaller ring size."
    );
    assert_eq!(LoaderError::MappingTooLong.kind(), LoaderErrorKind::InvalidInput);
}

#[test]
fn syscall_results_are_descriptors_or_failures() {
    assert_eq!(fd_from_syscall(-1), None);
    assert_eq!(fd_from_syscall(0), Some(0));
    assert_eq!(fd_from_syscall(17), Some(17));
}

#[test]
fn untouched_log_is_reported_empty() {
    assert_eq!(
        load_failure_message("EPERM", &[0u8; 16384]),
        "EPERM -- BPF verifier log: (empty)"
    );
    assert_eq!(
        load_failure_report("EPERM", "\0 \n\0"),
        "EPERM -- BPF verifier log: (empty)"
    );
}

#[test]
fn written_log_is_reported_without_its_padding() {
    let mut buf = vec![0u8; 256];
    buf[..19].copy_from_slice(b"0: R1 invalid mem \n");
    assert_eq!(
        load_failure_message("EACCES", &buf),
        "EACCES -- BPF verifier log: 0: R1 invalid mem"
    );
}

#[test]
fn log_bytes_that_are_no_text_are_replaced() {
    assert_eq!(
        load_failure_message("E", &[b'a', 0xff, b'b', 0, 0]),
        "E -- BPF verifier log: a\u{fffd}b"
    );
}

#[test]
fn version_gates_open_at_their_release() {
    assert!(has_ringbuf((5, 8, 0)));
    assert!(!has_ringbuf((5, 7, 19)));
    assert!(has_ringbuf((6, 0, 0)));
    assert!(!has_ringbuf((4, 19, 0)));
    assert!(has_fentry((5, 5, 0)));
    assert!(!has_fentry((5, 4, 300)));
    assert!(has_fentry((5, 7, 0)));
}

#[test]
fn undetermined_kernel_has_no_gated_feature() {
    let (version, reason) = kernel_version(Err("No such file or directory (os error 2)"));
    assert_eq!(version, (0, 0, 0));
    assert!(!has_ringbuf(version));
    assert!(!has_fentry(version));
    assert_eq!(
        reason.unwrap(),
        "cannot read /proc/sys/kernel/osrelease: No such file or directory (os error 2)"
    );
}

#[test]
fn features_only_accrue() {
    let versions = [(0, 0, 0), (5, 4, 9), (5, 5, 0), (5, 7, 9), (5, 8, 0), (6, 0, 0)];
    for pair in versions.windows(2) {
        assert!(!has_ringbuf(pair[0]) || has_ringbuf(pair[1]));
        assert!(!has_fentry(pair[0]) || has_fentry(pair[1]));
        assert!(!has_ringbuf(pair[0]) || has_fentry(pair[0]));
    }
}

#[test]
fn release_line_gives_the_version() {
    assert_eq!(kernel_version(Ok("5.15.137-generic\n")), ((5, 15, 137), None));
    assert_eq!(kernel_version(Ok(" \t6.1.0\r\n")), ((6, 1, 0), None));
}

#[test]
fn unparseable_release_is_quoted() {
    let (version, reason) = kernel_version(Ok("un\"known\n"));
    assert_eq!(version, (0, 0, 0));
    assert_eq!(
        reason.unwrap(),
        "unparseable major version in osrelease \"un\\\"known\""
    );
    assert_eq!(
        unparseable_release_reason("\"x\""),
        "unparseable major version in osrelease \"x\""
    );
}

#[test]
fn components_must_be_complete() {
    assert_eq!(parse_kernel_release("6."), None);
    assert_eq!(parse_kernel_release("6.1."), None);
    assert_eq!(parse_kernel_release("4294967295.0.4294967295"), Some((u32::MAX, 0, u32::MAX)));
    assert_eq!(parse_kernel_release("4294967296.0.0"), None);
    assert_eq!(parse_kernel_release("006.0000000000001.02"), Some((6, 1, 2)));
}

#[test]
fn absent_component_before_a_suffix_defaults_to_zero() {
    assert_eq!(parse_kernel_release("6.1-generic"), Some((6, 1, 0)));
    assert_eq!(parse_kernel_release("6-generic"), Some((6, 0, 0)));
    assert_eq!(parse_kernel_release("6.1-rc1"), Some((6, 1, 0)));
    assert_eq!(parse_kernel_release("6.1+"), Some((6, 1, 0)));
    // A digit behind the separator is another component.
    assert_eq!(parse_kernel_release("6-1-2"), Some((6, 1, 2)));
    for suffix in ["-generic", "-rc1+", "+", " x9"] {
        for numbers in ["6", "6.1", "6.1.2", "6.", "6.1.", "", "99999999999"] {
            assert_eq!(
                parse_kernel_release(&format!("{numbers}{suffix}")),
                parse_kernel_release(numbers)
            );
        }
    }
    let (version, reason) = kernel_version(Ok("6.1-generic\n"));
    assert_eq!((version, reason), ((6, 1, 0), None));
    assert!(has_ringbuf(version) && has_fentry(version));
}

#[test]
fn release_suffix_is_ignored() {
    for suffix in ["-31-generic", ".4.5", "é", "-rc1+", " 9"] {
        assert_eq!(parse_kernel_release(&format!("6.8.3{suffix}")), Some((6, 8, 3)));
    }
}

#[test]
fn written_version_reads_back() {
    for v in [(0, 0, 0), (6, 1, 0), (5, 15, 137), (u32::MAX, 10, 100)] {
        let line = &diagnostics(v, true, None)[0];
        let written = line.strip_prefix("kernel: ").unwrap();
        assert_eq!(written, format!("{}.{}.{}", v.0, v.1, v.2));
        assert_eq!(parse_kernel_release(written), Some(v));
    }
}

#[test]
fn diagnostics_list_every_capability() {
    assert_eq!(
        diagnostics((5, 6, 7), false, Some(0)),
        vec![
            "kernel: 5.6.7",
            "BTF available: false",
            "fentry support: true",
            "ring buffer support: false",
            "running as root: true",
        ]
    );
    assert_eq!(diagnostics((6, 0, 0), true, Some(1000))[4], "running as root: false");
    assert_eq!(diagnostics((6, 0, 0), true, None).len(), 4);
}

#[test]
fn undetected_kernel_is_announced() {
    assert_eq!(
        kernel_undetected_warning("why"),
        "ebpfkit: could not determine kernel version (why); treating all version-gated eBPF features (ring buffer, fentry, ...) as UNAVAILABLE"
    );
}

#[test]
fn trimming_agrees_with_the_standard_library() {
    for c in '\0'..=char::MAX {
        let s = format!("{c}a b{c}");
        assert_eq!(trim(&s, TrimSet::WhiteSpace), s.trim());
    }
    for s in ["", "\0", "\0\0a\0b\0", "a", " \0 a"] {
        assert_eq!(trim(s, TrimSet::Nul), s.trim_matches('\0'));
        assert_eq!(trim(s, TrimSet::WhiteSpace), s.trim());
    }
}

#[test]
fn numbers_and_truth_values_are_written_as_usual() {
    for n in [0, 7, 10, 99, 100, 4096, u64::MAX] {
        assert_eq!(decimal_text(n), n.to_string());
    }
    assert_eq!(bool_text(true), "true");
    assert_eq!(bool_text(false), "false");
}

#[test]
fn map_of_another_type_is_refused() {
    assert_eq!(ring_size_of_map(BPF_MAP_TYPE_RINGBUF, 4096), Ok(4096));
    assert_eq!(ring_size_of_map(1, 4096), Err(LoaderError::NotARingBuffer));
}

#[test]
fn page_size_is_positive() {
    assert_eq!(page_size(4096), Ok(4096));
    assert_eq!(page_size(0), Err(PageSizeError::Os));
    assert_eq!(page_size(-1), Err(PageSizeError::Os));
}

#[test]
fn layout_maps_the_data_twice() {
    let layout = RingLayout::new(4096, 8192).unwrap();
    assert_eq!(layout.consumer_len, 4096);
    assert_eq!(layout.producer_offset, 4096);
    assert_eq!(layout.producer_len, 4096 + 2 * 8192);
    assert_eq!(layout.data_offset, 4096);
    assert_eq!(
        RingLayout::new(4096, usize::MAX),
        Err(LoaderError::MappingTooLong)
    );
    assert_eq!(
        RingLayout::new(4096, usize::MAX / 2),
        Err(LoaderError::MappingTooLong)
    );
    assert!(RingLayout::new(1, usize::MAX / 2).is_ok());
}

#[test]
fn interrupted_wait_is_repeated() {
    assert_eq!(wait_outcome(-1, true), WaitOutcome::Retry);
    assert_eq!(wait_outcome(-1, false), WaitOutcome::Failed);
    assert_eq!(wait_outcome(1, true), WaitOutcome::Ready);
    assert_eq!(wait_outcome(0, false), WaitOutcome::Ready);
}

/// A ring in plain memory, with the producer's side written out.
struct Ring {
    data: Vec<u8>,
    producer: u64,
}

impl Ring {
    fn new(size: usize, start: u64) -> Ring {
        Ring {
            data: vec![0u8; size],
            producer: start,
        }
    }

    fn put(&mut self, payload: &[u8], flags: u32) {
        let size = self.data.len();
        let mut bytes = (payload.len() as u32 | flags).to_le_bytes().to_vec();
        bytes.extend([0u8; 4]);
        bytes.extend(payload);
        for (i, b) in bytes.iter().enumerate() {
            self.data[(self.producer as usize + i) % size] = *b;
        }
        self.producer += ((payload.len() + 15) / 8 * 8) as u64;
    }

    fn mapped(&self) -> Vec<u8> {
        [self.data.clone(), self.data.clone()].concat()
    }
}

/// What a reader hands on, the position it last published, and the corrupt span it met.
fn read_ring(ring: &Ring, reader: &mut RingReader) -> (Vec<Vec<u8>>, Option<u64>, Option<DataSpan>) {
    let mapped = ring.mapped();
    let mut delivered = Vec::new();
    let mut published = None;
    let mut event = RingEvent::Producer(ring.producer);
    loop {
        assert!(reader.accepts(event));
        let action = reader.step(event);
        if let Some(d) = action.deliver {
            assert!(d.offset + d.len <= mapped.len());
            delivered.push(mapped[d.offset..d.offset + d.len].to_vec());
        }
        if let Some(p) = action.publish {
            assert_eq!(p, reader.position());
            published = Some(p);
        }
        if action.corrupt.is_some() {
            assert_eq!(action.next, RingNext::Stop);
            return (delivered, published, action.corrupt);
        }
        event = match action.next {
            RingNext::ReadProducer => RingEvent::Producer(ring.producer),
            RingNext::ReadHeader { offset } => {
                let word = &mapped[offset..offset + 4];
                RingEvent::Header(u32::from_le_bytes([word[0], word[1], word[2], word[3]]))
            }
            RingNext::Stop => return (delivered, published, None),
        };
    }
}

#[test]
fn drained_ring_gives_back_its_records() {
    let mut ring = Ring::new(64, 0);
    ring.put(b"one", 0);
    ring.put(b"skip", BPF_RINGBUF_DISCARD_BIT);
    ring.put(b"", 0);
    ring.put(b"three bytes", 0);
    let mut reader = RingReader::new(64, 0);
    let (delivered, published, corrupt) = read_ring(&ring, &mut reader);
    assert_eq!(
        delivered,
        vec![b"one".to_vec(), b"".to_vec(), b"three bytes".to_vec()]
    );
    assert_eq!(published, Some(16 + 16 + 8 + 24));
    assert_eq!(corrupt, None);
    assert_eq!(reader.position(), ring.producer);
}

#[test]
fn record_that_wraps_is_read_in_one_piece() {
    let mut ring = Ring::new(64, 48);
    ring.put(b"twenty bytes of data", 0);
    let mut reader = RingReader::new(64, 48);
    let (delivered, published, _) = read_ring(&ring, &mut reader);
    assert_eq!(delivered, vec![b"twenty bytes of data".to_vec()]);
    assert_eq!(published, Some(48 + 32));
}

#[test]
fn busy_record_holds_the_reader() {
    let mut ring = Ring::new(64, 0);
    ring.put(b"done", 0);
    ring.put(b"busy", BPF_RINGBUF_BUSY_BIT);
    ring.put(b"later", 0);
    let mut reader = RingReader::new(64, 0);
    let (delivered, published, corrupt) = read_ring(&ring, &mut reader);
    assert_eq!(delivered, vec![b"done".to_vec()]);
    assert_eq!(published, Some(16));
    assert_eq!(corrupt, None);
    assert_eq!(reader.position(), 16);
}

#[test]
fn corrupt_record_stops_the_reader() {
    let mut ring = Ring::new(64, 0);
    ring.put(b"good", 0);
    ring.put(b"", 500);
    let mut reader = RingReader::new(64, 0);
    let (delivered, published, corrupt) = read_ring(&ring, &mut reader);
    assert_eq!(delivered, vec![b"good".to_vec()]);
    assert_eq!(published, Some(16));
    let span = corrupt.unwrap();
    assert_eq!(
        span,
        DataSpan {
            offset: 24,
            len: 500
        }
    );
    assert_eq!(
        corrupt_record_warning(span, reader.mask()),
        "ebpfkit: ringbuf record out of bounds (data_offset=24, data_len=500, mask=63); stopping consumption to avoid an out-of-bounds read"
    );
}

#[test]
fn discarded_record_is_passed_whatever_its_length() {
    let mut reader = RingReader::new(64, 0);
    reader.step(RingEvent::Producer(8192));
    let action = reader.step(RingEvent::Header(BPF_RINGBUF_DISCARD_BIT | 500));
    assert_eq!(action.deliver, None);
    assert_eq!(action.corrupt, None);
    assert_eq!(action.publish, Some(512));
    assert_eq!(action.next, RingNext::ReadHeader { offset: 0 });
}

#[test]
fn live_records_are_read_around_an_oversized_discarded_one() {
    let mut ring = Ring::new(64, 0);
    ring.put(b"first", 0);
    ring.put(b"", BPF_RINGBUF_DISCARD_BIT | 520);
    ring.producer += 520;
    ring.put(b"last", 0);
    let mut reader = RingReader::new(64, 0);
    let (delivered, published, corrupt) = read_ring(&ring, &mut reader);
    assert_eq!(delivered, vec![b"first".to_vec(), b"last".to_vec()]);
    assert_eq!(published, Some(16 + 528 + 16));
    assert_eq!(corrupt, None);
}

#[test]
fn record_that_fills_the_ring_is_read_wherever_it_stands() {
    let payload: Vec<u8> = (0..56).collect();
    for start in (0..64).step_by(8) {
        let mut ring = Ring::new(64, start);
        ring.put(&payload, 0);
        let mut reader = RingReader::new(64, start);
        let (delivered, published, corrupt) = read_ring(&ring, &mut reader);
        assert_eq!(delivered, vec![payload.clone()]);
        assert_eq!(published, Some(start + 64));
        assert_eq!(corrupt, None);
    }
}

#[test]
fn record_beyond_the_ring_is_handed_on_within_the_two_copies() {
    let mut reader = RingReader::new(64, 8);
    reader.step(RingEvent::Producer(8 + 128));
    let action = reader.step(RingEvent::Header(112));
    assert_eq!(
        action.deliver,
        Some(DataSpan {
            offset: 16,
            len: 112
        })
    );
    assert_eq!(action.publish, Some(8 + 120));
}

#[test]
fn empty_ring_publishes_nothing() {
    let ring = Ring::new(64, 128);
    let mut reader = RingReader::new(64, 128);
    assert_eq!(read_ring(&ring, &mut reader), (vec![], None, None));
}

#[test]
fn position_that_cannot_advance_is_not_accepted() {
    let mut reader = RingReader::new(64, u64::MAX - 7);
    reader.step(RingEvent::Producer(u64::MAX));
    assert!(!reader.accepts(RingEvent::Header(0)));
    assert!(!reader.accepts(RingEvent::Header(BPF_RINGBUF_DISCARD_BIT)));
    assert!(reader.accepts(RingEvent::Header(BPF_RINGBUF_BUSY_BIT)));
    assert!(reader.accepts(RingEvent::Header(500)));
    assert!(reader.accepts(RingEvent::Producer(0)));
}

#[test]
fn offsets_are_remainders_on_a_power_of_two() {
    for pos in [0u64, 8, 56, 64, 72, 1 << 40, (1 << 40) + 24] {
        let mut reader = RingReader::new(64, pos);
        let action = reader.step(RingEvent::Producer(pos + 8));
        assert_eq!(
            action.next,
            RingNext::ReadHeader {
                offset: (pos % 64) as usize
            }
        );
    }
}

#[test]
fn every_loader_message_is_actionable() {
    for error in [
        LoaderError::EmptyProgram,
        LoaderError::TooManyInstructions { count: 4097, max: 4096 },
        LoaderError::RingSizeNotPowerOfTwo,
        LoaderError::NotARingBuffer,
        LoaderError::PageSizeTooGreat,
        LoaderError::MappingTooLong,
    ] {
        assert!(error.message().contains("Fix: "));
    }
}
