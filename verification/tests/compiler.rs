use ebpfkit::compiler::class::decode_character_class_escape;
use ebpfkit::compiler::class::tokens_to_ranges;
use ebpfkit::compiler::class::Token;
use ebpfkit::compiler::compile_with_limit;
use ebpfkit::compiler::estimate_alternation_instructions;
use ebpfkit::compiler::estimate_character_class_instructions;
use ebpfkit::compiler::literal_search_instruction_count;
use ebpfkit::compiler::parse_character_class;
use ebpfkit::compiler::CharRange;
use ebpfkit::compiler::CompileError;
use ebpfkit::compiler::PatternRange;
use ebpfkit::compiler::MAX_BPF_INSTRUCTION_LEN;
use ebpfkit::compiler::MAX_BPF_PATTERN_LEN;

/// The instructions of a literal search, by what they do.
fn literal_listing(pattern: &[u8]) -> Vec<String> {
    let mut listing = vec!["ldx r2, data".to_string(), "ldx r3, data_end".to_string()];
    if pattern.is_empty() {
        listing.push("mov r0, 1".to_string());
        listing.push("exit".to_string());
        return listing;
    }
    listing.push("mov r4, 0".to_string());
    listing.push("mov r5, r2".to_string());
    listing.push("add r5, r4".to_string());
    listing.push("mov r6, r5".to_string());
    listing.push(format!("add r6, {}", pattern.len()));
    listing.push("jgt r6, r3, fail".to_string());
    for byte in pattern {
        listing.push("ldx_b".to_string());
        listing.push(format!("jne {byte}, next"));
    }
    for tail in ["mov r0, 1", "exit", "add r4, 1", "ja loop", "mov r0, 0", "exit"] {
        listing.push(tail.to_string());
    }
    listing
}

/// The instructions of a character class, by what they do.
fn class_listing(ranges: &[PatternRange]) -> Vec<String> {
    let mut listing = Vec::new();
    for range in ranges {
        let (lo, hi) = match range {
            PatternRange::Single(b) => (*b, *b),
            PatternRange::Span(lo, hi) => (*lo, *hi),
        };
        listing.push(format!("jlt {lo}, next"));
        listing.push(format!("jle {hi}, match"));
    }
    listing.push("mov r0, 0".to_string());
    listing.push("exit".to_string());
    if !ranges.is_empty() {
        listing.push("mov r0, 1".to_string());
        listing.push("exit".to_string());
    }
    listing
}

/// The instructions of an alternation, by what they do.
fn alternation_listing(alternatives: &[&[u8]]) -> Vec<String> {
    let mut listing = Vec::new();
    for alternative in alternatives {
        listing.push("mov r6, r5".to_string());
        listing.push(format!("add r6, {}", alternative.len()));
        listing.push("jgt r6, r3, next".to_string());
        for byte in *alternative {
            listing.push("ldx_b".to_string());
            listing.push(format!("jne {byte}, next"));
        }
        listing.push("ja match".to_string());
    }
    for tail in ["mov r0, 0", "exit", "mov r0, 1", "exit"] {
        listing.push(tail.to_string());
    }
    listing
}

fn matches_byte(ranges: &[PatternRange], b: u8) -> bool {
    ranges.iter().any(|r| match r {
        PatternRange::Single(s) => *s == b,
        PatternRange::Span(lo, hi) => *lo <= b && b <= *hi,
    })
}

fn refusal(class: &[u8]) -> &'static str {
    match parse_character_class(class) {
        Err(CompileError::InvalidPattern { reason }) => reason,
        other => panic!("class {class:?} gave {other:?}"),
    }
}

#[test]
fn parse_rejects_empty_class_escapes() {
    assert!(matches!(
        parse_character_class(b"\\"),
        Err(CompileError::InvalidPattern {
            reason: "unterminated character-class escape"
        })
    ));
    assert!(matches!(
        parse_character_class(b"a-\\"),
        Err(CompileError::InvalidPattern {
            reason: "unterminated character-class escape"
        })
    ));
}

#[test]
fn parse_range_requires_ordered_endpoints() {
    assert!(matches!(
        parse_character_class(b"z-a"),
        Err(CompileError::InvalidPattern {
            reason: "character class range endpoints are reversed"
        })
    ));
}

#[test]
fn compile_limit_safeguards_instruction_cap() {
    assert!(matches!(
        compile_with_limit(4097),
        Err(CompileError::PatternTooLong {
            len: 4097,
            max: 4096
        })
    ));
}

#[test]
fn literal_count_for_empty_pattern_is_fixed() {
    assert_eq!(literal_search_instruction_count(0), 4);
}

#[test]
fn literal_count_matches_compiled_program_length() {
    for len in [1, 3, 10, 100, 1024] {
        let pattern = vec![b'a'; len];
        let prog = literal_listing(&pattern);
        assert_eq!(
            literal_search_instruction_count(len),
            prog.len(),
            "instruction count estimate must equal actual compiled length for len {len}"
        );
    }
}

#[test]
fn character_class_rejects_non_ascii_codepoints() {
    // Valid UTF-8 with a multi-byte codepoint must be rejected, not split
    // into unrelated byte ranges.
    assert!(matches!(
        parse_character_class("é".as_bytes()),
        Err(CompileError::InvalidPattern {
            reason: "character class contains non-ASCII codepoints; use raw bytes or an escape sequence"
        })
    ));
}

#[test]
fn character_class_accepts_raw_invalid_utf8_bytes() {
    // Invalid UTF-8 bytes should be matched as raw bytes, not silently
    // reinterpreted as a multi-byte codepoint.
    let ranges = parse_character_class(b"\x00-\xFF").unwrap();
    assert_eq!(ranges, vec![PatternRange::Span(0x00, 0xFF)]);
}

#[test]
fn character_class_decodes_standard_escapes() {
    assert_eq!(
        parse_character_class(br"\n\r\t\\.\-\]\[").unwrap(),
        vec![
            PatternRange::Single(b'\n'),
            PatternRange::Single(b'\r'),
            PatternRange::Single(b'\t'),
            PatternRange::Single(b'\\'),
            PatternRange::Single(b'.'),
            PatternRange::Single(b'-'),
            PatternRange::Single(b']'),
            PatternRange::Single(b'['),
        ]
    );
}

#[test]
fn character_class_expands_class_escapes() {
    assert_eq!(
        parse_character_class(br"\d").unwrap(),
        vec![PatternRange::Span(b'0', b'9')]
    );
    assert_eq!(
        parse_character_class(br"\s").unwrap(),
        vec![PatternRange::Span(b'\t', b'\r'), PatternRange::Single(b' '),]
    );
    assert_eq!(
        parse_character_class(br"\w").unwrap(),
        vec![
            PatternRange::Span(b'a', b'z'),
            PatternRange::Span(b'A', b'Z'),
            PatternRange::Span(b'0', b'9'),
            PatternRange::Single(b'_'),
        ]
    );
}

#[test]
fn character_class_rejects_negated_class_escapes() {
    for class in [br"\D", br"\S", br"\W"] {
        assert!(
            matches!(
                parse_character_class(class),
                Err(CompileError::InvalidPattern {
                    reason: "negated character-class escapes are not supported"
                })
            ),
            "class {class:?} should be rejected"
        );
    }
}

#[test]
fn character_class_range_with_escape_endpoint_works() {
    // \d-\w is not a valid range; the dash is interpreted as a literal
    // byte between the two expanded classes.
    let ranges = parse_character_class(br"\d-\w").unwrap();
    let mut expected = vec![PatternRange::Span(b'0', b'9')];
    expected.push(PatternRange::Single(b'-'));
    expected.extend([
        PatternRange::Span(b'a', b'z'),
        PatternRange::Span(b'A', b'Z'),
        PatternRange::Span(b'0', b'9'),
        PatternRange::Single(b'_'),
    ]);
    assert_eq!(ranges, expected);
}

#[test]
fn character_class_rejects_consecutive_dashes() {
    for class in [&b"a--z"[..], &b"-----"[..], &b"a---b"[..]] {
        assert!(
            matches!(
                parse_character_class(class),
                Err(CompileError::InvalidPattern {
                    reason: "character class contains consecutive unescaped dashes"
                })
            ),
            "class {class:?} should be rejected for consecutive unescaped dashes"
        );
    }
}

#[test]
fn char_class_estimate_equals_actual_compiled_length() {
    // Exact equality across single, span, and mixed classes, computing the ranges
    // via the parser.
    for class in [
        &b"a"[..],       // single Span/Single after parse
        &b"az"[..],      // two singles
        &b"a-z"[..],     // one span
        &b"a-z0-9"[..],  // two spans
        &b"a-z0-9_"[..], // two spans + single
    ] {
        let ranges = parse_character_class(class).unwrap();
        let estimate = estimate_character_class_instructions(&ranges);
        let actual = class_listing(&ranges).len();
        assert_eq!(
            estimate, actual,
            "char-class estimate {estimate} != actual {actual} for {class:?}"
        );
    }
    // Concrete anchor: a single Single range is two comparisons + 4 fixed = 6.
    assert_eq!(
        estimate_character_class_instructions(&[PatternRange::Single(0x41)]),
        6
    );
}

#[test]
fn alternation_estimate_equals_actual_compiled_length() {
    for alts in [
        vec![&b"aa"[..], &b"b"[..]],
        vec![&b"foo"[..]],
        vec![&b"ab"[..], &b"cd"[..], &b"ef"[..]],
    ] {
        let estimate = estimate_alternation_instructions(&alts);
        let actual = alternation_listing(&alts).len();
        assert_eq!(
            estimate, actual,
            "alternation estimate {estimate} != actual {actual} for {alts:?}"
        );
    }
    // Concrete anchor: ["aa","b"] = 4 fixed + (4+2*2) + (4+2*1) = 18.
    let alternates: Vec<&[u8]> = vec![b"aa", b"b"];
    assert_eq!(estimate_alternation_instructions(&alternates), 18);
}

#[test]
fn compile_with_limit_rejects_excessive_instruction_count() {
    let result = compile_with_limit(5000);
    assert!(
        matches!(
            result,
            Err(CompileError::PatternTooLong {
                len: 5000,
                max: 4096
            })
        ),
        "compile_with_limit should reject >4096 instructions"
    );
}

#[test]
fn edge_compile_with_limit_ok() {
    assert!(compile_with_limit(8).is_ok());
}

#[test]
fn edge_compile_with_limit_zero() {
    assert!(compile_with_limit(0).is_ok());
}

#[test]
fn edge_compile_with_limit_large() {
    assert!(compile_with_limit(10_000).is_err());
}

#[test]
fn limit_itself_is_accepted() {
    assert!(compile_with_limit(4096).is_ok());
    assert_eq!(MAX_BPF_INSTRUCTION_LEN, 4096);
}

#[test]
fn longest_literal_fits_the_limit() {
    assert_eq!(MAX_BPF_PATTERN_LEN, 1024);
    assert_eq!(literal_search_instruction_count(MAX_BPF_PATTERN_LEN), 2062);
    assert!(compile_with_limit(literal_search_instruction_count(MAX_BPF_PATTERN_LEN)).is_ok());
    assert_eq!(literal_search_instruction_count(2041), 4096);
    assert!(compile_with_limit(literal_search_instruction_count(2042)).is_err());
}

#[test]
fn literal_size_grows_with_the_literal() {
    for len in 0..64 {
        assert!(literal_search_instruction_count(len) < literal_search_instruction_count(len + 1));
    }
    assert_eq!(literal_search_instruction_count(0), literal_listing(b"").len());
}

#[test]
fn decided_alternations_take_two_instructions() {
    assert_eq!(estimate_alternation_instructions(&[]), 2);
    assert_eq!(estimate_alternation_instructions(&[b"ab", b"", b"cd"]), 2);
    assert_eq!(estimate_alternation_instructions(&[b""]), 2);
}

#[test]
fn another_alternative_adds_its_own_size() {
    let one: Vec<&[u8]> = vec![b"abc"];
    let two: Vec<&[u8]> = vec![b"abc", b"defg"];
    assert_eq!(estimate_alternation_instructions(&one), 14);
    assert_eq!(estimate_alternation_instructions(&two), 14 + 4 + 8);
}

#[test]
fn empty_class_takes_two_instructions() {
    assert_eq!(parse_character_class(b"").unwrap(), vec![]);
    assert_eq!(estimate_character_class_instructions(&[]), 2);
}

#[test]
fn unknown_escape_is_refused() {
    assert_eq!(refusal(b"\\q"), "unknown character-class escape sequence");
    assert_eq!(refusal(b"\\x41"), "unknown character-class escape sequence");
}

#[test]
fn leftmost_bad_escape_is_reported_before_any_range() {
    assert_eq!(refusal(b"z-a\\D"), "negated character-class escapes are not supported");
    assert_eq!(refusal(b"\\q\\D"), "unknown character-class escape sequence");
    assert_eq!(refusal(b"z-a--"), "character class range endpoints are reversed");
    assert_eq!(refusal(b"a--z-a"), "character class contains consecutive unescaped dashes");
}

#[test]
fn hyphen_at_either_end_is_literal() {
    assert_eq!(
        parse_character_class(b"-a").unwrap(),
        vec![PatternRange::Single(b'-'), PatternRange::Single(b'a')]
    );
    assert_eq!(
        parse_character_class(b"a-").unwrap(),
        vec![PatternRange::Single(b'a'), PatternRange::Single(b'-')]
    );
    assert_eq!(
        parse_character_class(b"a-b-c").unwrap(),
        vec![
            PatternRange::Span(b'a', b'b'),
            PatternRange::Single(b'-'),
            PatternRange::Single(b'c')
        ]
    );
    assert_eq!(
        parse_character_class(b"-").unwrap(),
        vec![PatternRange::Single(b'-')]
    );
}

#[test]
fn escaped_bytes_can_bound_a_range() {
    assert_eq!(
        parse_character_class(br"\t-\r").unwrap(),
        vec![PatternRange::Span(b'\t', b'\r')]
    );
    assert_eq!(
        parse_character_class(br"\--\.").unwrap(),
        vec![PatternRange::Span(b'-', b'.')]
    );
}

#[test]
fn two_endpoints_make_a_range_or_a_refusal() {
    for lo in 0u8..128 {
        for hi in 0u8..128 {
            if lo == b'\\' || lo == b'-' || hi == b'\\' || hi == b'-' {
                continue;
            }
            let class = [lo, b'-', hi];
            if lo <= hi {
                assert_eq!(
                    parse_character_class(&class).unwrap(),
                    vec![PatternRange::Span(lo, hi)]
                );
            } else {
                assert_eq!(refusal(&class), "character class range endpoints are reversed");
            }
        }
    }
}

#[test]
fn plain_class_lists_its_bytes() {
    let class = b"GET /?x";
    let ranges = parse_character_class(class).unwrap();
    assert_eq!(ranges.len(), class.len());
    for b in 0u8..=255 {
        assert_eq!(matches_byte(&ranges, b), class.contains(&b));
    }
    let raw = parse_character_class(&[0xff, 0x80, 0xc0]).unwrap();
    assert_eq!(
        raw,
        vec![
            PatternRange::Single(0xff),
            PatternRange::Single(0x80),
            PatternRange::Single(0xc0)
        ]
    );
}

#[test]
fn class_escapes_match_their_sets() {
    let d = parse_character_class(br"\d").unwrap();
    let s = parse_character_class(br"\s").unwrap();
    let w = parse_character_class(br"\w").unwrap();
    for b in 0u8..=255 {
        assert_eq!(matches_byte(&d, b), b.is_ascii_digit());
        assert_eq!(matches_byte(&s, b), b.is_ascii_whitespace() || b == 0x0b);
        assert_eq!(matches_byte(&w, b), b.is_ascii_alphanumeric() || b == b'_');
    }
}

#[test]
fn parsed_ranges_are_ordered_and_few() {
    for class in [&br"\w\s\d"[..], &b"a-zA-Z0-9_-"[..], &br"\w\w\w"[..]] {
        let ranges = parse_character_class(class).unwrap();
        assert!(ranges.len() <= 2 * class.len());
        for range in ranges {
            if let PatternRange::Span(lo, hi) = range {
                assert!(lo <= hi);
            }
        }
    }
}

#[test]
fn scanning_goes_on_behind_a_scanned_class() {
    let first = parse_character_class(br"\d_").unwrap();
    let second = parse_character_class(b"x.").unwrap();
    let mut both = first;
    both.extend(second);
    assert_eq!(parse_character_class(br"\d_x.").unwrap(), both);
}

#[test]
fn utf8_text_among_ascii_is_refused_and_broken_text_is_not() {
    assert_eq!(
        refusal("aé".as_bytes()),
        "character class contains non-ASCII codepoints; use raw bytes or an escape sequence"
    );
    // The same bytes without the last one are no text.
    let bytes = "aé".as_bytes();
    assert_eq!(
        parse_character_class(&bytes[..2]).unwrap(),
        vec![PatternRange::Single(b'a'), PatternRange::Single(0xc3)]
    );
}

#[test]
fn escapes_decode_where_they_stand() {
    let (token, consumed) = decode_character_class_escape(b"ab\\n", 2).unwrap();
    assert!(matches!(token, Token::Byte(b'\n')));
    assert_eq!(consumed, 2);
    assert!(matches!(
        decode_character_class_escape(b"ab\\", 2),
        Err(CompileError::InvalidPattern {
            reason: "unterminated character-class escape"
        })
    ));
}

#[test]
fn tokens_group_into_ranges() {
    let tokens = [
        Token::Byte(b'a'),
        Token::Dash,
        Token::Byte(b'f'),
        Token::Dash,
        Token::Class(vec![PatternRange::Span(b'0', b'9')]),
    ];
    assert_eq!(
        tokens_to_ranges(&tokens).unwrap(),
        vec![
            PatternRange::Span(b'a', b'f'),
            PatternRange::Single(b'-'),
            PatternRange::Span(b'0', b'9')
        ]
    );
    assert!(tokens_to_ranges(&[Token::Byte(b'a'), Token::Dash, Token::Dash]).is_err());
}

#[test]
fn messages_say_what_to_do() {
    let error = compile_with_limit(5000).unwrap_err();
    assert_eq!(
        error.message(),
        "pattern length 5000 exceeds BPF verifier limit of 4096 bytes. Fix: use userspace matching for patterns longer than 4096 bytes."
    );
    let error = parse_character_class(b"z-a").unwrap_err();
    assert_eq!(
        error.message(),
        "invalid pattern: character class range endpoints are reversed. Fix: use a supported subset (literal bytes, alternation, and ranges with start <= end)."
    );
}

#[test]
fn char_range_carries_its_bounds() {
    let range = CharRange { lo: b'a', hi: b'z' };
    let copy = range;
    assert_eq!((copy.lo, copy.hi), (b'a', b'z'));
}

#[test]
fn every_compile_message_is_actionable() {
    for error in [
        compile_with_limit(usize::MAX).unwrap_err(),
        parse_character_class(b"--").unwrap_err(),
        parse_character_class(b"\\").unwrap_err(),
    ] {
        assert!(error.message().contains("Fix: "));
    }
}

#[test]
fn short_class_fits_the_limit() {
    let class = vec![b'a'; 1023];
    let ranges = parse_character_class(&class).unwrap();
    assert_eq!(estimate_character_class_instructions(&ranges), 2050);
    let mut dense: Vec<u8> = Vec::new();
    for _ in 0..511 {
        dense.extend(br"\w");
    }
    let ranges = parse_character_class(&dense).unwrap();
    assert_eq!(ranges.len(), 2 * dense.len());
    assert_eq!(estimate_character_class_instructions(&ranges), 4092);
    assert!(compile_with_limit(4092).is_ok());
}
