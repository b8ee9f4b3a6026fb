//! Character classes: the bytes between `[` and `]` of a pattern, read as a list
//! of single bytes and inclusive byte ranges.
//!
//! A class is scanned into tokens, and the tokens are then grouped into ranges. An
//! unescaped `-` is a range operator only between two literal bytes; anywhere else
//! it stands for itself.

use crate::compiler::error::CompileError;
use crate::text;
use vstd::prelude::*;

verus! {

/// What one element of a character class matches.
#[derive(Clone, Copy, Debug, PartialEq, Eq, Structural)]
pub enum PatternRange {
    /// A single byte that must match exactly.
    Single(u8),
    /// An inclusive byte range.
    Span(u8, u8),
}

impl PatternRange {
    /// Whether the element matches the byte `b`.
    pub open spec fn covers(self, b: u8) -> bool {
        match self {
            PatternRange::Single(s) => b == s,
            PatternRange::Span(lo, hi) => lo <= b <= hi,
        }
    }
}

/// Whether a list of ranges matches the byte `b`.
pub open spec fn matches_byte(ranges: Seq<PatternRange>, b: u8) -> bool {
    exists|i: int| 0 <= i < ranges.len() && (#[trigger] ranges[i]).covers(b)
}

/// A token in the flat stream produced by scanning a character class.
#[derive(Debug)]
pub enum Token {
    /// A single literal byte (e.g. `a` or `\.`).
    Byte(u8),
    /// A raw, unescaped hyphen that may act as a range operator.
    Dash,
    /// A pre-expanded class escape (e.g. `\d` becomes `0-9`).
    Class(Vec<PatternRange>),
}

/// The mathematical content of a [`Token`].
pub ghost enum TokenView {
    Byte(u8),
    Dash,
    Class(Seq<PatternRange>),
}

impl View for Token {
    type V = TokenView;

    open spec fn view(&self) -> TokenView {
        match self {
            Token::Byte(b) => TokenView::Byte(*b),
            Token::Dash => TokenView::Dash,
            Token::Class(c) => TokenView::Class(c@),
        }
    }
}

/// The contents of a token list.
pub open spec fn token_views(tokens: Seq<Token>) -> Seq<TokenView> {
    tokens.map_values(|t: Token| t@)
}

/// Why a character class is refused.
pub ghost enum ClassFault {
    UnterminatedEscape,
    NegatedEscape,
    UnknownEscape,
    ReversedRange,
    ConsecutiveDashes,
    NonAscii,
}

impl ClassFault {
    /// The reason that a refused class is reported with.
    pub open spec fn reason(self) -> Seq<char> {
        match self {
            ClassFault::UnterminatedEscape => "unterminated character-class escape"@,
            ClassFault::NegatedEscape => "negated character-class escapes are not supported"@,
            ClassFault::UnknownEscape => "unknown character-class escape sequence"@,
            ClassFault::ReversedRange => "character class range endpoints are reversed"@,
            ClassFault::ConsecutiveDashes =>
                "character class contains consecutive unescaped dashes"@,
            ClassFault::NonAscii =>
                "character class contains non-ASCII codepoints; use raw bytes or an escape sequence"@,
        }
    }
}

/// Whether `e` reports exactly the fault `f`.
pub open spec fn reports(e: CompileError, f: ClassFault) -> bool {
    e matches CompileError::InvalidPattern { reason } && reason@ == f.reason()
}

/// The token that a backslash followed by `c` stands for.
pub open spec fn escape_token(c: u8) -> Result<TokenView, ClassFault> {
    if c == 'n' as u8 {
        Ok(TokenView::Byte('\n' as u8))
    } else if c == 'r' as u8 {
        Ok(TokenView::Byte('\r' as u8))
    } else if c == 't' as u8 {
        Ok(TokenView::Byte('\t' as u8))
    } else if c == '\\' as u8 || c == ']' as u8 || c == '[' as u8 || c == '-' as u8 || c
        == '.' as u8 {
        Ok(TokenView::Byte(c))
    } else if c == 'd' as u8 {
        Ok(TokenView::Class(seq![PatternRange::Span('0' as u8, '9' as u8)]))
    } else if c == 's' as u8 {
        Ok(TokenView::Class(seq![PatternRange::Span('\t' as u8, '\r' as u8), PatternRange::Single(' ' as u8)]))
    } else if c == 'w' as u8 {
        Ok(
            TokenView::Class(
                seq![
                    PatternRange::Span('a' as u8, 'z' as u8),
                    PatternRange::Span('A' as u8, 'Z' as u8),
                    PatternRange::Span('0' as u8, '9' as u8),
                    PatternRange::Single('_' as u8),
                ],
            ),
        )
    } else if c == 'D' as u8 || c == 'S' as u8 || c == 'W' as u8 {
        Err(ClassFault::NegatedEscape)
    } else {
        Err(ClassFault::UnknownEscape)
    }
}

/// The first token of a non-empty class and the number of bytes it takes.
pub open spec fn first_token(class: Seq<u8>) -> Result<(TokenView, int), ClassFault>
    recommends
        class.len() > 0,
{
    if class[0] == '\\' as u8 {
        if class.len() < 2 {
            Err(ClassFault::UnterminatedEscape)
        } else {
            match escape_token(class[1]) {
                Ok(t) => Ok((t, 2)),
                Err(f) => Err(f),
            }
        }
    } else if class[0] == '-' as u8 {
        Ok((TokenView::Dash, 1))
    } else {
        Ok((TokenView::Byte(class[0]), 1))
    }
}

/// The tokens of a class, or the fault of its leftmost bad escape.
pub open spec fn class_tokens(class: Seq<u8>) -> Result<Seq<TokenView>, ClassFault>
    decreases class.len(),
{
    if class.len() == 0 {
        Ok(seq![])
    } else {
        match first_token(class) {
            Err(f) => Err(f),
            Ok((t, n)) => match class_tokens(class.skip(n)) {
                Err(f) => Err(f),
                Ok(rest) => Ok(seq![t] + rest),
            },
        }
    }
}

/// Whether the tokens begin with a literal byte, a hyphen and a literal byte.
pub open spec fn starts_with_range(tokens: Seq<TokenView>) -> bool {
    tokens.len() >= 3 && tokens[0] is Byte && tokens[1] is Dash && tokens[2] is Byte
}

/// What a token matches when it is no part of a range.
pub open spec fn lone_token(t: TokenView) -> Seq<PatternRange> {
    match t {
        TokenView::Byte(b) => seq![PatternRange::Single(b)],
        TokenView::Dash => seq![PatternRange::Single('-' as u8)],
        TokenView::Class(c) => c,
    }
}

/// The ranges of a token list, or the fault that its leftmost bad group has.
pub open spec fn token_ranges(tokens: Seq<TokenView>) -> Result<Seq<PatternRange>, ClassFault>
    decreases tokens.len(),
{
    if tokens.len() == 0 {
        Ok(seq![])
    } else if starts_with_range(tokens) {
        if tokens[0]->Byte_0 > tokens[2]->Byte_0 {
            Err(ClassFault::ReversedRange)
        } else {
            match token_ranges(tokens.skip(3)) {
                Err(f) => Err(f),
                Ok(rest) => Ok(
                    seq![PatternRange::Span(tokens[0]->Byte_0, tokens[2]->Byte_0)] + rest,
                ),
            }
        }
    } else if tokens.len() >= 2 && tokens[0] is Dash && tokens[1] is Dash {
        Err(ClassFault::ConsecutiveDashes)
    } else {
        match token_ranges(tokens.skip(1)) {
            Err(f) => Err(f),
            Ok(rest) => Ok(lone_token(tokens[0]) + rest),
        }
    }
}

/// Whether some byte lies outside ASCII.
pub open spec fn has_non_ascii(bytes: Seq<u8>) -> bool {
    exists|i: int| 0 <= i < bytes.len() && bytes[i] >= 0x80
}

/// What a character class means: its ranges in order, or why it is refused.
///
/// A class matches single bytes. Text that holds a multi-byte codepoint is refused
/// rather than split into unrelated bytes; bytes that are no text are taken as they
/// are.
pub open spec fn class_ranges(class: Seq<u8>) -> Result<Seq<PatternRange>, ClassFault> {
    if vstd::utf8::valid_utf8(class) && has_non_ascii(class) {
        Err(ClassFault::NonAscii)
    } else {
        match class_tokens(class) {
            Err(f) => Err(f),
            Ok(tokens) => token_ranges(tokens),
        }
    }
}

/// Decode an escape sequence whose backslash stands at `class[idx]`.
/// Returns the token and the number of input bytes consumed.
pub fn decode_character_class_escape(class: &[u8], idx: usize) -> (res: Result<
    (Token, usize),
    CompileError,
>)
    requires
        idx < usize::MAX,
    ensures
        idx + 1 >= class@.len() ==> (res matches Err(e) && reports(
            e,
            ClassFault::UnterminatedEscape,
        )),
        idx + 1 < class@.len() ==> match escape_token(class@[idx + 1]) {
            Ok(t) => res matches Ok((token, n)) && token@ == t && n == 2,
            Err(f) => res matches Err(e) && reports(e, f),
        },
{
    if idx + 1 >= class.len() {
        return Err(
            CompileError::InvalidPattern { reason: "unterminated character-class escape" },
        );
    }
    let escaped = class[idx + 1];
    let token = if escaped == 'n' as u8 {
        Token::Byte('\n' as u8)
    } else if escaped == 'r' as u8 {
        Token::Byte('\r' as u8)
    } else if escaped == 't' as u8 {
        Token::Byte('\t' as u8)
    } else if escaped == '\\' as u8 || escaped == ']' as u8 || escaped == '[' as u8 || escaped
        == '-' as u8 || escaped == '.' as u8 {
        Token::Byte(escaped)
    } else if escaped == 'd' as u8 {
        Token::Class(vec![PatternRange::Span('0' as u8, '9' as u8)])
    } else if escaped == 's' as u8 {
        Token::Class(
            vec![PatternRange::Span('\t' as u8, '\r' as u8), PatternRange::Single(' ' as u8)],
        )
    } else if escaped == 'w' as u8 {
        Token::Class(
            vec![
                PatternRange::Span('a' as u8, 'z' as u8),
                PatternRange::Span('A' as u8, 'Z' as u8),
                PatternRange::Span('0' as u8, '9' as u8),
                PatternRange::Single('_' as u8),
            ],
        )
    } else if escaped == 'D' as u8 || escaped == 'S' as u8 || escaped == 'W' as u8 {
        return Err(
            CompileError::InvalidPattern {
                reason: "negated character-class escapes are not supported",
            },
        );
    } else {
        return Err(
            CompileError::InvalidPattern { reason: "unknown character-class escape sequence" },
        );
    };
    proof {
        let t = escape_token(escaped);
        assert(token@ is Class ==> token@->Class_0 =~= t->Ok_0->Class_0);
    }
    Ok((token, 2))
}

/// The ranges of a token list so far as it has been read: `done` is what stands for
/// the tokens before `idx`.
spec fn grouped_to(tokens: Seq<TokenView>, idx: int, done: Seq<PatternRange>) -> bool {
    token_ranges(tokens) == match token_ranges(tokens.skip(idx)) {
        Ok(rest) => Ok(done + rest),
        Err(f) => Err(f),
    }
}

/// Convert a flat token stream into a list of `PatternRange` values, treating
/// an unescaped `-` as a range operator only when it sits between two literal bytes.
pub fn tokens_to_ranges(tokens: &[Token]) -> (res: Result<Vec<PatternRange>, CompileError>)
    ensures
        match token_ranges(token_views(tokens@)) {
            Ok(ranges) => res matches Ok(v) && v@ == ranges,
            Err(f) => res matches Err(e) && reports(e, f),
        },
{
    let ghost views = token_views(tokens@);
    let mut ranges: Vec<PatternRange> = Vec::new();
    let mut idx: usize = 0;
    proof {
        assert(views.skip(0) =~= views);
        if token_ranges(views) is Ok {
            assert(ranges@ + token_ranges(views)->Ok_0 =~= token_ranges(views)->Ok_0);
        }
    }
    while idx < tokens.len()
        invariant
            idx <= tokens@.len(),
            views == token_views(tokens@),
            grouped_to(views, idx as int, ranges@),
        decreases tokens@.len() - idx,
    {
        let ghost before = ranges@;
        let ghost rest = views.skip(idx as int);
        assert(rest[0] == tokens@[idx as int]@);
        if tokens.len() - idx > 2 {
            assert(rest[1] == tokens@[idx + 1]@);
            assert(rest[2] == tokens@[idx + 2]@);
            if let (Token::Byte(start), Token::Dash, Token::Byte(end)) = (
                &tokens[idx],
                &tokens[idx + 1],
                &tokens[idx + 2],
            ) {
                if *start > *end {
                    return Err(
                        CompileError::InvalidPattern {
                            reason: "character class range endpoints are reversed",
                        },
                    );
                }
                ranges.push(PatternRange::Span(*start, *end));
                idx += 3;
                proof {
                    assert(rest.skip(3) =~= views.skip(idx as int));
                    if token_ranges(rest.skip(3)) is Ok {
                        let tail = token_ranges(rest.skip(3))->Ok_0;
                        assert(before + (seq![PatternRange::Span(*start, *end)] + tail)
                            =~= ranges@ + tail);
                    }
                }
                continue;
            }
        }
        if matches!(tokens[idx], Token::Dash) && tokens.len() - idx > 1 {
            assert(rest[1] == tokens@[idx + 1]@);
            if matches!(tokens[idx + 1], Token::Dash) {
                return Err(
                    CompileError::InvalidPattern {
                        reason: "character class contains consecutive unescaped dashes",
                    },
                );
            }
        }
        match &tokens[idx] {
            Token::Byte(b) => ranges.push(PatternRange::Single(*b)),
            Token::Dash => ranges.push(PatternRange::Single('-' as u8)),
            Token::Class(c) => {
                let mut k: usize = 0;
                while k < c.len()
                    invariant
                        k <= c@.len(),
                        ranges@ == before + c@.take(k as int),
                    decreases c@.len() - k,
                {
                    ranges.push(c[k]);
                    k += 1;
                    assert(ranges@ =~= before + c@.take(k as int));
                }
                assert(c@.take(k as int) =~= c@);
            },
        }
        idx += 1;
        proof {
            assert(ranges@ =~= before + lone_token(rest[0]));
            assert(rest.skip(1) =~= views.skip(idx as int));
            if token_ranges(rest.skip(1)) is Ok {
                let tail = token_ranges(rest.skip(1))->Ok_0;
                assert(before + (lone_token(rest[0]) + tail) =~= ranges@ + tail);
            }
        }
    }
    proof {
        assert(views.skip(idx as int) =~= Seq::<TokenView>::empty());
        assert(ranges@ + Seq::<PatternRange>::empty() =~= ranges@);
    }
    Ok(ranges)
}

/// The tokens of a class so far as it has been scanned: `done` is what stands for
/// the bytes before `idx`.
spec fn scanned_to(class: Seq<u8>, idx: int, done: Seq<TokenView>) -> bool {
    class_tokens(class) == match class_tokens(class.skip(idx)) {
        Ok(rest) => Ok(done + rest),
        Err(f) => Err(f),
    }
}

/// One scanning step keeps what has been scanned in agreement with the class.
proof fn lemma_scan_step(class: Seq<u8>, idx: int, done: Seq<TokenView>)
    requires
        0 <= idx < class.len(),
        scanned_to(class, idx, done),
    ensures
        match first_token(class.skip(idx)) {
            Err(f) => class_tokens(class) == Err::<Seq<TokenView>, ClassFault>(f),
            Ok((t, n)) => scanned_to(class, idx + n, done.push(t)),
        },
{
    let rest = class.skip(idx);
    match first_token(rest) {
        Err(f) => {},
        Ok((t, n)) => {
            assert(rest.skip(n) =~= class.skip(idx + n));
            if class_tokens(rest.skip(n)) is Ok {
                let tail = class_tokens(rest.skip(n))->Ok_0;
                assert(done + (seq![t] + tail) =~= done.push(t) + tail);
            }
        },
    }
}

/// Whether some byte of `bytes` lies outside ASCII.
fn any_non_ascii(bytes: &[u8]) -> (found: bool)
    ensures
        found == has_non_ascii(bytes@),
{
    let mut i: usize = 0;
    while i < bytes.len()
        invariant
            i <= bytes@.len(),
            forall|j: int| 0 <= j < i ==> bytes@[j] < 0x80,
        decreases bytes@.len() - i,
    {
        if bytes[i] >= 0x80 {
            return true;
        }
        i += 1;
    }
    false
}

/// Read the body of a character class as the list of what it matches.
pub fn parse_character_class(class: &[u8]) -> (res: Result<Vec<PatternRange>, CompileError>)
    ensures
        match class_ranges(class@) {
            Ok(ranges) => res matches Ok(v) && v@ == ranges,
            Err(f) => res matches Err(e) && reports(e, f),
        },
{
    // Character classes match a single byte. If the input is valid UTF-8 and
    // contains any non-ASCII byte, it must contain a multi-byte codepoint; reject
    // it rather than silently split the codepoint into unrelated byte ranges.
    if text::is_valid_utf8(class) && any_non_ascii(class) {
        return Err(
            CompileError::InvalidPattern {
                reason: "character class contains non-ASCII codepoints; use raw bytes or an escape sequence",
            },
        );
    }
    let mut tokens: Vec<Token> = Vec::new();
    let mut idx: usize = 0;
    proof {
        assert(class@.skip(0) =~= class@);
        assert(token_views(tokens@) =~= seq![]);
        if class_tokens(class@) is Ok {
            assert(token_views(tokens@) + class_tokens(class@)->Ok_0 =~= class_tokens(
                class@,
            )->Ok_0);
        }
    }
    while idx < class.len()
        invariant
            idx <= class@.len(),
            scanned_to(class@, idx as int, token_views(tokens@)),
            !(vstd::utf8::valid_utf8(class@) && has_non_ascii(class@)),
        decreases class@.len() - idx,
    {
        let ghost before = token_views(tokens@);
        let ghost rest = class@.skip(idx as int);
        proof {
            lemma_scan_step(class@, idx as int, before);
        }
        if class[idx] == '\\' as u8 {
            match decode_character_class_escape(class, idx) {
                Ok((token, consumed)) => {
                    tokens.push(token);
                    idx += consumed;
                    assert(token_views(tokens@) =~= before.push(first_token(rest)->Ok_0.0));
                },
                Err(e) => {
                    return Err(e);
                },
            }
        } else if class[idx] == '-' as u8 {
            tokens.push(Token::Dash);
            idx += 1;
            assert(token_views(tokens@) =~= before.push(first_token(rest)->Ok_0.0));
        } else {
            tokens.push(Token::Byte(class[idx]));
            idx += 1;
            assert(token_views(tokens@) =~= before.push(first_token(rest)->Ok_0.0));
        }
    }
    proof {
        assert(class@.skip(idx as int) =~= Seq::<u8>::empty());
        assert(token_views(tokens@) + Seq::<TokenView>::empty() =~= token_views(tokens@));
    }
    tokens_to_ranges(tokens.as_slice())
}

} // verus!
