//! Laws of character classes, over the meaning that [`crate::compiler::class`]
//! gives them.

use crate::compiler::class;
use crate::compiler::class::PatternRange;
use crate::compiler::class::Token;
use crate::compiler::error::CompileError;
use crate::compiler::limits;
use vstd::prelude::*;

verus! {

/// Whether every span of the list runs from a lower to a higher bound.
pub open spec fn ordered(ranges: Seq<PatternRange>) -> bool {
    forall|i: int|
        0 <= i < ranges.len() ==> ((#[trigger] ranges[i]) matches PatternRange::Span(lo, hi) ==> lo
            <= hi)
}

/// Whether every pre-expanded class among the tokens is ordered.
spec fn classes_ordered(tokens: Seq<class::TokenView>) -> bool {
    forall|i: int|
        0 <= i < tokens.len() ==> ((#[trigger] tokens[i]) matches class::TokenView::Class(c)
            ==> ordered(c))
}

proof fn lemma_ordered_concat(a: Seq<PatternRange>, b: Seq<PatternRange>)
    requires
        ordered(a),
        ordered(b),
    ensures
        ordered(a + b),
{
    assert forall|i: int| 0 <= i < (a + b).len() implies ((#[trigger] (a
        + b)[i]) matches PatternRange::Span(lo, hi) ==> lo <= hi) by {
        if i < a.len() {
            assert((a + b)[i] == a[i]);
        } else {
            assert((a + b)[i] == b[i - a.len()]);
        }
    }
}

proof fn lemma_escapes_ordered(c: u8)
    ensures
        class::escape_token(c) matches Ok(class::TokenView::Class(r)) ==> ordered(r),
{
}

proof fn lemma_class_tokens_ordered(bytes: Seq<u8>)
    ensures
        class::class_tokens(bytes) matches Ok(tokens) ==> classes_ordered(tokens),
    decreases bytes.len(),
{
    if bytes.len() > 0 {
        match class::first_token(bytes) {
            Err(_) => {},
            Ok((t, n)) => {
                lemma_class_tokens_ordered(bytes.skip(n));
                if bytes.len() >= 2 {
                    lemma_escapes_ordered(bytes[1]);
                }
                if class::class_tokens(bytes.skip(n)) is Ok {
                    let rest = class::class_tokens(bytes.skip(n))->Ok_0;
                    let all = seq![t] + rest;
                    assert forall|i: int| 0 <= i < all.len() implies ((
                    #[trigger] all[i]) matches class::TokenView::Class(c) ==> ordered(c)) by {
                        if i > 0 {
                            assert(all[i] == rest[i - 1]);
                        }
                    }
                }
            },
        }
    }
}

proof fn lemma_token_ranges_ordered(tokens: Seq<class::TokenView>)
    requires
        classes_ordered(tokens),
    ensures
        class::token_ranges(tokens) matches Ok(ranges) ==> ordered(ranges),
    decreases tokens.len(),
{
    if tokens.len() > 0 {
        if class::starts_with_range(tokens) {
            assert(classes_ordered(tokens.skip(3)));
            lemma_token_ranges_ordered(tokens.skip(3));
            if class::token_ranges(tokens) is Ok {
                lemma_ordered_concat(
                    seq![PatternRange::Span(tokens[0]->Byte_0, tokens[2]->Byte_0)],
                    class::token_ranges(tokens.skip(3))->Ok_0,
                );
            }
        } else {
            assert(classes_ordered(tokens.skip(1)));
            lemma_token_ranges_ordered(tokens.skip(1));
            if class::token_ranges(tokens) is Ok {
                assert(ordered(class::lone_token(tokens[0])));
                lemma_ordered_concat(
                    class::lone_token(tokens[0]),
                    class::token_ranges(tokens.skip(1))->Ok_0,
                );
            }
        }
    }
}

/// Every range that a class is read as has its start no higher than its end.
pub proof fn law_ranges_are_ordered(bytes: Seq<u8>)
    ensures
        class::class_ranges(bytes) matches Ok(ranges) ==> ordered(ranges),
{
    lemma_class_tokens_ordered(bytes);
    if class::class_tokens(bytes) is Ok {
        lemma_token_ranges_ordered(class::class_tokens(bytes)->Ok_0);
    }
}

/// A class that scans can be continued: what is scanned after it does not change its
/// own tokens.
pub proof fn law_scanning_is_compositional(first: Seq<u8>, second: Seq<u8>)
    requires
        class::class_tokens(first) is Ok,
    ensures
        class::class_tokens(first + second) == match class::class_tokens(second) {
            Ok(tokens) => Ok(class::class_tokens(first)->Ok_0 + tokens),
            Err(f) => Err(f),
        },
    decreases first.len(),
{
    if first.len() == 0 {
        assert(first + second =~= second);
        if class::class_tokens(second) is Ok {
            let tokens = class::class_tokens(second)->Ok_0;
            assert(Seq::<class::TokenView>::empty() + tokens =~= tokens);
        }
    } else {
        let (t, n) = class::first_token(first)->Ok_0;
        law_scanning_is_compositional(first.skip(n), second);
        assert((first + second).skip(n) =~= first.skip(n) + second);
        if class::class_tokens(second) is Ok {
            let head = class::class_tokens(first.skip(n))->Ok_0;
            let tail = class::class_tokens(second)->Ok_0;
            assert(seq![t] + (head + tail) =~= (seq![t] + head) + tail);
        }
    }
}

/// Two unescaped hyphens in a row are never accepted, wherever in the class they
/// stand.
pub proof fn law_consecutive_dashes_are_refused(tokens: Seq<class::TokenView>, i: int)
    requires
        0 <= i < tokens.len() - 1,
        tokens[i] is Dash,
        tokens[i + 1] is Dash,
    ensures
        class::token_ranges(tokens) is Err,
    decreases tokens.len(),
{
    if class::starts_with_range(tokens) {
        assert(i >= 3);
        law_consecutive_dashes_are_refused(tokens.skip(3), i - 3);
    } else if i > 0 {
        law_consecutive_dashes_are_refused(tokens.skip(1), i - 1);
    }
}

/// What the tokens match when none of them forms a range with its neighbours.
pub open spec fn lone_tokens(tokens: Seq<class::TokenView>) -> Seq<PatternRange>
    decreases tokens.len(),
{
    if tokens.len() == 0 {
        seq![]
    } else {
        class::lone_token(tokens[0]) + lone_tokens(tokens.skip(1))
    }
}

/// An unescaped hyphen is a range operator only between two literal bytes: where no
/// hyphen stands so, and no two stand together, each token is taken for itself, the
/// hyphens as hyphens.
pub proof fn law_hyphen_is_literal_outside_ranges(tokens: Seq<class::TokenView>)
    requires
        forall|i: int|
            #![trigger tokens[i]]
            0 <= i < tokens.len() ==> !class::starts_with_range(tokens.skip(i)),
        forall|i: int|
            #![trigger tokens[i]]
            0 <= i < tokens.len() - 1 ==> !(tokens[i] is Dash && tokens[i + 1] is Dash),
    ensures
        class::token_ranges(tokens) == Ok::<Seq<PatternRange>, class::ClassFault>(
            lone_tokens(tokens),
        ),
    decreases tokens.len(),
{
    if tokens.len() > 0 {
        assert(tokens.skip(0) =~= tokens);
        assert(tokens[0] == tokens[0]);
        let rest = tokens.skip(1);
        assert forall|i: int| #![trigger rest[i]] 0 <= i < rest.len() implies
            !class::starts_with_range(rest.skip(i)) by {
            assert(rest.skip(i) =~= tokens.skip(i + 1));
            assert(tokens[i + 1] == rest[i]);
        }
        assert forall|i: int| #![trigger rest[i]] 0 <= i < rest.len() - 1 implies !(
        rest[i] is Dash && rest[i + 1] is Dash) by {
            assert(tokens[i + 1] == rest[i]);
        }
        law_hyphen_is_literal_outside_ranges(rest);
    }
}

/// The class that lists `bytes` one by one.
pub open spec fn singles(bytes: Seq<u8>) -> Seq<PatternRange> {
    bytes.map_values(|b: u8| PatternRange::Single(b))
}

proof fn lemma_plain_tokens(bytes: Seq<u8>)
    requires
        forall|i: int|
            0 <= i < bytes.len() ==> #[trigger] bytes[i] != '\\' as u8 && bytes[i] != '-' as u8,
    ensures
        class::class_tokens(bytes) matches Ok(tokens) && class::token_ranges(tokens) == Ok::<
            Seq<PatternRange>,
            class::ClassFault,
        >(singles(bytes)) && tokens.len() == bytes.len() && (forall|i: int|
            0 <= i < tokens.len() ==> #[trigger] tokens[i] is Byte),
    decreases bytes.len(),
{
    if bytes.len() == 0 {
        assert(singles(bytes) =~= seq![]);
    } else {
        let rest = bytes.skip(1);
        lemma_plain_tokens(rest);
        let tail = class::class_tokens(rest)->Ok_0;
        let tokens = seq![class::TokenView::Byte(bytes[0])] + tail;
        assert(class::class_tokens(bytes) == Ok::<Seq<class::TokenView>, class::ClassFault>(
            tokens,
        ));
        assert forall|i: int| 0 <= i < tokens.len() implies #[trigger] tokens[i] is Byte by {
            if i > 0 {
                assert(tokens[i] == tail[i - 1]);
            }
        }
        assert(!class::starts_with_range(tokens)) by {
            if tokens.len() >= 2 {
                assert(tokens[1] is Byte);
            }
        }
        assert(tokens.skip(1) =~= tail);
        assert(singles(bytes) =~= class::lone_token(tokens[0]) + singles(rest));
    }
}

/// A class without backslash and hyphen, in ASCII or in bytes that are no text,
/// lists its bytes: it is accepted, keeps them in order, and matches exactly them.
pub proof fn law_plain_class_lists_its_bytes(bytes: Seq<u8>)
    requires
        forall|i: int|
            0 <= i < bytes.len() ==> #[trigger] bytes[i] != '\\' as u8 && bytes[i] != '-' as u8,
        !(vstd::utf8::valid_utf8(bytes) && class::has_non_ascii(bytes)),
    ensures
        class::class_ranges(bytes) == Ok::<Seq<PatternRange>, class::ClassFault>(singles(bytes)),
        forall|b: u8| class::matches_byte(singles(bytes), b) <==> bytes.contains(b),
{
    lemma_plain_tokens(bytes);
    assert forall|b: u8| class::matches_byte(singles(bytes), b) <==> bytes.contains(b) by {
        let ranges = singles(bytes);
        if class::matches_byte(ranges, b) {
            let i = choose|i: int| 0 <= i < ranges.len() && (#[trigger] ranges[i]).covers(b);
            assert(bytes[i] == b);
        }
        if bytes.contains(b) {
            let i = choose|i: int| 0 <= i < bytes.len() && bytes[i] == b;
            assert(ranges[i].covers(b));
        }
    }
}

/// Two plain bytes round a hyphen are the inclusive range between them, or a refusal
/// where the first is the greater.
pub proof fn law_two_endpoints_make_a_range(lo: u8, hi: u8)
    requires
        lo != '\\' as u8 && lo != '-' as u8,
        hi != '\\' as u8 && hi != '-' as u8,
        !(vstd::utf8::valid_utf8(seq![lo, '-' as u8, hi]) && class::has_non_ascii(
            seq![lo, '-' as u8, hi],
        )),
    ensures
        class::class_ranges(seq![lo, '-' as u8, hi]) == if lo <= hi {
            Ok(seq![PatternRange::Span(lo, hi)])
        } else {
            Err(class::ClassFault::ReversedRange)
        },
{
    let bytes = seq![lo, '-' as u8, hi];
    reveal_with_fuel(class::class_tokens, 4);
    reveal_with_fuel(class::token_ranges, 2);
    assert(bytes.skip(1) =~= seq!['-' as u8, hi]);
    assert(bytes.skip(1).skip(1) =~= seq![hi]);
    assert(bytes.skip(1).skip(1).skip(1) =~= seq![]);
    let tokens = class::class_tokens(bytes)->Ok_0;
    assert(tokens =~= seq![
        class::TokenView::Byte(lo),
        class::TokenView::Dash,
        class::TokenView::Byte(hi),
    ]);
    assert(tokens.skip(3) =~= seq![]);
    if lo <= hi {
        assert(class::token_ranges(tokens)->Ok_0 =~= seq![PatternRange::Span(lo, hi)]);
    }
}

/// The bytes that a pre-expanded escape matches.
pub open spec fn escape_matches(c: u8, b: u8) -> bool {
    class::escape_token(c) matches Ok(t) && class::matches_byte(class::lone_token(t), b)
}

/// `\d` matches the decimal digits, `\s` the ASCII white space (tab, line feed,
/// vertical tab, form feed, carriage return and space), `\w` the letters, the digits
/// and the underscore, and none of them anything else.
pub proof fn law_class_escapes_match_their_sets(b: u8)
    ensures
        escape_matches('d' as u8, b) <==> '0' as u8 <= b <= '9' as u8,
        escape_matches('s' as u8, b) <==> ('\t' as u8 <= b <= '\r' as u8 || b == ' ' as u8),
        escape_matches('w' as u8, b) <==> ('a' as u8 <= b <= 'z' as u8 || 'A' as u8 <= b
            <= 'Z' as u8 || '0' as u8 <= b <= '9' as u8 || b == '_' as u8),
{
    let d = seq![PatternRange::Span('0' as u8, '9' as u8)];
    let s = seq![PatternRange::Span('\t' as u8, '\r' as u8), PatternRange::Single(' ' as u8)];
    let w = seq![
        PatternRange::Span('a' as u8, 'z' as u8),
        PatternRange::Span('A' as u8, 'Z' as u8),
        PatternRange::Span('0' as u8, '9' as u8),
        PatternRange::Single('_' as u8),
    ];
    assert(class::matches_byte(d, b) <==> d[0].covers(b));
    assert(class::matches_byte(s, b) <==> s[0].covers(b) || s[1].covers(b));
    assert(class::matches_byte(w, b) <==> w[0].covers(b) || w[1].covers(b) || w[2].covers(b)
        || w[3].covers(b));
}

/// Ranges that each token contributes at most.
spec fn token_weight(t: class::TokenView) -> nat {
    class::lone_token(t).len()
}

spec fn total_weight(tokens: Seq<class::TokenView>) -> nat
    decreases tokens.len(),
{
    if tokens.len() == 0 {
        0
    } else {
        token_weight(tokens[0]) + total_weight(tokens.skip(1))
    }
}

proof fn lemma_weight_of_class(bytes: Seq<u8>)
    ensures
        class::class_tokens(bytes) matches Ok(tokens) ==> total_weight(tokens) <= 2 * bytes.len(),
    decreases bytes.len(),
{
    if bytes.len() > 0 {
        match class::first_token(bytes) {
            Err(_) => {},
            Ok((t, n)) => {
                lemma_weight_of_class(bytes.skip(n));
                if class::class_tokens(bytes.skip(n)) is Ok {
                    let rest = class::class_tokens(bytes.skip(n))->Ok_0;
                    assert((seq![t] + rest).skip(1) =~= rest);
                    assert(token_weight(t) <= 2 * n);
                }
            },
        }
    }
}

proof fn lemma_ranges_within_weight(tokens: Seq<class::TokenView>)
    ensures
        class::token_ranges(tokens) matches Ok(ranges) ==> ranges.len() <= total_weight(tokens),
    decreases tokens.len(),
{
    if tokens.len() > 0 {
        if class::starts_with_range(tokens) {
            lemma_ranges_within_weight(tokens.skip(3));
            assert(tokens.skip(1).skip(1) =~= tokens.skip(2));
            assert(tokens.skip(2).skip(1) =~= tokens.skip(3));
            assert(total_weight(tokens) >= 1 + total_weight(tokens.skip(3))) by {
                reveal_with_fuel(total_weight, 4);
            }
        } else {
            lemma_ranges_within_weight(tokens.skip(1));
        }
    }
}

/// A class is read as at most two ranges per byte.
pub proof fn law_class_has_at_most_two_ranges_per_byte(bytes: Seq<u8>)
    ensures
        class::class_ranges(bytes) matches Ok(ranges) ==> ranges.len() <= 2 * bytes.len(),
{
    lemma_weight_of_class(bytes);
    if class::class_tokens(bytes) is Ok {
        lemma_ranges_within_weight(class::class_tokens(bytes)->Ok_0);
    }
}

/// A class of up to 1023 bytes, if it is accepted, compiles within the instruction limit.
pub proof fn law_short_classes_fit_the_limit(bytes: Seq<u8>)
    requires
        bytes.len() <= 1023,
    ensures
        class::class_ranges(bytes) matches Ok(ranges) ==> limits::class_program_len(ranges.len())
            <= limits::MAX_BPF_INSTRUCTION_LEN,
{
    law_class_has_at_most_two_ranges_per_byte(bytes);
}

/// A list of ranges matches what its elements match: a single byte itself, a span the bytes
/// between its bounds, no element nothing, and two lists joined what either matches.
pub proof fn law_list_matches_what_its_elements_match(
    first: Seq<PatternRange>,
    second: Seq<PatternRange>,
    lo: u8,
    hi: u8,
    b: u8,
)
    ensures
        !class::matches_byte(seq![], b),
        class::matches_byte(seq![PatternRange::Single(lo)], b) <==> b == lo,
        class::matches_byte(seq![PatternRange::Span(lo, hi)], b) <==> lo <= b <= hi,
        class::matches_byte(first + second, b) <==> class::matches_byte(first, b)
            || class::matches_byte(second, b),
{
    let one = seq![PatternRange::Single(lo)];
    let span = seq![PatternRange::Span(lo, hi)];
    assert(one[0].covers(b) <==> b == lo);
    assert(span[0].covers(b) <==> lo <= b <= hi);
    let both = first + second;
    if class::matches_byte(first, b) {
        let i = choose|i: int| 0 <= i < first.len() && (#[trigger] first[i]).covers(b);
        assert(both[i].covers(b));
    }
    if class::matches_byte(second, b) {
        let i = choose|i: int| 0 <= i < second.len() && (#[trigger] second[i]).covers(b);
        assert(both[i + first.len()].covers(b));
    }
    if class::matches_byte(both, b) {
        let i = choose|i: int| 0 <= i < both.len() && (#[trigger] both[i]).covers(b);
        if i < first.len() {
            assert(first[i].covers(b));
        } else {
            assert(second[i - first.len()].covers(b));
        }
    }
}

/// Two literal bytes round a hyphen are one range, whatever follows them: the class matches
/// the bytes between the two and what the rest matches, and is refused where the first is
/// the greater or the rest is refused.
pub proof fn law_range_is_read_before_any_rest(
    lo: u8,
    hi: u8,
    rest: Seq<class::TokenView>,
    b: u8,
)
    ensures
        ({
            let tokens = seq![
                class::TokenView::Byte(lo),
                class::TokenView::Dash,
                class::TokenView::Byte(hi),
            ] + rest;
            if lo > hi {
                class::token_ranges(tokens) == Err::<Seq<PatternRange>, class::ClassFault>(
                    class::ClassFault::ReversedRange,
                )
            } else {
                match class::token_ranges(rest) {
                    Err(f) => class::token_ranges(tokens) == Err::<
                        Seq<PatternRange>,
                        class::ClassFault,
                    >(f),
                    Ok(r) => class::token_ranges(tokens) matches Ok(all) && all == seq![
                        PatternRange::Span(lo, hi),
                    ] + r && (class::matches_byte(all, b) <==> lo <= b <= hi
                        || class::matches_byte(r, b)),
                }
            }
        }),
{
    let tokens = seq![
        class::TokenView::Byte(lo),
        class::TokenView::Dash,
        class::TokenView::Byte(hi),
    ] + rest;
    assert(tokens[0] == class::TokenView::Byte(lo));
    assert(tokens[1] is Dash);
    assert(tokens[2] == class::TokenView::Byte(hi));
    assert(tokens.skip(3) =~= rest);
    if class::token_ranges(rest) is Ok {
        let r = class::token_ranges(rest)->Ok_0;
        law_list_matches_what_its_elements_match(seq![PatternRange::Span(lo, hi)], r, lo, hi, b);
    }
}

/// A token that forms no range with those behind it is read by itself, whatever follows: a
/// literal byte as that byte, a hyphen as a hyphen, an escape as what it stands for.
pub proof fn law_other_token_is_read_before_any_rest(
    token: class::TokenView,
    rest: Seq<class::TokenView>,
    b: u8,
)
    requires
        !(token is Byte && rest.len() >= 2 && rest[0] is Dash && rest[1] is Byte),
        !(token is Dash && rest.len() >= 1 && rest[0] is Dash),
    ensures
        class::token_ranges(seq![]) == Ok::<Seq<PatternRange>, class::ClassFault>(seq![]),
        ({
            let own = match token {
                class::TokenView::Byte(literal) => seq![PatternRange::Single(literal)],
                class::TokenView::Dash => seq![PatternRange::Single(0x2d)],
                class::TokenView::Class(c) => c,
            };
            match class::token_ranges(rest) {
                Err(f) => class::token_ranges(seq![token] + rest) == Err::<
                    Seq<PatternRange>,
                    class::ClassFault,
                >(f),
                Ok(r) => class::token_ranges(seq![token] + rest) matches Ok(all) && all == own + r
                    && (class::matches_byte(all, b) <==> class::matches_byte(own, b)
                    || class::matches_byte(r, b)),
            }
        }),
{
    let tokens = seq![token] + rest;
    assert(tokens.skip(1) =~= rest);
    assert(tokens[0] == token);
    assert(rest.len() >= 1 ==> tokens[1] == rest[0]);
    assert(rest.len() >= 2 ==> tokens[2] == rest[1]);
    if class::token_ranges(rest) is Ok {
        let r = class::token_ranges(rest)->Ok_0;
        law_list_matches_what_its_elements_match(class::lone_token(token), r, b, b, b);
    }
}

/// Where two unescaped hyphens come next, that is the reason of the refusal, whatever
/// follows them.
pub proof fn law_two_dashes_are_the_fault(rest: Seq<class::TokenView>)
    ensures
        class::token_ranges(seq![class::TokenView::Dash, class::TokenView::Dash] + rest) == Err::<
            Seq<PatternRange>,
            class::ClassFault,
        >(class::ClassFault::ConsecutiveDashes),
{
    let tokens = seq![class::TokenView::Dash, class::TokenView::Dash] + rest;
    assert(tokens[0] is Dash && tokens[1] is Dash);
}

/// The parts of a token list are read independently of each other where no hyphen stands at
/// the seam: the first part's ranges, then the second's.
pub proof fn law_parts_are_read_independently(
    first: Seq<class::TokenView>,
    second: Seq<class::TokenView>,
)
    requires
        first.len() > 0 ==> !(first.last() is Dash),
        second.len() > 0 ==> !(second[0] is Dash),
    ensures
        class::token_ranges(first + second) == match class::token_ranges(first) {
            Err(f) => Err(f),
            Ok(r) => match class::token_ranges(second) {
                Err(f) => Err(f),
                Ok(t) => Ok(r + t),
            },
        },
    decreases first.len(),
{
    let both = first + second;
    if first.len() == 0 {
        assert(both =~= second);
        if class::token_ranges(second) is Ok {
            assert(Seq::<PatternRange>::empty() + class::token_ranges(second)->Ok_0
                =~= class::token_ranges(second)->Ok_0);
        }
    } else {
        let n: int = if class::starts_with_range(first) {
            3
        } else {
            1
        };
        assert(both[0] == first[0]);
        assert(first.len() >= 2 ==> both[1] == first[1]);
        assert(first.len() >= 3 ==> both[2] == first[2]);
        assert(class::starts_with_range(first) == class::starts_with_range(both)) by {
            if first.len() == 1 && second.len() > 0 {
                assert(both[1] == second[0]);
            }
            if first.len() == 2 {
                assert(both[1] == first.last());
            }
        }
        if first.len() == 1 && second.len() > 0 {
            assert(both[1] == second[0]);
        }
        let rest = first.skip(n);
        assert(both.skip(n) =~= rest + second);
        if rest.len() > 0 {
            assert(rest.last() == first.last());
        }
        law_parts_are_read_independently(rest, second);
        if class::token_ranges(rest) is Ok && class::token_ranges(second) is Ok {
            let r = class::token_ranges(rest)->Ok_0;
            let t = class::token_ranges(second)->Ok_0;
            if n == 3 {
                let span = seq![PatternRange::Span(first[0]->Byte_0, first[2]->Byte_0)];
                assert(span + (r + t) =~= (span + r) + t);
            } else {
                let own = class::lone_token(first[0]);
                assert(own + (r + t) =~= (own + r) + t);
            }
        }
    }
}

/// Where a class begins with a byte that is no backslash, that byte is the first token, a
/// hyphen as an operator and any other as itself, and the rest is scanned as if it stood
/// alone.
pub proof fn law_byte_is_scanned_before_any_rest(b: u8, rest: Seq<u8>)
    requires
        b != 0x5c,
    ensures
        class::class_tokens(seq![]) == Ok::<Seq<class::TokenView>, class::ClassFault>(seq![]),
        match class::class_tokens(rest) {
            Err(f) => class::class_tokens(seq![b] + rest) == Err::<
                Seq<class::TokenView>,
                class::ClassFault,
            >(f),
            Ok(tokens) => {
                &&& b == 0x2d ==> class::class_tokens(seq![b] + rest) == Ok::<_, class::ClassFault>(
                    seq![class::TokenView::Dash] + tokens,
                )
                &&& b != 0x2d ==> class::class_tokens(seq![b] + rest) == Ok::<_, class::ClassFault>(
                    seq![class::TokenView::Byte(b)] + tokens,
                )
            },
        },
{
    assert((seq![b] + rest).skip(1) =~= rest);
}

/// A backslash takes the byte behind it, and no other, into one token; where that byte makes
/// no escape, or there is none, the class is refused for it.
pub proof fn law_escape_is_scanned_before_any_rest(c: u8, rest: Seq<u8>)
    ensures
        class::class_tokens(seq![0x5cu8]) == Err::<Seq<class::TokenView>, class::ClassFault>(
            class::ClassFault::UnterminatedEscape,
        ),
        class::class_tokens(seq![0x5cu8, c] + rest) == match class::escape_token(c) {
            Err(f) => Err(f),
            Ok(t) => match class::class_tokens(rest) {
                Err(f) => Err(f),
                Ok(tokens) => Ok(seq![t] + tokens),
            },
        },
{
    let all = seq![0x5cu8, c] + rest;
    assert(all[0] == 0x5c && all[1] == c);
    assert(all.skip(2) =~= rest);
}

/// What each escape is: three control characters by their letters, five marks for
/// themselves, three sets, three negations that are refused as such, and nothing else.
pub proof fn law_every_escape_is_accounted_for(c: u8)
    ensures
        c == 0x6e ==> class::escape_token(c) == Ok::<_, class::ClassFault>(
            class::TokenView::Byte(10),
        ),
        c == 0x72 ==> class::escape_token(c) == Ok::<_, class::ClassFault>(
            class::TokenView::Byte(13),
        ),
        c == 0x74 ==> class::escape_token(c) == Ok::<_, class::ClassFault>(
            class::TokenView::Byte(9),
        ),
        seq![0x5cu8, 0x5du8, 0x5bu8, 0x2du8, 0x2eu8].contains(c) ==> class::escape_token(c)
            == Ok::<_, class::ClassFault>(class::TokenView::Byte(c)),
        seq![0x64u8, 0x73u8, 0x77u8].contains(c) <==> class::escape_token(
            c,
        ) matches Ok(class::TokenView::Class(_)),
        seq![0x44u8, 0x53u8, 0x57u8].contains(c) <==> class::escape_token(c) == Err::<
            class::TokenView,
            _,
        >(class::ClassFault::NegatedEscape),
        seq![
            0x6eu8,
            0x72u8,
            0x74u8,
            0x5cu8,
            0x5du8,
            0x5bu8,
            0x2du8,
            0x2eu8,
            0x64u8,
            0x73u8,
            0x77u8,
            0x44u8,
            0x53u8,
            0x57u8,
        ].contains(c) || class::escape_token(c) == Err::<class::TokenView, _>(
            class::ClassFault::UnknownEscape,
        ),
{
    let marks = seq![0x5cu8, 0x5du8, 0x5bu8, 0x2du8, 0x2eu8];
    assert(marks.contains(c) <==> c == marks[0] || c == marks[1] || c == marks[2] || c == marks[3]
        || c == marks[4]);
    let sets = seq![0x64u8, 0x73u8, 0x77u8];
    assert(sets.contains(c) <==> c == sets[0] || c == sets[1] || c == sets[2]);
    let negated = seq![0x44u8, 0x53u8, 0x57u8];
    assert(negated.contains(c) <==> c == negated[0] || c == negated[1] || c == negated[2]);
    let all = seq![
        0x6eu8,
        0x72u8,
        0x74u8,
        0x5cu8,
        0x5du8,
        0x5bu8,
        0x2du8,
        0x2eu8,
        0x64u8,
        0x73u8,
        0x77u8,
        0x44u8,
        0x53u8,
        0x57u8,
    ];
    assert(c == all[0] || c == all[1] || c == all[2] || c == all[3] || c == all[4] || c == all[5]
        || c == all[6] || c == all[7] || c == all[8] || c == all[9] || c == all[10] || c == all[11]
        || c == all[12] || c == all[13] ==> all.contains(c));
}

proof fn lemma_no_escape_is_beyond_ascii(bytes: Seq<u8>)
    ensures
        class::class_tokens(bytes) != Err::<Seq<class::TokenView>, class::ClassFault>(
            class::ClassFault::NonAscii,
        ),
    decreases bytes.len(),
{
    if bytes.len() > 0 && class::first_token(bytes) is Ok {
        lemma_no_escape_is_beyond_ascii(bytes.skip(class::first_token(bytes)->Ok_0.1));
    }
}

proof fn lemma_no_token_is_beyond_ascii(tokens: Seq<class::TokenView>)
    ensures
        class::token_ranges(tokens) != Err::<Seq<PatternRange>, class::ClassFault>(
            class::ClassFault::NonAscii,
        ),
    decreases tokens.len(),
{
    if tokens.len() > 0 {
        if class::starts_with_range(tokens) {
            lemma_no_token_is_beyond_ascii(tokens.skip(3));
        } else {
            lemma_no_token_is_beyond_ascii(tokens.skip(1));
        }
    }
}

/// A class is refused as text beyond ASCII exactly where it is valid UTF-8 with some byte of
/// 128 or more. Any other is read by its tokens.
pub proof fn law_only_text_beyond_ascii_is_refused_for_it(bytes: Seq<u8>)
    ensures
        class::class_ranges(bytes) == Err::<Seq<PatternRange>, class::ClassFault>(
            class::ClassFault::NonAscii,
        ) <==> vstd::utf8::valid_utf8(bytes) && (exists|i: int|
            0 <= i < bytes.len() && bytes[i] >= 0x80),
        !(class::class_ranges(bytes) matches Err(class::ClassFault::NonAscii))
            ==> class::class_ranges(bytes) == match class::class_tokens(bytes) {
            Err(f) => Err(f),
            Ok(tokens) => class::token_ranges(tokens),
        },
{
    lemma_no_escape_is_beyond_ascii(bytes);
    if class::class_tokens(bytes) is Ok {
        lemma_no_token_is_beyond_ascii(class::class_tokens(bytes)->Ok_0);
    }
}

/// A scanned class has a token for its bytes; its outermost tokens are hyphens only where
/// its outermost bytes are.
proof fn lemma_outer_tokens(bytes: Seq<u8>)
    requires
        class::class_tokens(bytes) is Ok,
        bytes.len() > 0,
    ensures
        class::class_tokens(bytes)->Ok_0.len() > 0,
        class::class_tokens(bytes)->Ok_0[0] is Dash ==> bytes[0] == 0x2d,
        class::class_tokens(bytes)->Ok_0.last() is Dash ==> bytes.last() == 0x2d,
    decreases bytes.len(),
{
    let (t, n) = class::first_token(bytes)->Ok_0;
    let rest = bytes.skip(n);
    let tail = class::class_tokens(rest)->Ok_0;
    assert(class::class_tokens(bytes)->Ok_0 =~= seq![t] + tail);
    if rest.len() > 0 {
        lemma_outer_tokens(rest);
        assert(rest.last() == bytes.last());
    } else {
        assert(tail.len() == 0);
        if t is Dash {
            assert(bytes.last() == bytes[0]);
        }
    }
}

/// What a class matches is the union of what its parts match, wherever they stand: two
/// classes in ASCII written one after the other, with no hyphen at the seam, are read as the
/// ranges of the first and then those of the second.
pub proof fn law_class_is_the_union_of_its_parts(first: Seq<u8>, second: Seq<u8>, b: u8)
    requires
        forall|i: int| 0 <= i < first.len() ==> #[trigger] first[i] < 0x80,
        forall|i: int| 0 <= i < second.len() ==> #[trigger] second[i] < 0x80,
        first.len() > 0 ==> first.last() != 0x2d,
        second.len() > 0 ==> second[0] != 0x2d,
        class::class_ranges(first) is Ok,
        class::class_ranges(second) is Ok,
    ensures
        class::class_ranges(first + second) matches Ok(all) && all == class::class_ranges(
            first,
        )->Ok_0 + class::class_ranges(second)->Ok_0 && (class::matches_byte(all, b)
            <==> class::matches_byte(class::class_ranges(first)->Ok_0, b) || class::matches_byte(
            class::class_ranges(second)->Ok_0,
            b,
        )),
{
    let both = first + second;
    assert forall|i: int| 0 <= i < both.len() implies both[i] < 0x80 by {
        if i < first.len() {
            assert(both[i] == first[i]);
        } else {
            assert(both[i] == second[i - first.len()]);
        }
    }
    law_scanning_is_compositional(first, second);
    let t1 = class::class_tokens(first)->Ok_0;
    let t2 = class::class_tokens(second)->Ok_0;
    if first.len() > 0 {
        lemma_outer_tokens(first);
    }
    if second.len() > 0 {
        lemma_outer_tokens(second);
    }
    law_parts_are_read_independently(t1, t2);
    let r1 = class::class_ranges(first)->Ok_0;
    let r2 = class::class_ranges(second)->Ok_0;
    law_list_matches_what_its_elements_match(r1, r2, b, b, b);
}

/// Two ranges written one after the other match the union of the two.
pub proof fn law_two_ranges_match_either(a: u8, b: u8, c: u8, d: u8, x: u8)
    requires
        a <= b < 0x80,
        c <= d < 0x80,
        a != 0x5c && a != 0x2d && b != 0x5c && b != 0x2d,
        c != 0x5c && c != 0x2d && d != 0x5c && d != 0x2d,
    ensures
        class::class_ranges(seq![a, 0x2d, b, c, 0x2d, d]) matches Ok(ranges) && ranges == seq![
            PatternRange::Span(a, b),
            PatternRange::Span(c, d),
        ] && (class::matches_byte(ranges, x) <==> a <= x <= b || c <= x <= d),
{
    let first = seq![a, 0x2d, b];
    let second = seq![c, 0x2d, d];
    assert(seq![a, 0x2d, b, c, 0x2d, d] =~= first + second);
    assert(forall|i: int| 0 <= i < 3 ==> first[i] < 0x80);
    assert(forall|i: int| 0 <= i < 3 ==> second[i] < 0x80);
    law_two_endpoints_make_a_range(a, b);
    law_two_endpoints_make_a_range(c, d);
    law_class_is_the_union_of_its_parts(first, second, x);
    let one = seq![PatternRange::Span(a, b)];
    let two = seq![PatternRange::Span(c, d)];
    assert(one + two =~= seq![PatternRange::Span(a, b), PatternRange::Span(c, d)]);
    law_list_matches_what_its_elements_match(one, two, a, b, x);
    law_list_matches_what_its_elements_match(one, two, c, d, x);
}

/// The content of a token list is that of its tokens, and that of a token is what it holds.
pub proof fn law_token_content_is_what_it_holds(tokens: Seq<Token>, b: u8, ranges: Vec<PatternRange>)
    ensures
        Token::Byte(b)@ == class::TokenView::Byte(b),
        Token::Dash@ == class::TokenView::Dash,
        Token::Class(ranges)@ == class::TokenView::Class(ranges@),
        class::token_views(tokens).len() == tokens.len(),
        forall|i: int|
            0 <= i < tokens.len() ==> #[trigger] class::token_views(tokens)[i] == tokens[i]@,
{
}

/// An error that reports a fault is a refused pattern, tells that fault's reason and no
/// other, and no two faults are told alike.
pub proof fn law_reported_fault_is_told_by_its_reason(
    e: CompileError,
    f: class::ClassFault,
    g: class::ClassFault,
)
    ensures
        class::reports(e, f) ==> (e matches CompileError::InvalidPattern { reason } && reason@
            == f.reason()),
        class::reports(e, f) && class::reports(e, g) ==> f == g,
{
    reveal_strlit("unterminated character-class escape");
    reveal_strlit("negated character-class escapes are not supported");
    reveal_strlit("unknown character-class escape sequence");
    reveal_strlit("character class range endpoints are reversed");
    reveal_strlit("character class contains consecutive unescaped dashes");
    reveal_strlit(
        "character class contains non-ASCII codepoints; use raw bytes or an escape sequence",
    );
    assert("unterminated character-class escape"@.len() == 35);
    assert("negated character-class escapes are not supported"@.len() == 49);
    assert("unknown character-class escape sequence"@.len() == 39);
    assert("character class range endpoints are reversed"@.len() == 44);
    assert("character class contains consecutive unescaped dashes"@.len() == 53);
    assert(
        "character class contains non-ASCII codepoints; use raw bytes or an escape sequence"@.len()
            == 82);
}

} // verus!
