//! Text helpers: decimal numerals, trimming, and the few conversions that the
//! standard library makes for this crate.

use vstd::prelude::*;
use vstd::string::*;

verus! {

/// The character of a decimal digit.
pub open spec fn digit_char(d: nat) -> char
    recommends
        d < 10,
{
    ('0' as int + d) as char
}

/// The decimal numeral of `n`, without leading zeros.
pub open spec fn decimal(n: nat) -> Seq<char>
    decreases n,
{
    if n < 10 {
        seq![digit_char(n)]
    } else {
        decimal(n / 10).push(digit_char(n % 10))
    }
}

/// The text of a truth value.
pub open spec fn bool_chars(b: bool) -> Seq<char> {
    if b {
        "true"@
    } else {
        "false"@
    }
}

/// The one-character text of a decimal digit.
fn digit_text(d: u64) -> (s: &'static str)
    requires
        d < 10,
    ensures
        s@ == seq![digit_char(d as nat)],
{
    proof {
        reveal_strlit("0");
        reveal_strlit("1");
        reveal_strlit("2");
        reveal_strlit("3");
        reveal_strlit("4");
        reveal_strlit("5");
        reveal_strlit("6");
        reveal_strlit("7");
        reveal_strlit("8");
        reveal_strlit("9");
    }
    let s = match d {
        0 => "0",
        1 => "1",
        2 => "2",
        3 => "3",
        4 => "4",
        5 => "5",
        6 => "6",
        7 => "7",
        8 => "8",
        _ => "9",
    };
    assert(s@ =~= seq![digit_char(d as nat)]);
    s
}

/// The decimal numeral of `n`.
pub fn decimal_text(n: u64) -> (s: String)
    ensures
        s@ == decimal(n as nat),
    decreases n,
{
    if n < 10 {
        digit_text(n).to_owned()
    } else {
        let mut s = decimal_text(n / 10);
        let ghost head = s@;
        s.append(digit_text(n % 10));
        assert(s@ =~= head.push(digit_char((n % 10) as nat)));
        s
    }
}

/// `true` or `false`.
pub fn bool_text(b: bool) -> (s: &'static str)
    ensures
        s@ == bool_chars(b),
        s@ == if b {
            "true"@
        } else {
            "false"@
        },
{
    if b {
        "true"
    } else {
        "false"
    }
}

/// Whether `part` stands somewhere in `s`.
pub open spec fn mentions(s: Seq<char>, part: Seq<char>) -> bool {
    exists|i: int|
        0 <= i <= s.len() - part.len() && #[trigger] s.subrange(i, i + part.len()) == part
}

/// A part that stands at `at` stands somewhere.
pub proof fn lemma_mentions_at(s: Seq<char>, part: Seq<char>, at: int)
    requires
        0 <= at <= s.len() - part.len(),
        s.subrange(at, at + part.len()) == part,
    ensures
        mentions(s, part),
{
}

/// A part is mentioned where the text is something, the part, and something more.
pub proof fn law_mentioned_part_stands_between(s: Seq<char>, part: Seq<char>)
    ensures
        mentions(s, part) <==> exists|a: Seq<char>, b: Seq<char>| s == #[trigger] (a + part + b),
{
    if mentions(s, part) {
        let i = choose|i: int|
            0 <= i <= s.len() - part.len() && #[trigger] s.subrange(i, i + part.len()) == part;
        assert(s =~= s.take(i) + part + s.skip(i + part.len()));
    }
    if exists|a: Seq<char>, b: Seq<char>| s == #[trigger] (a + part + b) {
        let (a, b) = choose|a: Seq<char>, b: Seq<char>| s == #[trigger] (a + part + b);
        let i = a.len() as int;
        assert(s.subrange(i, i + part.len()) =~= part);
    }
}

/// Which characters a trim removes.
#[derive(Clone, Copy)]
pub enum TrimSet {
    /// The characters with the Unicode property White_Space.
    WhiteSpace,
    /// The NUL character.
    Nul,
}

impl TrimSet {
    /// Whether `c` is removed.
    pub open spec fn has(self, c: char) -> bool {
        match self {
            TrimSet::WhiteSpace => is_white_space(c),
            TrimSet::Nul => c == '\0',
        }
    }

    fn contains(self, c: char) -> (b: bool)
        ensures
            b == self.has(c),
    {
        match self {
            TrimSet::WhiteSpace => white_space(c),
            TrimSet::Nul => c == '\0',
        }
    }
}

/// Whether `c` has the Unicode property White_Space.
pub open spec fn is_white_space(c: char) -> bool {
    let u = c as u32;
    ||| 0x9 <= u <= 0xd
    ||| u == 0x20
    ||| u == 0x85
    ||| u == 0xa0
    ||| u == 0x1680
    ||| 0x2000 <= u <= 0x200a
    ||| u == 0x2028
    ||| u == 0x2029
    ||| u == 0x202f
    ||| u == 0x205f
    ||| u == 0x3000
}

fn white_space(c: char) -> (b: bool)
    ensures
        b == is_white_space(c),
{
    let u = c as u32;
    (0x9 <= u && u <= 0xd) || u == 0x20 || u == 0x85 || u == 0xa0 || u == 0x1680 || (0x2000 <= u
        && u <= 0x200a) || u == 0x2028 || u == 0x2029 || u == 0x202f || u == 0x205f || u == 0x3000
}

/// `s` without the leading characters of `set`.
pub open spec fn trim_front(s: Seq<char>, set: TrimSet) -> Seq<char>
    decreases s.len(),
{
    if s.len() > 0 && set.has(s[0]) {
        trim_front(s.skip(1), set)
    } else {
        s
    }
}

/// `s` without the trailing characters of `set`.
pub open spec fn trim_back(s: Seq<char>, set: TrimSet) -> Seq<char>
    decreases s.len(),
{
    if s.len() > 0 && set.has(s.last()) {
        trim_back(s.drop_last(), set)
    } else {
        s
    }
}

/// `s` without the leading and the trailing characters of `set`.
pub open spec fn trimmed(s: Seq<char>, set: TrimSet) -> Seq<char> {
    trim_back(trim_front(s, set), set)
}

/// The characters of `s`.
pub(crate) fn chars_of(s: &str) -> (v: Vec<char>)
    ensures
        v@ == s@,
{
    let n = s.unicode_len();
    let mut v: Vec<char> = Vec::new();
    let mut it = s.chars();
    while v.len() < n
        invariant
            n == s@.len(),
            v@.len() <= n,
            v@ == s@.take(v@.len() as int),
            vstd::std_specs::iter::IteratorSpec::remaining(&it) == s@.skip(v@.len() as int),
            vstd::std_specs::iter::IteratorSpec::obeys_prophetic_iter_laws(&it),
        decreases n - v@.len(),
    {
        let ghost k = v@.len() as int;
        match it.next() {
            Some(c) => {
                v.push(c);
                assert(v@ =~= s@.take(k + 1));
                assert(s@.skip(k).drop_first() =~= s@.skip(k + 1));
            },
            None => {
                assert(false);
            },
        }
    }
    assert(s@.take(n as int) =~= s@);
    v
}

/// `s` without the leading and the trailing characters of `set`.
pub fn trim(s: &str, set: TrimSet) -> (t: &str)
    ensures
        t@ == trimmed(s@, set),
{
    let v = chars_of(s);
    let mut from: usize = 0;
    assert(s@.skip(0) =~= s@);
    while from < v.len() && set.contains(v[from])
        invariant
            from <= v@.len(),
            v@ == s@,
            trim_front(s@, set) == trim_front(s@.skip(from as int), set),
        decreases v@.len() - from,
    {
        assert(s@.skip(from as int).skip(1) =~= s@.skip(from + 1));
        from += 1;
    }
    let ghost front = s@.skip(from as int);
    assert(trim_front(s@, set) == front);
    let mut to: usize = v.len();
    assert(front =~= s@.subrange(from as int, to as int));
    while from < to && set.contains(v[to - 1])
        invariant
            from <= to <= v@.len(),
            v@ == s@,
            trim_back(front, set) == trim_back(s@.subrange(from as int, to as int), set),
        decreases to,
    {
        assert(s@.subrange(from as int, to as int).drop_last() =~= s@.subrange(
            from as int,
            to - 1,
        ));
        to -= 1;
    }
    s.substring_char(from, to)
}

/// A trim leaves no character of its set at either end, and takes away nothing but a
/// prefix and a suffix made of such characters.
pub proof fn law_trim_removes_exactly_the_ends(s: Seq<char>, set: TrimSet)
    ensures
        trimmed(s, set).len() > 0 ==> !set.has(trimmed(s, set)[0]) && !set.has(
            trimmed(s, set).last(),
        ),
        exists|a: Seq<char>, b: Seq<char>|
            s == #[trigger] (a + trimmed(s, set) + b) && (forall|i: int|
                0 <= i < a.len() ==> set.has(#[trigger] a[i])) && (forall|i: int|
                0 <= i < b.len() ==> set.has(#[trigger] b[i])),
{
    let front = trim_front(s, set);
    let a = lemma_trim_front(s, set);
    let b = lemma_trim_back(front, set);
    assert(s =~= a + trimmed(s, set) + b);
    if trimmed(s, set).len() > 0 {
        assert(trimmed(s, set)[0] == front[0]);
    }
}

/// Characters of the set behind a text do not change what a trim leaves of it.
pub proof fn law_trailing_padding_is_dropped(s: Seq<char>, padding: Seq<char>, set: TrimSet)
    requires
        forall|i: int| 0 <= i < padding.len() ==> set.has(#[trigger] padding[i]),
    ensures
        trimmed(s + padding, set) == trimmed(s, set),
{
    lemma_trim_front_padded(s, padding, set);
    lemma_trim_back_padded(trim_front(s, set), padding, set);
}

proof fn lemma_trim_front_padded(s: Seq<char>, padding: Seq<char>, set: TrimSet)
    requires
        forall|i: int| 0 <= i < padding.len() ==> set.has(#[trigger] padding[i]),
    ensures
        trim_front(s + padding, set) == if trim_front(s, set).len() == 0 {
            Seq::empty()
        } else {
            trim_front(s, set) + padding
        },
    decreases s.len() + padding.len(),
{
    if s.len() == 0 {
        assert(s + padding =~= padding);
        if padding.len() > 0 {
            let rest = padding.skip(1);
            assert forall|i: int| 0 <= i < rest.len() implies set.has(#[trigger] rest[i]) by {
                assert(rest[i] == padding[i + 1]);
            }
            lemma_trim_front_padded(s, rest, set);
            assert(s + rest =~= rest);
        } else {
            assert(padding =~= Seq::empty());
        }
    } else if set.has(s[0]) {
        assert((s + padding).skip(1) =~= s.skip(1) + padding);
        lemma_trim_front_padded(s.skip(1), padding, set);
    }
}

proof fn lemma_trim_back_padded(s: Seq<char>, padding: Seq<char>, set: TrimSet)
    requires
        forall|i: int| 0 <= i < padding.len() ==> set.has(#[trigger] padding[i]),
    ensures
        trim_back(s + padding, set) == trim_back(s, set),
    decreases padding.len(),
{
    if padding.len() == 0 {
        assert(s + padding =~= s);
    } else {
        assert((s + padding).drop_last() =~= s + padding.drop_last());
        lemma_trim_back_padded(s, padding.drop_last(), set);
    }
}

proof fn lemma_trim_front(s: Seq<char>, set: TrimSet) -> (a: Seq<char>)
    ensures
        s == a + trim_front(s, set),
        forall|i: int| 0 <= i < a.len() ==> set.has(#[trigger] a[i]),
        trim_front(s, set).len() > 0 ==> !set.has(trim_front(s, set)[0]),
    decreases s.len(),
{
    if s.len() > 0 && set.has(s[0]) {
        let rest = lemma_trim_front(s.skip(1), set);
        let a = seq![s[0]] + rest;
        let kept = trim_front(s.skip(1), set);
        assert(s =~= seq![s[0]] + s.skip(1));
        assert(a + kept =~= seq![s[0]] + (rest + kept));
        a
    } else {
        assert(s =~= Seq::<char>::empty() + s);
        Seq::empty()
    }
}

proof fn lemma_trim_back(s: Seq<char>, set: TrimSet) -> (b: Seq<char>)
    ensures
        s == trim_back(s, set) + b,
        forall|i: int| 0 <= i < b.len() ==> set.has(#[trigger] b[i]),
        trim_back(s, set).len() > 0 ==> !set.has(trim_back(s, set).last()),
    decreases s.len(),
{
    if s.len() > 0 && set.has(s.last()) {
        let rest = lemma_trim_back(s.drop_last(), set);
        let b = rest.push(s.last());
        let kept = trim_back(s.drop_last(), set);
        assert(s =~= s.drop_last().push(s.last()));
        assert(kept + b =~= (kept + rest).push(s.last()));
        b
    } else {
        assert(s =~= s + Seq::<char>::empty());
        Seq::empty()
    }
}

/// Whether `bytes` is valid UTF-8.
///
/// The body calls `std::str::from_utf8`, which returns `Ok` exactly on valid UTF-8;
/// that it agrees with `vstd::utf8::valid_utf8` is taken on trust.
#[verifier::external_body]
pub(crate) fn is_valid_utf8(bytes: &[u8]) -> (valid: bool)
    ensures
        valid == vstd::utf8::valid_utf8(bytes@),
{
    std::str::from_utf8(bytes).is_ok()
}

/// The text that `String::from_utf8_lossy` makes of some bytes.
pub uninterp spec fn lossy_chars(bytes: Seq<u8>) -> Seq<char>;

/// The text of `bytes`, with whatever is not UTF-8 replaced.
///
/// The body calls `String::from_utf8_lossy`. Its result is named [`lossy_chars`];
/// beside that, valid UTF-8 comes out as the text that it encodes. What stands for
/// invalid sequences is not said.
#[verifier::external_body]
pub(crate) fn lossy_text(bytes: &[u8]) -> (s: String)
    ensures
        s@ == lossy_chars(bytes@),
        vstd::utf8::valid_utf8(bytes@) ==> s@ == vstd::utf8::decode_utf8(bytes@),
{
    String::from_utf8_lossy(bytes).into_owned()
}

/// The text that the `{:?}` format gives a string.
pub uninterp spec fn quoted_chars(s: Seq<char>) -> Seq<char>;

/// `s` in quotes, with special characters escaped.
///
/// The body formats `s` with `{:?}`, the `Debug` output of `str`, whose result is
/// named [`quoted_chars`]. Which characters are escaped, and how, is not said.
#[verifier::external_body]
pub(crate) fn quoted_text(s: &str) -> (q: String)
    ensures
        q@ == quoted_chars(s@),
{
    format!("{:?}", s)
}

/// The decimal numeral of `n` has at place `k`, counted from its end, the digit that `n` has
/// there, goes as far as `n` does, and begins with a zero only where it is nothing else.
pub proof fn law_decimal_has_the_digits_of_its_number(n: nat, k: nat)
    ensures
        decimal(n).len() > 0,
        k < decimal(n).len() ==> decimal(n)[decimal(n).len() - 1 - k] as int == 48 + n as int
            / vstd::arithmetic::power::pow(10, k) % 10,
        n < vstd::arithmetic::power::pow(10, decimal(n).len()),
        decimal(n).len() > 1 ==> vstd::arithmetic::power::pow(10, (decimal(n).len() - 1) as nat)
            <= n,
    decreases n,
{
    let d = decimal(n);
    vstd::arithmetic::power::lemma_pow0(10);
    vstd::arithmetic::power::lemma_pow1(10);
    if n < 10 {
        assert(k < d.len() ==> k == 0);
    } else {
        let m = n / 10;
        let h = decimal(m);
        assert(d == h.push(digit_char(n % 10)));
        law_decimal_has_the_digits_of_its_number(m, 0);
        let whole = vstd::arithmetic::power::pow(10, h.len());
        assert(vstd::arithmetic::power::pow(10, d.len()) == 10 * whole) by {
            vstd::arithmetic::power::lemma_pow_adds(10, 1, h.len());
        }
        if h.len() > 1 {
            let last = (h.len() - 1) as nat;
            vstd::arithmetic::power::lemma_pow_adds(10, 1, last);
        }
        if 0 < k < d.len() {
            let j = (k - 1) as nat;
            law_decimal_has_the_digits_of_its_number(m, j);
            assert(d[d.len() - 1 - k] == h[h.len() - 1 - j]);
            let p = vstd::arithmetic::power::pow(10, j);
            vstd::arithmetic::power::lemma_pow_positive(10, j);
            vstd::arithmetic::power::lemma_pow_adds(10, 1, j);
            vstd::arithmetic::div_mod::lemma_div_denominator(n as int, 10, p);
        } else if k == 0 {
            assert(d[d.len() - 1] == digit_char(n % 10));
        }
    }
}

/// A truth value is written as the word for it.
pub proof fn law_truth_values_are_words(b: bool)
    ensures
        bool_chars(b).len() == if b {
            4nat
        } else {
            5nat
        },
        bool_chars(b) == seq!['t', 'r', 'u', 'e'] <==> b,
        bool_chars(b) == seq!['f', 'a', 'l', 's', 'e'] <==> !b,
{
    reveal_strlit("true");
    reveal_strlit("false");
    assert("true"@ =~= seq!['t', 'r', 'u', 'e']);
    assert("false"@ =~= seq!['f', 'a', 'l', 's', 'e']);
}

/// A trim takes the NUL, or the twenty-five characters of white space: the six of ASCII, the
/// next line, the no-break spaces, the spaces of the other scripts and of typography, and
/// the two separators.
pub proof fn law_trim_sets_hold_their_characters(c: char)
    ensures
        TrimSet::Nul.has(c) <==> c as u32 == 0,
        TrimSet::WhiteSpace.has(c) <==> set![
            0x9u32,
            0xa,
            0xb,
            0xc,
            0xd,
            0x20,
            0x85,
            0xa0,
            0x1680,
            0x2000,
            0x2001,
            0x2002,
            0x2003,
            0x2004,
            0x2005,
            0x2006,
            0x2007,
            0x2008,
            0x2009,
            0x200a,
            0x2028,
            0x2029,
            0x202f,
            0x205f,
            0x3000,
        ].contains(c as u32),
{
}

/// A text between two runs of a set's characters is what a trim leaves of the three, where
/// it does not itself begin or end with such a character.
pub proof fn law_trim_keeps_what_is_between(
    front: Seq<char>,
    kept: Seq<char>,
    back: Seq<char>,
    set: TrimSet,
)
    requires
        forall|i: int| 0 <= i < front.len() ==> set.has(#[trigger] front[i]),
        forall|i: int| 0 <= i < back.len() ==> set.has(#[trigger] back[i]),
        kept.len() > 0 ==> !set.has(kept[0]) && !set.has(kept.last()),
    ensures
        trimmed(front + kept + back, set) == kept,
    decreases front.len(),
{
    law_trailing_padding_is_dropped(front + kept, back, set);
    if front.len() == 0 {
        assert(front + kept =~= kept);
    } else {
        let rest = front.skip(1);
        assert forall|i: int| 0 <= i < rest.len() implies set.has(#[trigger] rest[i]) by {
            assert(rest[i] == front[i + 1]);
        }
        let all = front + kept;
        assert(all[0] == front[0]);
        assert(all.skip(1) =~= rest + kept);
        law_trim_keeps_what_is_between(rest, kept, seq![], set);
        assert(rest + kept + seq![] =~= rest + kept);
    }
}

} // verus!
