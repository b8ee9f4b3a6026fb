//! CO-RE (Compile Once: Run Everywhere) capability detection.

use crate::text;
use vstd::prelude::*;
use vstd::string::*;

verus! {

/// Whether version `v` is `w` or newer, major before minor before patch.
pub open spec fn at_least(v: (u32, u32, u32), w: (u32, u32, u32)) -> bool {
    v.0 > w.0 || (v.0 == w.0 && (v.1 > w.1 || (v.1 == w.1 && v.2 >= w.2)))
}

/// The first kernel with BPF ring buffers.
pub open spec fn ringbuf_since() -> (u32, u32, u32) {
    (5, 8, 0)
}

/// The first kernel with fentry/fexit tracing programs.
pub open spec fn fentry_since() -> (u32, u32, u32) {
    (5, 5, 0)
}

fn is_at_least(v: (u32, u32, u32), w: (u32, u32, u32)) -> (b: bool)
    ensures
        b == at_least(v, w),
{
    v.0 > w.0 || (v.0 == w.0 && (v.1 > w.1 || (v.1 == w.1 && v.2 >= w.2)))
}

/// Check if a kernel of this version supports BPF ring buffers (Linux 5.8+).
#[must_use]
pub fn has_ringbuf(version: (u32, u32, u32)) -> (supported: bool)
    ensures
        supported == at_least(version, ringbuf_since()),
        supported <==> version.0 > 5 || (version.0 == 5 && version.1 >= 8),
{
    is_at_least(version, (5, 8, 0))
}

/// Check if a kernel of this version supports fentry/fexit tracing programs (Linux 5.5+).
#[must_use]
pub fn has_fentry(version: (u32, u32, u32)) -> (supported: bool)
    ensures
        supported == at_least(version, fentry_since()),
        supported <==> version.0 > 5 || (version.0 == 5 && version.1 >= 5),
{
    is_at_least(version, (5, 5, 0))
}

/// A version as `major.minor.patch`.
pub open spec fn version_chars(v: (u32, u32, u32)) -> Seq<char> {
    text::decimal(v.0 as nat) + "."@ + text::decimal(v.1 as nat) + "."@ + text::decimal(v.2 as nat)
}

/// The lines of a diagnostic summary. The last one is there where the effective user
/// is known.
pub open spec fn diagnostic_lines(
    version: (u32, u32, u32),
    btf: bool,
    euid: Option<u32>,
) -> Seq<Seq<char>> {
    let lines = seq![
        "kernel: "@ + version_chars(version),
        "BTF available: "@ + text::bool_chars(btf),
        "fentry support: "@ + text::bool_chars(at_least(version, fentry_since())),
        "ring buffer support: "@ + text::bool_chars(at_least(version, ringbuf_since())),
    ];
    match euid {
        Some(id) => lines.push("running as root: "@ + text::bool_chars(id == 0)),
        None => lines,
    }
}

/// `label` followed by `value`.
fn labelled(label: &str, value: &str) -> (s: String)
    ensures
        s@ == label@ + value@,
{
    let mut s = label.to_owned();
    s.append(value);
    s
}

/// Get a diagnostic summary of BPF CO-RE capabilities: of the kernel version, of
/// whether BTF was found, and, where there is one, of the effective user.
#[must_use]
pub fn diagnostics(version: (u32, u32, u32), btf: bool, euid: Option<u32>) -> (diags: Vec<String>)
    ensures
        diags@.map_values(|s: String| s@) == diagnostic_lines(version, btf, euid),
{
    let mut diags: Vec<String> = Vec::new();
    let mut kernel = labelled("kernel: ", text::decimal_text(version.0 as u64).as_str());
    kernel.append(".");
    kernel.append(text::decimal_text(version.1 as u64).as_str());
    kernel.append(".");
    kernel.append(text::decimal_text(version.2 as u64).as_str());
    assert(kernel@ =~= "kernel: "@ + version_chars(version));
    diags.push(kernel);
    diags.push(labelled("BTF available: ", text::bool_text(btf)));
    diags.push(labelled("fentry support: ", text::bool_text(has_fentry(version))));
    diags.push(labelled("ring buffer support: ", text::bool_text(has_ringbuf(version))));
    if let Some(id) = euid {
        diags.push(labelled("running as root: ", text::bool_text(id == 0)));
    }
    assert(diags@.map_values(|s: String| s@) =~= diagnostic_lines(version, btf, euid));
    diags
}

/// The warning that the kernel version could not be determined.
pub open spec fn undetected_warning_chars(reason: Seq<char>) -> Seq<char> {
    "ebpfkit: could not determine kernel version ("@ + reason
        + "); treating all version-gated eBPF features (ring buffer, fentry, ...) as UNAVAILABLE"@
}

/// The warning that kernel detection failed for `reason`, and that every
/// version-gated eBPF feature is being treated as unavailable.
pub fn kernel_undetected_warning(reason: &str) -> (s: String)
    ensures
        s@ == undetected_warning_chars(reason@),
{
    let mut s = labelled("ebpfkit: could not determine kernel version (", reason);
    s.append(
        "); treating all version-gated eBPF features (ring buffer, fentry, ...) as UNAVAILABLE",
    );
    s
}

/// Whether `c` is one of the ten decimal digits.
pub open spec fn is_digit(c: char) -> bool {
    '0' <= c <= '9'
}

/// How many digits `s` begins with.
pub open spec fn digit_run(s: Seq<char>) -> nat
    decreases s.len(),
{
    if s.len() > 0 && is_digit(s[0]) {
        1 + digit_run(s.skip(1))
    } else {
        0
    }
}

/// The number that a run of digits stands for.
pub open spec fn numeral_value(s: Seq<char>) -> nat
    decreases s.len(),
{
    if s.len() == 0 {
        0
    } else {
        numeral_value(s.drop_last()) * 10 + (s.last() as u32 - '0' as u32) as nat
    }
}

/// The number that `s` begins with: none where no digit stands there, or where the
/// number is too great.
pub open spec fn component(s: Seq<char>) -> Option<u32> {
    let digits = s.take(digit_run(s) as int);
    if digits.len() == 0 || numeral_value(digits) > u32::MAX {
        None
    } else {
        Some(numeral_value(digits) as u32)
    }
}

/// Whether the character at `n`, behind a number, leads to another component: a dot always
/// does, any other character only where a digit follows it. Otherwise it begins a suffix.
pub open spec fn separates(s: Seq<char>, n: int) -> bool {
    n < s.len() && (s[n] == '.' || (n + 1 < s.len() && is_digit(s[n + 1])))
}

/// The text of the component behind the leading digits of `s` and the one character that
/// ends them: none where the digits reach the end or a suffix follows them.
pub open spec fn after_component(s: Seq<char>) -> Option<Seq<char>> {
    if separates(s, digit_run(s) as int) {
        Some(s.skip(digit_run(s) as int + 1))
    } else {
        None
    }
}

/// The number of an optional component: zero where it is absent.
pub open spec fn optional_component(s: Option<Seq<char>>) -> Option<u32> {
    match s {
        None => Some(0),
        Some(t) => component(t),
    }
}

/// The version of a kernel release: up to three numbers, and behind them any suffix. The
/// second and the third number may be absent, but not malformed.
pub open spec fn release_version(s: Seq<char>) -> Option<(u32, u32, u32)> {
    let minor_text = after_component(s);
    let patch_text = match minor_text {
        None => None,
        Some(t) => after_component(t),
    };
    match (component(s), optional_component(minor_text), optional_component(patch_text)) {
        (Some(major), Some(minor), Some(patch)) => Some((major, minor, patch)),
        _ => None,
    }
}

proof fn lemma_digit_run(s: Seq<char>, n: int)
    requires
        0 <= n <= s.len(),
        forall|i: int| 0 <= i < n ==> is_digit(#[trigger] s[i]),
        n < s.len() ==> !is_digit(s[n]),
    ensures
        digit_run(s) == n,
    decreases n,
{
    if n > 0 {
        let rest = s.skip(1);
        assert forall|i: int| 0 <= i < n - 1 implies is_digit(#[trigger] rest[i]) by {
            assert(rest[i] == s[i + 1]);
        }
        lemma_digit_run(rest, n - 1);
    }
}

/// The component that starts at `from`, and the position behind its digits.
fn read_component(chars: &Vec<char>, from: usize) -> (res: (Option<u32>, usize))
    requires
        from <= chars@.len(),
    ensures
        res.0 == component(chars@.skip(from as int)),
        res.1 == from + digit_run(chars@.skip(from as int)),
        res.1 <= chars@.len(),
{
    let ghost tail = chars@.skip(from as int);
    let mut end: usize = from;
    let mut value: u32 = 0;
    let mut too_great = false;
    while end < chars.len() && '0' <= chars[end] && chars[end] <= '9'
        invariant
            from <= end <= chars@.len(),
            tail == chars@.skip(from as int),
            forall|i: int| 0 <= i < end - from ==> is_digit(#[trigger] tail[i]),
            !too_great ==> value == numeral_value(tail.take(end - from)),
            too_great ==> numeral_value(tail.take(end - from)) > u32::MAX,
        decreases chars@.len() - end,
    {
        let digit: u32 = chars[end] as u32 - '0' as u32;
        let wide: u64 = value as u64 * 10 + digit as u64;
        proof {
            let k = end - from;
            assert(tail[k] == chars@[end as int]);
            assert(tail.take(k + 1).drop_last() =~= tail.take(k));
            assert(tail.take(k + 1).last() == chars@[end as int]);
        }
        if wide > 0xffff_ffff {
            too_great = true;
        } else {
            value = wide as u32;
        }
        end += 1;
    }
    proof {
        lemma_digit_run(tail, end - from);
    }
    if end == from || too_great {
        (None, end)
    } else {
        (Some(value), end)
    }
}

/// Whether the character at `end`, behind a number, leads to another component.
fn leads_on(chars: &Vec<char>, end: usize) -> (b: bool)
    requires
        end <= chars@.len(),
    ensures
        b == separates(chars@, end as int),
        b ==> end < chars.len(),
{
    if end >= chars.len() {
        return false;
    }
    if chars[end] == '.' {
        return true;
    }
    chars.len() - end > 1 && '0' <= chars[end + 1] && chars[end + 1] <= '9'
}

/// Parse "major.minor.patch..." from an osrelease string. Returns `None` when
/// the MAJOR component is absent/empty/non-numeric/`u32`-overflowing - the case
/// that would collapse the kernel to 0.x and silently disable every feature
/// gate, so the caller fails closed AND warns. Absent minor/patch legitimately
/// default to 0 (e.g. osrelease "6", "6.1" or "6.1-generic") and are NOT treated as a
/// failure; a minor or patch that a dot announces and that is empty or non-numeric, or
/// one that overflows, is. Vendor suffixes after the digits are ignored.
pub fn parse_kernel_release(trimmed: &str) -> (version: Option<(u32, u32, u32)>)
    ensures
        version == release_version(trimmed@),
{
    let chars = text::chars_of(trimmed);
    assert(chars@.skip(0) =~= chars@);
    let (major, major_end) = read_component(&chars, 0);
    let mut minor: Option<u32> = Some(0);
    let mut patch: Option<u32> = Some(0);
    if leads_on(&chars, major_end) {
        let (m, minor_end) = read_component(&chars, major_end + 1);
        minor = m;
        if leads_on(&chars, minor_end) {
            let (p, _) = read_component(&chars, minor_end + 1);
            patch = p;
            proof {
                assert(chars@.skip(major_end + 1).skip(minor_end - major_end)
                    =~= chars@.skip(minor_end + 1));
            }
        }
    }
    match (major, minor, patch) {
        (Some(a), Some(b), Some(c)) => Some((a, b, c)),
        _ => None,
    }
}

/// Why a release text gives no version, given that text in quotes.
pub open spec fn unparseable_reason_chars(quoted: Seq<char>) -> Seq<char> {
    "unparseable major version in osrelease "@ + quoted
}

/// The reason to report for a release text that does not parse; `quoted` is that text
/// in quotes.
pub fn unparseable_release_reason(quoted: &str) -> (s: String)
    ensures
        s@ == unparseable_reason_chars(quoted@),
{
    labelled("unparseable major version in osrelease ", quoted)
}

/// The kernel version of what `/proc/sys/kernel/osrelease` held, or of the error that
/// reading it gave.
///
/// Returns (0,0,0) when the kernel version cannot be determined - a fail-closed
/// default that disables every version-gated feature - together with the reason, for
/// the caller to surface.
pub fn kernel_version(release: Result<&str, &str>) -> (res: ((u32, u32, u32), Option<String>))
    ensures
        match release {
            Ok(read) => {
                let line = text::trimmed(read@, text::TrimSet::WhiteSpace);
                match release_version(line) {
                    Some(version) => res.0 == version && res.1 is None,
                    None => res.0 == (0u32, 0u32, 0u32) && (res.1 matches Some(reason) && reason@
                        == unparseable_reason_chars(text::quoted_chars(line))),
                }
            },
            Err(error) => res.0 == (0u32, 0u32, 0u32) && (res.1 matches Some(reason) && reason@
                == "cannot read /proc/sys/kernel/osrelease: "@ + error@),
        },
{
    match release {
        Ok(read) => {
            let line = text::trim(read, text::TrimSet::WhiteSpace);
            match parse_kernel_release(line) {
                Some(version) => (version, None),
                None => (
                    (0, 0, 0),
                    Some(unparseable_release_reason(text::quoted_text(line).as_str())),
                ),
            }
        },
        Err(error) => (
            (0, 0, 0),
            Some(labelled("cannot read /proc/sys/kernel/osrelease: ", error)),
        ),
    }
}

/// The version of an undetermined kernel opens no gate.
pub proof fn law_undetermined_kernel_has_no_gated_feature()
    ensures
        !at_least((0, 0, 0), ringbuf_since()),
        !at_least((0, 0, 0), fentry_since()),
{
}

/// A newer kernel keeps what an older one has, and one with ring buffers has fentry.
pub proof fn law_features_only_accrue(older: (u32, u32, u32), newer: (u32, u32, u32))
    requires
        at_least(newer, older),
    ensures
        at_least(older, ringbuf_since()) ==> at_least(newer, ringbuf_since()),
        at_least(older, fentry_since()) ==> at_least(newer, fentry_since()),
        at_least(older, ringbuf_since()) ==> at_least(older, fentry_since()),
{
}

/// Whatever follows the digits of the third component is ignored.
pub proof fn law_release_suffix_is_ignored(s: Seq<char>, c: char, suffix: Seq<char>)
    requires
        after_component(s) matches Some(t) && after_component(t) is Some,
        !is_digit(c),
    ensures
        release_version(s + seq![c] + suffix) == release_version(s),
{
    let t = after_component(s)->Some_0;
    let u = after_component(t)->Some_0;
    lemma_run_with_suffix(s, c, suffix);
    lemma_run_with_suffix(t, c, suffix);
    lemma_run_with_suffix(u, c, suffix);
    lemma_after_with_suffix(s, c, suffix);
    lemma_after_with_suffix(t, c, suffix);
}

/// A vendor suffix is ignored wherever the numbers end, an absent minor or patch staying
/// absent: one that begins with neither a digit nor a dot, and goes on without a digit at
/// once.
pub proof fn law_vendor_suffix_is_ignored(s: Seq<char>, c: char, suffix: Seq<char>)
    requires
        !is_digit(c) && c != '.',
        suffix.len() == 0 || !is_digit(suffix[0]),
    ensures
        release_version(s + seq![c] + suffix) == release_version(s),
{
    lemma_run_with_suffix(s, c, suffix);
    lemma_after_with_vendor_suffix(s, c, suffix);
    if after_component(s) is Some {
        let t = after_component(s)->Some_0;
        lemma_run_with_suffix(t, c, suffix);
        lemma_after_with_vendor_suffix(t, c, suffix);
        if after_component(t) is Some {
            lemma_run_with_suffix(after_component(t)->Some_0, c, suffix);
        }
    }
}

/// Text behind a component that is there leaves it there, with that text behind it.
proof fn lemma_after_with_suffix(s: Seq<char>, c: char, suffix: Seq<char>)
    requires
        !is_digit(c),
        after_component(s) is Some,
    ensures
        after_component(s + seq![c] + suffix) == Some(
            after_component(s)->Some_0 + seq![c] + suffix,
        ),
{
    let n = digit_run(s) as int;
    let long = s + seq![c] + suffix;
    lemma_run_in_bounds(s);
    lemma_run_with_suffix(s, c, suffix);
    assert(long[n] == s[n]);
    if n + 1 < s.len() {
        assert(long[n + 1] == s[n + 1]);
    }
    assert(long.skip(n + 1) =~= s.skip(n + 1) + seq![c] + suffix);
}

/// A vendor suffix neither adds nor removes a component.
proof fn lemma_after_with_vendor_suffix(s: Seq<char>, c: char, suffix: Seq<char>)
    requires
        !is_digit(c) && c != '.',
        suffix.len() == 0 || !is_digit(suffix[0]),
    ensures
        after_component(s + seq![c] + suffix) == match after_component(s) {
            Some(t) => Some(t + seq![c] + suffix),
            None => None,
        },
{
    let n = digit_run(s) as int;
    let long = s + seq![c] + suffix;
    lemma_run_in_bounds(s);
    lemma_run_with_suffix(s, c, suffix);
    if after_component(s) is Some {
        lemma_after_with_suffix(s, c, suffix);
    } else if n == s.len() {
        assert(long[n] == c);
        if suffix.len() > 0 {
            assert(long[n + 1] == suffix[0]);
        }
    } else {
        assert(long[n] == s[n]);
        if n + 1 < s.len() {
            assert(long[n + 1] == s[n + 1]);
        } else {
            assert(long[n + 1] == c);
        }
    }
}

proof fn lemma_run_in_bounds(s: Seq<char>)
    ensures
        digit_run(s) <= s.len(),
        forall|i: int| 0 <= i < digit_run(s) ==> is_digit(#[trigger] s[i]),
        digit_run(s) < s.len() ==> !is_digit(s[digit_run(s) as int]),
    decreases s.len(),
{
    if s.len() > 0 && is_digit(s[0]) {
        lemma_run_in_bounds(s.skip(1));
        assert forall|i: int| 0 <= i < digit_run(s) implies is_digit(#[trigger] s[i]) by {
            if i > 0 {
                assert(s[i] == s.skip(1)[i - 1]);
            }
        }
    }
}

/// Text behind a non-digit does not change the component before it.
proof fn lemma_run_with_suffix(s: Seq<char>, c: char, suffix: Seq<char>)
    requires
        !is_digit(c),
    ensures
        digit_run(s + seq![c] + suffix) == digit_run(s),
        component(s + seq![c] + suffix) == component(s),
{
    lemma_run_in_bounds(s);
    let n = digit_run(s) as int;
    let long = s + seq![c] + suffix;
    assert forall|i: int| 0 <= i < n implies is_digit(#[trigger] long[i]) by {
        assert(long[i] == s[i]);
    }
    if n < s.len() {
        assert(long[n] == s[n]);
    } else {
        assert(long[n] == c);
    }
    lemma_digit_run(long, n);
    assert(long.take(n) =~= s.take(n));
}

proof fn lemma_decimal_reads_back(n: nat)
    ensures
        text::decimal(n).len() > 0,
        forall|i: int| 0 <= i < text::decimal(n).len() ==> is_digit(#[trigger] text::decimal(n)[i]),
        numeral_value(text::decimal(n)) == n,
    decreases n,
{
    reveal_with_fuel(numeral_value, 2);
    if n < 10 {
        assert(text::decimal(n) =~= seq![text::digit_char(n)]);
        assert(text::decimal(n).drop_last() =~= seq![]);
    } else {
        lemma_decimal_reads_back(n / 10);
        let d = text::decimal(n);
        assert(d.drop_last() =~= text::decimal(n / 10));
        assert forall|i: int| 0 <= i < d.len() implies is_digit(#[trigger] d[i]) by {
            if i < d.len() - 1 {
                assert(d[i] == text::decimal(n / 10)[i]);
            }
        }
    }
}

/// A written number is read back, at the end of the text and before a dot.
proof fn lemma_written_component_reads_back(n: u32, rest: Seq<char>)
    ensures
        component(text::decimal(n as nat)) == Some(n),
        after_component(text::decimal(n as nat)) is None,
        component(text::decimal(n as nat) + seq!['.'] + rest) == Some(n),
        after_component(text::decimal(n as nat) + seq!['.'] + rest) == Some(rest),
{
    let d = text::decimal(n as nat);
    let long = d + seq!['.'] + rest;
    lemma_decimal_reads_back(n as nat);
    lemma_digit_run(d, d.len() as int);
    assert(d.take(d.len() as int) =~= d);
    lemma_run_with_suffix(d, '.', rest);
    assert(long[d.len() as int] == '.');
    assert(long.skip(d.len() as int + 1) =~= rest);
}

/// A written version is read back: `major.minor.patch` in decimal parses to the three
/// numbers.
pub proof fn law_written_version_reads_back(v: (u32, u32, u32))
    ensures
        release_version(version_chars(v)) == Some(v),
{
    reveal_strlit(".");
    let (a, b, c) = (
        text::decimal(v.0 as nat),
        text::decimal(v.1 as nat),
        text::decimal(v.2 as nat),
    );
    let t = b + seq!['.'] + c;
    assert("."@ =~= seq!['.']);
    assert(version_chars(v) =~= a + seq!['.'] + t);
    lemma_written_component_reads_back(v.0, t);
    lemma_written_component_reads_back(v.1, c);
    lemma_written_component_reads_back(v.2, seq![]);
}

/// A written version is also read back from a line: white space behind it does not matter.
pub proof fn law_written_line_reads_back(v: (u32, u32, u32), padding: Seq<char>)
    requires
        forall|i: int| 0 <= i < padding.len() ==> text::is_white_space(#[trigger] padding[i]),
    ensures
        release_version(
            text::trimmed(version_chars(v) + padding, text::TrimSet::WhiteSpace),
        ) == Some(v),
{
    let set = text::TrimSet::WhiteSpace;
    let s = version_chars(v);
    law_written_version_reads_back(v);
    assert forall|i: int| 0 <= i < padding.len() implies set.has(#[trigger] padding[i]) by {}
    text::law_trailing_padding_is_dropped(s, padding, set);
    let (a, c) = (text::decimal(v.0 as nat), text::decimal(v.2 as nat));
    lemma_decimal_reads_back(v.0 as nat);
    lemma_decimal_reads_back(v.2 as nat);
    assert(s[0] == a[0] && is_digit(a[0]));
    assert(s.last() == c.last() && is_digit(c[c.len() - 1]));
    assert(text::trimmed(s, set) == s);
}

/// Of the warning that the kernel was not determined, only the reason varies.
pub proof fn law_undetected_warning_varies_only_in_its_reason(reason: Seq<char>)
    ensures
        undetected_warning_chars(seq![])
            == "ebpfkit: could not determine kernel version (); treating all version-gated eBPF features (ring buffer, fentry, ...) as UNAVAILABLE"@,
        ({
            let t = undetected_warning_chars(seq![]);
            undetected_warning_chars(reason) == t.subrange(0, 45) + reason + t.subrange(45, 130)
        }),
{
    reveal_strlit(
        "ebpfkit: could not determine kernel version (); treating all version-gated eBPF features (ring buffer, fentry, ...) as UNAVAILABLE",
    );
    reveal_strlit("ebpfkit: could not determine kernel version (");
    reveal_strlit(
        "); treating all version-gated eBPF features (ring buffer, fentry, ...) as UNAVAILABLE",
    );
    let t = undetected_warning_chars(seq![]);
    assert(t
        =~= "ebpfkit: could not determine kernel version (); treating all version-gated eBPF features (ring buffer, fentry, ...) as UNAVAILABLE"@);
    assert(t.subrange(0, 45) =~= "ebpfkit: could not determine kernel version ("@);
    assert(t.subrange(45, 130)
        =~= "); treating all version-gated eBPF features (ring buffer, fentry, ...) as UNAVAILABLE"@);
    assert(undetected_warning_chars(reason) =~= t.subrange(0, 45) + reason + t.subrange(45, 130));
}

/// Of the reason that a release does not parse, only the quoted release varies.
pub proof fn law_unparseable_reason_varies_only_in_its_quotation(quoted: Seq<char>)
    ensures
        unparseable_reason_chars(seq![]) == "unparseable major version in osrelease "@,
        ({
            let t = unparseable_reason_chars(seq![]);
            unparseable_reason_chars(quoted) == t.subrange(0, 39) + quoted
        }),
{
    reveal_strlit("unparseable major version in osrelease ");
    reveal_strlit("unparseable major version in osrelease ");
    let t = unparseable_reason_chars(seq![]);
    assert(t =~= "unparseable major version in osrelease "@);
    assert(t.subrange(0, 39) =~= "unparseable major version in osrelease "@);
    assert(unparseable_reason_chars(quoted) =~= t.subrange(0, 39) + quoted);
}

/// Versions are ordered as the numbers that they are in base two to the thirty-second.
pub proof fn law_version_order_is_positional(v: (u32, u32, u32), w: (u32, u32, u32))
    ensures
        at_least(v, w) <==> (v.0 * 0x1_0000_0000 + v.1) * 0x1_0000_0000 + v.2 >= (w.0
            * 0x1_0000_0000 + w.1) * 0x1_0000_0000 + w.2,
{
}

/// The version order is total, and only a version itself is both at least and at most it.
pub proof fn law_version_order_is_total(
    u: (u32, u32, u32),
    v: (u32, u32, u32),
    w: (u32, u32, u32),
)
    ensures
        at_least(v, w) || at_least(w, v),
        at_least(v, w) && at_least(w, v) <==> v == w,
        at_least(u, v) && at_least(v, w) ==> at_least(u, w),
{
}

/// A greater major is newer whatever follows; with the same major a greater minor is; with
/// the same minor too a greater patch is.
pub proof fn law_first_difference_decides(v: (u32, u32, u32), w: (u32, u32, u32))
    ensures
        v.0 > w.0 ==> at_least(v, w) && !at_least(w, v),
        v.0 == w.0 && v.1 > w.1 ==> at_least(v, w) && !at_least(w, v),
        v.0 == w.0 && v.1 == w.1 && v.2 > w.2 ==> at_least(v, w) && !at_least(w, v),
{
}

/// Ring buffers come with 5.8 and fentry with 5.5, every later kernel has them, and no
/// earlier one.
pub proof fn law_features_come_with_their_release(version: (u32, u32, u32))
    ensures
        at_least(version, ringbuf_since()) <==> version.0 > 5 || (version.0 == 5 && version.1
            >= 8),
        at_least(version, fentry_since()) <==> version.0 > 5 || (version.0 == 5 && version.1 >= 5),
{
}

/// The summary tells the version, what was found of BTF, the two features that the version
/// decides, and, where the user is known and only there, whether that is root.
pub proof fn law_diagnostics_tell_what_they_name(
    version: (u32, u32, u32),
    btf: bool,
    euid: Option<u32>,
)
    ensures
        ({
            let lines = diagnostic_lines(version, btf, euid);
            &&& lines.len() == if euid is Some {
                5nat
            } else {
                4nat
            }
            &&& lines[0] == "kernel: "@ + text::decimal(version.0 as nat) + seq!['.']
                + text::decimal(version.1 as nat) + seq!['.'] + text::decimal(version.2 as nat)
            &&& lines[1] == if btf {
                "BTF available: true"@
            } else {
                "BTF available: false"@
            }
            &&& lines[2] == if version.0 > 5 || (version.0 == 5 && version.1 >= 5) {
                "fentry support: true"@
            } else {
                "fentry support: false"@
            }
            &&& lines[3] == if version.0 > 5 || (version.0 == 5 && version.1 >= 8) {
                "ring buffer support: true"@
            } else {
                "ring buffer support: false"@
            }
            &&& euid matches Some(id) ==> lines[4] == if id == 0 {
                "running as root: true"@
            } else {
                "running as root: false"@
            }
        }),
{
    reveal_strlit(".");
    reveal_strlit("true");
    reveal_strlit("false");
    reveal_strlit("BTF available: ");
    reveal_strlit("BTF available: true");
    reveal_strlit("BTF available: false");
    reveal_strlit("fentry support: ");
    reveal_strlit("fentry support: true");
    reveal_strlit("fentry support: false");
    reveal_strlit("ring buffer support: ");
    reveal_strlit("ring buffer support: true");
    reveal_strlit("ring buffer support: false");
    reveal_strlit("running as root: ");
    reveal_strlit("running as root: true");
    reveal_strlit("running as root: false");
    assert("."@ =~= seq!['.']);
    assert("BTF available: "@ + "true"@ =~= "BTF available: true"@);
    assert("BTF available: "@ + "false"@ =~= "BTF available: false"@);
    assert("fentry support: "@ + "true"@ =~= "fentry support: true"@);
    assert("fentry support: "@ + "false"@ =~= "fentry support: false"@);
    assert("ring buffer support: "@ + "true"@ =~= "ring buffer support: true"@);
    assert("ring buffer support: "@ + "false"@ =~= "ring buffer support: false"@);
    assert("running as root: "@ + "true"@ =~= "running as root: true"@);
    assert("running as root: "@ + "false"@ =~= "running as root: false"@);
    let lines = diagnostic_lines(version, btf, euid);
    assert(lines[0] =~= "kernel: "@ + text::decimal(version.0 as nat) + seq!['.'] + text::decimal(
        version.1 as nat,
    ) + seq!['.'] + text::decimal(version.2 as nat));
}

/// A digit stands for its own value, and of two runs of digits written together the first
/// counts as many tens as the second has places.
pub proof fn law_numerals_are_positional(first: Seq<char>, second: Seq<char>, c: char)
    requires
        '0' <= c <= '9',
    ensures
        numeral_value(seq![c]) == c as int - 48,
        numeral_value(first + second) == numeral_value(first) * vstd::arithmetic::power::pow(
            10,
            second.len(),
        ) + numeral_value(second),
    decreases second.len(),
{
    reveal_with_fuel(numeral_value, 2);
    assert(seq![c].drop_last() =~= seq![]);
    vstd::arithmetic::power::lemma_pow0(10);
    if second.len() == 0 {
        assert(first + second =~= first);
    } else {
        let shorter = second.drop_last();
        law_numerals_are_positional(first, shorter, c);
        assert((first + second).drop_last() =~= first + shorter);
        let p = vstd::arithmetic::power::pow(10, shorter.len());
        vstd::arithmetic::power::lemma_pow1(10);
        vstd::arithmetic::power::lemma_pow_adds(10, 1, shorter.len());
        let v = numeral_value(first) as int;
        assert(v * (10 * p) == (v * p) * 10) by (nonlinear_arith);
    }
}

/// Where the leading digits of a text end: the number before that point is its first
/// component.
proof fn lemma_leading_digits(digits: Seq<char>, rest: Seq<char>)
    requires
        forall|i: int| 0 <= i < digits.len() ==> '0' <= #[trigger] digits[i] <= '9',
        rest.len() > 0 ==> !('0' <= rest[0] <= '9'),
    ensures
        digit_run(digits + rest) == digits.len(),
        digits.len() == 0 ==> component(digits + rest) is None,
        digits.len() > 0 ==> component(digits + rest) == if numeral_value(digits) <= u32::MAX {
            Some(numeral_value(digits) as u32)
        } else {
            None
        },
{
    let s = digits + rest;
    let n = digits.len() as int;
    assert forall|i: int| 0 <= i < n implies is_digit(#[trigger] s[i]) by {
        assert(s[i] == digits[i]);
    }
    if rest.len() > 0 {
        assert(s[n] == rest[0]);
    }
    lemma_digit_run(s, n);
    assert(s.take(n) =~= digits);
}

/// A release that begins with no digit has no version, and neither has one where a dot
/// promises a minor or a patch and no digit follows it.
pub proof fn law_release_without_its_numbers_is_refused(
    major: Seq<char>,
    sep: char,
    minor: Seq<char>,
    rest: Seq<char>,
)
    requires
        forall|i: int| 0 <= i < major.len() ==> '0' <= #[trigger] major[i] <= '9',
        forall|i: int| 0 <= i < minor.len() ==> '0' <= #[trigger] minor[i] <= '9',
        minor.len() > 0,
        !('0' <= sep <= '9'),
        rest.len() > 0 ==> !('0' <= rest[0] <= '9'),
    ensures
        release_version(rest) is None,
        release_version(major + seq!['.'] + rest) is None,
        release_version(major + seq![sep] + minor + seq!['.'] + rest) is None,
{
    let nothing = Seq::<char>::empty();
    assert(nothing + rest =~= rest);
    lemma_leading_digits(nothing, rest);
    let two = major + seq!['.'] + rest;
    let behind = seq!['.'] + rest;
    assert(two =~= major + behind);
    lemma_leading_digits(major, behind);
    let n = major.len() as int;
    assert(two[n] == '.');
    assert(two.skip(n + 1) =~= rest);
    let three = major + seq![sep] + minor + seq!['.'] + rest;
    let tail = minor + behind;
    assert(three =~= major + (seq![sep] + tail));
    lemma_leading_digits(major, seq![sep] + tail);
    assert(three[n] == sep);
    assert(three[n + 1] == minor[0]);
    assert(three.skip(n + 1) =~= tail);
    lemma_leading_digits(minor, behind);
    let m = minor.len() as int;
    assert(tail[m] == '.');
    assert(tail.skip(m + 1) =~= rest);
}

/// A release of one number is that major, whatever suffix follows that promises no minor.
pub proof fn law_release_of_one_number(major: Seq<char>, suffix: Seq<char>)
    requires
        major.len() > 0,
        forall|i: int| 0 <= i < major.len() ==> '0' <= #[trigger] major[i] <= '9',
        suffix.len() > 0 ==> suffix[0] != '.' && !('0' <= suffix[0] <= '9'),
        suffix.len() > 1 ==> !('0' <= suffix[1] <= '9'),
    ensures
        release_version(major + suffix) == if numeral_value(major) <= u32::MAX {
            Some((numeral_value(major) as u32, 0u32, 0u32))
        } else {
            None
        },
{
    let s = major + suffix;
    let n = major.len() as int;
    lemma_leading_digits(major, suffix);
    if suffix.len() > 0 {
        assert(s[n] == suffix[0]);
    }
    if suffix.len() > 1 {
        assert(s[n + 1] == suffix[1]);
    }
}

/// A release of two numbers, parted by any character that is no digit, is that major and
/// minor, whatever suffix follows that promises no patch; it has no version where either is
/// too great.
pub proof fn law_release_of_two_numbers(
    major: Seq<char>,
    sep: char,
    minor: Seq<char>,
    suffix: Seq<char>,
)
    requires
        major.len() > 0,
        minor.len() > 0,
        forall|i: int| 0 <= i < major.len() ==> '0' <= #[trigger] major[i] <= '9',
        forall|i: int| 0 <= i < minor.len() ==> '0' <= #[trigger] minor[i] <= '9',
        !('0' <= sep <= '9'),
        suffix.len() > 0 ==> suffix[0] != '.' && !('0' <= suffix[0] <= '9'),
        suffix.len() > 1 ==> !('0' <= suffix[1] <= '9'),
    ensures
        release_version(major + seq![sep] + minor + suffix) == if numeral_value(major) <= u32::MAX
            && numeral_value(minor) <= u32::MAX {
            Some((numeral_value(major) as u32, numeral_value(minor) as u32, 0u32))
        } else {
            None
        },
{
    let s = major + seq![sep] + minor + suffix;
    let tail = minor + suffix;
    let n = major.len() as int;
    let m = minor.len() as int;
    assert(s =~= major + (seq![sep] + tail));
    lemma_leading_digits(major, seq![sep] + tail);
    assert(s[n] == sep);
    assert(s[n + 1] == minor[0]);
    assert(s.skip(n + 1) =~= tail);
    lemma_leading_digits(minor, suffix);
    if suffix.len() > 0 {
        assert(tail[m] == suffix[0]);
    }
    if suffix.len() > 1 {
        assert(tail[m + 1] == suffix[1]);
    }
}

/// A release of three numbers, parted by any characters that are no digits, is that major,
/// minor and patch, whatever follows them; it has no version where any is too great.
pub proof fn law_release_of_three_numbers(
    major: Seq<char>,
    sep: char,
    minor: Seq<char>,
    second_sep: char,
    patch: Seq<char>,
    suffix: Seq<char>,
)
    requires
        major.len() > 0,
        minor.len() > 0,
        patch.len() > 0,
        forall|i: int| 0 <= i < major.len() ==> '0' <= #[trigger] major[i] <= '9',
        forall|i: int| 0 <= i < minor.len() ==> '0' <= #[trigger] minor[i] <= '9',
        forall|i: int| 0 <= i < patch.len() ==> '0' <= #[trigger] patch[i] <= '9',
        !('0' <= sep <= '9'),
        !('0' <= second_sep <= '9'),
        suffix.len() > 0 ==> !('0' <= suffix[0] <= '9'),
    ensures
        release_version(major + seq![sep] + minor + seq![second_sep] + patch + suffix)
            == if numeral_value(major) <= u32::MAX && numeral_value(minor) <= u32::MAX
            && numeral_value(patch) <= u32::MAX {
            Some(
                (
                    numeral_value(major) as u32,
                    numeral_value(minor) as u32,
                    numeral_value(patch) as u32,
                ),
            )
        } else {
            None
        },
{
    let s = major + seq![sep] + minor + seq![second_sep] + patch + suffix;
    let last = patch + suffix;
    let tail = minor + (seq![second_sep] + last);
    let n = major.len() as int;
    let m = minor.len() as int;
    assert(s =~= major + (seq![sep] + tail));
    lemma_leading_digits(major, seq![sep] + tail);
    assert(s[n] == sep);
    assert(s[n + 1] == minor[0]);
    assert(s.skip(n + 1) =~= tail);
    lemma_leading_digits(minor, seq![second_sep] + last);
    assert(tail[m] == second_sep);
    assert(tail[m + 1] == patch[0]);
    assert(tail.skip(m + 1) =~= last);
    lemma_leading_digits(patch, suffix);
}

} // verus!
