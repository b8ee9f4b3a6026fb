//! The error that pattern compilation reports.

use crate::text;
use vstd::prelude::*;
use vstd::string::*;

verus! {

/// Error returned when BPF compilation fails.
#[derive(Debug)]
#[non_exhaustive]
pub enum CompileError {
    /// Pattern exceeds BPF verifier instruction limit.
    PatternTooLong {
        /// Actual pattern length.
        len: usize,
        /// Maximum supported length.
        max: usize,
    },
    /// Pattern syntax is not supported.
    InvalidPattern {
        /// Pattern validation failure reason.
        reason: &'static str,
    },
}

impl CompileError {
    /// The text that `message` returns.
    pub open spec fn text(self) -> Seq<char> {
        match self {
            CompileError::PatternTooLong { len, max } => "pattern length "@ + text::decimal(
                len as nat,
            ) + " exceeds BPF verifier limit of "@ + text::decimal(max as nat)
                + " bytes. Fix: use userspace matching for patterns longer than "@ + text::decimal(
                max as nat,
            ) + " bytes."@,
            CompileError::InvalidPattern { reason } => "invalid pattern: "@ + reason@
                + ". Fix: use a supported subset (literal bytes, alternation, and ranges with start <= end)."@,
        }
    }

    /// What went wrong, and what to do about it.
    pub fn message(&self) -> (s: String)
        ensures
            s@ == self.text(),
    {
        match self {
            CompileError::PatternTooLong { len, max } => {
                let mut s = "pattern length ".to_owned();
                s.append(text::decimal_text(*len as u64).as_str());
                s.append(" exceeds BPF verifier limit of ");
                s.append(text::decimal_text(*max as u64).as_str());
                s.append(" bytes. Fix: use userspace matching for patterns longer than ");
                s.append(text::decimal_text(*max as u64).as_str());
                s.append(" bytes.");
                s
            },
            CompileError::InvalidPattern { reason } => {
                let mut s = "invalid pattern: ".to_owned();
                s.append(reason);
                s.append(
                    ". Fix: use a supported subset (literal bytes, alternation, and ranges with start <= end).",
                );
                s
            },
        }
    }
}

/// Every message says how to mend what it reports.
pub proof fn law_messages_are_actionable(e: CompileError)
    ensures
        text::mentions(e.text(), "Fix: "@),
{
    reveal_strlit("Fix: ");
    let s = e.text();
    match e {
        CompileError::PatternTooLong { len, max } => {
            reveal_strlit(" bytes. Fix: use userspace matching for patterns longer than ");
            let head = "pattern length "@ + text::decimal(len as nat)
                + " exceeds BPF verifier limit of "@ + text::decimal(max as nat);
            let at = head.len() as int + 8;
            assert(s.subrange(at, at + 5) =~= "Fix: "@);
            text::lemma_mentions_at(s, "Fix: "@, at);
        },
        CompileError::InvalidPattern { reason } => {
            reveal_strlit(
                ". Fix: use a supported subset (literal bytes, alternation, and ranges with start <= end).",
            );
            let at = ("invalid pattern: "@ + reason@).len() as int + 2;
            assert(s.subrange(at, at + 5) =~= "Fix: "@);
            text::lemma_mentions_at(s, "Fix: "@, at);
        },
    }
}

/// Of the message that a pattern is too long, only the two numbers vary: the length once and
/// the limit twice, each in decimal.
pub proof fn law_length_message_varies_only_in_its_numbers(len: usize, max: usize)
    ensures
        (CompileError::PatternTooLong { len: 0, max: 0 }).text()
            == "pattern length 0 exceeds BPF verifier limit of 0 bytes. Fix: use userspace matching for patterns longer than 0 bytes."@,
        ({
            let t = (CompileError::PatternTooLong { len: 0, max: 0 }).text();
            (CompileError::PatternTooLong { len, max }).text() == t.subrange(0, 15)
                + text::decimal(len as nat) + t.subrange(16, 47) + text::decimal(max as nat)
                + t.subrange(48, 109) + text::decimal(max as nat) + t.subrange(110, 117)
        }),
{
    reveal_strlit(
        "pattern length 0 exceeds BPF verifier limit of 0 bytes. Fix: use userspace matching for patterns longer than 0 bytes.",
    );
    reveal_strlit("pattern length ");
    reveal_strlit(" exceeds BPF verifier limit of ");
    reveal_strlit(" bytes. Fix: use userspace matching for patterns longer than ");
    reveal_strlit(" bytes.");
    let t = (CompileError::PatternTooLong { len: 0, max: 0 }).text();
    assert(text::decimal(0) =~= seq!['0']);
    assert(t
        =~= "pattern length 0 exceeds BPF verifier limit of 0 bytes. Fix: use userspace matching for patterns longer than 0 bytes."@);
    assert(t.subrange(0, 15) =~= "pattern length "@);
    assert(t.subrange(16, 47) =~= " exceeds BPF verifier limit of "@);
    assert(t.subrange(48, 109)
        =~= " bytes. Fix: use userspace matching for patterns longer than "@);
    assert(t.subrange(110, 117) =~= " bytes."@);
    assert((CompileError::PatternTooLong { len, max }).text() =~= t.subrange(0, 15)
        + text::decimal(len as nat) + t.subrange(16, 47) + text::decimal(max as nat)
        + t.subrange(48, 109) + text::decimal(max as nat) + t.subrange(110, 117));
}

/// Of the message that a pattern is invalid, only the reason varies.
pub proof fn law_pattern_message_varies_only_in_its_reason(reason: &'static str)
    ensures
        (CompileError::InvalidPattern { reason: "" }).text()
            == "invalid pattern: . Fix: use a supported subset (literal bytes, alternation, and ranges with start <= end)."@,
        ({
            let t = (CompileError::InvalidPattern { reason: "" }).text();
            (CompileError::InvalidPattern { reason }).text() == t.subrange(0, 17) + reason@
                + t.subrange(17, 106)
        }),
{
    reveal_strlit(
        "invalid pattern: . Fix: use a supported subset (literal bytes, alternation, and ranges with start <= end).",
    );
    reveal_strlit("invalid pattern: ");
    reveal_strlit(
        ". Fix: use a supported subset (literal bytes, alternation, and ranges with start <= end).",
    );
    let t = (CompileError::InvalidPattern { reason: "" }).text();
    reveal_strlit("");
    assert(t
        =~= "invalid pattern: . Fix: use a supported subset (literal bytes, alternation, and ranges with start <= end)."@);
    assert(t.subrange(0, 17) =~= "invalid pattern: "@);
    assert(t.subrange(17, 106)
        =~= ". Fix: use a supported subset (literal bytes, alternation, and ranges with start <= end)."@);
    assert((CompileError::InvalidPattern { reason }).text() =~= t.subrange(0, 17) + reason@
        + t.subrange(17, 106));
}

} // verus!
