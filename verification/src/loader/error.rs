//! What the loader refuses before, or makes of the answers to, its system calls.

use crate::text;
use vstd::prelude::*;
use vstd::string::*;

verus! {

/// The kind of a [`LoaderError`].
#[derive(Clone, Copy, Debug, PartialEq, Eq, Structural)]
pub enum LoaderErrorKind {
    /// An argument is not acceptable.
    InvalidInput,
    /// The system reported something that cannot be used.
    InvalidData,
}

/// A request or an answer that the loader does not go on with.
#[derive(Clone, Copy, Debug, PartialEq, Eq, Structural)]
pub enum LoaderError {
    /// The program has no instruction.
    EmptyProgram,
    /// The program has more instructions than the verifier accepts.
    TooManyInstructions {
        /// How many it has.
        count: usize,
        /// How many are accepted.
        max: usize,
    },
    /// The size of a ring buffer is zero or no power of two.
    RingSizeNotPowerOfTwo,
    /// The map is of another type than a ring buffer.
    NotARingBuffer,
    /// The page size cannot be represented.
    PageSizeTooGreat,
    /// The mapping of a ring buffer cannot be addressed.
    MappingTooLong,
}

impl LoaderError {
    /// The kind that `kind` returns.
    pub open spec fn kind_of(self) -> LoaderErrorKind {
        if self is PageSizeTooGreat {
            LoaderErrorKind::InvalidData
        } else {
            LoaderErrorKind::InvalidInput
        }
    }

    /// The text that `message` returns.
    pub open spec fn text(self) -> Seq<char> {
        match self {
            LoaderError::EmptyProgram =>
                "BPF program is empty. Fix: provide at least one instruction."@,
            LoaderError::TooManyInstructions { count, max } => "BPF program has "@ + text::decimal(
                count as nat,
            ) + " instructions, exceeding the "@ + text::decimal(max as nat)
                + "-instruction verifier limit. Fix: simplify the pattern or split into multiple programs."@,
            LoaderError::RingSizeNotPowerOfTwo =>
                "ring buffer size must be a non-zero power of two. Fix: pass 4096, 8192, 16384, or another power of two."@,
            LoaderError::NotARingBuffer =>
                "fd does not reference a BPF ring buffer map. Fix: pass the fd returned by create_ringbuf or a BPF_MAP_TYPE_RINGBUF map."@,
            LoaderError::PageSizeTooGreat =>
                "system page size does not fit in usize. Fix: run on a supported userspace architecture."@,
            LoaderError::MappingTooLong =>
                "ring buffer mapping length overflowed. Fix: use a smaller ring size."@,
        }
    }

    /// Whether the request or the system's answer is at fault.
    pub fn kind(&self) -> (k: LoaderErrorKind)
        ensures
            k == self.kind_of(),
    {
        match self {
            LoaderError::PageSizeTooGreat => LoaderErrorKind::InvalidData,
            _ => LoaderErrorKind::InvalidInput,
        }
    }

    /// What went wrong, and what to do about it.
    pub fn message(&self) -> (s: String)
        ensures
            s@ == self.text(),
    {
        match self {
            LoaderError::EmptyProgram =>
                "BPF program is empty. Fix: provide at least one instruction.".to_owned(),
            LoaderError::TooManyInstructions { count, max } => {
                let mut s = "BPF program has ".to_owned();
                s.append(text::decimal_text(*count as u64).as_str());
                s.append(" instructions, exceeding the ");
                s.append(text::decimal_text(*max as u64).as_str());
                s.append(
                    "-instruction verifier limit. Fix: simplify the pattern or split into multiple programs.",
                );
                s
            },
            LoaderError::RingSizeNotPowerOfTwo =>
                "ring buffer size must be a non-zero power of two. Fix: pass 4096, 8192, 16384, or another power of two.".to_owned(),
            LoaderError::NotARingBuffer =>
                "fd does not reference a BPF ring buffer map. Fix: pass the fd returned by create_ringbuf or a BPF_MAP_TYPE_RINGBUF map.".to_owned(),
            LoaderError::PageSizeTooGreat =>
                "system page size does not fit in usize. Fix: run on a supported userspace architecture.".to_owned(),
            LoaderError::MappingTooLong =>
                "ring buffer mapping length overflowed. Fix: use a smaller ring size.".to_owned(),
        }
    }
}

/// Every message says how to mend what it reports.
pub proof fn law_messages_are_actionable(e: LoaderError)
    ensures
        text::mentions(e.text(), "Fix: "@),
{
    reveal_strlit("Fix: ");
    let s = e.text();
    match e {
        LoaderError::EmptyProgram => {
            reveal_strlit(
                "BPF program is empty. Fix: provide at least one instruction.",
            );
            assert(s.subrange(22, 27) =~= "Fix: "@);
            text::lemma_mentions_at(s, "Fix: "@, 22);
        },
        LoaderError::TooManyInstructions { count, max } => {
            reveal_strlit(
                "-instruction verifier limit. Fix: simplify the pattern or split into multiple programs.",
            );
            let head = "BPF program has "@ + text::decimal(count as nat)
                + " instructions, exceeding the "@ + text::decimal(max as nat);
            let at = head.len() as int + 29;
            assert(s.subrange(at, at + 5) =~= "Fix: "@);
            text::lemma_mentions_at(s, "Fix: "@, at);
        },
        LoaderError::RingSizeNotPowerOfTwo => {
            reveal_strlit(
                "ring buffer size must be a non-zero power of two. Fix: pass 4096, 8192, 16384, or another power of two.",
            );
            assert(s.subrange(50, 55) =~= "Fix: "@);
            text::lemma_mentions_at(s, "Fix: "@, 50);
        },
        LoaderError::NotARingBuffer => {
            reveal_strlit(
                "fd does not reference a BPF ring buffer map. Fix: pass the fd returned by create_ringbuf or a BPF_MAP_TYPE_RINGBUF map.",
            );
            assert(s.subrange(45, 50) =~= "Fix: "@);
            text::lemma_mentions_at(s, "Fix: "@, 45);
        },
        LoaderError::PageSizeTooGreat => {
            reveal_strlit(
                "system page size does not fit in usize. Fix: run on a supported userspace architecture.",
            );
            assert(s.subrange(40, 45) =~= "Fix: "@);
            text::lemma_mentions_at(s, "Fix: "@, 40);
        },
        LoaderError::MappingTooLong => {
            reveal_strlit(
                "ring buffer mapping length overflowed. Fix: use a smaller ring size.",
            );
            assert(s.subrange(39, 44) =~= "Fix: "@);
            text::lemma_mentions_at(s, "Fix: "@, 39);
        },
    }
}

/// Of the message that a program is too long, only the two numbers vary, each in decimal.
pub proof fn law_count_message_varies_only_in_its_numbers(count: usize, max: usize)
    ensures
        (LoaderError::TooManyInstructions { count: 0, max: 0 }).text()
            == "BPF program has 0 instructions, exceeding the 0-instruction verifier limit. Fix: simplify the pattern or split into multiple programs."@,
        ({
            let t = (LoaderError::TooManyInstructions { count: 0, max: 0 }).text();
            (LoaderError::TooManyInstructions { count, max }).text() == t.subrange(0, 16)
                + text::decimal(count as nat) + t.subrange(17, 46) + text::decimal(max as nat)
                + t.subrange(47, 134)
        }),
{
    reveal_strlit(
        "BPF program has 0 instructions, exceeding the 0-instruction verifier limit. Fix: simplify the pattern or split into multiple programs.",
    );
    reveal_strlit("BPF program has ");
    reveal_strlit(" instructions, exceeding the ");
    reveal_strlit(
        "-instruction verifier limit. Fix: simplify the pattern or split into multiple programs.",
    );
    let t = (LoaderError::TooManyInstructions { count: 0, max: 0 }).text();
    assert(text::decimal(0) =~= seq!['0']);
    assert(t
        =~= "BPF program has 0 instructions, exceeding the 0-instruction verifier limit. Fix: simplify the pattern or split into multiple programs."@);
    assert(t.subrange(0, 16) =~= "BPF program has "@);
    assert(t.subrange(17, 46) =~= " instructions, exceeding the "@);
    assert(t.subrange(47, 134)
        =~= "-instruction verifier limit. Fix: simplify the pattern or split into multiple programs."@);
    assert((LoaderError::TooManyInstructions { count, max }).text() =~= t.subrange(0, 16)
        + text::decimal(count as nat) + t.subrange(17, 46) + text::decimal(max as nat)
        + t.subrange(47, 134));
}

/// Only an unusable answer of the system is invalid data; whatever else is refused is
/// invalid input.
pub proof fn law_only_the_page_size_is_invalid_data(e: LoaderError)
    ensures
        e.kind_of() == LoaderErrorKind::InvalidData <==> e == LoaderError::PageSizeTooGreat,
        e.kind_of() == LoaderErrorKind::InvalidInput <==> e != LoaderError::PageSizeTooGreat,
{
}

} // verus!
