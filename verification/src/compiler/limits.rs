//! Program size limits, and the size of the programs that patterns compile to.

use crate::compiler::class::PatternRange;
use crate::compiler::error::CompileError;
use vstd::prelude::*;

verus! {

/// Maximum pattern length the BPF verifier can handle.
///
/// Each pattern byte generates ~3 instructions (load + compare + jump).
/// The classic BPF limit is 4096 instructions. With overhead (~20 insns),
/// max usable is ~1350 pattern bytes. We use 1024 for safety margin.
/// Patterns longer than this should use userspace matching.
pub const MAX_BPF_PATTERN_LEN: usize = 1024;

/// The most instructions that the BPF verifier accepts in one program.
pub const MAX_BPF_INSTRUCTION_LEN: usize = 4096;

/// An inclusive byte range of a character class.
#[derive(Debug, Clone, Copy)]
pub struct CharRange {
    /// Inclusive start of the range.
    pub lo: u8,
    /// Inclusive end of the range.
    pub hi: u8,
}

/// Instructions of the program that searches for a literal of `pattern_len` bytes.
///
/// An empty literal matches at once: two context loads, a result and an exit. Any
/// other program has two context loads, one loop index, five instructions that set
/// up and bound the window, two per byte, and six that end the three paths.
pub open spec fn literal_program_len(pattern_len: nat) -> nat {
    if pattern_len == 0 {
        4
    } else {
        2 + 1 + 5 + 2 * pattern_len + 6
    }
}

/// Instructions of the program that tests a byte against `range_count` ranges.
///
/// No range at all is a result and an exit. Otherwise each range has a lower and an
/// upper comparison, and a failing and a matching block of two end the program.
pub open spec fn class_program_len(range_count: nat) -> nat {
    if range_count == 0 {
        2
    } else {
        2 * range_count + 2 + 2
    }
}

/// Instructions that try one alternative: a bound check of three, a load and a
/// comparison per byte, and the jump to the matching block.
pub open spec fn alternative_len(bytes: Seq<u8>) -> nat {
    3 + 2 * bytes.len() + 1
}

/// Instructions that try the alternatives one after another.
pub open spec fn alternatives_len(alternatives: Seq<&[u8]>) -> nat
    decreases alternatives.len(),
{
    if alternatives.len() == 0 {
        0
    } else {
        alternatives_len(alternatives.drop_last()) + alternative_len(alternatives.last()@)
    }
}

/// Whether some alternative is empty, so that the alternation matches anything.
pub open spec fn has_empty_alternative(alternatives: Seq<&[u8]>) -> bool {
    exists|i: int| 0 <= i < alternatives.len() && (#[trigger] alternatives[i])@.len() == 0
}

/// Instructions of the program that tries `alternatives` in order.
///
/// With no alternative, or an empty one, the outcome is known: a result and an exit.
/// Otherwise a failing and a matching block of two follow the alternatives.
pub open spec fn alternation_program_len(alternatives: Seq<&[u8]>) -> nat {
    if alternatives.len() == 0 || has_empty_alternative(alternatives) {
        2
    } else {
        alternatives_len(alternatives) + 2 + 2
    }
}

/// Validates generated instruction count before assembling BPF code.
///
/// # Errors
///
/// Returns [`CompileError::PatternTooLong`] when the expected instruction
/// count would exceed the eBPF verifier cap of 4096 instructions.
pub fn compile_with_limit(expected_instruction_count: usize) -> (res: Result<(), CompileError>)
    ensures
        res is Ok <==> expected_instruction_count <= MAX_BPF_INSTRUCTION_LEN,
        res matches Err(e) ==> e == (CompileError::PatternTooLong {
            len: expected_instruction_count,
            max: MAX_BPF_INSTRUCTION_LEN,
        }),
{
    if expected_instruction_count > MAX_BPF_INSTRUCTION_LEN {
        return Err(
            CompileError::PatternTooLong {
                len: expected_instruction_count,
                max: MAX_BPF_INSTRUCTION_LEN,
            },
        );
    }
    Ok(())
}

/// How many instructions the search for a literal of `pattern_len` bytes takes.
pub fn literal_search_instruction_count(pattern_len: usize) -> (count: usize)
    requires
        literal_program_len(pattern_len as nat) <= usize::MAX,
    ensures
        count == literal_program_len(pattern_len as nat),
        pattern_len == 0 ==> count == 4,
        pattern_len > 0 ==> count == 14 + 2 * pattern_len,
{
    if pattern_len == 0 {
        return 4;
    }
    // 2 context loads, 1 loop index init, 5 setup insns (R5/R6 + bounds placeholder),
    // 2 instructions per literal byte, and 6 fixed control-flow insns.
    14 + pattern_len * 2
}

/// How many instructions a character class with these ranges takes.
pub fn estimate_character_class_instructions(ranges: &[PatternRange]) -> (count: usize)
    requires
        class_program_len(ranges@.len()) <= usize::MAX,
    ensures
        count == class_program_len(ranges@.len()),
        ranges@.len() == 0 ==> count == 2,
        ranges@.len() > 0 ==> count == 4 + 2 * ranges@.len(),
{
    if ranges.len() == 0 {
        return 2;
    }
    // A lower and an upper comparison per range, and a fixed fail
    // (MOV R0,0 + EXIT) + match (MOV R0,1 + EXIT) block.
    4 + ranges.len() * 2
}

/// The first alternatives need no more instructions than all of them.
proof fn lemma_alternatives_len_monotone(alternatives: Seq<&[u8]>, n: int)
    requires
        0 <= n <= alternatives.len(),
    ensures
        alternatives_len(alternatives.take(n)) <= alternatives_len(alternatives),
    decreases alternatives.len() - n,
{
    if n == alternatives.len() {
        assert(alternatives.take(n) =~= alternatives);
    } else {
        assert(alternatives.take(n + 1).drop_last() =~= alternatives.take(n));
        lemma_alternatives_len_monotone(alternatives, n + 1);
    }
}

/// How many instructions the alternation of these literals takes.
pub fn estimate_alternation_instructions(alternatives: &[&[u8]]) -> (count: usize)
    requires
        alternation_program_len(alternatives@) <= usize::MAX,
    ensures
        count == alternation_program_len(alternatives@),
{
    if alternatives.len() == 0 {
        return 2;
    }
    let mut i: usize = 0;
    while i < alternatives.len()
        invariant
            i <= alternatives@.len(),
            forall|j: int| 0 <= j < i ==> (#[trigger] alternatives@[j])@.len() != 0,
        decreases alternatives@.len() - i,
    {
        if alternatives[i].len() == 0 {
            assert(alternatives@[i as int]@.len() == 0);
            return 2;
        }
        i += 1;
    }
    // Per alternative: bound check = MOV R6,R5 + ADD R6,len + JGT R6,R3 = 3; per byte
    // LDX_B + JNE = 2; match jump JA = 1. Fixed blocks: fail (MOV+EXIT) + success
    // (MOV+EXIT) = 4.
    let mut total: usize = 0;
    let mut k: usize = 0;
    while k < alternatives.len()
        invariant
            k <= alternatives@.len(),
            total == alternatives_len(alternatives@.take(k as int)),
            alternatives_len(alternatives@) + 4 <= usize::MAX,
        decreases alternatives@.len() - k,
    {
        proof {
            assert(alternatives@.take(k + 1).drop_last() =~= alternatives@.take(k as int));
            lemma_alternatives_len_monotone(alternatives@, k + 1);
        }
        total = total + (4 + alternatives[k].len() * 2);
        k += 1;
    }
    assert(alternatives@.take(k as int) =~= alternatives@);
    4 + total
}

/// Every literal up to [`MAX_BPF_PATTERN_LEN`] compiles to a program that the
/// verifier's limit admits.
pub proof fn law_admitted_literals_fit_the_limit(pattern_len: nat)
    requires
        pattern_len <= MAX_BPF_PATTERN_LEN,
    ensures
        literal_program_len(pattern_len) < MAX_BPF_INSTRUCTION_LEN,
{
}

/// A longer literal never takes fewer instructions.
pub proof fn law_literal_size_grows(shorter: nat, longer: nat)
    requires
        shorter < longer,
    ensures
        literal_program_len(shorter) < literal_program_len(longer),
{
}

/// Adding a non-empty branch to an alternation adds that branch's own instructions.
pub proof fn law_alternative_adds_its_size(alternatives: Seq<&[u8]>, bytes: &[u8])
    requires
        alternatives.len() > 0,
        !has_empty_alternative(alternatives),
        bytes@.len() > 0,
    ensures
        alternation_program_len(alternatives.push(bytes)) == alternation_program_len(alternatives)
            + 4 + 2 * bytes@.len(),
{
    let more = alternatives.push(bytes);
    assert(more.drop_last() =~= alternatives);
    if has_empty_alternative(more) {
        let i = choose|i: int| 0 <= i < more.len() && (#[trigger] more[i])@.len() == 0;
        if i < alternatives.len() {
            assert(alternatives[i]@.len() == 0);
        }
    }
}

/// A literal of one byte takes sixteen instructions, each further byte adds its load and
/// its comparison, and no byte at all leaves four.
pub proof fn law_each_literal_byte_adds_two(pattern_len: nat)
    ensures
        literal_program_len(0) == 4,
        literal_program_len(1) == 16,
        pattern_len >= 1 ==> literal_program_len(pattern_len + 1) == literal_program_len(
            pattern_len,
        ) + 2,
{
}

/// Two literals that are searched for as one share everything but their bytes.
pub proof fn law_joined_literals_share_their_frame(first: nat, second: nat)
    requires
        first > 0,
        second > 0,
    ensures
        literal_program_len(first + second) + 14 == literal_program_len(first)
            + literal_program_len(second),
{
}

/// A class of one range takes six instructions, each further range adds its two
/// comparisons, and no range at all leaves two.
pub proof fn law_each_range_adds_two(range_count: nat)
    ensures
        class_program_len(0) == 2,
        class_program_len(1) == 6,
        range_count >= 1 ==> class_program_len(range_count + 1) == class_program_len(range_count)
            + 2,
{
}

proof fn lemma_alternatives_len_counts_bytes(alternatives: Seq<&[u8]>)
    ensures
        alternatives_len(alternatives) == 4 * alternatives.len() + 2 * alternatives.map_values(
            |a: &[u8]| a@,
        ).flatten().len(),
    decreases alternatives.len(),
{
    let bytes = alternatives.map_values(|a: &[u8]| a@);
    if alternatives.len() == 0 {
        assert(bytes =~= seq![]);
    } else {
        let shorter = alternatives.drop_last();
        lemma_alternatives_len_counts_bytes(shorter);
        let head = shorter.map_values(|a: &[u8]| a@);
        assert(bytes =~= head.push(alternatives.last()@));
        head.lemma_flatten_push(alternatives.last()@);
    }
}

/// The size of an undecided alternation is told by how many alternatives there are and by
/// how many bytes they have together: four instructions for the program, four for each
/// alternative, two for each byte.
pub proof fn law_alternation_size_counts_alternatives_and_bytes(alternatives: Seq<&[u8]>)
    requires
        alternatives.len() > 0,
        forall|i: int| 0 <= i < alternatives.len() ==> (#[trigger] alternatives[i])@.len() > 0,
    ensures
        alternation_program_len(alternatives) == 4 + 4 * alternatives.len() + 2
            * alternatives.map_values(|a: &[u8]| a@).flatten().len(),
{
    lemma_alternatives_len_counts_bytes(alternatives);
}

/// A single alternative that is not empty takes eight instructions and two for each of its
/// bytes, however many it has.
pub proof fn law_lone_alternative_size(bytes: &[u8])
    requires
        bytes@.len() > 0,
    ensures
        alternation_program_len(seq![bytes]) == 8 + 2 * bytes@.len(),
{
    let one = seq![bytes];
    law_alternation_size_counts_alternatives_and_bytes(one);
    let all = one.map_values(|a: &[u8]| a@);
    assert(all =~= seq![bytes@]);
    all.lemma_flatten_one_element();
}

/// An alternation takes two instructions where its outcome is known beforehand, with no
/// alternative or with an empty one, and nowhere else.
pub proof fn law_only_decided_alternations_take_two(alternatives: Seq<&[u8]>)
    ensures
        alternation_program_len(alternatives) == 2 <==> (alternatives.len() == 0 || exists|i: int|
            0 <= i < alternatives.len() && (#[trigger] alternatives[i])@.len() == 0),
{
}

/// The order of the alternatives does not change the size, and two alternations that are
/// tried as one share the blocks that end them.
pub proof fn law_joined_alternations_share_their_ends(first: Seq<&[u8]>, second: Seq<&[u8]>)
    requires
        first.len() > 0,
        second.len() > 0,
    ensures
        alternation_program_len(first + second) == alternation_program_len(second + first),
        (forall|i: int| 0 <= i < first.len() ==> (#[trigger] first[i])@.len() > 0) && (forall|
            i: int,
        | 0 <= i < second.len() ==> (#[trigger] second[i])@.len() > 0) ==> alternation_program_len(
            first + second,
        ) + 4 == alternation_program_len(first) + alternation_program_len(second),
{
    let f = first.map_values(|a: &[u8]| a@);
    let s = second.map_values(|a: &[u8]| a@);
    let fs = first + second;
    let sf = second + first;
    assert(fs.map_values(|a: &[u8]| a@) =~= f + s);
    assert(sf.map_values(|a: &[u8]| a@) =~= s + f);
    vstd::seq_lib::lemma_flatten_concat(f, s);
    vstd::seq_lib::lemma_flatten_concat(s, f);
    lemma_alternatives_len_counts_bytes(first);
    lemma_alternatives_len_counts_bytes(second);
    lemma_alternatives_len_counts_bytes(fs);
    lemma_alternatives_len_counts_bytes(sf);
    assert(forall|i: int| 0 <= i < first.len() ==> #[trigger] first[i] == fs[i]);
    assert(forall|i: int| 0 <= i < second.len() ==> #[trigger] second[i] == sf[i]);
    assert(forall|i: int| 0 <= i < first.len() ==> #[trigger] first[i] == sf[i + second.len()]);
    assert(forall|i: int| 0 <= i < second.len() ==> #[trigger] second[i] == fs[i + first.len()]);
}

} // verus!
