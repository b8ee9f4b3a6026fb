//! Loading a program: what is asked of the kernel, and what is reported when the
//! kernel refuses.

use crate::loader::error::LoaderError;
use crate::text;
use vstd::prelude::*;
use vstd::string::*;

verus! {

/// The `bpf()` command that loads a program.
pub const BPF_PROG_LOAD: u32 = 5;

/// The program type of a socket filter.
pub const BPF_PROG_TYPE_SOCKET_FILTER: u32 = 1;

/// Maximum BPF program instructions the verifier accepts.
pub const MAX_BPF_INSNS: usize = 4096;

/// Bytes set aside for what the verifier writes about a program.
pub const VERIFIER_LOG_SIZE: u32 = 16384;

/// What a load asks of the kernel, apart from the addresses of the instructions, the
/// license and the log. All that is not named here is zero.
#[derive(Clone, Copy, Debug, PartialEq, Eq)]
pub struct ProgLoadRequest {
    /// The program type.
    pub prog_type: u32,
    /// The number of instructions.
    pub insn_cnt: u32,
    /// The license, ended by a NUL.
    pub license: [u8; 4],
    /// The verifier's log level.
    pub log_level: u32,
    /// The bytes of the log buffer.
    pub log_size: u32,
}

/// The request that loads a program of `insn_count` instructions as a socket filter.
pub fn load_filter_request(insn_count: usize) -> (res: Result<ProgLoadRequest, LoaderError>)
    ensures
        match res {
            Ok(r) => {
                &&& 0 < insn_count <= MAX_BPF_INSNS
                &&& r.prog_type == BPF_PROG_TYPE_SOCKET_FILTER
                &&& r.insn_cnt == insn_count
                &&& r.license@ == seq!['G' as u8, 'P' as u8, 'L' as u8, 0u8]
                &&& r.log_level == 1
                &&& r.log_size == VERIFIER_LOG_SIZE
            },
            Err(e) => {
                ||| insn_count == 0 && e == LoaderError::EmptyProgram
                ||| insn_count > MAX_BPF_INSNS && e == (LoaderError::TooManyInstructions {
                    count: insn_count,
                    max: MAX_BPF_INSNS,
                })
            },
        },
{
    if insn_count == 0 {
        return Err(LoaderError::EmptyProgram);
    }
    if insn_count > MAX_BPF_INSNS {
        return Err(LoaderError::TooManyInstructions { count: insn_count, max: MAX_BPF_INSNS });
    }
    let r = ProgLoadRequest {
        prog_type: BPF_PROG_TYPE_SOCKET_FILTER,
        insn_cnt: insn_count as u32,
        license: ['G' as u8, 'P' as u8, 'L' as u8, 0],
        log_level: 1,
        log_size: VERIFIER_LOG_SIZE,
    };
    assert(r.license@ =~= seq!['G' as u8, 'P' as u8, 'L' as u8, 0u8]);
    Ok(r)
}

/// The file descriptor that a `bpf()` call returned, or `None` where it failed.
pub fn fd_from_syscall(rc: i64) -> (fd: Option<i32>)
    ensures
        fd is None <==> rc < 0,
        fd matches Some(n) ==> n == rc as i32,
{
    if rc < 0 {
        None
    } else {
        Some(
            #[verifier::truncate]
            (rc as i32),
        )
    }
}

/// What of a log is reported: the text between the NULs of its buffer and the white
/// space round it, or a placeholder where nothing is left.
pub open spec fn log_report(log: Seq<char>) -> Seq<char> {
    let kept = text::trimmed(text::trimmed(log, text::TrimSet::Nul), text::TrimSet::WhiteSpace);
    if kept.len() == 0 {
        "(empty)"@
    } else {
        kept
    }
}

/// The report of a refused load.
pub open spec fn load_failure_chars(os_error: Seq<char>, log: Seq<char>) -> Seq<char> {
    os_error + " -- BPF verifier log: "@ + log_report(log)
}

/// The report of a refused load, of the system's error and the text of the log.
pub fn load_failure_report(os_error: &str, log: &str) -> (s: String)
    ensures
        s@ == load_failure_chars(os_error@, log@),
{
    let kept = text::trim(text::trim(log, text::TrimSet::Nul), text::TrimSet::WhiteSpace);
    let mut s = os_error.to_owned();
    s.append(" -- BPF verifier log: ");
    if kept.is_empty() {
        s.append("(empty)");
    } else {
        s.append(kept);
    }
    s
}

/// The report of a refused load, of the system's error and the log buffer as the
/// kernel left it. Bytes that are no text are replaced.
pub fn load_failure_message(os_error: &str, log_buf: &[u8]) -> (s: String)
    ensures
        s@ == load_failure_chars(os_error@, text::lossy_chars(log_buf@)),
        vstd::utf8::valid_utf8(log_buf@) ==> s@ == load_failure_chars(
            os_error@,
            vstd::utf8::decode_utf8(log_buf@),
        ),
{
    load_failure_report(os_error, text::lossy_text(log_buf).as_str())
}

/// The part of the buffer that the kernel did not write does not show in the report.
pub proof fn law_unwritten_log_is_not_reported(log: Seq<char>, unwritten: nat)
    ensures
        log_report(log + Seq::new(unwritten, |i: int| '\0')) == log_report(log),
{
    text::law_trailing_padding_is_dropped(
        log,
        Seq::new(unwritten, |i: int| '\0'),
        text::TrimSet::Nul,
    );
}

/// A buffer that the kernel did not write at all is reported as empty.
pub proof fn law_untouched_log_is_reported_empty(size: nat)
    ensures
        log_report(Seq::new(size, |i: int| '\0')) == "(empty)"@,
{
    let nothing = Seq::<char>::empty();
    law_unwritten_log_is_not_reported(nothing, size);
    assert(nothing + Seq::new(size, |i: int| '\0') =~= Seq::new(size, |i: int| '\0'));
}

/// The report always says what the system's error was and that the log follows.
pub proof fn law_report_names_error_and_log(os_error: Seq<char>, log: Seq<char>)
    ensures
        (os_error + " -- BPF verifier log: "@).is_prefix_of(load_failure_chars(os_error, log)),
        load_failure_chars(os_error, log).len() > (os_error + " -- BPF verifier log: "@).len(),
{
    reveal_strlit("(empty)");
}

/// What is reported of a log is what stands between the NULs and the white space round it;
/// NULs that white space parts from the ends of the buffer are kept.
pub proof fn law_report_tells_what_the_kernel_wrote(
    front: Seq<char>,
    before: Seq<char>,
    kept: Seq<char>,
    after: Seq<char>,
    back: Seq<char>,
)
    requires
        forall|i: int| 0 <= i < front.len() ==> #[trigger] front[i] == '\0',
        forall|i: int| 0 <= i < back.len() ==> #[trigger] back[i] == '\0',
        forall|i: int| 0 <= i < before.len() ==> text::is_white_space(#[trigger] before[i]),
        forall|i: int| 0 <= i < after.len() ==> text::is_white_space(#[trigger] after[i]),
        kept.len() > 0,
        !text::is_white_space(kept[0]) && !text::is_white_space(kept.last()),
        before.len() == 0 ==> kept[0] != '\0',
        after.len() == 0 ==> kept.last() != '\0',
    ensures
        log_report(front + (before + kept + after) + back) == kept,
{
    let middle = before + kept + after;
    assert(middle[0] == if before.len() > 0 {
        before[0]
    } else {
        kept[0]
    });
    assert(middle.last() == if after.len() > 0 {
        after.last()
    } else {
        kept.last()
    });
    text::law_trim_keeps_what_is_between(front, middle, back, text::TrimSet::Nul);
    text::law_trim_keeps_what_is_between(before, kept, after, text::TrimSet::WhiteSpace);
}

/// A log of nothing but NULs round white space is reported as empty.
pub proof fn law_blank_log_is_reported_empty(front: Seq<char>, blank: Seq<char>, back: Seq<char>)
    requires
        forall|i: int| 0 <= i < front.len() ==> #[trigger] front[i] == '\0',
        forall|i: int| 0 <= i < back.len() ==> #[trigger] back[i] == '\0',
        forall|i: int| 0 <= i < blank.len() ==> text::is_white_space(#[trigger] blank[i]),
    ensures
        log_report(front + blank + back) == "(empty)"@,
{
    text::law_trim_keeps_what_is_between(front, blank, back, text::TrimSet::Nul);
    text::law_trim_keeps_what_is_between(blank, seq![], seq![], text::TrimSet::WhiteSpace);
    assert(blank + seq![] + seq![] =~= blank);
}

/// The report is the system's error, the label of the log, and what is reported of the log,
/// with nothing between them or behind.
pub proof fn law_report_is_error_label_and_log(os_error: Seq<char>, log: Seq<char>)
    ensures
        load_failure_chars(os_error, log).take(os_error.len() as int) == os_error,
        load_failure_chars(os_error, log).skip(os_error.len() as int)
            == " -- BPF verifier log: "@ + log_report(log),
{
    let s = load_failure_chars(os_error, log);
    assert(s.take(os_error.len() as int) =~= os_error);
    assert(s.skip(os_error.len() as int) =~= " -- BPF verifier log: "@ + log_report(log));
}

/// The numbers of the load command and of its program type are the kernel's.
pub proof fn law_load_numbers_are_the_kernels()
    ensures
        BPF_PROG_LOAD == 5,
        BPF_PROG_TYPE_SOCKET_FILTER == 1,
{
}

} // verus!
