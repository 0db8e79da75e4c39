//! Classifying what one probe brought back.
//!
//! A probe runs a read-only comparison query whose standard output is two
//! decimal counts on one line: the commits that only the local tip has, a
//! blank, and the commits that only the remote tip has.

use vstd::prelude::*;
use crate::status::{GitStatus, ProjectStatus};

verus! {

/// What came back from one run of the query tool.
#[derive(Debug)]
pub enum ProbeOutcome {
    /// The tool could not be started.
    ToolMissing,
    /// The tool did not finish in time and was stopped.
    TimedOut,
    /// The tool ran to its end. `code` is its exit code, if it had one.
    Exited { code: Option<i32>, stdout: Vec<u8> },
}

/// ASCII `0` to `9`.
pub open spec fn is_digit(b: u8) -> bool {
    48 <= b <= 57
}

/// A space or a tab.
pub open spec fn is_blank(b: u8) -> bool {
    b == 32 || b == 9
}

/// Number of consecutive digits in `b` from position `i` on.
pub open spec fn digit_run(b: Seq<u8>, i: int) -> nat
    decreases b.len() - i,
{
    if 0 <= i < b.len() && is_digit(b[i]) {
        1 + digit_run(b, i + 1)
    } else {
        0
    }
}

/// The number that a sequence of digits writes in base ten.
pub open spec fn decimal_value(d: Seq<u8>) -> nat
    decreases d.len(),
{
    if d.len() == 0 {
        0
    } else {
        decimal_value(d.drop_last()) * 10 + (d.last() - 48) as nat
    }
}

/// The two counts that the output holds, or `None` where it has another shape.
///
/// The recognised shape is: one or more digits, one blank, one or more digits,
/// and then nothing or a single line feed; each number at most `u32::MAX`.
pub open spec fn parse_counts(b: Seq<u8>) -> Option<(u32, u32)> {
    let n1 = digit_run(b, 0) as int;
    let n2 = digit_run(b, n1 + 1) as int;
    let end = n1 + 1 + n2;
    let v1 = decimal_value(b.subrange(0, n1));
    let v2 = decimal_value(b.subrange(n1 + 1, end));
    if n1 > 0 && n1 < b.len() && is_blank(b[n1]) && n2 > 0 && (end == b.len() || (end + 1
        == b.len() && b[end] == 10)) && v1 <= u32::MAX && v2 <= u32::MAX {
        Some((v1 as u32, v2 as u32))
    } else {
        None
    }
}

/// The status that two counts stand for. Commits that only the local tip has
/// are reported first; the remote's count is reported where there are none.
pub open spec fn status_of_counts(local_only: u32, remote_only: u32) -> GitStatus {
    if local_only > 0 {
        GitStatus::LocalBehind(local_only)
    } else if remote_only > 0 {
        GitStatus::RemoteBehind(remote_only)
    } else {
        GitStatus::UpToDate
    }
}

/// Digits from `start` up to `i` are the beginning of the run at `start`.
pub proof fn lemma_run_extends(b: Seq<u8>, start: int, i: int)
    requires
        0 <= start <= i <= b.len(),
        forall|j: int| start <= j < i ==> is_digit(#[trigger] b[j]),
    ensures
        digit_run(b, start) == (i - start) + digit_run(b, i),
    decreases i - start,
{
    if start < i {
        lemma_run_extends(b, start + 1, i);
    }
}

/// Reads the digits of `b` from `start` on. Returns where they end, and
/// their value where it fits in a `u32`.
fn read_number(b: &[u8], start: usize) -> (r: (usize, Option<u32>))
    requires
        start <= b@.len(),
    ensures
        r.0 == start + digit_run(b@, start as int),
        r.0 <= b@.len(),
        r.1 == (if decimal_value(b@.subrange(start as int, r.0 as int)) <= u32::MAX {
            Some(decimal_value(b@.subrange(start as int, r.0 as int)) as u32)
        } else {
            None
        }),
{
    let mut i: usize = start;
    let mut acc: u64 = 0;
    let mut fits: bool = true;
    proof {
        assert(b@.subrange(start as int, start as int) =~= Seq::<u8>::empty());
    }
    while i < b.len() && b[i] >= 48 && b[i] <= 57
        invariant
            start <= i <= b@.len(),
            forall|j: int| start <= j < i ==> is_digit(#[trigger] b@[j]),
            fits ==> acc == decimal_value(b@.subrange(start as int, i as int)),
            acc <= u32::MAX,
            !fits ==> decimal_value(b@.subrange(start as int, i as int)) > u32::MAX,
        decreases b@.len() - i,
    {
        let d: u64 = (b[i] - 48) as u64;
        proof {
            let next = b@.subrange(start as int, i + 1);
            assert(next.drop_last() =~= b@.subrange(start as int, i as int));
            assert(next.last() == b@[i as int]);
        }
        if fits {
            let v: u64 = acc * 10 + d;
            if v > 0xffff_ffff {
                fits = false;
                acc = 0;
            } else {
                acc = v;
            }
        }
        i = i + 1;
    }
    proof {
        lemma_run_extends(b@, start as int, i as int);
    }
    if fits {
        (i, Some(acc as u32))
    } else {
        (i, None)
    }
}

/// Reads the two counts from the query tool's standard output.
pub fn parse_comparison(out: &[u8]) -> (r: Option<(u32, u32)>)
    ensures
        r == parse_counts(out@),
{
    let (n1, first) = read_number(out, 0);
    if n1 == 0 || n1 >= out.len() {
        return None;
    }
    if !(out[n1] == 32 || out[n1] == 9) {
        return None;
    }
    let (end, second) = read_number(out, n1 + 1);
    if end == n1 + 1 {
        return None;
    }
    if !(end == out.len() || (end + 1 == out.len() && out[end] == 10)) {
        return None;
    }
    match (first, second) {
        (Some(a), Some(b)) => Some((a, b)),
        _ => None,
    }
}

/// Turns the two counts into a status.
pub fn git_status_from_counts(local_only: u32, remote_only: u32) -> (r: GitStatus)
    ensures
        r == status_of_counts(local_only, remote_only),
{
    if local_only > 0 {
        GitStatus::LocalBehind(local_only)
    } else if remote_only > 0 {
        GitStatus::RemoteBehind(remote_only)
    } else {
        GitStatus::UpToDate
    }
}

impl ProbeOutcome {
    /// The status that this outcome gives its entry: `Complete` where the tool
    /// exited with code 0 and printed two counts, `Failed` otherwise.
    pub open spec fn classified(&self) -> ProjectStatus {
        match self {
            ProbeOutcome::ToolMissing => ProjectStatus::Failed,
            ProbeOutcome::TimedOut => ProjectStatus::Failed,
            ProbeOutcome::Exited { code, stdout } => {
                if *code == Some(0i32) {
                    match parse_counts(stdout@) {
                        Some((a, b)) => ProjectStatus::Complete(status_of_counts(a, b)),
                        None => ProjectStatus::Failed,
                    }
                } else {
                    ProjectStatus::Failed
                }
            },
        }
    }

    /// Classifies the outcome of a probe. The result is always a resolved
    /// status; a missing tool, a timeout, a non-zero exit and unreadable
    /// output all give `Failed`.
    pub fn classify(&self) -> (r: ProjectStatus)
        ensures
            r == self.classified(),
            r.resolved(),
            (*self is TimedOut || *self is ToolMissing) ==> r == ProjectStatus::Failed,
    {
        match self {
            ProbeOutcome::ToolMissing => ProjectStatus::Failed,
            ProbeOutcome::TimedOut => ProjectStatus::Failed,
            ProbeOutcome::Exited { code, stdout } => {
                let ok = match code {
                    Some(c) => *c == 0,
                    None => false,
                };
                if !ok {
                    return ProjectStatus::Failed;
                }
                match parse_comparison(stdout.as_slice()) {
                    Some((a, b)) => ProjectStatus::Complete(git_status_from_counts(a, b)),
                    None => ProjectStatus::Failed,
                }
            },
        }
    }
}

/// Every outcome resolves its entry, and a probe that timed out or whose
/// tool could not be started, or that ended with an exit code other than 0,
/// fails it.
pub proof fn lemma_classified_resolves(outcome: ProbeOutcome)
    ensures
        outcome.classified().resolved(),
        outcome is TimedOut ==> outcome.classified() == ProjectStatus::Failed,
        outcome is ToolMissing ==> outcome.classified() == ProjectStatus::Failed,
        outcome matches ProbeOutcome::Exited { code, .. } && code != Some(0i32)
            ==> outcome.classified() == ProjectStatus::Failed,
{
}

/// A count in a `Complete` status is the one that the output held, and the
/// status is `UpToDate` exactly where both counts are zero.
pub proof fn lemma_counts_carried(local_only: u32, remote_only: u32)
    ensures
        status_of_counts(local_only, remote_only) == GitStatus::UpToDate <==> (local_only == 0
            && remote_only == 0),
        forall|n: u32|
            status_of_counts(local_only, remote_only) == GitStatus::LocalBehind(n) ==> n
                == local_only && n > 0,
        forall|n: u32|
            status_of_counts(local_only, remote_only) == GitStatus::RemoteBehind(n) ==> n
                == remote_only && n > 0 && local_only == 0,
{
}

} // verus!
