//! Status values of an entry and the order in which they may follow each other.

use vstd::prelude::*;

verus! {

/// How a working copy stands against its remote.
#[derive(Clone, Copy, Debug, PartialEq, Eq, Structural)]
pub enum GitStatus {
    /// Local and remote tips coincide.
    UpToDate,
    /// The local tip has this many commits that the remote lacks.
    LocalBehind(u32),
    /// The remote tip has this many commits that the local copy lacks.
    RemoteBehind(u32),
}

/// Where an entry is in its life: found, being probed, or resolved.
#[derive(Clone, Copy, Debug, PartialEq, Eq, Structural)]
pub enum ProjectStatus {
    /// Discovered, no probe issued yet.
    Unchecked,
    /// A probe is in flight.
    Waiting,
    /// The probe finished and was understood.
    Complete(GitStatus),
    /// The probe failed, timed out, or printed something unrecognised.
    Failed,
}

/// The only steps a status may take: `Unchecked` to `Waiting`, and `Waiting`
/// to `Complete` or `Failed`.
pub open spec fn step_allowed(from: ProjectStatus, to: ProjectStatus) -> bool {
    match (from, to) {
        (ProjectStatus::Unchecked, ProjectStatus::Waiting) => true,
        (ProjectStatus::Waiting, ProjectStatus::Complete(_)) => true,
        (ProjectStatus::Waiting, ProjectStatus::Failed) => true,
        _ => false,
    }
}

/// Position of a status along its life: 0 for `Unchecked`, 1 for `Waiting`,
/// 2 for a resolved entry.
pub open spec fn stage(s: ProjectStatus) -> nat {
    match s {
        ProjectStatus::Unchecked => 0,
        ProjectStatus::Waiting => 1,
        ProjectStatus::Complete(_) => 2,
        ProjectStatus::Failed => 2,
    }
}

impl ProjectStatus {
    /// True for `Complete` and `Failed`.
    pub open spec fn resolved(self) -> bool {
        self is Complete || self is Failed
    }

    /// Whether a probe is in flight.
    pub fn is_waiting(&self) -> (r: bool)
        ensures
            r == (*self == ProjectStatus::Waiting),
    {
        match self {
            ProjectStatus::Waiting => true,
            _ => false,
        }
    }

    /// Whether the entry has reached `Complete` or `Failed`.
    pub fn is_resolved(&self) -> (r: bool)
        ensures
            r == self.resolved(),
    {
        match self {
            ProjectStatus::Complete(_) => true,
            ProjectStatus::Failed => true,
            _ => false,
        }
    }

    /// Whether the status may change from `self` to `to`.
    pub fn can_step_to(&self, to: &ProjectStatus) -> (r: bool)
        ensures
            r == step_allowed(*self, *to),
    {
        match (self, to) {
            (ProjectStatus::Unchecked, ProjectStatus::Waiting) => true,
            (ProjectStatus::Waiting, ProjectStatus::Complete(_)) => true,
            (ProjectStatus::Waiting, ProjectStatus::Failed) => true,
            _ => false,
        }
    }
}

/// An allowed step moves exactly one stage forward: it never skips `Waiting`
/// and never goes back.
pub proof fn lemma_step_moves_one_stage(from: ProjectStatus, to: ProjectStatus)
    requires
        step_allowed(from, to),
    ensures
        stage(to) == stage(from) + 1,
        from != to,
        !from.resolved(),
{
}

/// A resolved status has no allowed successor.
pub proof fn lemma_resolved_is_final(from: ProjectStatus, to: ProjectStatus)
    requires
        from.resolved(),
    ensures
        !step_allowed(from, to),
{
}

} // verus!
