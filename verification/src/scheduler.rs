//! The probe scheduler: which probe may start next, and what a finished one
//! does to its entry.
//!
//! The scheduler owns the store. The program around it asks for the next
//! directory to probe, runs the probe, and hands the outcome back; the
//! scheduler never has more probes in flight than its limit allows.

use vstd::prelude::*;
use crate::probe::ProbeOutcome;
use crate::scan::ScanError;
use crate::status::ProjectStatus;
use crate::store::{
    EntryModel,
    ProjectEntry,
    StatusStore,
    StoreError,
    distinct_paths,
    fresh_entries,
    has_path,
    is_first_unchecked,
    lemma_fresh_entries,
    lemma_position_unique,
    lemma_with_status,
    lemma_with_status_at,
    moved_forward,
    models_of,
    none_unchecked,
    path_views,
    paths_of,
    position_of,
    status_of,
    with_status,
};

verus! {

/// 1 for a status with a probe in flight, 0 for any other.
pub open spec fn waiting_weight(st: ProjectStatus) -> nat {
    if st == ProjectStatus::Waiting {
        1
    } else {
        0
    }
}

/// The number of entries whose probe is in flight.
pub open spec fn count_waiting(s: Seq<EntryModel>) -> nat
    decreases s.len(),
{
    if s.len() == 0 {
        0
    } else {
        count_waiting(s.drop_last()) + waiting_weight(s.last().status)
    }
}

/// Replacing one entry changes the count by the difference of the two weights.
pub proof fn lemma_count_update(s: Seq<EntryModel>, i: int, e: EntryModel)
    requires
        0 <= i < s.len(),
    ensures
        count_waiting(s.update(i, e)) + waiting_weight(s[i].status) == count_waiting(s)
            + waiting_weight(e.status),
    decreases s.len(),
{
    let t = s.update(i, e);
    if i == s.len() - 1 {
        assert(t.drop_last() =~= s.drop_last());
    } else {
        assert(t.drop_last() =~= s.drop_last().update(i, e));
        lemma_count_update(s.drop_last(), i, e);
    }
}

/// Where no entry is `Waiting`, the count is zero.
pub proof fn lemma_count_none_waiting(s: Seq<EntryModel>)
    requires
        forall|i: int| 0 <= i < s.len() ==> (#[trigger] s[i]).status != ProjectStatus::Waiting,
    ensures
        count_waiting(s) == 0,
    decreases s.len(),
{
    if s.len() > 0 {
        assert(s.last() == s[s.len() - 1]);
        assert forall|i: int| 0 <= i < s.drop_last().len() implies (#[trigger] s.drop_last()[i]).status
            != ProjectStatus::Waiting by {
            assert(s.drop_last()[i] == s[i]);
        }
        lemma_count_none_waiting(s.drop_last());
    }
}

/// Dispatches probes over the entries of a store, a bounded number at a time.
pub struct Scheduler {
    store: StatusStore,
    limit: usize,
    in_flight: usize,
}

impl Scheduler {
    /// The entries, in discovery order.
    pub closed spec fn entries(&self) -> Seq<EntryModel> {
        self.store@
    }

    /// The most probes that may be in flight at once.
    pub closed spec fn bound(&self) -> nat {
        self.limit as nat
    }

    /// The number of probes that the scheduler counts as in flight.
    pub closed spec fn running(&self) -> nat {
        self.in_flight as nat
    }

    /// Each path occurs once, the probes in flight are exactly the `Waiting`
    /// entries, and there are no more of them than the limit allows.
    pub open spec fn wf(&self) -> bool {
        &&& distinct_paths(self.entries())
        &&& self.running() == count_waiting(self.entries())
        &&& self.running() <= self.bound()
    }

    /// A scheduler without entries that lets `limit` probes run at once.
    pub fn new(limit: usize) -> (s: Self)
        ensures
            s.wf(),
            s.entries() == Seq::<EntryModel>::empty(),
            s.bound() == limit,
            s.running() == 0,
    {
        Scheduler { store: StatusStore::new(), limit, in_flight: 0 }
    }

    /// The configured limit.
    pub fn limit(&self) -> (n: usize)
        ensures
            n == self.bound(),
    {
        self.limit
    }

    /// The number of probes in flight.
    pub fn in_flight(&self) -> (n: usize)
        ensures
            n == self.running(),
    {
        self.in_flight
    }

    /// The store the render loop reads.
    pub fn store(&self) -> (s: &StatusStore)
        ensures
            s@ == self.entries(),
    {
        &self.store
    }

    /// A snapshot of all entries, in discovery order.
    pub fn snapshot(&self) -> (rows: Vec<ProjectEntry>)
        ensures
            models_of(rows@) == self.entries(),
    {
        self.store.get_all()
    }

    /// Takes the result of a scan. A listing replaces the whole entry set by
    /// `Unchecked` entries, one for each path, and no probe counts as in
    /// flight any more: the caller stops those that still run. A failed scan
    /// is handed back and leaves the entries as they were.
    pub fn rescan(&mut self, scan: Result<Vec<String>, ScanError>) -> (r: Result<(), ScanError>)
        requires
            old(self).wf(),
        ensures
            final(self).wf(),
            final(self).bound() == old(self).bound(),
            match scan {
                Ok(paths) => {
                    &&& r is Ok
                    &&& final(self).entries() == fresh_entries(path_views(paths@))
                    &&& final(self).running() == 0
                },
                Err(e) => {
                    &&& r == Err::<(), ScanError>(e)
                    &&& final(self).entries() == old(self).entries()
                    &&& final(self).running() == old(self).running()
                },
            },
    {
        match scan {
            Ok(paths) => {
                self.store.reset_all(&paths);
                self.in_flight = 0;
                proof {
                    lemma_fresh_entries(path_views(paths@));
                    lemma_count_none_waiting(self.entries());
                }
                Ok(())
            },
            Err(e) => Err(e),
        }
    }

    /// Picks the next directory to probe, marks it `Waiting` and returns its
    /// path.
    ///
    /// A probe is dispatched exactly where fewer probes are in flight than
    /// the limit allows and some entry is `Unchecked`; the first such entry
    /// in discovery order is taken. Otherwise nothing changes.
    pub fn next_dispatch(&mut self) -> (r: Option<String>)
        requires
            old(self).wf(),
        ensures
            final(self).wf(),
            final(self).bound() == old(self).bound(),
            paths_of(final(self).entries()) == paths_of(old(self).entries()),
            moved_forward(old(self).entries(), final(self).entries()),
            match r {
                Some(p) => {
                    &&& old(self).running() < old(self).bound()
                    &&& has_path(old(self).entries(), p@)
                    &&& is_first_unchecked(old(self).entries(), position_of(old(self).entries(), p@))
                    &&& final(self).entries() == with_status(
                        old(self).entries(),
                        p@,
                        ProjectStatus::Waiting,
                    )
                    &&& final(self).running() == old(self).running() + 1
                    &&& status_of(old(self).entries(), p@) == Some(ProjectStatus::Unchecked)
                    &&& status_of(final(self).entries(), p@) == Some(ProjectStatus::Waiting)
                },
                None => {
                    &&& (old(self).running() >= old(self).bound() || none_unchecked(
                        old(self).entries(),
                    ))
                    &&& final(self).entries() == old(self).entries()
                    &&& final(self).running() == old(self).running()
                },
            },
    {
        if self.in_flight >= self.limit {
            return None;
        }
        let i = match self.store.first_unchecked() {
            Some(i) => i,
            None => {
                return None;
            },
        };
        let entry = match self.store.entry_at(i) {
            Some(e) => e,
            None => {
                return None;
            },
        };
        proof {
            lemma_position_unique(self.entries(), i as int);
            lemma_with_status_at(self.entries(), i as int, ProjectStatus::Waiting);
            lemma_count_update(
                self.entries(),
                i as int,
                EntryModel { path: entry@.path, status: ProjectStatus::Waiting },
            );
        }
        let written = self.store.set(entry.path.as_str(), ProjectStatus::Waiting);
        assert(written is Ok);
        self.in_flight = self.in_flight + 1;
        Some(entry.path)
    }

    /// Records the outcome of the probe of `path`.
    ///
    /// Where the entry is `Waiting`, its status becomes what the outcome
    /// classifies to, which is returned, and one probe fewer is in flight.
    /// Where there is no such entry, or it is not `Waiting`, nothing changes.
    pub fn complete(&mut self, path: &str, outcome: &ProbeOutcome) -> (r: Result<
        ProjectStatus,
        StoreError,
    >)
        requires
            old(self).wf(),
        ensures
            final(self).wf(),
            final(self).bound() == old(self).bound(),
            paths_of(final(self).entries()) == paths_of(old(self).entries()),
            moved_forward(old(self).entries(), final(self).entries()),
            match r {
                Ok(st) => {
                    &&& status_of(old(self).entries(), path@) == Some(ProjectStatus::Waiting)
                    &&& st == outcome.classified()
                    &&& final(self).entries() == with_status(old(self).entries(), path@, st)
                    &&& final(self).running() + 1 == old(self).running()
                    &&& status_of(final(self).entries(), path@) == Some(st)
                },
                Err(StoreError::UnknownPath) => {
                    &&& status_of(old(self).entries(), path@) is None
                    &&& final(self).entries() == old(self).entries()
                    &&& final(self).running() == old(self).running()
                },
                Err(StoreError::IllegalStep) => {
                    &&& status_of(old(self).entries(), path@) is Some
                    &&& status_of(old(self).entries(), path@) != Some(ProjectStatus::Waiting)
                    &&& final(self).entries() == old(self).entries()
                    &&& final(self).running() == old(self).running()
                },
            },
    {
        let status = outcome.classify();
        match self.store.set(path, status) {
            Ok(()) => {
                proof {
                    let s = old(self).entries();
                    let i = position_of(s, path@);
                    lemma_position_unique(s, i);
                    lemma_with_status_at(s, i, status);
                    lemma_count_update(s, i, EntryModel { path: path@, status });
                }
                self.in_flight = self.in_flight - 1;
                Ok(status)
            },
            Err(e) => Err(e),
        }
    }
}

/// The number of probes in flight never exceeds the limit, however many
/// entries there are.
pub proof fn lemma_bound_respected(s: Scheduler)
    requires
        s.wf(),
    ensures
        count_waiting(s.entries()) <= s.bound(),
{
}

/// A directory whose probe is in flight is not dispatched again: the entry
/// that a dispatch takes is `Unchecked` before it and `Waiting` after it, and
/// a later dispatch takes another entry.
pub proof fn lemma_no_second_dispatch(s: Seq<EntryModel>, i: int, j: int)
    requires
        distinct_paths(s),
        is_first_unchecked(s, i),
        is_first_unchecked(with_status(s, s[i].path, ProjectStatus::Waiting), j),
    ensures
        status_of(s, s[i].path) == Some(ProjectStatus::Unchecked),
        status_of(with_status(s, s[i].path, ProjectStatus::Waiting), s[i].path) == Some(
            ProjectStatus::Waiting,
        ),
        i < j,
        s[j].path != s[i].path,
{
    lemma_position_unique(s, i);
    lemma_with_status(s, s[i].path, ProjectStatus::Waiting);
    lemma_with_status_at(s, i, ProjectStatus::Waiting);
    let t = with_status(s, s[i].path, ProjectStatus::Waiting);
    if j < i {
        assert(t[j] == s[j]);
    }
    assert(s[i].path != s[j].path);
}

} // verus!
