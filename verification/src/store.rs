//! The status store: one entry per discovered directory, in discovery order.

use vstd::prelude::*;
use crate::status::{ProjectStatus, stage, step_allowed};

verus! {

/// One directory and its current status.
#[derive(Debug)]
pub struct ProjectEntry {
    pub path: String,
    pub status: ProjectStatus,
}

/// What an entry is to the contracts: its path as characters, and its status.
pub ghost struct EntryModel {
    pub path: Seq<char>,
    pub status: ProjectStatus,
}

impl View for ProjectEntry {
    type V = EntryModel;

    open spec fn view(&self) -> EntryModel {
        EntryModel { path: self.path@, status: self.status }
    }
}

impl Clone for ProjectEntry {
    fn clone(&self) -> (r: Self)
        ensures
            r@ == self@,
    {
        ProjectEntry { path: self.path.clone(), status: self.status }
    }
}

/// Why a write to the store was refused.
#[derive(Clone, Copy, Debug, PartialEq, Eq, Structural)]
pub enum StoreError {
    /// No entry has the given path.
    UnknownPath,
    /// The entry exists, but its status may not change to the one given.
    IllegalStep,
}

/// The models of a sequence of entries.
pub open spec fn models_of(v: Seq<ProjectEntry>) -> Seq<EntryModel> {
    v.map_values(|e: ProjectEntry| e@)
}

/// The characters of each path of a list.
pub open spec fn path_views(v: Seq<String>) -> Seq<Seq<char>> {
    v.map_values(|p: String| p@)
}

/// The paths of the entries, in order.
pub open spec fn paths_of(s: Seq<EntryModel>) -> Seq<Seq<char>> {
    s.map_values(|e: EntryModel| e.path)
}

/// No two entries share a path.
pub open spec fn distinct_paths(s: Seq<EntryModel>) -> bool {
    forall|i: int, j: int| 0 <= i < j < s.len() ==> (#[trigger] s[i]).path != (#[trigger] s[j]).path
}

/// Some entry has path `p`.
pub open spec fn has_path(s: Seq<EntryModel>, p: Seq<char>) -> bool {
    exists|i: int| 0 <= i < s.len() && (#[trigger] s[i]).path == p
}

/// The position of an entry with path `p`, where there is one.
pub open spec fn position_of(s: Seq<EntryModel>, p: Seq<char>) -> int {
    choose|i: int| 0 <= i < s.len() && (#[trigger] s[i]).path == p
}

/// The status of the entry with path `p`, or `None` where there is none.
pub open spec fn status_of(s: Seq<EntryModel>, p: Seq<char>) -> Option<ProjectStatus> {
    if has_path(s, p) {
        Some(s[position_of(s, p)].status)
    } else {
        None
    }
}

/// The entries with the status of those at path `p` replaced by `st`.
pub open spec fn with_status(s: Seq<EntryModel>, p: Seq<char>, st: ProjectStatus) -> Seq<
    EntryModel,
> {
    Seq::new(
        s.len(),
        |i: int|
            if s[i].path == p {
                EntryModel { path: p, status: st }
            } else {
                s[i]
            },
    )
}

/// Position `i` holds the first entry, in discovery order, that is `Unchecked`.
pub open spec fn is_first_unchecked(s: Seq<EntryModel>, i: int) -> bool {
    &&& 0 <= i < s.len()
    &&& s[i].status == ProjectStatus::Unchecked
    &&& forall|j: int| 0 <= j < i ==> (#[trigger] s[j]).status != ProjectStatus::Unchecked
}

/// No entry is `Unchecked`.
pub open spec fn none_unchecked(s: Seq<EntryModel>) -> bool {
    forall|j: int| 0 <= j < s.len() ==> (#[trigger] s[j]).status != ProjectStatus::Unchecked
}

/// Writing to the path of the entry at position `i` replaces that entry alone.
pub proof fn lemma_with_status_at(s: Seq<EntryModel>, i: int, st: ProjectStatus)
    requires
        distinct_paths(s),
        0 <= i < s.len(),
    ensures
        with_status(s, s[i].path, st) == s.update(i, EntryModel { path: s[i].path, status: st }),
{
    let t = with_status(s, s[i].path, st);
    let u = s.update(i, EntryModel { path: s[i].path, status: st });
    assert forall|j: int| 0 <= j < s.len() implies t[j] == u[j] by {
        if j < i {
            assert(s[j].path != s[i].path);
        } else if i < j {
            assert(s[i].path != s[j].path);
        }
    }
    assert(t =~= u);
}

/// The entry set that a scan gives: one `Unchecked` entry for each path, in the
/// order in which the paths first occur.
pub open spec fn fresh_entries(paths: Seq<Seq<char>>) -> Seq<EntryModel>
    decreases paths.len(),
{
    if paths.len() == 0 {
        Seq::empty()
    } else {
        let head = fresh_entries(paths.drop_last());
        if has_path(head, paths.last()) {
            head
        } else {
            head.push(EntryModel { path: paths.last(), status: ProjectStatus::Unchecked })
        }
    }
}

/// After a scan every scanned directory has exactly one entry, every entry
/// belongs to a scanned directory, and every entry is `Unchecked`.
pub proof fn lemma_fresh_entries(paths: Seq<Seq<char>>)
    ensures
        distinct_paths(fresh_entries(paths)),
        forall|k: int| 0 <= k < paths.len() ==> has_path(fresh_entries(paths), #[trigger] paths[k]),
        forall|i: int|
            0 <= i < fresh_entries(paths).len() ==> paths.contains(
                (#[trigger] fresh_entries(paths)[i]).path,
            ) && fresh_entries(paths)[i].status == ProjectStatus::Unchecked,
        fresh_entries(paths).len() <= paths.len(),
    decreases paths.len(),
{
    if paths.len() > 0 {
        let front = paths.drop_last();
        let head = fresh_entries(front);
        let all = fresh_entries(paths);
        lemma_fresh_entries(front);
        assert forall|k: int| 0 <= k < paths.len() implies has_path(all, #[trigger] paths[k]) by {
            if k < front.len() {
                assert(front[k] == paths[k]);
                assert(has_path(head, front[k]));
                let i = position_of(head, paths[k]);
                assert(all[i].path == paths[k]);
            } else {
                if has_path(head, paths.last()) {
                } else {
                    assert(all[all.len() - 1].path == paths[k]);
                }
            }
        }
        assert forall|i: int| 0 <= i < all.len() implies paths.contains((#[trigger] all[i]).path)
            && all[i].status == ProjectStatus::Unchecked by {
            if i < head.len() {
                assert(all[i] == head[i]);
                assert(front.contains(head[i].path));
                let k = choose|k: int| 0 <= k < front.len() && front[k] == head[i].path;
                assert(paths[k] == head[i].path);
            } else {
                assert(paths[paths.len() - 1] == all[i].path);
            }
        }
        assert(distinct_paths(all)) by {
            assert forall|i: int, j: int| 0 <= i < j < all.len() implies (#[trigger] all[i]).path != (
            #[trigger] all[j]).path by {
                if j < head.len() {
                    assert(all[i] == head[i] && all[j] == head[j]);
                } else {
                    assert(all[i] == head[i]);
                }
            }
        }
    }
}

/// Where no two entries share a path, the entry at position `i` is the one
/// that its path finds.
pub proof fn lemma_position_unique(s: Seq<EntryModel>, i: int)
    requires
        distinct_paths(s),
        0 <= i < s.len(),
    ensures
        has_path(s, s[i].path),
        position_of(s, s[i].path) == i,
        status_of(s, s[i].path) == Some(s[i].status),
{
    let p = s[i].path;
    assert(s[i].path == p);
    let j = position_of(s, p);
    if j < i {
        assert(s[j].path != s[i].path);
    } else if i < j {
        assert(s[i].path != s[j].path);
    }
}

/// Writing a status changes the entry at the path and nothing else: the
/// paths and their order stay, and every other entry keeps its status.
pub proof fn lemma_with_status(s: Seq<EntryModel>, p: Seq<char>, st: ProjectStatus)
    requires
        distinct_paths(s),
    ensures
        paths_of(with_status(s, p, st)) == paths_of(s),
        distinct_paths(with_status(s, p, st)),
        has_path(s, p) ==> status_of(with_status(s, p, st), p) == Some(st),
        forall|q: Seq<char>| q != p ==> status_of(with_status(s, p, st), q) == status_of(s, q),
{
    let t = with_status(s, p, st);
    assert(paths_of(t) =~= paths_of(s));
    assert forall|i: int, j: int| 0 <= i < j < t.len() implies (#[trigger] t[i]).path != (
    #[trigger] t[j]).path by {
        assert(t[i].path == s[i].path && t[j].path == s[j].path);
    }
    if has_path(s, p) {
        let i = position_of(s, p);
        assert(t[i].path == p);
        lemma_position_unique(t, i);
    }
    assert forall|q: Seq<char>| q != p implies status_of(t, q) == status_of(s, q) by {
        if has_path(s, q) {
            let i = position_of(s, q);
            assert(t[i] == s[i]);
            lemma_position_unique(t, i);
        } else if has_path(t, q) {
            let i = position_of(t, q);
            assert(s[i].path == q);
        }
    }
}

/// From `before` to `after` the paths kept their places, and each status
/// either stayed or took one allowed step.
pub open spec fn moved_forward(before: Seq<EntryModel>, after: Seq<EntryModel>) -> bool {
    &&& paths_of(after) == paths_of(before)
    &&& after.len() == before.len()
    &&& forall|i: int|
        0 <= i < before.len() ==> (#[trigger] after[i]).status == before[i].status || step_allowed(
            before[i].status,
            after[i].status,
        )
}

/// A write of an allowed next status moves the entries forward: no entry
/// skips a stage, none goes back, and the rows keep their order.
pub proof fn lemma_write_moves_forward(s: Seq<EntryModel>, p: Seq<char>, st: ProjectStatus)
    requires
        distinct_paths(s),
        status_of(s, p) is Some,
        step_allowed(status_of(s, p).unwrap(), st),
    ensures
        moved_forward(s, with_status(s, p, st)),
{
    let t = with_status(s, p, st);
    assert(paths_of(t) =~= paths_of(s));
    assert forall|i: int| 0 <= i < s.len() implies (#[trigger] t[i]).status == s[i].status
        || step_allowed(s[i].status, t[i].status) by {
        if s[i].path == p {
            lemma_position_unique(s, i);
        }
    }
}

/// Between two states of which the second has moved forward from the first,
/// each entry keeps its path, and its stage stays or rises by one: no entry
/// goes back, and none skips `Waiting`.
pub proof fn lemma_forward_never_reverts(before: Seq<EntryModel>, after: Seq<EntryModel>, i: int)
    requires
        moved_forward(before, after),
        0 <= i < before.len(),
    ensures
        after[i].path == before[i].path,
        stage(before[i].status) <= stage(after[i].status) <= stage(before[i].status) + 1,
{
    assert(paths_of(after)[i] == after[i].path);
    assert(paths_of(before)[i] == before[i].path);
}

/// The mapping from directory to status that the dashboard reads.
pub struct StatusStore {
    entries: Vec<ProjectEntry>,
}

impl View for StatusStore {
    type V = Seq<EntryModel>;

    closed spec fn view(&self) -> Seq<EntryModel> {
        models_of(self.entries@)
    }
}

impl StatusStore {
    /// No two entries share a path.
    pub open spec fn wf(&self) -> bool {
        distinct_paths(self@)
    }

    /// An empty store.
    pub fn new() -> (s: Self)
        ensures
            s@ == Seq::<EntryModel>::empty(),
            s.wf(),
    {
        let s = StatusStore { entries: Vec::new() };
        assert(s@ =~= Seq::<EntryModel>::empty());
        s
    }

    /// The number of entries.
    pub fn len(&self) -> (n: usize)
        ensures
            n == self@.len(),
    {
        self.entries.len()
    }

    /// The position of the entry with the given path.
    pub fn find(&self, path: &str) -> (r: Option<usize>)
        ensures
            match r {
                Some(i) => i < self@.len() && self@[i as int].path == path@ && forall|j: int|
                    0 <= j < i ==> (#[trigger] self@[j]).path != path@,
                None => !has_path(self@, path@),
            },
    {
        let key: String = path.to_owned();
        let mut i: usize = 0;
        while i < self.entries.len()
            invariant
                i <= self.entries@.len(),
                key@ == path@,
                forall|j: int| 0 <= j < i ==> (#[trigger] self@[j]).path != path@,
            decreases self.entries@.len() - i,
        {
            if self.entries[i].path == key {
                return Some(i);
            }
            i = i + 1;
        }
        None
    }

    /// The position of the first entry that no probe has been issued for.
    pub fn first_unchecked(&self) -> (r: Option<usize>)
        ensures
            match r {
                Some(i) => is_first_unchecked(self@, i as int),
                None => none_unchecked(self@),
            },
    {
        let mut i: usize = 0;
        while i < self.entries.len()
            invariant
                i <= self.entries@.len(),
                forall|j: int| 0 <= j < i ==> (#[trigger] self@[j]).status != ProjectStatus::Unchecked,
            decreases self.entries@.len() - i,
        {
            match self.entries[i].status {
                ProjectStatus::Unchecked => {
                    return Some(i);
                },
                _ => {},
            }
            i = i + 1;
        }
        None
    }

    /// The path and status of the entry at position `i`, or `None` past the end.
    pub fn entry_at(&self, i: usize) -> (r: Option<ProjectEntry>)
        ensures
            match r {
                Some(e) => i < self@.len() && e@ == self@[i as int],
                None => i >= self@.len(),
            },
    {
        if i < self.entries.len() {
            Some(self.entries[i].clone())
        } else {
            None
        }
    }

    /// The status of the entry with the given path.
    pub fn get(&self, path: &str) -> (r: Option<ProjectStatus>)
        requires
            self.wf(),
        ensures
            r == status_of(self@, path@),
    {
        match self.find(path) {
            Some(i) => {
                proof {
                    lemma_position_unique(self@, i as int);
                }
                Some(self.entries[i].status)
            },
            None => None,
        }
    }

    /// A snapshot of all entries, in discovery order.
    pub fn get_all(&self) -> (snapshot: Vec<ProjectEntry>)
        ensures
            models_of(snapshot@) == self@,
    {
        let mut out: Vec<ProjectEntry> = Vec::new();
        let mut i: usize = 0;
        while i < self.entries.len()
            invariant
                i <= self.entries@.len(),
                out@.len() == i,
                forall|j: int| 0 <= j < i ==> (#[trigger] out@[j])@ == self.entries@[j]@,
            decreases self.entries@.len() - i,
        {
            out.push(self.entries[i].clone());
            i = i + 1;
        }
        assert(models_of(out@) =~= self@);
        out
    }

    /// Writes `status` to the entry at `path`.
    ///
    /// The write happens only where the entry exists and its status may step
    /// to `status`; otherwise the store is left as it was and the error says
    /// which of the two failed.
    pub fn set(&mut self, path: &str, status: ProjectStatus) -> (r: Result<(), StoreError>)
        requires
            old(self).wf(),
        ensures
            final(self).wf(),
            paths_of(final(self)@) == paths_of(old(self)@),
            moved_forward(old(self)@, final(self)@),
            match r {
                Ok(()) => {
                    &&& status_of(old(self)@, path@) is Some
                    &&& step_allowed(status_of(old(self)@, path@).unwrap(), status)
                    &&& final(self)@ == with_status(old(self)@, path@, status)
                    &&& status_of(final(self)@, path@) == Some(status)
                },
                Err(StoreError::UnknownPath) => {
                    &&& status_of(old(self)@, path@) is None
                    &&& final(self)@ == old(self)@
                },
                Err(StoreError::IllegalStep) => {
                    &&& status_of(old(self)@, path@) is Some
                    &&& !step_allowed(status_of(old(self)@, path@).unwrap(), status)
                    &&& final(self)@ == old(self)@
                },
            },
    {
        match self.find(path) {
            None => Err(StoreError::UnknownPath),
            Some(i) => {
                proof {
                    lemma_position_unique(self@, i as int);
                }
                if !self.entries[i].status.can_step_to(&status) {
                    return Err(StoreError::IllegalStep);
                }
                self.put(i, status);
                proof {
                    lemma_with_status_at(old(self)@, i as int, status);
                    lemma_with_status(old(self)@, path@, status);
                    lemma_write_moves_forward(old(self)@, path@, status);
                }
                Ok(())
            },
        }
    }

    /// Replaces the status at position `i`, whatever it was.
    fn put(&mut self, i: usize, status: ProjectStatus)
        requires
            i < old(self)@.len(),
        ensures
            final(self)@ == old(self)@.update(
                i as int,
                EntryModel { path: old(self)@[i as int].path, status },
            ),
    {
        let path = self.entries[i].path.clone();
        self.entries.set(i, ProjectEntry { path, status });
        assert(self@ =~= old(self)@.update(
            i as int,
            EntryModel { path: old(self)@[i as int].path, status },
        ));
    }

    /// Replaces the whole entry set by one `Unchecked` entry for each path
    /// of `new_paths`, in the order in which the paths first occur.
    pub fn reset_all(&mut self, new_paths: &Vec<String>)
        ensures
            final(self)@ == fresh_entries(path_views(new_paths@)),
            final(self).wf(),
    {
        self.entries = Vec::new();
        let ghost all = path_views(new_paths@);
        let mut k: usize = 0;
        assert(all.take(0) =~= Seq::<Seq<char>>::empty());
        assert(self@ =~= Seq::<EntryModel>::empty());
        while k < new_paths.len()
            invariant
                k <= new_paths@.len(),
                all == path_views(new_paths@),
                self@ == fresh_entries(all.take(k as int)),
            decreases new_paths@.len() - k,
        {
            let ghost before = self@;
            proof {
                assert(all.take(k + 1).drop_last() =~= all.take(k as int));
                assert(all.take(k + 1).last() == new_paths@[k as int]@);
            }
            let found = self.find(new_paths[k].as_str());
            if found.is_none() {
                self.entries.push(
                    ProjectEntry { path: new_paths[k].clone(), status: ProjectStatus::Unchecked },
                );
                assert(self@ =~= before.push(
                    EntryModel { path: new_paths@[k as int]@, status: ProjectStatus::Unchecked },
                ));
            }
            k = k + 1;
        }
        proof {
            assert(all.take(k as int) =~= all);
            lemma_fresh_entries(all);
        }
    }
}

} // verus!
