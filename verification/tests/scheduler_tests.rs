use repowatch::probe::ProbeOutcome;
use repowatch::render::render_rows;
use repowatch::scan::ScanError;
use repowatch::scheduler::Scheduler;
use repowatch::status::{GitStatus, ProjectStatus};
use repowatch::store::StoreError;

fn paths(names: &[&str]) -> Vec<String> {
    names.iter().map(|n| n.to_string()).collect()
}

fn ok(out: &str) -> ProbeOutcome {
    ProbeOutcome::Exited { code: Some(0), stdout: out.as_bytes().to_vec() }
}

fn statuses(s: &Scheduler) -> Vec<(String, ProjectStatus)> {
    s.snapshot().iter().map(|e| (e.path.clone(), e.status)).collect()
}

#[test]
fn three_children_resolve() {
    let mut s = Scheduler::new(4);
    assert_eq!(s.rescan(Ok(paths(&["A", "B", "C"]))), Ok(()));
    assert_eq!(s.next_dispatch(), Some("A".to_string()));
    assert_eq!(s.next_dispatch(), Some("B".to_string()));
    assert_eq!(s.next_dispatch(), Some("C".to_string()));
    assert_eq!(s.next_dispatch(), None);
    assert_eq!(s.complete("C", &ProbeOutcome::ToolMissing), Ok(ProjectStatus::Failed));
    assert_eq!(
        s.complete("A", &ok("0\t0\n")),
        Ok(ProjectStatus::Complete(GitStatus::UpToDate))
    );
    assert_eq!(
        s.complete("B", &ok("3\t0\n")),
        Ok(ProjectStatus::Complete(GitStatus::LocalBehind(3)))
    );
    assert_eq!(
        statuses(&s),
        vec![
            ("A".to_string(), ProjectStatus::Complete(GitStatus::UpToDate)),
            ("B".to_string(), ProjectStatus::Complete(GitStatus::LocalBehind(3))),
            ("C".to_string(), ProjectStatus::Failed),
        ]
    );
    assert_eq!(s.in_flight(), 0);
}

#[test]
fn concurrency_stays_within_the_limit() {
    let mut s = Scheduler::new(2);
    assert_eq!(s.limit(), 2);
    s.rescan(Ok(paths(&["a", "b", "c", "d", "e"]))).unwrap();
    assert_eq!(s.next_dispatch(), Some("a".to_string()));
    assert_eq!(s.next_dispatch(), Some("b".to_string()));
    assert_eq!(s.in_flight(), 2);
    assert_eq!(s.next_dispatch(), None);
    assert_eq!(s.in_flight(), 2);
    assert_eq!(s.store().get("c"), Some(ProjectStatus::Unchecked));
    s.complete("b", &ProbeOutcome::TimedOut).unwrap();
    assert_eq!(s.in_flight(), 1);
    assert_eq!(s.next_dispatch(), Some("c".to_string()));
    assert_eq!(s.next_dispatch(), None);
    s.complete("a", &ok("0 0")).unwrap();
    s.complete("c", &ok("0 1")).unwrap();
    assert_eq!(s.next_dispatch(), Some("d".to_string()));
    assert_eq!(s.next_dispatch(), Some("e".to_string()));
    assert_eq!(s.next_dispatch(), None);
    s.complete("d", &ok("0 0")).unwrap();
    s.complete("e", &ok("0 0")).unwrap();
    assert_eq!(s.next_dispatch(), None);
    assert_eq!(s.in_flight(), 0);
}

#[test]
fn limit_zero_never_dispatches() {
    let mut s = Scheduler::new(0);
    s.rescan(Ok(paths(&["a"]))).unwrap();
    assert_eq!(s.next_dispatch(), None);
    assert_eq!(s.store().get("a"), Some(ProjectStatus::Unchecked));
}

#[test]
fn dispatch_marks_waiting_before_the_probe_runs() {
    let mut s = Scheduler::new(1);
    s.rescan(Ok(paths(&["a", "b"]))).unwrap();
    assert_eq!(s.next_dispatch(), Some("a".to_string()));
    assert_eq!(s.store().get("a"), Some(ProjectStatus::Waiting));
    assert_eq!(s.store().get("b"), Some(ProjectStatus::Unchecked));
}

#[test]
fn a_directory_is_dispatched_once() {
    let mut s = Scheduler::new(8);
    s.rescan(Ok(paths(&["a", "b", "a"]))).unwrap();
    let mut seen: Vec<String> = Vec::new();
    while let Some(p) = s.next_dispatch() {
        assert!(!seen.contains(&p));
        seen.push(p);
    }
    assert_eq!(seen, paths(&["a", "b"]));
    s.complete("a", &ProbeOutcome::TimedOut).unwrap();
    assert_eq!(s.next_dispatch(), None);
    assert_eq!(s.store().get("a"), Some(ProjectStatus::Failed));
}

#[test]
fn completion_needs_a_waiting_entry() {
    let mut s = Scheduler::new(1);
    s.rescan(Ok(paths(&["a", "b"]))).unwrap();
    assert_eq!(s.complete("zzz", &ok("0 0")), Err(StoreError::UnknownPath));
    assert_eq!(s.complete("a", &ok("0 0")), Err(StoreError::IllegalStep));
    assert_eq!(s.store().get("a"), Some(ProjectStatus::Unchecked));
    s.next_dispatch().unwrap();
    assert_eq!(s.complete("a", &ok("0 0")), Ok(ProjectStatus::Complete(GitStatus::UpToDate)));
    assert_eq!(s.complete("a", &ProbeOutcome::TimedOut), Err(StoreError::IllegalStep));
    assert_eq!(s.store().get("a"), Some(ProjectStatus::Complete(GitStatus::UpToDate)));
    assert_eq!(s.in_flight(), 0);
}

#[test]
fn timed_out_probe_fails_its_entry() {
    let mut s = Scheduler::new(1);
    s.rescan(Ok(paths(&["slow"]))).unwrap();
    s.next_dispatch().unwrap();
    assert_eq!(s.complete("slow", &ProbeOutcome::TimedOut), Ok(ProjectStatus::Failed));
    assert_eq!(s.store().get("slow"), Some(ProjectStatus::Failed));
}

#[test]
fn failed_rescan_keeps_the_entries() {
    let mut s = Scheduler::new(2);
    s.rescan(Ok(paths(&["a", "b"]))).unwrap();
    s.next_dispatch().unwrap();
    let before = statuses(&s);
    assert_eq!(s.rescan(Err(ScanError::PermissionDenied)), Err(ScanError::PermissionDenied));
    assert_eq!(s.rescan(Err(ScanError::NotFound)), Err(ScanError::NotFound));
    assert_eq!(s.rescan(Err(ScanError::Other)), Err(ScanError::Other));
    assert_eq!(statuses(&s), before);
    assert_eq!(s.in_flight(), 1);
}

#[test]
fn rescan_requeues_resolved_entries() {
    let mut s = Scheduler::new(2);
    s.rescan(Ok(paths(&["a", "b"]))).unwrap();
    s.next_dispatch().unwrap();
    s.complete("a", &ProbeOutcome::ToolMissing).unwrap();
    assert_eq!(s.store().get("a"), Some(ProjectStatus::Failed));
    s.rescan(Ok(paths(&["a", "c"]))).unwrap();
    assert_eq!(
        statuses(&s),
        vec![
            ("a".to_string(), ProjectStatus::Unchecked),
            ("c".to_string(), ProjectStatus::Unchecked),
        ]
    );
    assert_eq!(s.in_flight(), 0);
    assert_eq!(s.next_dispatch(), Some("a".to_string()));
}

#[test]
fn empty_root_gives_an_empty_list() {
    let mut s = Scheduler::new(3);
    assert_eq!(s.rescan(Ok(Vec::new())), Ok(()));
    assert_eq!(s.next_dispatch(), None);
    assert!(s.snapshot().is_empty());
    assert!(render_rows(&s.snapshot()).is_empty());
    assert_eq!(s.store().len(), 0);
}

#[test]
fn rows_keep_their_order_while_statuses_change() {
    let mut s = Scheduler::new(3);
    s.rescan(Ok(paths(&["c", "a", "b"]))).unwrap();
    let order = |s: &Scheduler| -> Vec<String> {
        s.snapshot().iter().map(|e| e.path.clone()).collect()
    };
    let first = order(&s);
    s.next_dispatch().unwrap();
    assert_eq!(order(&s), first);
    s.next_dispatch().unwrap();
    s.complete("a", &ok("1\t0\n")).unwrap();
    assert_eq!(order(&s), first);
    s.complete("c", &ProbeOutcome::TimedOut).unwrap();
    assert_eq!(order(&s), first);
    assert_eq!(first, paths(&["c", "a", "b"]));
}
