use repowatch::status::{GitStatus, ProjectStatus};

fn all_statuses() -> Vec<ProjectStatus> {
    vec![
        ProjectStatus::Unchecked,
        ProjectStatus::Waiting,
        ProjectStatus::Complete(GitStatus::UpToDate),
        ProjectStatus::Complete(GitStatus::LocalBehind(1)),
        ProjectStatus::Complete(GitStatus::RemoteBehind(2)),
        ProjectStatus::Failed,
    ]
}

#[test]
fn only_forward_steps_are_allowed() {
    let all = all_statuses();
    for from in all.iter() {
        for to in all.iter() {
            let expected = match (from, to) {
                (ProjectStatus::Unchecked, ProjectStatus::Waiting) => true,
                (ProjectStatus::Waiting, ProjectStatus::Complete(_)) => true,
                (ProjectStatus::Waiting, ProjectStatus::Failed) => true,
                _ => false,
            };
            assert_eq!(from.can_step_to(to), expected);
        }
    }
}

#[test]
fn unchecked_cannot_skip_waiting() {
    assert!(!ProjectStatus::Unchecked.can_step_to(&ProjectStatus::Failed));
    assert!(!ProjectStatus::Unchecked
        .can_step_to(&ProjectStatus::Complete(GitStatus::UpToDate)));
}

#[test]
fn resolved_statuses_do_not_move() {
    for to in all_statuses().iter() {
        assert!(!ProjectStatus::Failed.can_step_to(to));
        assert!(!ProjectStatus::Complete(GitStatus::UpToDate).can_step_to(to));
    }
}

#[test]
fn waiting_and_resolved_flags() {
    assert!(ProjectStatus::Waiting.is_waiting());
    assert!(!ProjectStatus::Unchecked.is_waiting());
    assert!(!ProjectStatus::Failed.is_waiting());
    assert!(ProjectStatus::Failed.is_resolved());
    assert!(ProjectStatus::Complete(GitStatus::LocalBehind(4)).is_resolved());
    assert!(!ProjectStatus::Waiting.is_resolved());
    assert!(!ProjectStatus::Unchecked.is_resolved());
}
