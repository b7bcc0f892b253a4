use gitnotify::dialogue::State;
use gitnotify::events::{Branch, GitEvent};
use gitnotify::refs::RefTable;
use gitnotify::updater::{classify_git_error, plan_repository, FetchError, GitErrorCode, Pass, RepoPlan, Scheduler, Step};

fn table(entries: &[(&str, &str)]) -> RefTable {
    let mut t = RefTable::new();
    for (name, sha) in entries {
        t.insert(name.to_string(), sha.to_string());
    }
    t
}

#[test]
fn permanent_failures_retire_the_repository() {
    let persisted = table(&[("refs/heads/main", "1")]);
    assert!(matches!(plan_repository(Err(FetchError::Auth), &persisted), RepoPlan::Unreachable));
    assert!(matches!(plan_repository(Err(FetchError::NotFound), &persisted), RepoPlan::Unreachable));
    assert!(matches!(plan_repository(Err(FetchError::Network), &persisted), RepoPlan::Retry(FetchError::Network)));
    assert!(matches!(plan_repository(Err(FetchError::Internal), &persisted), RepoPlan::Retry(FetchError::Internal)));
}

#[test]
fn plan_records_and_forgets_before_notifying() {
    let persisted = table(&[("refs/heads/old", "o")]);
    let remote = table(&[("refs/heads/main", "m")]);
    let steps = match plan_repository(Ok(remote), &persisted) {
        RepoPlan::Apply(steps) => steps,
        _ => panic!("expected steps"),
    };
    assert_eq!(steps.len(), 3);
    assert!(matches!(&steps[0], Step::Record { name, sha } if name == "refs/heads/main" && sha == "m"));
    assert!(matches!(&steps[1], Step::Forget(name) if name == "refs/heads/old"));
    assert!(matches!(&steps[2], Step::Notify(GitEvent::NewBranch(Branch { name, .. })) if name == "refs/heads/main"));
}

#[test]
fn git_error_classification() {
    assert_eq!(classify_git_error(true, GitErrorCode::Auth), FetchError::Auth);
    assert_eq!(classify_git_error(true, GitErrorCode::NotFound), FetchError::NotFound);
    assert_eq!(classify_git_error(false, GitErrorCode::Auth), FetchError::Network);
    assert_eq!(classify_git_error(true, GitErrorCode::Other), FetchError::Network);
    assert!(FetchError::Auth.permanent() && !FetchError::Internal.permanent());
}

#[test]
fn scheduler_catches_up_then_alternates() {
    let mut s = Scheduler::new(100, 60, 3600);
    assert_eq!(s.next_pass(), (Pass::Check, 100));
    assert_eq!(s.next_pass(), (Pass::Cleanup, 100));
    assert_eq!(s.next_pass(), (Pass::Check, 160));
    assert_eq!(s.next_pass(), (Pass::Check, 220));
    let mut far = Scheduler::new(u64::MAX - 10, 60, 3600);
    assert_eq!(far.next_pass(), (Pass::Check, u64::MAX - 10));
    assert_eq!(far.next_check, u64::MAX);
}

#[test]
fn dialogue_starts_at_start() {
    assert_eq!(State::default(), State::Start);
}

#[test]
fn plan_records_every_event_before_the_first_notice() {
    let persisted = table(&[("refs/heads/a", "1"), ("refs/heads/gone", "g")]);
    let remote = table(&[("refs/heads/a", "2"), ("refs/tags/t", "t"), ("refs/pull/3/head", "p")]);
    let steps = match plan_repository(Ok(remote), &persisted) {
        RepoPlan::Apply(steps) => steps,
        _ => panic!("expected steps"),
    };
    let kinds: Vec<char> = steps
        .iter()
        .map(|s| match s {
            Step::Record { .. } => 'r',
            Step::Forget(_) => 'f',
            Step::Notify(_) => 'n',
        })
        .collect();
    assert_eq!(kinds, vec!['r', 'r', 'r', 'f', 'n', 'n', 'n']);
    assert!(matches!(&steps[2], Step::Record { name, sha } if name == "refs/pull/3/head" && sha == "p"));
}
