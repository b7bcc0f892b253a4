use gitnotify::diff::{detect_deleted_refs, detect_events, diff, is_tracked_ref, pull_request_id, ref_update_of, tracked_refs};
use gitnotify::events::{Branch, GitEvent, PullRequest, Tag};
use gitnotify::refs::RefTable;

fn table(entries: &[(&str, &str)]) -> RefTable {
    let mut t = RefTable::new();
    for (name, sha) in entries {
        t.insert(name.to_string(), sha.to_string());
    }
    t
}

fn sorted_names(v: Vec<String>) -> Vec<String> {
    let mut v = v;
    v.sort();
    v
}

#[test]
fn scenario_new_branch() {
    let persisted = table(&[]);
    let remote = table(&[("refs/heads/main", "aaaa111")]);
    let d = diff(&remote, &persisted);
    assert_eq!(
        d.events,
        vec![GitEvent::NewBranch(Branch { name: "refs/heads/main".to_string(), sha: "aaaa111".to_string() })]
    );
    assert!(d.deleted.is_empty());
}

#[test]
fn scenario_branch_updated() {
    let persisted = table(&[("refs/heads/main", "aaaa111")]);
    let remote = table(&[("refs/heads/main", "bbbb222")]);
    let d = diff(&remote, &persisted);
    assert_eq!(
        d.events,
        vec![GitEvent::BranchUpdated {
            name: "refs/heads/main".to_string(),
            old_sha: "aaaa111".to_string(),
            new_sha: "bbbb222".to_string(),
        }]
    );
    assert!(d.deleted.is_empty());
}

#[test]
fn scenario_tag_deleted() {
    let persisted = table(&[("refs/tags/v1", "ccc")]);
    let remote = table(&[]);
    let d = diff(&remote, &persisted);
    assert!(d.events.is_empty());
    assert_eq!(d.deleted, vec!["refs/tags/v1".to_string()]);
}

#[test]
fn scenario_new_pull_request() {
    let persisted = table(&[]);
    let remote = table(&[("refs/pull/42/head", "ddd")]);
    let d = diff(&remote, &persisted);
    assert_eq!(d.events, vec![GitEvent::NewPullRequest(PullRequest { id: 42, sha: "ddd".to_string() })]);
    assert!(d.deleted.is_empty());
}

#[test]
fn same_inputs_same_outputs_in_any_entry_order() {
    let remote_a = table(&[("refs/heads/a", "1"), ("refs/tags/t", "2"), ("refs/pull/3/head", "3")]);
    let remote_b = table(&[("refs/pull/3/head", "3"), ("refs/heads/a", "1"), ("refs/tags/t", "2")]);
    let persisted_a = table(&[("refs/heads/old", "9"), ("refs/heads/a", "0")]);
    let persisted_b = table(&[("refs/heads/a", "0"), ("refs/heads/old", "9")]);
    let mut events_a: Vec<String> = detect_events(&remote_a, &persisted_a).iter().map(|e| format!("{:?}", e)).collect();
    let mut events_b: Vec<String> = detect_events(&remote_b, &persisted_b).iter().map(|e| format!("{:?}", e)).collect();
    events_a.sort();
    events_b.sort();
    assert_eq!(events_a, events_b);
    assert_eq!(events_a.len(), 3);
    assert_eq!(
        sorted_names(detect_deleted_refs(&remote_a, &persisted_a)),
        sorted_names(detect_deleted_refs(&remote_b, &persisted_b))
    );
    let again = detect_events(&remote_a, &persisted_a);
    assert_eq!(again, detect_events(&remote_a, &persisted_a));
}

#[test]
fn new_branch_appears_exactly_once() {
    let persisted = table(&[("refs/heads/main", "m")]);
    let remote = table(&[("refs/heads/main", "m"), ("refs/heads/x", "H"), ("refs/tags/x", "H")]);
    let events = detect_events(&remote, &persisted);
    let wanted = GitEvent::NewBranch(Branch { name: "refs/heads/x".to_string(), sha: "H".to_string() });
    assert_eq!(events.iter().filter(|e| **e == wanted).count(), 1);
    assert_eq!(events.len(), 2);
}

#[test]
fn unchanged_ref_gives_no_event() {
    let persisted = table(&[("refs/heads/main", "same"), ("refs/tags/v1", "t"), ("refs/pull/5/head", "p")]);
    let remote = table(&[("refs/heads/main", "same"), ("refs/tags/v1", "t"), ("refs/pull/5/head", "p")]);
    assert!(detect_events(&remote, &persisted).is_empty());
}

#[test]
fn branch_update_appears_exactly_once() {
    let persisted = table(&[("refs/heads/x", "H1"), ("refs/heads/y", "Y")]);
    let remote = table(&[("refs/heads/x", "H2"), ("refs/heads/y", "Y")]);
    let events = detect_events(&remote, &persisted);
    assert_eq!(
        events,
        vec![GitEvent::BranchUpdated {
            name: "refs/heads/x".to_string(),
            old_sha: "H1".to_string(),
            new_sha: "H2".to_string(),
        }]
    );
}

#[test]
fn moved_tag_gives_no_event() {
    let persisted = table(&[("refs/tags/v1", "old")]);
    let remote = table(&[("refs/tags/v1", "new")]);
    assert!(detect_events(&remote, &persisted).is_empty());
}

#[test]
fn new_tag_gives_new_tag_event() {
    let persisted = table(&[]);
    let remote = table(&[("refs/tags/v2", "abc")]);
    assert_eq!(
        detect_events(&remote, &persisted),
        vec![GitEvent::NewTag(Tag { name: "refs/tags/v2".to_string(), sha: "abc".to_string() })]
    );
}

#[test]
fn non_numeric_pull_request_is_ignored() {
    let remote = table(&[("refs/pull/abc/head", "x")]);
    assert!(detect_events(&remote, &table(&[])).is_empty());
    assert!(detect_events(&remote, &table(&[("refs/pull/abc/head", "y")])).is_empty());
}

#[test]
fn pull_request_update_carries_new_sha() {
    let persisted = table(&[("refs/pull/7/head", "a")]);
    let remote = table(&[("refs/pull/7/head", "b")]);
    assert_eq!(
        detect_events(&remote, &persisted),
        vec![GitEvent::PullRequestUpdated(PullRequest { id: 7, sha: "b".to_string() })]
    );
}

#[test]
fn vanished_ref_is_deleted_without_event() {
    let persisted = table(&[("refs/heads/gone", "g"), ("refs/heads/kept", "k")]);
    let remote = table(&[("refs/heads/kept", "k")]);
    let d = diff(&remote, &persisted);
    assert!(d.events.is_empty());
    assert_eq!(d.deleted, vec!["refs/heads/gone".to_string()]);
}

#[test]
fn rerun_after_recording_gives_nothing() {
    let mut persisted = table(&[("refs/heads/main", "1"), ("refs/tags/v1", "t")]);
    let remote = table(&[
        ("refs/heads/main", "2"),
        ("refs/heads/new", "n"),
        ("refs/tags/v1", "moved"),
        ("refs/tags/v2", "t2"),
        ("refs/pull/9/head", "p"),
        ("refs/pull/zz/head", "q"),
    ]);
    let events = detect_events(&remote, &persisted);
    assert_eq!(events.len(), 4);
    for e in &events {
        let (name, sha) = ref_update_of(e).unwrap();
        persisted.insert(name, sha);
    }
    assert!(detect_events(&remote, &persisted).is_empty());
}

#[test]
fn pull_request_row_name() {
    let e = GitEvent::NewPullRequest(PullRequest { id: 12, sha: "s".to_string() });
    assert_eq!(ref_update_of(&e), Some(("refs/pull/12/head".to_string(), "s".to_string())));
    assert_eq!(ref_update_of(&GitEvent::NoChanges), None);
}

#[test]
fn pull_request_ids() {
    assert_eq!(pull_request_id(&"refs/pull/42/head".to_string()), Some(42));
    assert_eq!(pull_request_id(&"refs/pull/+5/head".to_string()), Some(5));
    assert_eq!(pull_request_id(&"refs/pull/abc/head".to_string()), None);
    assert_eq!(pull_request_id(&"refs/pull//head".to_string()), None);
    assert_eq!(pull_request_id(&"refs/pull/18446744073709551615/head".to_string()), Some(u64::MAX));
    assert_eq!(pull_request_id(&"refs/pull/18446744073709551616/head".to_string()), None);
}

#[test]
fn tracked_namespaces() {
    assert!(is_tracked_ref("refs/heads/main"));
    assert!(is_tracked_ref("refs/tags/v1"));
    assert!(is_tracked_ref("refs/pull/3/head"));
    assert!(!is_tracked_ref("refs/pull/3/merge"));
    assert!(!is_tracked_ref("refs/notes/commits"));
    assert!(!is_tracked_ref("HEAD"));
}

#[test]
fn table_insert_replaces() {
    let mut t = RefTable::new();
    t.insert("refs/heads/a".to_string(), "1".to_string());
    t.insert("refs/heads/a".to_string(), "2".to_string());
    assert_eq!(t.len(), 1);
    assert_eq!(t.get(&"refs/heads/a".to_string()), Some(&"2".to_string()));
    assert_eq!(t.get(&"refs/heads/b".to_string()), None);
}

#[test]
fn pull_ref_with_leading_zeros_is_recorded_under_its_plain_name() {
    let mut persisted = table(&[]);
    let remote = table(&[("refs/pull/007/head", "x")]);
    let events = detect_events(&remote, &persisted);
    assert_eq!(events, vec![GitEvent::NewPullRequest(PullRequest { id: 7, sha: "x".to_string() })]);
    let (name, sha) = ref_update_of(&events[0]).unwrap();
    assert_eq!(name, "refs/pull/7/head");
    persisted.insert(name, sha);
    assert_eq!(detect_events(&remote, &persisted).len(), 1);
}

#[test]
fn listing_keeps_followed_namespaces_only() {
    let listing = vec![
        ("HEAD".to_string(), "h".to_string()),
        ("refs/heads/main".to_string(), "m".to_string()),
        ("refs/tags/v1".to_string(), "t".to_string()),
        ("refs/pull/4/head".to_string(), "p".to_string()),
        ("refs/pull/4/merge".to_string(), "q".to_string()),
        ("refs/notes/commits".to_string(), "n".to_string()),
    ];
    let refs = tracked_refs(&listing);
    assert_eq!(refs.len(), 3);
    assert_eq!(refs.get(&"refs/heads/main".to_string()), Some(&"m".to_string()));
    assert_eq!(refs.get(&"refs/tags/v1".to_string()), Some(&"t".to_string()));
    assert_eq!(refs.get(&"refs/pull/4/head".to_string()), Some(&"p".to_string()));
    assert_eq!(refs.get(&"HEAD".to_string()), None);
    assert_eq!(refs.get(&"refs/pull/4/merge".to_string()), None);
}
