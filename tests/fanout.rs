use gitnotify::events::{Branch, EventKind, GitEvent, Tag};
use gitnotify::fanout::{follow_up, recipients, DeliveryOutcome, FollowUp, Subscriber, SubscriptionSettings};

fn only_new_branch() -> SubscriptionSettings {
    SubscriptionSettings {
        notify_on_new_branch: true,
        notify_on_new_tag: false,
        notify_on_branch_update: false,
        notify_on_new_pr: false,
        notify_on_pr_update: false,
    }
}

fn new_branch() -> GitEvent {
    GitEvent::NewBranch(Branch { name: "refs/heads/x".to_string(), sha: "1234567".to_string() })
}

#[test]
fn scenario_preference_filter() {
    let subs = vec![Subscriber { chat_id: 10, notifications_enabled: true, settings: only_new_branch() }];
    assert_eq!(recipients(&subs, &new_branch()), vec![10]);
    let tag = GitEvent::NewTag(Tag { name: "refs/tags/v1".to_string(), sha: "1234567".to_string() });
    assert!(recipients(&subs, &tag).is_empty());
}

#[test]
fn global_switch_and_sentinel() {
    let all_on = SubscriptionSettings {
        notify_on_new_branch: true,
        notify_on_new_tag: true,
        notify_on_branch_update: true,
        notify_on_new_pr: true,
        notify_on_pr_update: true,
    };
    let subs = vec![
        Subscriber { chat_id: 1, notifications_enabled: false, settings: all_on },
        Subscriber { chat_id: 2, notifications_enabled: true, settings: all_on },
        Subscriber { chat_id: 3, notifications_enabled: true, settings: SubscriptionSettings::default() },
        Subscriber { chat_id: 4, notifications_enabled: true, settings: only_new_branch() },
    ];
    assert_eq!(recipients(&subs, &new_branch()), vec![2, 4]);
    assert!(recipients(&subs, &GitEvent::NoChanges).is_empty());
}

#[test]
fn default_settings_are_all_off() {
    let s = SubscriptionSettings::default();
    assert!(!s.notify_on_new_branch && !s.notify_on_new_tag && !s.notify_on_branch_update);
    assert!(!s.notify_on_new_pr && !s.notify_on_pr_update);
    assert!(!s.wants_event(&new_branch()));
}

#[test]
fn delivery_follow_ups() {
    assert_eq!(follow_up(DeliveryOutcome::Delivered), FollowUp::Nothing);
    assert_eq!(follow_up(DeliveryOutcome::Blocked), FollowUp::RemoveSubscriber);
    assert_eq!(follow_up(DeliveryOutcome::Failed), FollowUp::Report);
}

#[test]
fn toggling_flips_one_setting() {
    let mut s = SubscriptionSettings::default();
    s.toggle(EventKind::NewTag);
    assert!(s.notify_on_new_tag);
    assert!(!s.notify_on_new_branch && !s.notify_on_branch_update && !s.notify_on_new_pr && !s.notify_on_pr_update);
    s.toggle(EventKind::NewTag);
    assert_eq!(s, SubscriptionSettings::default());
    s.toggle(EventKind::NoChanges);
    assert_eq!(s, SubscriptionSettings::default());
}

#[test]
fn setting_names() {
    assert_eq!(EventKind::from_setting_name("new_branch"), Some(EventKind::NewBranch));
    assert_eq!(EventKind::from_setting_name("new_tag"), Some(EventKind::NewTag));
    assert_eq!(EventKind::from_setting_name("branch_update"), Some(EventKind::BranchUpdated));
    assert_eq!(EventKind::from_setting_name("new_pr"), Some(EventKind::NewPullRequest));
    assert_eq!(EventKind::from_setting_name("pr_update"), Some(EventKind::PullRequestUpdated));
    assert_eq!(EventKind::from_setting_name("new_branchx"), None);
    assert_eq!(EventKind::from_setting_name(""), None);
}
