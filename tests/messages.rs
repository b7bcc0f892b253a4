use gitnotify::events::{Branch, GitEvent, PullRequest, Tag};
use gitnotify::message::{format_notification_message, inaccessible_message};
use gitnotify::repository::url_hash;
use gitnotify::text::{decimal_string, last_two_segments, parse_u64, trim_end, trim_start};

#[test]
fn header_escapes_reserved_characters() {
    let e = GitEvent::NewBranch(Branch { name: "refs/heads/feature_x.1".to_string(), sha: "abc".to_string() });
    assert_eq!(e.render_as_notification(), Some("🌿 New Branch: *feature\\_x\\.1*".to_string()));
}

#[test]
fn headers_of_each_kind() {
    let tag = GitEvent::NewTag(Tag { name: "refs/tags/v1".to_string(), sha: "s".to_string() });
    assert_eq!(tag.render_as_notification(), Some("🏷️ New Tag: *v1*".to_string()));
    let upd = GitEvent::BranchUpdated {
        name: "refs/heads/main".to_string(),
        old_sha: "a".to_string(),
        new_sha: "b".to_string(),
    };
    assert_eq!(upd.render_as_notification(), Some("🚀 Branch Updated: *main*".to_string()));
    let pr = GitEvent::NewPullRequest(PullRequest { id: 42, sha: "s".to_string() });
    assert_eq!(pr.render_as_notification(), Some("📦 New Pull Request: *\\#42*".to_string()));
    let pru = GitEvent::PullRequestUpdated(PullRequest { id: 7, sha: "s".to_string() });
    assert_eq!(pru.render_as_notification(), Some("📥 Pull Request Updated: *\\#7*".to_string()));
    assert_eq!(GitEvent::NoChanges.render_as_notification(), None);
}

#[test]
fn new_branch_message() {
    let e = GitEvent::NewBranch(Branch {
        name: "refs/heads/feature_x".to_string(),
        sha: "0123456789abcdef".to_string(),
    });
    let text = format_notification_message("https://github.com/user/repo.git", &e);
    assert_eq!(
        text,
        "🌿 New Branch: *feature\\_x*\nRepository: [user/repo](https://github\\.com/user/repo)\n\
Branch: [feature\\_x](https://github\\.com/user/repo/tree/feature\\_x)\n\
Commit: [0123456](https://github\\.com/user/repo/commit/0123456789abcdef)"
    );
}

#[test]
fn new_tag_message() {
    let e = GitEvent::NewTag(Tag { name: "refs/tags/v1".to_string(), sha: "abc".to_string() });
    let text = format_notification_message("https://example.org/a/b", &e);
    assert_eq!(
        text,
        "🏷️ New Tag: *v1*\nRepository: [a/b](https://example\\.org/a/b)\n\
Tag: [v1](https://example\\.org/a/b/releases/tag/v1)\n\
Commit: [abc](https://example\\.org/a/b/commit/abc)"
    );
}

#[test]
fn branch_updated_message() {
    let e = GitEvent::BranchUpdated {
        name: "refs/heads/main".to_string(),
        old_sha: "aaa".to_string(),
        new_sha: "bbb".to_string(),
    };
    let text = format_notification_message("https://github.com/user/repo.git", &e);
    assert_eq!(
        text,
        "🚀 Branch Updated: *main*\nRepository: [user/repo](https://github\\.com/user/repo)\n\
Branch: [main](https://github\\.com/user/repo/tree/main)\n\
Commit: [bbb](https://github\\.com/user/repo/commit/bbb)\n\
Changes: [compare](https://github\\.com/user/repo/compare/aaa\\.\\.\\.bbb)"
    );
}

#[test]
fn pull_request_message() {
    let e = GitEvent::NewPullRequest(PullRequest { id: 42, sha: "ddd".to_string() });
    let text = format_notification_message("https://github.com/user/repo", &e);
    assert_eq!(
        text,
        "📦 New Pull Request: *\\#42*\nRepository: [user/repo](https://github\\.com/user/repo)\n\
Pull Request: [\\#42](_)\n\
Commit: [ddd](https://github\\.com/user/repo/commit/ddd)"
    );
}

#[test]
fn inaccessible_text() {
    assert_eq!(
        inaccessible_message("https://x.org/a"),
        "⚠️ Repository [https://x\\.org/a](https://x\\.org/a) is no longer accessible \
(it may have been deleted or made private). You have been unsubscribed."
    );
}

#[test]
fn url_hash_is_sha256_hex() {
    assert_eq!(url_hash("abc"), "ba7816bf8f01cfea414140de5dae2223b00361a396177a9cb410ff61f20015ad");
    assert_eq!(url_hash("https://github.com/a/b"), url_hash("https://github.com/a/b"));
    assert_ne!(url_hash("https://github.com/a/b"), url_hash("https://github.com/a/c"));
}

#[test]
fn text_helpers() {
    assert_eq!(trim_start("refs/heads/refs/heads/x", "refs/heads/"), "x");
    assert_eq!(trim_end("repo.git.git", ".git"), "repo");
    assert_eq!(last_two_segments("https://github.com/user/repo"), "user/repo");
    assert_eq!(last_two_segments("a/b"), "a/b");
    assert_eq!(last_two_segments("plain"), "plain");
    assert_eq!(decimal_string(0), "0");
    assert_eq!(decimal_string(1234567890), "1234567890");
    assert_eq!(parse_u64(""), None);
    assert_eq!(parse_u64("+"), None);
    assert_eq!(parse_u64("007"), Some(7));
}

#[test]
fn pull_request_update_message_links_short_commit() {
    let e = GitEvent::PullRequestUpdated(PullRequest { id: 5, sha: "0123456789abcdef".to_string() });
    let text = format_notification_message("https://github.com/user/repo.git", &e);
    assert_eq!(
        text,
        "📥 Pull Request Updated: *\\#5*\nRepository: [user/repo](https://github\\.com/user/repo)\n\
Pull Request: [\\#5](_)\n\
Commit: [0123456](https://github\\.com/user/repo/commit/0123456789abcdef)"
    );
}
