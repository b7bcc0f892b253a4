//! The change events that a poll of a repository can produce.
use vstd::prelude::*;
use vstd::string::*;
use crate::markup::{escape, escape_md};
use crate::text::{decimal, push_decimal, str_eq, trim_start, trim_start_all};

verus! {

#[derive(Debug, Clone, PartialEq, Eq, Hash)]
pub struct Branch {
    pub name: String,
    pub sha: String,
}

#[derive(Debug, Clone, PartialEq, Eq, Hash)]
pub struct Tag {
    pub name: String,
    pub sha: String,
}

#[derive(Debug, Clone, PartialEq, Eq, Hash)]
pub struct PullRequest {
    pub id: u64,
    pub sha: String,
}

#[derive(Debug, Clone, PartialEq, Eq, Hash)]
pub enum GitEvent {
    NewBranch(Branch),
    NewTag(Tag),
    BranchUpdated { name: String, old_sha: String, new_sha: String },
    NewPullRequest(PullRequest),
    PullRequestUpdated(PullRequest),
    NoChanges,
}

/// An event as a mathematical value.
pub enum EventModel {
    NewBranch { name: Seq<char>, sha: Seq<char> },
    NewTag { name: Seq<char>, sha: Seq<char> },
    BranchUpdated { name: Seq<char>, old_sha: Seq<char>, new_sha: Seq<char> },
    NewPullRequest { id: u64, sha: Seq<char> },
    PullRequestUpdated { id: u64, sha: Seq<char> },
    NoChanges,
}

/// The kinds of event, one per notification preference, and the sentinel.
#[derive(Debug, Clone, Copy, PartialEq, Eq, Structural)]
pub enum EventKind {
    NewBranch,
    NewTag,
    BranchUpdated,
    NewPullRequest,
    PullRequestUpdated,
    NoChanges,
}

/// The kind that a notification setting is named after.
pub open spec fn setting_kind(name: Seq<char>) -> Option<EventKind> {
    if name == "new_branch"@ {
        Some(EventKind::NewBranch)
    } else if name == "new_tag"@ {
        Some(EventKind::NewTag)
    } else if name == "branch_update"@ {
        Some(EventKind::BranchUpdated)
    } else if name == "new_pr"@ {
        Some(EventKind::NewPullRequest)
    } else if name == "pr_update"@ {
        Some(EventKind::PullRequestUpdated)
    } else {
        None
    }
}

impl EventKind {
    /// The kind whose notification setting is called `name`.
    pub fn from_setting_name(name: &str) -> (r: Option<EventKind>)
        ensures
            r == setting_kind(name@),
    {
        if str_eq(name, "new_branch") {
            Some(EventKind::NewBranch)
        } else if str_eq(name, "new_tag") {
            Some(EventKind::NewTag)
        } else if str_eq(name, "branch_update") {
            Some(EventKind::BranchUpdated)
        } else if str_eq(name, "new_pr") {
            Some(EventKind::NewPullRequest)
        } else if str_eq(name, "pr_update") {
            Some(EventKind::PullRequestUpdated)
        } else {
            None
        }
    }
}

impl View for GitEvent {
    type V = EventModel;

    open spec fn view(&self) -> EventModel {
        match self {
            GitEvent::NewBranch(b) => EventModel::NewBranch { name: b.name@, sha: b.sha@ },
            GitEvent::NewTag(t) => EventModel::NewTag { name: t.name@, sha: t.sha@ },
            GitEvent::BranchUpdated { name, old_sha, new_sha } => EventModel::BranchUpdated {
                name: name@,
                old_sha: old_sha@,
                new_sha: new_sha@,
            },
            GitEvent::NewPullRequest(p) => EventModel::NewPullRequest { id: p.id, sha: p.sha@ },
            GitEvent::PullRequestUpdated(p) => EventModel::PullRequestUpdated {
                id: p.id,
                sha: p.sha@,
            },
            GitEvent::NoChanges => EventModel::NoChanges,
        }
    }
}

pub open spec fn kind_of(e: EventModel) -> EventKind {
    match e {
        EventModel::NewBranch { .. } => EventKind::NewBranch,
        EventModel::NewTag { .. } => EventKind::NewTag,
        EventModel::BranchUpdated { .. } => EventKind::BranchUpdated,
        EventModel::NewPullRequest { .. } => EventKind::NewPullRequest,
        EventModel::PullRequestUpdated { .. } => EventKind::PullRequestUpdated,
        EventModel::NoChanges => EventKind::NoChanges,
    }
}

/// The branch name shown to readers: `refs/heads/` taken off.
pub open spec fn short_branch(name: Seq<char>) -> Seq<char> {
    trim_start_all(name, "refs/heads/"@)
}

/// The tag name shown to readers: `refs/tags/` taken off.
pub open spec fn short_tag(name: Seq<char>) -> Seq<char> {
    trim_start_all(name, "refs/tags/"@)
}

/// The one-line header of an event; the sentinel has none.
pub open spec fn header_of(e: EventModel) -> Option<Seq<char>> {
    match e {
        EventModel::NewBranch { name, .. } => Some(
            "🌿 New Branch: *"@ + escape_md(short_branch(name)) + "*"@,
        ),
        EventModel::NewTag { name, .. } => Some(
            "🏷️ New Tag: *"@ + escape_md(short_tag(name)) + "*"@,
        ),
        EventModel::BranchUpdated { name, .. } => Some(
            "🚀 Branch Updated: *"@ + escape_md(short_branch(name)) + "*"@,
        ),
        EventModel::NewPullRequest { id, .. } => Some(
            "📦 New Pull Request: *\\#"@ + decimal(id as nat) + "*"@,
        ),
        EventModel::PullRequestUpdated { id, .. } => Some(
            "📥 Pull Request Updated: *\\#"@ + decimal(id as nat) + "*"@,
        ),
        EventModel::NoChanges => None,
    }
}

impl GitEvent {
    /// A copy of the event.
    pub fn copied(&self) -> (r: GitEvent)
        ensures
            r@ == self@,
    {
        match self {
            GitEvent::NewBranch(b) => GitEvent::NewBranch(
                Branch { name: b.name.clone(), sha: b.sha.clone() },
            ),
            GitEvent::NewTag(t) => GitEvent::NewTag(Tag { name: t.name.clone(), sha: t.sha.clone() }),
            GitEvent::BranchUpdated { name, old_sha, new_sha } => GitEvent::BranchUpdated {
                name: name.clone(),
                old_sha: old_sha.clone(),
                new_sha: new_sha.clone(),
            },
            GitEvent::NewPullRequest(p) => GitEvent::NewPullRequest(
                PullRequest { id: p.id, sha: p.sha.clone() },
            ),
            GitEvent::PullRequestUpdated(p) => GitEvent::PullRequestUpdated(
                PullRequest { id: p.id, sha: p.sha.clone() },
            ),
            GitEvent::NoChanges => GitEvent::NoChanges,
        }
    }

    pub fn kind(&self) -> (r: EventKind)
        ensures
            r == kind_of(self@),
    {
        match self {
            GitEvent::NewBranch(_) => EventKind::NewBranch,
            GitEvent::NewTag(_) => EventKind::NewTag,
            GitEvent::BranchUpdated { .. } => EventKind::BranchUpdated,
            GitEvent::NewPullRequest(_) => EventKind::NewPullRequest,
            GitEvent::PullRequestUpdated(_) => EventKind::PullRequestUpdated,
            GitEvent::NoChanges => EventKind::NoChanges,
        }
    }

    /// The event's header line, with names escaped for MarkdownV2.
    pub fn render_as_notification(&self) -> (r: Option<String>)
        ensures
            match r {
                Some(s) => header_of(self@) == Some(s@),
                None => header_of(self@) == None::<Seq<char>>,
            },
    {
        match self {
            GitEvent::NewBranch(branch) => {
                let short = trim_start(branch.name.as_str(), "refs/heads/");
                let mut out = String::from_str("🌿 New Branch: *");
                out.append(escape(short).as_str());
                out.append("*");
                Some(out)
            },
            GitEvent::NewTag(tag) => {
                let short = trim_start(tag.name.as_str(), "refs/tags/");
                let mut out = String::from_str("🏷️ New Tag: *");
                out.append(escape(short).as_str());
                out.append("*");
                Some(out)
            },
            GitEvent::BranchUpdated { name, .. } => {
                let short = trim_start(name.as_str(), "refs/heads/");
                let mut out = String::from_str("🚀 Branch Updated: *");
                out.append(escape(short).as_str());
                out.append("*");
                Some(out)
            },
            GitEvent::NewPullRequest(pr) => {
                let mut out = String::from_str("📦 New Pull Request: *\\#");
                push_decimal(&mut out, pr.id);
                out.append("*");
                Some(out)
            },
            GitEvent::PullRequestUpdated(pr) => {
                let mut out = String::from_str("📥 Pull Request Updated: *\\#");
                push_decimal(&mut out, pr.id);
                out.append("*");
                Some(out)
            },
            GitEvent::NoChanges => None,
        }
    }
}

} // verus!
