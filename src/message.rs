//! The texts sent to subscribers, in MarkdownV2.
use vstd::prelude::*;
use vstd::string::*;
use crate::events::{EventModel, GitEvent, header_of, short_branch, short_tag};
use crate::markup::{escape, escape_md};
use crate::text::{
    decimal,
    last_two_segments,
    prefix_upto,
    push_decimal,
    tail_segments,
    take_chars,
    trim_end,
    trim_end_all,
    trim_start,
};

verus! {

/// The web address of a repository: its clone address without `.git`.
pub open spec fn base_url(url: Seq<char>) -> Seq<char> {
    trim_end_all(url, ".git"@)
}

/// A commit id as shown: its first seven characters.
pub open spec fn short_sha(sha: Seq<char>) -> Seq<char> {
    prefix_upto(sha, 7)
}

/// The line that links to a commit under its short id.
pub open spec fn commit_line(base: Seq<char>, sha: Seq<char>) -> Seq<char> {
    "\nCommit: ["@ + escape_md(short_sha(sha)) + "]("@ + escape_md(base + "/commit/"@ + sha) + ")"@
}

/// The lines under the header that name the reference and link to it and to
/// its commit; an update also links to the comparison of the two commits.
pub open spec fn details_of(base: Seq<char>, e: EventModel) -> Seq<char> {
    match e {
        EventModel::NewBranch { name, sha } => "Branch: ["@ + escape_md(short_branch(name)) + "]("@
            + escape_md(base + "/tree/"@ + short_branch(name)) + ")"@ + commit_line(base, sha),
        EventModel::NewTag { name, sha } => "Tag: ["@ + escape_md(short_tag(name)) + "]("@
            + escape_md(base + "/releases/tag/"@ + short_tag(name)) + ")"@ + commit_line(base, sha),
        EventModel::BranchUpdated { name, old_sha, new_sha } => "Branch: ["@ + escape_md(
            short_branch(name),
        ) + "]("@ + escape_md(base) + "/tree/"@ + escape_md(short_branch(name)) + ")"@
            + commit_line(base, new_sha) + "\nChanges: [compare]("@ + escape_md(
            base + "/compare/"@ + old_sha + "..."@ + new_sha,
        ) + ")"@,
        EventModel::NewPullRequest { id, sha } => "Pull Request: [\\#"@ + decimal(id as nat)
            + "](_)"@ + commit_line(base, sha),
        EventModel::PullRequestUpdated { id, sha } => "Pull Request: [\\#"@ + decimal(id as nat)
            + "](_)"@ + commit_line(base, sha),
        EventModel::NoChanges => Seq::empty(),
    }
}

/// The whole notification for an event in the repository at `url`.
pub open spec fn notification_text(url: Seq<char>, e: EventModel) -> Seq<char> {
    let base = base_url(url);
    let header = match header_of(e) {
        Some(h) => h,
        None => Seq::empty(),
    };
    header + "\nRepository: ["@ + escape_md(tail_segments(base, 1)) + "]("@ + escape_md(base)
        + ")\n"@ + details_of(base, e)
}

/// The one message sent when a repository can no longer be reached.
pub open spec fn inaccessible_text(url: Seq<char>) -> Seq<char> {
    "⚠️ Repository ["@ + escape_md(url) + "]("@ + escape_md(url)
        + ") is no longer accessible (it may have been deleted or made private). You have been unsubscribed."@
}

fn push_escaped(out: &mut String, s: &str)
    ensures
        final(out)@ == old(out)@ + escape_md(s@),
{
    let e = escape(s);
    out.append(e.as_str());
}

fn link_target(base: &str, middle: &str, tail: &str) -> (r: String)
    ensures
        r@ == base@ + middle@ + tail@,
{
    let mut out = String::from_str(base);
    out.append(middle);
    out.append(tail);
    out
}

fn push_commit_line(out: &mut String, base: &str, sha: &str)
    ensures
        final(out)@ == old(out)@ + commit_line(base@, sha@),
{
    out.append("\nCommit: [");
    push_escaped(out, take_chars(sha, 7));
    out.append("](");
    push_escaped(out, link_target(base, "/commit/", sha).as_str());
    out.append(")");
}

fn details(base: &str, event: &GitEvent) -> (r: String)
    ensures
        r@ == details_of(base@, event@),
{
    match event {
        GitEvent::NewBranch(branch) => {
            let short = trim_start(branch.name.as_str(), "refs/heads/");
            let mut out = String::from_str("Branch: [");
            push_escaped(&mut out, short);
            out.append("](");
            push_escaped(&mut out, link_target(base, "/tree/", short).as_str());
            out.append(")");
            push_commit_line(&mut out, base, branch.sha.as_str());
            out
        },
        GitEvent::NewTag(tag) => {
            let short = trim_start(tag.name.as_str(), "refs/tags/");
            let mut out = String::from_str("Tag: [");
            push_escaped(&mut out, short);
            out.append("](");
            push_escaped(&mut out, link_target(base, "/releases/tag/", short).as_str());
            out.append(")");
            push_commit_line(&mut out, base, tag.sha.as_str());
            out
        },
        GitEvent::BranchUpdated { name, old_sha, new_sha } => {
            let short = trim_start(name.as_str(), "refs/heads/");
            let mut out = String::from_str("Branch: [");
            push_escaped(&mut out, short);
            out.append("](");
            push_escaped(&mut out, base);
            out.append("/tree/");
            push_escaped(&mut out, short);
            out.append(")");
            push_commit_line(&mut out, base, new_sha.as_str());
            out.append("\nChanges: [compare](");
            let mut compare = link_target(base, "/compare/", old_sha.as_str());
            compare.append("...");
            compare.append(new_sha.as_str());
            push_escaped(&mut out, compare.as_str());
            out.append(")");
            out
        },
        GitEvent::NewPullRequest(pr) => {
            let mut out = String::from_str("Pull Request: [\\#");
            push_decimal(&mut out, pr.id);
            out.append("](_)");
            push_commit_line(&mut out, base, pr.sha.as_str());
            out
        },
        GitEvent::PullRequestUpdated(pr) => {
            let mut out = String::from_str("Pull Request: [\\#");
            push_decimal(&mut out, pr.id);
            out.append("](_)");
            push_commit_line(&mut out, base, pr.sha.as_str());
            out
        },
        GitEvent::NoChanges => String::new(),
    }
}

/// The notification for `event` in the repository at `repo_url`: the event's
/// header, a link to the repository, then links to the reference and commits.
pub fn format_notification_message(repo_url: &str, event: &GitEvent) -> (r: String)
    ensures
        r@ == notification_text(repo_url@, event@),
{
    let base = trim_end(repo_url, ".git");
    let short_repo_name = last_two_segments(base);
    let mut out = match event.render_as_notification() {
        Some(header) => header,
        None => String::new(),
    };
    out.append("\nRepository: [");
    push_escaped(&mut out, short_repo_name);
    out.append("](");
    push_escaped(&mut out, base);
    out.append(")\n");
    let d = details(base, event);
    out.append(d.as_str());
    out
}

/// The message that tells a subscriber the repository at `repo_url` is gone.
pub fn inaccessible_message(repo_url: &str) -> (r: String)
    ensures
        r@ == inaccessible_text(repo_url@),
{
    let mut out = String::from_str("⚠️ Repository [");
    push_escaped(&mut out, repo_url);
    out.append("](");
    push_escaped(&mut out, repo_url);
    out.append(
        ") is no longer accessible (it may have been deleted or made private). You have been unsubscribed.",
    );
    out
}

} // verus!
