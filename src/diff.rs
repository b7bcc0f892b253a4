//! Comparing a fresh reference snapshot against the recorded one.
use vstd::prelude::*;
use vstd::string::*;
use crate::events::{Branch, EventModel, GitEvent, PullRequest, Tag};
use crate::refs::{RefTable, entries_map, keys_unique, lemma_entries_map, lookup};
use crate::text::{
    decimal,
    first_segment,
    parse_u64,
    parse_u64_spec,
    push_decimal,
    segment_from,
    ends_with,
    starts_with,
    str_ends_with,
    str_starts_with,
};

verus! {

pub open spec fn is_branch_ref(name: Seq<char>) -> bool {
    starts_with(name, "refs/heads/"@)
}

pub open spec fn is_tag_ref(name: Seq<char>) -> bool {
    starts_with(name, "refs/tags/"@)
}

pub open spec fn is_pull_ref(name: Seq<char>) -> bool {
    starts_with(name, "refs/pull/"@)
}

/// The references that are followed: branch heads, tags, and pull request heads.
pub open spec fn is_tracked(name: Seq<char>) -> bool {
    is_branch_ref(name) || is_tag_ref(name) || (is_pull_ref(name) && ends_with(name, "/head"@))
}

/// Whether a remote reference belongs to a followed namespace.
pub fn is_tracked_ref(name: &str) -> (r: bool)
    ensures
        r == is_tracked(name@),
{
    str_starts_with(name, "refs/heads/") || str_starts_with(name, "refs/tags/") || (
    str_starts_with(name, "refs/pull/") && str_ends_with(name, "/head"))
}

pub open spec fn pairs_view(v: Seq<(String, String)>) -> Seq<(Seq<char>, Seq<char>)> {
    v.map_values(|e: (String, String)| (e.0@, e.1@))
}

/// The followed references of a remote listing; a later entry for a name wins.
pub open spec fn tracked_map(listing: Seq<(Seq<char>, Seq<char>)>) -> Map<Seq<char>, Seq<char>>
    decreases listing.len(),
{
    if listing.len() == 0 {
        Map::empty()
    } else if is_tracked(listing.last().0) {
        tracked_map(listing.drop_last()).insert(listing.last().0, listing.last().1)
    } else {
        tracked_map(listing.drop_last())
    }
}

/// The snapshot of a remote listing of (reference name, commit id) pairs,
/// restricted to the followed namespaces.
pub fn tracked_refs(listing: &Vec<(String, String)>) -> (r: RefTable)
    ensures
        r.wf(),
        r@ == tracked_map(pairs_view(listing@)),
{
    let mut refs = RefTable::new();
    let n = listing.len();
    let mut i: usize = 0;
    while i < n
        invariant
            i <= n,
            n == listing@.len(),
            refs.wf(),
            refs@ == tracked_map(pairs_view(listing@).take(i as int)),
        decreases n - i,
    {
        let ghost s = pairs_view(listing@);
        assert(s.take(i + 1).drop_last() =~= s.take(i as int));
        assert(s.take(i + 1).last() == s[i as int]);
        let (name, sha) = &listing[i];
        if is_tracked_ref(name.as_str()) {
            refs.insert(name.clone(), sha.clone());
        }
        i += 1;
    }
    assert(pairs_view(listing@).take(n as int) =~= pairs_view(listing@));
    refs
}

/// The number in a pull request reference `refs/pull/<id>/...`, if it reads as one.
pub open spec fn pr_id_of(name: Seq<char>) -> Option<u64> {
    parse_u64_spec(first_segment(name.subrange("refs/pull/"@.len() as int, name.len() as int)))
}

/// The reference under which a pull request's head is recorded.
pub open spec fn pull_ref_name(id: u64) -> Seq<char> {
    "refs/pull/"@ + decimal(id as nat) + "/head"@
}

/// The event for one remote reference `name` at `sha`, given what was recorded
/// for it before (`old`).
pub open spec fn event_for(name: Seq<char>, sha: Seq<char>, old: Option<Seq<char>>) -> Option<
    EventModel,
> {
    match old {
        None => if is_branch_ref(name) {
            Some(EventModel::NewBranch { name, sha })
        } else if is_tag_ref(name) {
            Some(EventModel::NewTag { name, sha })
        } else if is_pull_ref(name) {
            match pr_id_of(name) {
                Some(id) => Some(EventModel::NewPullRequest { id, sha }),
                None => None,
            }
        } else {
            None
        },
        Some(o) => if o == sha {
            None
        } else if is_branch_ref(name) {
            Some(EventModel::BranchUpdated { name, old_sha: o, new_sha: sha })
        } else if is_pull_ref(name) {
            match pr_id_of(name) {
                Some(id) => Some(EventModel::PullRequestUpdated { id, sha }),
                None => None,
            }
        } else {
            None
        },
    }
}

pub open spec fn opt_seq(o: Option<EventModel>) -> Seq<EventModel> {
    match o {
        Some(e) => seq![e],
        None => Seq::empty(),
    }
}

/// The event that entry `i` of the remote entries `s` gives against `persisted`.
pub open spec fn entry_event(
    s: Seq<(Seq<char>, Seq<char>)>,
    persisted: Map<Seq<char>, Seq<char>>,
    i: int,
) -> Option<EventModel> {
    event_for(s[i].0, s[i].1, lookup(persisted, s[i].0))
}

/// The events of the remote entries `s` against `persisted`, in entry order.
pub open spec fn events_of(
    s: Seq<(Seq<char>, Seq<char>)>,
    persisted: Map<Seq<char>, Seq<char>>,
) -> Seq<EventModel>
    decreases s.len(),
{
    if s.len() == 0 {
        Seq::empty()
    } else {
        events_of(s.drop_last(), persisted) + opt_seq(
            event_for(s.last().0, s.last().1, lookup(persisted, s.last().0)),
        )
    }
}

/// The recorded names, in entry order, that the remote no longer has.
pub open spec fn deleted_of(
    s: Seq<(Seq<char>, Seq<char>)>,
    remote: Map<Seq<char>, Seq<char>>,
) -> Seq<Seq<char>>
    decreases s.len(),
{
    if s.len() == 0 {
        Seq::empty()
    } else if remote.contains_key(s.last().0) {
        deleted_of(s.drop_last(), remote)
    } else {
        deleted_of(s.drop_last(), remote).push(s.last().0)
    }
}

/// The set of events that a remote map gives against a persisted map.
pub open spec fn diff_event_set(
    remote: Map<Seq<char>, Seq<char>>,
    persisted: Map<Seq<char>, Seq<char>>,
) -> Set<EventModel> {
    Set::new(
        |e: EventModel|
            exists|k: Seq<char>|
                #[trigger] remote.contains_key(k) && event_for(k, remote[k], lookup(persisted, k))
                    == Some(e),
    )
}

pub open spec fn events_view(v: Seq<GitEvent>) -> Seq<EventModel> {
    v.map_values(|e: GitEvent| e@)
}

pub open spec fn names_view(v: Seq<String>) -> Seq<Seq<char>> {
    v.map_values(|s: String| s@)
}

/// The (reference, commit id) row that recording an event writes.
pub open spec fn ref_update(e: EventModel) -> Option<(Seq<char>, Seq<char>)> {
    match e {
        EventModel::NewBranch { name, sha } => Some((name, sha)),
        EventModel::NewTag { name, sha } => Some((name, sha)),
        EventModel::BranchUpdated { name, new_sha, .. } => Some((name, new_sha)),
        EventModel::NewPullRequest { id, sha } => Some((pull_ref_name(id), sha)),
        EventModel::PullRequestUpdated { id, sha } => Some((pull_ref_name(id), sha)),
        EventModel::NoChanges => None,
    }
}

/// `persisted` after recording each of `events` in order.
pub open spec fn apply_events(
    persisted: Map<Seq<char>, Seq<char>>,
    events: Seq<EventModel>,
) -> Map<Seq<char>, Seq<char>>
    decreases events.len(),
{
    if events.len() == 0 {
        persisted
    } else {
        let m = apply_events(persisted, events.drop_last());
        match ref_update(events.last()) {
            Some(row) => m.insert(row.0, row.1),
            None => m,
        }
    }
}

/// An event is among the events of `s` exactly when some entry gives it.
pub proof fn lemma_events_of_contains(
    s: Seq<(Seq<char>, Seq<char>)>,
    persisted: Map<Seq<char>, Seq<char>>,
    e: EventModel,
)
    ensures
        events_of(s, persisted).contains(e) <==> exists|i: int|
            0 <= i < s.len() && #[trigger] entry_event(s, persisted, i) == Some(e),
    decreases s.len(),
{
    if s.len() > 0 {
        let t = s.drop_last();
        lemma_events_of_contains(t, persisted, e);
        let a = events_of(t, persisted);
        let n = s.len() - 1;
        let tail = opt_seq(entry_event(s, persisted, n));
        assert(events_of(s, persisted) == a + tail);
        if (a + tail).contains(e) {
            let j = choose|j: int| 0 <= j < (a + tail).len() && (a + tail)[j] == e;
            if j < a.len() {
                assert(a[j] == e);
                let i = choose|i: int| 0 <= i < t.len() && #[trigger] entry_event(t, persisted, i)
                    == Some(e);
                assert(t[i] == s[i]);
                assert(entry_event(s, persisted, i) == Some(e));
            } else {
                assert(entry_event(s, persisted, n) == Some(e));
            }
        }
        if exists|i: int| 0 <= i < s.len() && #[trigger] entry_event(s, persisted, i) == Some(e) {
            let i = choose|i: int| 0 <= i < s.len() && #[trigger] entry_event(s, persisted, i)
                == Some(e);
            if i < n {
                assert(t[i] == s[i]);
                assert(entry_event(t, persisted, i) == Some(e));
                let j = choose|j: int| 0 <= j < a.len() && a[j] == e;
                assert((a + tail)[j] == e);
            } else {
                assert((a + tail)[a.len() as int] == e);
            }
        }
    }
}

/// The events of unique entries, as a set, depend on the entries' map alone.
pub proof fn lemma_events_of_set(
    s: Seq<(Seq<char>, Seq<char>)>,
    persisted: Map<Seq<char>, Seq<char>>,
)
    requires
        keys_unique(s),
    ensures
        events_of(s, persisted).to_set() == diff_event_set(entries_map(s), persisted),
{
    let m = entries_map(s);
    assert forall|e: EventModel|
        events_of(s, persisted).to_set().contains(e) == diff_event_set(m, persisted).contains(
            e,
        ) by {
        lemma_events_of_contains(s, persisted, e);
        if events_of(s, persisted).contains(e) {
            let i = choose|i: int| 0 <= i < s.len() && #[trigger] entry_event(s, persisted, i)
                == Some(e);
            lemma_entries_map(s, s[i].0);
            assert(m.contains_key(s[i].0));
        }
        if diff_event_set(m, persisted).contains(e) {
            let k = choose|k: Seq<char>|
                #[trigger] m.contains_key(k) && event_for(k, m[k], lookup(persisted, k)) == Some(
                    e,
                );
            lemma_entries_map(s, k);
            let i = choose|i: int| 0 <= i < s.len() && #[trigger] s[i].0 == k;
            assert(entry_event(s, persisted, i) == Some(e));
        }
    }
    assert(events_of(s, persisted).to_set() =~= diff_event_set(m, persisted));
}

/// A name is among the deleted names exactly when an entry has it and the
/// remote does not.
pub proof fn lemma_deleted_of_set(s: Seq<(Seq<char>, Seq<char>)>, remote: Map<Seq<char>, Seq<char>>)
    requires
        keys_unique(s),
    ensures
        deleted_of(s, remote).to_set() == entries_map(s).dom().difference(remote.dom()),
    decreases s.len(),
{
    if s.len() > 0 {
        let t = s.drop_last();
        assert forall|i: int, j: int|
            0 <= i < t.len() && 0 <= j < t.len() && i != j implies #[trigger] t[i].0
            != #[trigger] t[j].0 by {
            assert(t[i] == s[i] && t[j] == s[j]);
        }
        lemma_deleted_of_set(t, remote);
        let d = deleted_of(t, remote);
        if !remote.contains_key(s.last().0) {
            assert forall|x: Seq<char>| #[trigger] d.push(s.last().0).contains(x) <==> (
            d.contains(x) || x == s.last().0) by {
                if d.push(s.last().0).contains(x) {
                    let j = choose|j: int| 0 <= j < d.len() + 1 && d.push(s.last().0)[j] == x;
                    if j < d.len() {
                        assert(d[j] == x);
                    }
                }
                if d.contains(x) {
                    let j = choose|j: int| 0 <= j < d.len() && d[j] == x;
                    assert(d.push(s.last().0)[j] == x);
                }
                if x == s.last().0 {
                    assert(d.push(s.last().0)[d.len() as int] == x);
                }
            }
        }
        assert(entries_map(s) == entries_map(t).insert(s.last().0, s.last().1));
        assert forall|x: Seq<char>|
            deleted_of(s, remote).to_set().contains(x) == entries_map(s).dom().difference(
                remote.dom(),
            ).contains(x) by {
            assert(d.to_set().contains(x) == entries_map(t).dom().difference(remote.dom()).contains(
                x,
            ));
            if !remote.contains_key(s.last().0) {
                assert(d.push(s.last().0).contains(x) <==> (d.contains(x) || x == s.last().0));
            }
        }
        assert(deleted_of(s, remote).to_set() =~= entries_map(s).dom().difference(remote.dom()));
    } else {
        assert(deleted_of(s, remote).to_set() =~= entries_map(s).dom().difference(remote.dom()));
    }
}

/// The numeric id of a pull request reference, if it has one.
pub fn pull_request_id(name: &String) -> (r: Option<u64>)
    requires
        is_pull_ref(name@),
    ensures
        r == pr_id_of(name@),
{
    let start = "refs/pull/".unicode_len();
    let segment = segment_from(name.as_str(), start);
    parse_u64(segment)
}

fn event_for_ref(name: &String, sha: &String, old: Option<&String>) -> (r: Option<GitEvent>)
    ensures
        match r {
            Some(e) => event_for(
                name@,
                sha@,
                match old {
                    Some(o) => Some(o@),
                    None => None,
                },
            ) == Some(e@),
            None => event_for(
                name@,
                sha@,
                match old {
                    Some(o) => Some(o@),
                    None => None,
                },
            ) == None::<EventModel>,
        },
{
    match old {
        None => {
            if str_starts_with(name.as_str(), "refs/heads/") {
                Some(GitEvent::NewBranch(Branch { name: name.clone(), sha: sha.clone() }))
            } else if str_starts_with(name.as_str(), "refs/tags/") {
                Some(GitEvent::NewTag(Tag { name: name.clone(), sha: sha.clone() }))
            } else if str_starts_with(name.as_str(), "refs/pull/") {
                match pull_request_id(name) {
                    Some(id) => Some(
                        GitEvent::NewPullRequest(PullRequest { id, sha: sha.clone() }),
                    ),
                    None => None,
                }
            } else {
                None
            }
        },
        Some(old_sha) => {
            if *old_sha == *sha {
                None
            } else if str_starts_with(name.as_str(), "refs/heads/") {
                Some(
                    GitEvent::BranchUpdated {
                        name: name.clone(),
                        old_sha: old_sha.clone(),
                        new_sha: sha.clone(),
                    },
                )
            } else if str_starts_with(name.as_str(), "refs/pull/") {
                match pull_request_id(name) {
                    Some(id) => Some(
                        GitEvent::PullRequestUpdated(PullRequest { id, sha: sha.clone() }),
                    ),
                    None => None,
                }
            } else {
                None
            }
        },
    }
}

/// The events that `remote` gives against `persisted`, one per remote entry at
/// most, in the order of `remote`'s entries.
pub fn detect_events(remote: &RefTable, persisted: &RefTable) -> (r: Vec<GitEvent>)
    requires
        remote.wf(),
        persisted.wf(),
    ensures
        events_view(r@) == events_of(remote.entries_view(), persisted@),
        events_view(r@).to_set() == diff_event_set(remote@, persisted@),
{
    let mut events: Vec<GitEvent> = Vec::new();
    let n = remote.len();
    let mut i: usize = 0;
    while i < n
        invariant
            i <= n,
            n == remote.entries_view().len(),
            persisted.wf(),
            events_view(events@) == events_of(remote.entries_view().take(i as int), persisted@),
        decreases n - i,
    {
        let (name, sha) = remote.entry(i);
        let old = persisted.get(name);
        let ghost s = remote.entries_view();
        assert(s.take(i + 1).drop_last() =~= s.take(i as int));
        assert(s.take(i + 1).last() == s[i as int]);
        let ghost before = events_view(events@);
        match event_for_ref(name, sha, old) {
            Some(e) => {
                events.push(e);
                assert(events_view(events@) =~= before + opt_seq(entry_event(s, persisted@, i as int)));
            },
            None => {
                assert(before + opt_seq(entry_event(s, persisted@, i as int)) =~= before);
            },
        }
        i += 1;
    }
    assert(remote.entries_view().take(n as int) =~= remote.entries_view());
    proof {
        lemma_events_of_set(remote.entries_view(), persisted@);
    }
    events
}

/// The recorded names that `remote` no longer has, in the order of
/// `persisted`'s entries.
pub fn detect_deleted_refs(remote: &RefTable, persisted: &RefTable) -> (r: Vec<String>)
    requires
        remote.wf(),
        persisted.wf(),
    ensures
        names_view(r@) == deleted_of(persisted.entries_view(), remote@),
        names_view(r@).to_set() == persisted@.dom().difference(remote@.dom()),
{
    let mut deleted: Vec<String> = Vec::new();
    let n = persisted.len();
    let mut i: usize = 0;
    while i < n
        invariant
            i <= n,
            n == persisted.entries_view().len(),
            remote.wf(),
            names_view(deleted@) == deleted_of(persisted.entries_view().take(i as int), remote@),
        decreases n - i,
    {
        let (name, _) = persisted.entry(i);
        let ghost s = persisted.entries_view();
        assert(s.take(i + 1).drop_last() =~= s.take(i as int));
        assert(s.take(i + 1).last() == s[i as int]);
        let ghost before = names_view(deleted@);
        match remote.get(name) {
            Some(_) => {},
            None => {
                deleted.push(name.clone());
                assert(names_view(deleted@) =~= before.push(name@));
            },
        }
        i += 1;
    }
    assert(persisted.entries_view().take(n as int) =~= persisted.entries_view());
    proof {
        lemma_deleted_of_set(persisted.entries_view(), remote@);
    }
    deleted
}

/// The outcome of comparing a snapshot with the recorded state.
pub struct RefDiff {
    pub events: Vec<GitEvent>,
    pub deleted: Vec<String>,
}

/// Compares `remote` with `persisted`: the events to record and announce, and
/// the recorded names to drop.
pub fn diff(remote: &RefTable, persisted: &RefTable) -> (r: RefDiff)
    requires
        remote.wf(),
        persisted.wf(),
    ensures
        events_view(r.events@) == events_of(remote.entries_view(), persisted@),
        events_view(r.events@).to_set() == diff_event_set(remote@, persisted@),
        names_view(r.deleted@) == deleted_of(persisted.entries_view(), remote@),
        names_view(r.deleted@).to_set() == persisted@.dom().difference(remote@.dom()),
{
    RefDiff { events: detect_events(remote, persisted), deleted: detect_deleted_refs(remote, persisted) }
}

/// The reference row that recording `event` writes, as (name, commit id).
pub fn ref_update_of(event: &GitEvent) -> (r: Option<(String, String)>)
    ensures
        match r {
            Some(row) => ref_update(event@) == Some((row.0@, row.1@)),
            None => ref_update(event@) == None::<(Seq<char>, Seq<char>)>,
        },
{
    match event {
        GitEvent::NewBranch(branch) => Some((branch.name.clone(), branch.sha.clone())),
        GitEvent::NewTag(tag) => Some((tag.name.clone(), tag.sha.clone())),
        GitEvent::BranchUpdated { name, new_sha, .. } => Some((name.clone(), new_sha.clone())),
        GitEvent::NewPullRequest(pr) => Some((pull_ref_string(pr.id), pr.sha.clone())),
        GitEvent::PullRequestUpdated(pr) => Some((pull_ref_string(pr.id), pr.sha.clone())),
        GitEvent::NoChanges => None,
    }
}

fn pull_ref_string(id: u64) -> (r: String)
    ensures
        r@ == pull_ref_name(id),
{
    let mut out = String::from_str("refs/pull/");
    push_decimal(&mut out, id);
    out.append("/head");
    out
}

} // verus!
