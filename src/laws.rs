//! What holds of every diff, stated over the contracts of `diff`.
use vstd::prelude::*;
use crate::diff::{
    apply_events,
    deleted_of,
    diff_event_set,
    entry_event,
    event_for,
    events_of,
    is_branch_ref,
    is_pull_ref,
    is_tag_ref,
    lemma_deleted_of_set,
    lemma_events_of_set,
    opt_seq,
    pr_id_of,
    pull_ref_name,
    ref_update,
};
use crate::events::EventModel;
use crate::refs::{RefTable, entries_map, keys_unique, lemma_entries_map, lookup};

verus! {

/// How many times `e` occurs in `s`.
pub open spec fn occurrences(s: Seq<EventModel>, e: EventModel) -> nat
    decreases s.len(),
{
    if s.len() == 0 {
        0
    } else {
        occurrences(s.drop_last(), e) + if s.last() == e {
            1nat
        } else {
            0nat
        }
    }
}

/// A branch, tag or pull request reference belongs to one namespace only.
pub proof fn lemma_namespaces_disjoint(name: Seq<char>)
    ensures
        !(is_branch_ref(name) && is_tag_ref(name)),
        !(is_branch_ref(name) && is_pull_ref(name)),
        !(is_tag_ref(name) && is_pull_ref(name)),
{
    reveal_strlit("refs/heads/");
    reveal_strlit("refs/tags/");
    reveal_strlit("refs/pull/");
    if is_branch_ref(name) {
        assert(name.subrange(0, 11)[5] == name[5]);
        assert(name[5] == 'h');
    }
    if is_tag_ref(name) {
        assert(name.subrange(0, 10)[5] == name[5]);
        assert(name[5] == 't');
    }
    if is_pull_ref(name) {
        assert(name.subrange(0, 10)[5] == name[5]);
        assert(name[5] == 'p');
    }
}

proof fn lemma_drop_last_unique(s: Seq<(Seq<char>, Seq<char>)>)
    requires
        keys_unique(s),
        s.len() > 0,
    ensures
        keys_unique(s.drop_last()),
{
    let t = s.drop_last();
    assert forall|i: int, j: int|
        0 <= i < t.len() && 0 <= j < t.len() && i != j implies #[trigger] t[i].0
        != #[trigger] t[j].0 by {
        assert(t[i] == s[i] && t[j] == s[j]);
    }
}

/// When only entries named `k` can give `e`, `e` occurs once if the entry named
/// `k` gives it and not at all otherwise.
proof fn lemma_occurrences_by_name(
    s: Seq<(Seq<char>, Seq<char>)>,
    p: Map<Seq<char>, Seq<char>>,
    k: Seq<char>,
    e: EventModel,
)
    requires
        keys_unique(s),
        forall|i: int| 0 <= i < s.len() && #[trigger] entry_event(s, p, i) == Some(e) ==> s[i].0 == k,
    ensures
        occurrences(events_of(s, p), e) == if exists|i: int|
            0 <= i < s.len() && s[i].0 == k && #[trigger] entry_event(s, p, i) == Some(e) {
            1nat
        } else {
            0nat
        },
    decreases s.len(),
{
    if s.len() > 0 {
        let t = s.drop_last();
        let n = s.len() - 1;
        lemma_drop_last_unique(s);
        assert forall|i: int| 0 <= i < t.len() && #[trigger] entry_event(t, p, i) == Some(e) implies t[i].0
            == k by {
            assert(t[i] == s[i]);
            assert(entry_event(s, p, i) == Some(e));
        }
        lemma_occurrences_by_name(t, p, k, e);
        let a = events_of(t, p);
        let tail = opt_seq(entry_event(s, p, n));
        assert(events_of(s, p) == a + tail);
        if tail.len() == 1 {
            assert((a + tail).drop_last() =~= a);
        } else {
            assert(a + tail =~= a);
        }
        if exists|i: int| 0 <= i < t.len() && t[i].0 == k && #[trigger] entry_event(t, p, i) == Some(e) {
            let i = choose|i: int|
                0 <= i < t.len() && t[i].0 == k && #[trigger] entry_event(t, p, i) == Some(e);
            assert(t[i] == s[i]);
            assert(entry_event(s, p, i) == Some(e));
            assert(s[i].0 != s[n].0);
        }
        if exists|i: int| 0 <= i < s.len() && s[i].0 == k && #[trigger] entry_event(s, p, i) == Some(e) {
            let i = choose|i: int|
                0 <= i < s.len() && s[i].0 == k && #[trigger] entry_event(s, p, i) == Some(e);
            if i < n {
                assert(t[i] == s[i]);
                assert(entry_event(t, p, i) == Some(e));
            }
        }
    }
}

/// The names in `remote` whose entry gives `e` against `p`.
pub open spec fn keys_giving(
    remote: Map<Seq<char>, Seq<char>>,
    p: Map<Seq<char>, Seq<char>>,
    e: EventModel,
) -> Set<Seq<char>> {
    Set::new(
        |k: Seq<char>| remote.contains_key(k) && event_for(k, remote[k], lookup(p, k)) == Some(e),
    )
}

/// An event occurs in the events of unique entries as often as there are names
/// that give it.
proof fn lemma_occurrences_count_keys(
    s: Seq<(Seq<char>, Seq<char>)>,
    p: Map<Seq<char>, Seq<char>>,
    e: EventModel,
)
    requires
        keys_unique(s),
    ensures
        keys_giving(entries_map(s), p, e).finite(),
        occurrences(events_of(s, p), e) == keys_giving(entries_map(s), p, e).len(),
    decreases s.len(),
{
    if s.len() == 0 {
        assert(keys_giving(entries_map(s), p, e) =~= Set::<Seq<char>>::empty());
    } else {
        let t = s.drop_last();
        let n = s.len() - 1;
        let k0 = s[n].0;
        let v0 = s[n].1;
        lemma_drop_last_unique(s);
        lemma_occurrences_count_keys(t, p, e);
        let mt = entries_map(t);
        let ms = entries_map(s);
        assert(ms == mt.insert(k0, v0));
        lemma_entries_map(t, k0);
        if mt.contains_key(k0) {
            let i = choose|i: int| 0 <= i < t.len() && #[trigger] t[i].0 == k0;
            assert(t[i] == s[i]);
            assert(s[i].0 != s[n].0);
        }
        let a = events_of(t, p);
        let tail = opt_seq(entry_event(s, p, n));
        assert(events_of(s, p) == a + tail);
        let gt = keys_giving(mt, p, e);
        if tail.len() == 1 {
            assert((a + tail).drop_last() =~= a);
        } else {
            assert(a + tail =~= a);
        }
        if entry_event(s, p, n) == Some(e) {
            assert(keys_giving(ms, p, e) =~= gt.insert(k0));
            assert(!gt.contains(k0));
        } else {
            assert(keys_giving(ms, p, e) =~= gt);
        }
    }
}

/// A diff depends on the two reference maps alone: tables that hold the same
/// references give the same events, each as many times, and the same deleted
/// names, whatever the order of their entries.
pub proof fn lemma_diff_deterministic(
    remote1: RefTable,
    persisted1: RefTable,
    remote2: RefTable,
    persisted2: RefTable,
)
    requires
        remote1.wf(),
        persisted1.wf(),
        remote2.wf(),
        persisted2.wf(),
        remote1@ == remote2@,
        persisted1@ == persisted2@,
    ensures
        events_of(remote1.entries_view(), persisted1@).to_set() == events_of(
            remote2.entries_view(),
            persisted2@,
        ).to_set(),
        forall|e: EventModel|
            #[trigger] occurrences(events_of(remote1.entries_view(), persisted1@), e)
                == occurrences(events_of(remote2.entries_view(), persisted2@), e),
        deleted_of(persisted1.entries_view(), remote1@).to_set() == deleted_of(
            persisted2.entries_view(),
            remote2@,
        ).to_set(),
{
    assert forall|e: EventModel|
        #[trigger] occurrences(events_of(remote1.entries_view(), persisted1@), e) == occurrences(
            events_of(remote2.entries_view(), persisted2@),
            e,
        ) by {
        lemma_occurrences_count_keys(remote1.entries_view(), persisted1@, e);
        lemma_occurrences_count_keys(remote2.entries_view(), persisted2@, e);
    }
    lemma_events_of_set(remote1.entries_view(), persisted1@);
    lemma_events_of_set(remote2.entries_view(), persisted2@);
    lemma_deleted_of_set(persisted1.entries_view(), remote1@);
    lemma_deleted_of_set(persisted2.entries_view(), remote2@);
}

/// A branch that the remote has and that was not recorded gives exactly one
/// `NewBranch` event, with its name and commit id.
pub proof fn lemma_new_branch_once(remote: RefTable, persisted: RefTable, name: Seq<char>)
    requires
        remote.wf(),
        persisted.wf(),
        remote@.contains_key(name),
        !persisted@.contains_key(name),
        is_branch_ref(name),
    ensures
        occurrences(
            events_of(remote.entries_view(), persisted@),
            EventModel::NewBranch { name, sha: remote@[name] },
        ) == 1,
{
    let s = remote.entries_view();
    let p = persisted@;
    let e = EventModel::NewBranch { name, sha: remote@[name] };
    lemma_entries_map(s, name);
    let i = choose|i: int| 0 <= i < s.len() && #[trigger] s[i].0 == name;
    assert(entry_event(s, p, i) == Some(e));
    lemma_occurrences_by_name(s, p, name, e);
}

/// A branch recorded at `old_sha` that the remote has at another commit gives
/// exactly one `BranchUpdated` event from `old_sha` to the new commit.
pub proof fn lemma_branch_updated_once(remote: RefTable, persisted: RefTable, name: Seq<char>)
    requires
        remote.wf(),
        persisted.wf(),
        remote@.contains_key(name),
        persisted@.contains_key(name),
        remote@[name] != persisted@[name],
        is_branch_ref(name),
    ensures
        occurrences(
            events_of(remote.entries_view(), persisted@),
            EventModel::BranchUpdated {
                name,
                old_sha: persisted@[name],
                new_sha: remote@[name],
            },
        ) == 1,
{
    let s = remote.entries_view();
    let p = persisted@;
    let e = EventModel::BranchUpdated { name, old_sha: p[name], new_sha: remote@[name] };
    lemma_entries_map(s, name);
    let i = choose|i: int| 0 <= i < s.len() && #[trigger] s[i].0 == name;
    assert(entry_event(s, p, i) == Some(e));
    lemma_occurrences_by_name(s, p, name, e);
}

/// A reference for which `event_for` gives nothing adds nothing to the events.
proof fn lemma_silent(remote: Map<Seq<char>, Seq<char>>, p: Map<Seq<char>, Seq<char>>, k: Seq<char>)
    requires
        remote.contains_key(k),
        event_for(k, remote[k], lookup(p, k)) == None::<EventModel>,
    ensures
        diff_event_set(remote, p) == diff_event_set(remote.remove(k), p),
{
    let r2 = remote.remove(k);
    assert forall|e: EventModel|
        diff_event_set(remote, p).contains(e) == diff_event_set(r2, p).contains(e) by {
        if diff_event_set(remote, p).contains(e) {
            let x = choose|x: Seq<char>|
                #[trigger] remote.contains_key(x) && event_for(x, remote[x], lookup(p, x)) == Some(
                    e,
                );
            assert(x != k);
            assert(r2.contains_key(x));
        }
        if diff_event_set(r2, p).contains(e) {
            let x = choose|x: Seq<char>|
                #[trigger] r2.contains_key(x) && event_for(x, r2[x], lookup(p, x)) == Some(e);
            assert(remote.contains_key(x));
        }
    }
    assert(diff_event_set(remote, p) =~= diff_event_set(r2, p));
}

/// A reference whose commit id is unchanged contributes no event: the events
/// are those of the remote without it.
pub proof fn lemma_unchanged_ref_silent(remote: RefTable, persisted: RefTable, name: Seq<char>)
    requires
        remote.wf(),
        persisted.wf(),
        remote@.contains_key(name),
        persisted@.contains_key(name),
        remote@[name] == persisted@[name],
    ensures
        diff_event_set(remote@, persisted@) == diff_event_set(remote@.remove(name), persisted@),
{
    lemma_silent(remote@, persisted@, name);
}

/// A recorded tag whose commit id changed contributes no event.
pub proof fn lemma_moved_tag_silent(remote: RefTable, persisted: RefTable, name: Seq<char>)
    requires
        remote.wf(),
        persisted.wf(),
        is_tag_ref(name),
        remote@.contains_key(name),
        persisted@.contains_key(name),
    ensures
        diff_event_set(remote@, persisted@) == diff_event_set(remote@.remove(name), persisted@),
{
    lemma_namespaces_disjoint(name);
    lemma_silent(remote@, persisted@, name);
}

/// A pull request reference without a numeric id contributes no event, new or
/// changed.
pub proof fn lemma_bad_pull_id_silent(remote: RefTable, persisted: RefTable, name: Seq<char>)
    requires
        remote.wf(),
        persisted.wf(),
        is_pull_ref(name),
        pr_id_of(name) == None::<u64>,
        remote@.contains_key(name),
    ensures
        diff_event_set(remote@, persisted@) == diff_event_set(remote@.remove(name), persisted@),
{
    lemma_namespaces_disjoint(name);
    lemma_silent(remote@, persisted@, name);
}

/// A recorded reference that the remote no longer has is among the deleted
/// names, and what was recorded for it has no bearing on the events.
pub proof fn lemma_vanished_ref_deleted(remote: RefTable, persisted: RefTable, name: Seq<char>)
    requires
        remote.wf(),
        persisted.wf(),
        persisted@.contains_key(name),
        !remote@.contains_key(name),
    ensures
        deleted_of(persisted.entries_view(), remote@).to_set().contains(name),
        diff_event_set(remote@, persisted@) == diff_event_set(remote@, persisted@.remove(name)),
{
    lemma_deleted_of_set(persisted.entries_view(), remote@);
    let r = remote@;
    let p = persisted@;
    let without = p.remove(name);
    assert forall|k: Seq<char>| #[trigger] r.contains_key(k) implies lookup(p, k) == lookup(
        without,
        k,
    ) by {
        assert(k != name);
    }
    assert(diff_event_set(r, p) =~= diff_event_set(r, without));
}

/// Each pull request reference with a numeric id is written the way that
/// recording its event writes it back.
pub open spec fn canonical_pull_refs(entries: Seq<(Seq<char>, Seq<char>)>) -> bool {
    forall|i: int|
        0 <= i < entries.len() && is_pull_ref(#[trigger] entries[i].0) && pr_id_of(entries[i].0)
            is Some ==> entries[i].0 == pull_ref_name(pr_id_of(entries[i].0)->Some_0)
}

/// Recording the events of `s` sets each name that gave an event to its new
/// commit id and leaves every other name as it was.
proof fn lemma_apply_own_events(s: Seq<(Seq<char>, Seq<char>)>, p: Map<Seq<char>, Seq<char>>)
    requires
        keys_unique(s),
        canonical_pull_refs(s),
    ensures
        forall|i: int|
            0 <= i < s.len() && #[trigger] entry_event(s, p, i) is Some ==> lookup(
                apply_events(p, events_of(s, p)),
                s[i].0,
            ) == Some(s[i].1),
        forall|k: Seq<char>|
            (forall|i: int| 0 <= i < s.len() && #[trigger] s[i].0 == k ==> entry_event(s, p, i) is None)
                ==> #[trigger] lookup(apply_events(p, events_of(s, p)), k) == lookup(p, k),
    decreases s.len(),
{
    if s.len() > 0 {
        let t = s.drop_last();
        let n = s.len() - 1;
        lemma_drop_last_unique(s);
        assert forall|i: int|
            0 <= i < t.len() && is_pull_ref(#[trigger] t[i].0) && pr_id_of(t[i].0)
                is Some implies t[i].0 == pull_ref_name(pr_id_of(t[i].0)->Some_0) by {
            assert(t[i] == s[i]);
        }
        lemma_apply_own_events(t, p);
        let a = events_of(t, p);
        let tail = opt_seq(entry_event(s, p, n));
        let at = apply_events(p, a);
        let k0 = s[n].0;
        let v0 = s[n].1;
        assert(events_of(s, p) == a + tail);
        lemma_namespaces_disjoint(k0);
        if tail.len() == 1 {
            assert((a + tail).drop_last() =~= a);
            assert((a + tail).last() == tail[0]);
            assert(ref_update(tail[0]) == Some((k0, v0)));
            assert(apply_events(p, a + tail) == at.insert(k0, v0));
        } else {
            assert(a + tail =~= a);
        }
        let all = apply_events(p, events_of(s, p));
        assert forall|i: int|
            0 <= i < s.len() && #[trigger] entry_event(s, p, i) is Some implies lookup(
            all,
            s[i].0,
        ) == Some(s[i].1) by {
            if i < n {
                assert(t[i] == s[i]);
                assert(entry_event(t, p, i) is Some);
                assert(s[i].0 != k0);
            }
        }
        assert forall|k: Seq<char>|
            (forall|i: int| 0 <= i < s.len() && #[trigger] s[i].0 == k ==> entry_event(s, p, i) is None)
            implies #[trigger] lookup(all, k) == lookup(p, k) by {
            assert forall|i: int| 0 <= i < t.len() && #[trigger] t[i].0 == k implies entry_event(
                t,
                p,
                i,
            ) is None by {
                assert(t[i] == s[i]);
                assert(s[i].0 == k);
            }
            assert(lookup(at, k) == lookup(p, k));
            if tail.len() == 1 {
                assert(s[n].0 == k ==> entry_event(s, p, n) is None);
                assert(k != k0);
                assert(all == at.insert(k0, v0));
            } else {
                assert(all == at);
            }
        }
    }
}

proof fn lemma_no_events(s: Seq<(Seq<char>, Seq<char>)>, p: Map<Seq<char>, Seq<char>>)
    requires
        forall|i: int| 0 <= i < s.len() ==> #[trigger] entry_event(s, p, i) is None,
    ensures
        events_of(s, p) == Seq::<EventModel>::empty(),
    decreases s.len(),
{
    if s.len() > 0 {
        let t = s.drop_last();
        assert forall|i: int| 0 <= i < t.len() implies #[trigger] entry_event(t, p, i) is None by {
            assert(t[i] == s[i]);
            assert(entry_event(s, p, i) is None);
        }
        lemma_no_events(t, p);
        assert(entry_event(s, p, s.len() - 1) is None);
        assert(events_of(s, p) =~= Seq::<EventModel>::empty());
    }
}

/// Diffing the same remote again, after recording the events of the first diff,
/// gives no event. It holds where every pull request reference with a numeric
/// id is written as `refs/pull/<id>/head` with `<id>` in plain decimal.
pub proof fn lemma_diff_idempotent(remote: RefTable, persisted: RefTable)
    requires
        remote.wf(),
        persisted.wf(),
        forall|k: Seq<char>|
            #[trigger] remote@.contains_key(k) && is_pull_ref(k) && pr_id_of(k) is Some ==> k
                == pull_ref_name(pr_id_of(k)->Some_0),
    ensures
        events_of(
            remote.entries_view(),
            apply_events(persisted@, events_of(remote.entries_view(), persisted@)),
        ) == Seq::<EventModel>::empty(),
{
    let s = remote.entries_view();
    let p = persisted@;
    assert forall|i: int|
        0 <= i < s.len() && is_pull_ref(#[trigger] s[i].0) && pr_id_of(s[i].0)
            is Some implies s[i].0 == pull_ref_name(pr_id_of(s[i].0)->Some_0) by {
        lemma_entries_map(s, s[i].0);
        assert(remote@.contains_key(s[i].0));
    }
    lemma_apply_own_events(s, p);
    let q = apply_events(p, events_of(s, p));
    assert forall|i: int| 0 <= i < s.len() implies #[trigger] entry_event(s, q, i) is None by {
        if entry_event(s, p, i) is None {
            assert forall|j: int| 0 <= j < s.len() && #[trigger] s[j].0 == s[i].0 implies entry_event(
                s,
                p,
                j,
            ) is None by {
                if j != i {
                    assert(s[j].0 != s[i].0);
                }
            }
            assert(lookup(q, s[i].0) == lookup(p, s[i].0));
        }
    }
    lemma_no_events(s, q);
}

} // verus!
