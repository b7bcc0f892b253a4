//! Who receives an event, and what a failed delivery leads to.
use vstd::prelude::*;
use crate::events::{EventKind, GitEvent, kind_of};

verus! {

/// One subscriber's choice, for one repository, of the kinds of event to hear of.
#[derive(Debug, Clone, Copy, PartialEq, Eq, Structural)]
pub struct SubscriptionSettings {
    pub notify_on_new_branch: bool,
    pub notify_on_new_tag: bool,
    pub notify_on_branch_update: bool,
    pub notify_on_new_pr: bool,
    pub notify_on_pr_update: bool,
}

/// Whether `s` asks for events of kind `k`; nobody asks for the sentinel.
pub open spec fn wants(s: SubscriptionSettings, k: EventKind) -> bool {
    match k {
        EventKind::NewBranch => s.notify_on_new_branch,
        EventKind::NewTag => s.notify_on_new_tag,
        EventKind::BranchUpdated => s.notify_on_branch_update,
        EventKind::NewPullRequest => s.notify_on_new_pr,
        EventKind::PullRequestUpdated => s.notify_on_pr_update,
        EventKind::NoChanges => false,
    }
}

impl Default for SubscriptionSettings {
    /// A new subscription starts with every kind switched off.
    fn default() -> (r: Self)
        ensures
            !r.notify_on_new_branch,
            !r.notify_on_new_tag,
            !r.notify_on_branch_update,
            !r.notify_on_new_pr,
            !r.notify_on_pr_update,
    {
        SubscriptionSettings {
            notify_on_new_branch: false,
            notify_on_new_tag: false,
            notify_on_branch_update: false,
            notify_on_new_pr: false,
            notify_on_pr_update: false,
        }
    }
}

impl SubscriptionSettings {
    /// Flips the switch for kind `k`; the sentinel has none, so it changes nothing.
    pub fn toggle(&mut self, k: EventKind)
        ensures
            forall|j: EventKind|
                #[trigger] wants(*final(self), j) == if j == k && k != EventKind::NoChanges {
                    !wants(*old(self), j)
                } else {
                    wants(*old(self), j)
                },
    {
        match k {
            EventKind::NewBranch => self.notify_on_new_branch = !self.notify_on_new_branch,
            EventKind::NewTag => self.notify_on_new_tag = !self.notify_on_new_tag,
            EventKind::BranchUpdated => self.notify_on_branch_update = !self.notify_on_branch_update,
            EventKind::NewPullRequest => self.notify_on_new_pr = !self.notify_on_new_pr,
            EventKind::PullRequestUpdated => self.notify_on_pr_update = !self.notify_on_pr_update,
            EventKind::NoChanges => {},
        }
    }

    /// Whether these settings ask for `event`.
    pub fn wants_event(&self, event: &GitEvent) -> (r: bool)
        ensures
            r == wants(*self, kind_of(event@)),
    {
        match event {
            GitEvent::NewBranch(_) => self.notify_on_new_branch,
            GitEvent::NewTag(_) => self.notify_on_new_tag,
            GitEvent::BranchUpdated { .. } => self.notify_on_branch_update,
            GitEvent::NewPullRequest(_) => self.notify_on_new_pr,
            GitEvent::PullRequestUpdated(_) => self.notify_on_pr_update,
            GitEvent::NoChanges => false,
        }
    }
}

/// A subscriber of one repository: the chat to write to, the subscriber's
/// global switch, and the settings for that repository.
#[derive(Debug, Clone, Copy, PartialEq, Eq, Structural)]
pub struct Subscriber {
    pub chat_id: i64,
    pub notifications_enabled: bool,
    pub settings: SubscriptionSettings,
}

pub open spec fn receives(s: Subscriber, k: EventKind) -> bool {
    s.notifications_enabled && wants(s.settings, k)
}

/// Some subscriber writes at chat `c`, has notifications on and asks for kind `k`.
pub open spec fn opted_in(subs: Seq<Subscriber>, k: EventKind, c: i64) -> bool {
    exists|j: int| 0 <= j < subs.len() && #[trigger] subs[j].chat_id == c && receives(subs[j], k)
}

/// The chats, in subscriber order, that an event of kind `k` goes to.
pub open spec fn recipients_of(subs: Seq<Subscriber>, k: EventKind) -> Seq<i64>
    decreases subs.len(),
{
    if subs.len() == 0 {
        Seq::empty()
    } else if receives(subs.last(), k) {
        recipients_of(subs.drop_last(), k).push(subs.last().chat_id)
    } else {
        recipients_of(subs.drop_last(), k)
    }
}

/// Every chat that an event goes to belongs to a subscriber who has
/// notifications on and asks for that kind of event.
pub proof fn lemma_recipients_opted_in(subs: Seq<Subscriber>, k: EventKind)
    ensures
        forall|i: int|
            0 <= i < recipients_of(subs, k).len() ==> opted_in(
                subs,
                k,
                #[trigger] recipients_of(subs, k)[i],
            ),
    decreases subs.len(),
{
    if subs.len() > 0 {
        let t = subs.drop_last();
        lemma_recipients_opted_in(t, k);
        let r = recipients_of(subs, k);
        let rt = recipients_of(t, k);
        assert forall|i: int| 0 <= i < r.len() implies opted_in(subs, k, #[trigger] r[i]) by {
            if i < rt.len() {
                assert(r[i] == rt[i]);
                assert(opted_in(t, k, rt[i]));
                let j = choose|j: int|
                    0 <= j < t.len() && #[trigger] t[j].chat_id == rt[i] && receives(t[j], k);
                assert(t[j] == subs[j]);
            } else {
                let j = subs.len() - 1;
                assert(subs[j].chat_id == r[i]);
            }
        }
    }
}

/// The sentinel event goes to nobody.
pub proof fn lemma_no_changes_goes_nowhere(subs: Seq<Subscriber>)
    ensures
        recipients_of(subs, EventKind::NoChanges) == Seq::<i64>::empty(),
    decreases subs.len(),
{
    if subs.len() > 0 {
        lemma_no_changes_goes_nowhere(subs.drop_last());
    }
}

/// The chats to deliver `event` to: subscribers with notifications on whose
/// settings ask for the event's kind.
pub fn recipients(subscribers: &Vec<Subscriber>, event: &GitEvent) -> (r: Vec<i64>)
    ensures
        r@ == recipients_of(subscribers@, kind_of(event@)),
        forall|i: int|
            0 <= i < r@.len() ==> opted_in(subscribers@, kind_of(event@), #[trigger] r@[i]),
        event@ is NoChanges ==> r@.len() == 0,
{
    let mut out: Vec<i64> = Vec::new();
    let n = subscribers.len();
    let mut i: usize = 0;
    while i < n
        invariant
            i <= n,
            n == subscribers@.len(),
            out@ == recipients_of(subscribers@.take(i as int), kind_of(event@)),
        decreases n - i,
    {
        let s = subscribers[i];
        let ghost t = subscribers@.take(i + 1);
        assert(t.drop_last() =~= subscribers@.take(i as int));
        assert(t.last() == s);
        if s.notifications_enabled && s.settings.wants_event(event) {
            out.push(s.chat_id);
        }
        i += 1;
    }
    assert(subscribers@.take(n as int) =~= subscribers@);
    proof {
        lemma_recipients_opted_in(subscribers@, kind_of(event@));
        lemma_no_changes_goes_nowhere(subscribers@);
    }
    out
}

/// How a delivery attempt ended.
#[derive(Debug, Clone, Copy, PartialEq, Eq, Structural)]
pub enum DeliveryOutcome {
    Delivered,
    /// The recipient can never be written to again.
    Blocked,
    Failed,
}

/// What to do after a delivery attempt.
#[derive(Debug, Clone, Copy, PartialEq, Eq, Structural)]
pub enum FollowUp {
    Nothing,
    /// Remove the subscriber with all subscriptions.
    RemoveSubscriber,
    /// Report the failure; the message is not sent again.
    Report,
}

/// A blocked recipient is removed; any other failure is reported and dropped.
pub fn follow_up(outcome: DeliveryOutcome) -> (r: FollowUp)
    ensures
        r == match outcome {
            DeliveryOutcome::Delivered => FollowUp::Nothing,
            DeliveryOutcome::Blocked => FollowUp::RemoveSubscriber,
            DeliveryOutcome::Failed => FollowUp::Report,
        },
{
    match outcome {
        DeliveryOutcome::Delivered => FollowUp::Nothing,
        DeliveryOutcome::Blocked => FollowUp::RemoveSubscriber,
        DeliveryOutcome::Failed => FollowUp::Report,
    }
}

} // verus!
