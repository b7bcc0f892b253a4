//! The decisions of a check pass and of the scheduler that drives the passes.
use vstd::prelude::*;
use crate::diff::{
    deleted_of,
    detect_deleted_refs,
    detect_events,
    events_of,
    events_view,
    names_view,
    ref_update,
    ref_update_of,
};
use crate::events::{EventModel, GitEvent};
use crate::refs::RefTable;

verus! {

/// Why the reference list of a repository could not be read.
#[derive(Debug, Clone, Copy, PartialEq, Eq, Structural)]
pub enum FetchError {
    Network,
    Auth,
    NotFound,
    Internal,
}

/// Authentication and not-found failures are final for a repository.
pub open spec fn is_permanent(e: FetchError) -> bool {
    e == FetchError::Auth || e == FetchError::NotFound
}

impl FetchError {
    pub fn permanent(&self) -> (r: bool)
        ensures
            r == is_permanent(*self),
    {
        match self {
            FetchError::Auth | FetchError::NotFound => true,
            _ => false,
        }
    }
}

/// The code that the git transport gave with a failure.
#[derive(Debug, Clone, Copy, PartialEq, Eq, Structural)]
pub enum GitErrorCode {
    Auth,
    NotFound,
    Other,
}

/// A transport failure is an authentication or not-found failure only where the
/// HTTP layer reported it as such; anything else counts as a network failure.
pub fn classify_git_error(http_class: bool, code: GitErrorCode) -> (r: FetchError)
    ensures
        r == if http_class && code == GitErrorCode::Auth {
            FetchError::Auth
        } else if http_class && code == GitErrorCode::NotFound {
            FetchError::NotFound
        } else {
            FetchError::Network
        },
{
    if http_class {
        match code {
            GitErrorCode::Auth => FetchError::Auth,
            GitErrorCode::NotFound => FetchError::NotFound,
            GitErrorCode::Other => FetchError::Network,
        }
    } else {
        FetchError::Network
    }
}

/// One thing to do to the store or the subscribers while applying a poll.
pub enum Step {
    /// Record `sha` as the commit of reference `name`.
    Record { name: String, sha: String },
    /// Tell the subscribers of the event.
    Notify(GitEvent),
    /// Drop the recorded reference `name`.
    Forget(String),
}

pub enum StepModel {
    Record { name: Seq<char>, sha: Seq<char> },
    Notify(EventModel),
    Forget(Seq<char>),
}

impl View for Step {
    type V = StepModel;

    open spec fn view(&self) -> StepModel {
        match self {
            Step::Record { name, sha } => StepModel::Record { name: name@, sha: sha@ },
            Step::Notify(e) => StepModel::Notify(e@),
            Step::Forget(n) => StepModel::Forget(n@),
        }
    }
}

pub open spec fn steps_view(v: Seq<Step>) -> Seq<StepModel> {
    v.map_values(|s: Step| s@)
}

/// The rows that recording `events` writes, in event order.
pub open spec fn record_steps(events: Seq<EventModel>) -> Seq<StepModel>
    decreases events.len(),
{
    if events.len() == 0 {
        Seq::empty()
    } else {
        let record = match ref_update(events.last()) {
            Some(row) => seq![StepModel::Record { name: row.0, sha: row.1 }],
            None => Seq::empty(),
        };
        record_steps(events.drop_last()) + record
    }
}

pub open spec fn forget_steps(names: Seq<Seq<char>>) -> Seq<StepModel> {
    names.map_values(|n: Seq<char>| StepModel::Forget(n))
}

pub open spec fn notify_steps(events: Seq<EventModel>) -> Seq<StepModel> {
    events.map_values(|e: EventModel| StepModel::Notify(e))
}

/// What a check pass does with one repository.
pub enum RepoPlan {
    /// The repository is gone for good: tell its subscribers once, then delete it.
    Unreachable,
    /// Leave everything as it is and try again on the next pass.
    Retry(FetchError),
    /// Carry out these steps in order.
    Apply(Vec<Step>),
}

/// Decides what a check pass does with one repository, given the outcome of
/// reading its references and what is recorded for it. A permanent failure
/// retires the repository, any other failure leaves it for the next pass, and
/// a snapshot is diffed: the new commit of every event is recorded and every
/// vanished reference dropped, and only then are the events announced.
pub fn plan_repository(fetched: Result<RefTable, FetchError>, persisted: &RefTable) -> (r: RepoPlan)
    requires
        persisted.wf(),
        fetched matches Ok(remote) ==> remote.wf(),
    ensures
        match fetched {
            Err(e) => if is_permanent(e) {
                r is Unreachable
            } else {
                r == RepoPlan::Retry(e)
            },
            Ok(remote) => match r {
                RepoPlan::Apply(steps) => steps_view(steps@) == record_steps(
                    events_of(remote.entries_view(), persisted@),
                ) + forget_steps(deleted_of(persisted.entries_view(), remote@)) + notify_steps(
                    events_of(remote.entries_view(), persisted@),
                ),
                _ => false,
            },
        },
{
    let remote = match fetched {
        Err(e) => {
            if e.permanent() {
                return RepoPlan::Unreachable;
            } else {
                return RepoPlan::Retry(e);
            }
        },
        Ok(remote) => remote,
    };
    let events = detect_events(&remote, persisted);
    let deleted = detect_deleted_refs(&remote, persisted);
    let ghost ev = events_view(events@);
    let ghost dv = names_view(deleted@);
    let mut steps: Vec<Step> = Vec::new();
    let n = events.len();
    let mut i: usize = 0;
    assert(steps_view(steps@) =~= record_steps(ev.take(0)));
    while i < n
        invariant
            i <= n,
            n == ev.len(),
            ev == events_view(events@),
            steps_view(steps@) == record_steps(ev.take(i as int)),
        decreases n - i,
    {
        assert(ev.take(i + 1).drop_last() =~= ev.take(i as int));
        assert(ev.take(i + 1).last() == ev[i as int]);
        let ghost before = steps_view(steps@);
        match ref_update_of(&events[i]) {
            Some((name, sha)) => {
                steps.push(Step::Record { name, sha });
                assert(steps_view(steps@) =~= before + seq![
                    StepModel::Record { name: name@, sha: sha@ },
                ]);
            },
            None => {
                assert(before + Seq::<StepModel>::empty() =~= before);
            },
        }
        i += 1;
    }
    assert(ev.take(n as int) =~= ev);
    let ghost head = steps_view(steps@);
    let m = deleted.len();
    let mut k: usize = 0;
    assert(head + forget_steps(dv.take(0)) =~= head);
    while k < m
        invariant
            k <= m,
            m == dv.len(),
            dv == names_view(deleted@),
            steps_view(steps@) == head + forget_steps(dv.take(k as int)),
        decreases m - k,
    {
        let name = deleted[k].clone();
        let ghost before = steps_view(steps@);
        assert(name@ == dv[k as int]);
        steps.push(Step::Forget(name));
        assert(steps_view(steps@) =~= before.push(StepModel::Forget(dv[k as int])));
        assert(forget_steps(dv.take(k + 1)) =~= forget_steps(dv.take(k as int)).push(
            StepModel::Forget(dv[k as int]),
        ));
        assert(steps_view(steps@) =~= head + forget_steps(dv.take(k + 1)));
        k += 1;
    }
    assert(dv.take(m as int) =~= dv);
    let ghost middle = steps_view(steps@);
    let mut j: usize = 0;
    assert(middle + notify_steps(ev.take(0)) =~= middle);
    while j < n
        invariant
            j <= n,
            n == ev.len(),
            ev == events_view(events@),
            steps_view(steps@) == middle + notify_steps(ev.take(j as int)),
        decreases n - j,
    {
        let event = events[j].copied();
        let ghost before = steps_view(steps@);
        steps.push(Step::Notify(event));
        assert(steps_view(steps@) =~= before.push(StepModel::Notify(ev[j as int])));
        assert(notify_steps(ev.take(j + 1)) =~= notify_steps(ev.take(j as int)).push(
            StepModel::Notify(ev[j as int]),
        ));
        assert(steps_view(steps@) =~= middle + notify_steps(ev.take(j + 1)));
        j += 1;
    }
    assert(ev.take(n as int) =~= ev);
    RepoPlan::Apply(steps)
}

/// The two kinds of pass.
#[derive(Debug, Clone, Copy, PartialEq, Eq, Structural)]
pub enum Pass {
    /// Poll every tracked repository.
    Check,
    /// Delete orphan repositories, then orphan subscribers.
    Cleanup,
}

/// Two periodic timers, in seconds; whichever is due first runs next, and the
/// check wins a tie.
pub struct Scheduler {
    pub check_period: u64,
    pub cleanup_period: u64,
    pub next_check: u64,
    pub next_cleanup: u64,
}

impl Scheduler {
    /// Both passes fall due at `now`, so that a start catches up at once.
    pub fn new(now: u64, check_period: u64, cleanup_period: u64) -> (r: Self)
        ensures
            r.check_period == check_period,
            r.cleanup_period == cleanup_period,
            r.next_check == now,
            r.next_cleanup == now,
    {
        Scheduler { check_period, cleanup_period, next_check: now, next_cleanup: now }
    }

    /// The next pass to run and the time it falls due; its timer moves on by
    /// one period (and stops at the largest time).
    pub fn next_pass(&mut self) -> (r: (Pass, u64))
        ensures
            final(self).check_period == old(self).check_period,
            final(self).cleanup_period == old(self).cleanup_period,
            old(self).next_check <= old(self).next_cleanup ==> r == (Pass::Check, old(self).next_check)
                && final(self).next_check == (if old(self).next_check + old(self).check_period
                <= u64::MAX {
                (old(self).next_check + old(self).check_period) as u64
            } else {
                u64::MAX
            }) && final(self).next_cleanup == old(self).next_cleanup,
            old(self).next_check > old(self).next_cleanup ==> r == (
                Pass::Cleanup,
                old(self).next_cleanup,
            ) && final(self).next_cleanup == (if old(self).next_cleanup + old(self).cleanup_period
                <= u64::MAX {
                (old(self).next_cleanup + old(self).cleanup_period) as u64
            } else {
                u64::MAX
            }) && final(self).next_check == old(self).next_check,
    {
        if self.next_check <= self.next_cleanup {
            let due = self.next_check;
            self.next_check = self.next_check.saturating_add(self.check_period);
            (Pass::Check, due)
        } else {
            let due = self.next_cleanup;
            self.next_cleanup = self.next_cleanup.saturating_add(self.cleanup_period);
            (Pass::Cleanup, due)
        }
    }
}

} // verus!
