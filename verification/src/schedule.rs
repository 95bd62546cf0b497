use vstd::prelude::*;
use crate::status::Status;
use crate::status::spec_needs_updates;

verus! {

/// A wake event handed to the scheduler while it waits.
#[derive(Debug, Clone, Copy, PartialEq, Eq, Structural)]
pub enum Event {
    Click,
    Inotify,
}

/// What the scheduler does next after it looked at its wait budget and at an
/// event, if one arrived.
#[derive(Debug, Clone, Copy, PartialEq, Eq, Structural)]
pub enum NextStep {
    /// Abandon the wait and run a check now.
    StartCheck,
    /// Keep waiting, with this many seconds of the budget left.
    KeepWaiting(u64),
}

/// Relies on `rand::random_range`: a draw from the uniform distribution over
/// `[0, bound)`; the call panics on an empty range, which `bound > 0` rules
/// out.
#[verifier::external_body]
fn random_below(bound: u64) -> (r: u64)
    requires
        bound > 0,
    ensures
        r < bound,
{
    rand::random_range(0..bound)
}

/// The check scheduler: decides when a new check starts, from its timer, the
/// user's clicks, and external signals, remembering only whether the last
/// completed check left pending work behind.
pub struct Scheduler {
    /// Nominal seconds between two checks.
    pub base_interval_secs: u64,
    /// Exclusive upper bound on the random addition to the interval.
    pub jitter_bound_secs: u64,
    /// Whether the last completed check left pending updates (or failed).
    pub needs_updates: bool,
}

impl Scheduler {
    /// A scheduler is well formed when its jitter bound is positive (the draw
    /// needs a non-empty range) and a full wait fits in the arithmetic.
    pub open spec fn wf(&self) -> bool {
        self.jitter_bound_secs >= 1
        && self.base_interval_secs + self.jitter_bound_secs <= u64::MAX
    }

    /// A fresh scheduler that has not completed a check yet; the first phase
    /// is always a check, so it starts with nothing pending.
    pub fn new(base_interval_secs: u64, jitter_bound_secs: u64) -> (r: Scheduler)
        requires
            jitter_bound_secs >= 1,
            base_interval_secs + jitter_bound_secs <= u64::MAX,
        ensures
            r.wf(),
            r.base_interval_secs == base_interval_secs,
            r.jitter_bound_secs == jitter_bound_secs,
            !r.needs_updates,
    {
        Scheduler { base_interval_secs, jitter_bound_secs, needs_updates: false }
    }

    /// Record one completed check: only the pending flag changes, and it
    /// becomes exactly whether the outcome left pending work behind.
    pub fn record_result(&mut self, outcome: &Status)
        ensures
            final(self).needs_updates == spec_needs_updates(*outcome),
            final(self).base_interval_secs == old(self).base_interval_secs,
            final(self).jitter_bound_secs == old(self).jitter_bound_secs,
    {
        self.needs_updates = outcome.needs_updates();
    }

    /// The full budget of the next wait: the base interval plus a random
    /// jitter, always within `[base, base + jitter_bound)`.
    pub fn fresh_wait_secs(&self) -> (r: u64)
        requires
            self.wf(),
        ensures
            self.base_interval_secs <= r
                < self.base_interval_secs + self.jitter_bound_secs,
    {
        let jitter = random_below(self.jitter_bound_secs);
        self.base_interval_secs + jitter
    }

    /// What the scheduler does once `waited` of a wait with budget `total`
    /// has passed and `event` arrived (`None`: the budget ran out).
    pub open spec fn spec_next_step(&self, waited: u64, total: u64, event: Option<Event>) -> NextStep {
        if waited >= total {
            NextStep::StartCheck
        } else {
            match event {
                None => NextStep::StartCheck,
                Some(Event::Click) => NextStep::StartCheck,
                Some(Event::Inotify) => {
                    if self.needs_updates {
                        NextStep::StartCheck
                    } else {
                        NextStep::KeepWaiting((total - waited) as u64)
                    }
                },
            }
        }
    }

    /// Decide what to do next. A click, a run-out budget, or an external
    /// signal while work is pending all start a check at once; an external
    /// signal while nothing is pending is ignored, and the wait goes on with
    /// exactly the remaining budget.
    pub fn next_step(&self, waited: u64, total: u64, event: Option<&Event>) -> (r: NextStep)
        ensures
            r == self.spec_next_step(
                waited,
                total,
                match event {
                    Some(e) => Some(*e),
                    None => None,
                },
            ),
    {
        if waited >= total {
            NextStep::StartCheck
        } else {
            match event {
                None => NextStep::StartCheck,
                Some(Event::Click) => NextStep::StartCheck,
                Some(Event::Inotify) => {
                    if self.needs_updates {
                        NextStep::StartCheck
                    } else {
                        NextStep::KeepWaiting(total - waited)
                    }
                },
            }
        }
    }
}

/// Law: a click received while waiting starts the next check at once,
/// whatever budget is left and whatever the last check found.
pub proof fn lemma_click_checks_now(s: Scheduler, waited: u64, total: u64)
    ensures
        s.spec_next_step(waited, total, Some(Event::Click)) == NextStep::StartCheck,
{
}

/// Law: an external signal received while nothing is pending does not start
/// a check; the wait goes on with its remaining budget intact.
pub proof fn lemma_signal_ignored_when_clear(s: Scheduler, waited: u64, total: u64)
    requires
        !s.needs_updates,
        waited < total,
    ensures
        s.spec_next_step(waited, total, Some(Event::Inotify))
            == NextStep::KeepWaiting((total - waited) as u64),
{
}

/// Law: an external signal received while work is pending starts the next
/// check at once.
pub proof fn lemma_signal_checks_when_pending(s: Scheduler, waited: u64, total: u64)
    requires
        s.needs_updates,
    ensures
        s.spec_next_step(waited, total, Some(Event::Inotify)) == NextStep::StartCheck,
{
}

} // verus!
