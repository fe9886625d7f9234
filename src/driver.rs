use vstd::prelude::*;
use crate::outcome::AttemptOutcome;

verus! {

/// Process status after a successful authentication.
pub const EXIT_CONNECTED: i32 = 0;

/// Process status after every candidate failed.
pub const EXIT_EXHAUSTED: i32 = 1;

/// What the search does next.
#[derive(PartialEq, Eq, Structural, Clone, Copy, Debug)]
pub enum Step {
    /// Try the candidate at this position.
    Attempt(usize),
    /// Stop, ending the process with this status.
    Exit(i32),
}

/// The search over an ordered sequence of candidates: each is tried in turn,
/// and the first success ends it.
pub struct Driver {
    total: usize,
    tried: usize,
    connected: bool,
}

/// Mathematical model of a [`Driver`]: how many candidates there are, how
/// many were tried, and whether one of them succeeded.
pub struct DriverView {
    pub total: nat,
    pub tried: nat,
    pub connected: bool,
}

impl View for Driver {
    type V = DriverView;

    closed spec fn view(&self) -> DriverView {
        DriverView { total: self.total as nat, tried: self.tried as nat, connected: self.connected }
    }
}

/// The state after recording one attempt whose success is `ok`.
pub open spec fn record_spec(d: DriverView, ok: bool) -> DriverView {
    DriverView { total: d.total, tried: d.tried + 1, connected: ok }
}

/// The state after trying candidates whose successes, in order, are `oks`.
pub open spec fn state_after(total: nat, oks: Seq<bool>) -> DriverView
    decreases oks.len(),
{
    if oks.len() == 0 {
        DriverView { total, tried: 0, connected: false }
    } else {
        record_spec(state_after(total, oks.drop_last()), oks.last())
    }
}

/// What the search does next in state `d`.
pub open spec fn step_spec(d: DriverView) -> Step {
    if d.connected {
        Step::Exit(EXIT_CONNECTED)
    } else if d.tried >= d.total {
        Step::Exit(EXIT_EXHAUSTED)
    } else {
        Step::Attempt(d.tried as usize)
    }
}

impl Driver {
    /// Consistency of the counters.
    pub closed spec fn wf(&self) -> bool {
        self.tried <= self.total
    }

    /// A search over `total` candidates, none tried yet.
    pub fn new(total: usize) -> (r: Driver)
        ensures
            r.wf(),
            r@ == state_after(total as nat, seq![]),
    {
        Driver { total, tried: 0, connected: false }
    }

    /// What to do next: try the next candidate, or stop with a status.
    pub fn next_step(&self) -> (r: Step)
        requires
            self.wf(),
        ensures
            r == step_spec(self@),
    {
        if self.connected {
            Step::Exit(EXIT_CONNECTED)
        } else if self.tried >= self.total {
            Step::Exit(EXIT_EXHAUSTED)
        } else {
            Step::Attempt(self.tried)
        }
    }

    /// Records the outcome of the attempt that [`Driver::next_step`] asked for.
    pub fn record(&mut self, outcome: &AttemptOutcome)
        requires
            old(self).wf(),
            step_spec(old(self)@) is Attempt,
        ensures
            final(self).wf(),
            final(self)@ == record_spec(old(self)@, outcome@ is Success),
    {
        self.connected = outcome.is_success();
        self.tried = self.tried + 1;
    }
}

proof fn lemma_state_after_failures(total: nat, oks: Seq<bool>)
    requires
        forall|i: int| 0 <= i < oks.len() ==> !oks[i],
    ensures
        state_after(total, oks) == (DriverView { total, tried: oks.len(), connected: false }),
    decreases oks.len(),
{
    if oks.len() > 0 {
        lemma_state_after_failures(total, oks.drop_last());
    }
}

/// When every attempt fails, each of the `total` candidates is tried in
/// order and the search then stops with the exhausted status; with no
/// candidates at all, it stops at once without trying any.
pub proof fn lemma_exhaustion(total: nat, oks: Seq<bool>)
    requires
        oks.len() == total,
        total <= usize::MAX,
        forall|i: int| 0 <= i < oks.len() ==> !oks[i],
    ensures
        forall|i: int|
            0 <= i < total ==> #[trigger] step_spec(state_after(total, oks.take(i)))
                == Step::Attempt(i as usize),
        step_spec(state_after(total, oks)) == Step::Exit(EXIT_EXHAUSTED),
{
    assert forall|i: int| 0 <= i < total implies #[trigger] step_spec(
        state_after(total, oks.take(i)),
    ) == Step::Attempt(i as usize) by {
        lemma_state_after_failures(total, oks.take(i));
    }
    lemma_state_after_failures(total, oks);
}

/// When the attempt at position `k` is the first to succeed, the candidates
/// before it are tried in order, it is tried next, and the search then stops
/// with the connected status, so no later candidate is ever tried.
pub proof fn lemma_stops_at_first_success(total: nat, oks: Seq<bool>, k: nat)
    requires
        k < total,
        total <= usize::MAX,
        oks.len() == k + 1,
        forall|i: int| 0 <= i < k ==> !oks[i],
        oks[k as int],
    ensures
        forall|i: int|
            0 <= i <= k ==> #[trigger] step_spec(state_after(total, oks.take(i)))
                == Step::Attempt(i as usize),
        step_spec(state_after(total, oks)) == Step::Exit(EXIT_CONNECTED),
{
    assert forall|i: int| 0 <= i <= k implies #[trigger] step_spec(
        state_after(total, oks.take(i)),
    ) == Step::Attempt(i as usize) by {
        lemma_state_after_failures(total, oks.take(i));
    }
    lemma_state_after_failures(total, oks.drop_last());
}

} // verus!
