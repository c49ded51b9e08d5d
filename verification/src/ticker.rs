//! The per-job timer: a two-state machine that reads nothing but a clock.
//!
//! A ticker is created `Waiting`. Whenever one period has elapsed since the
//! previous firing fell due it turns `Firing` and hands its caller one run to
//! launch; the next reading turns it back to `Waiting`, unless a further
//! firing is due by then, which it hands out as well. It never stops, and it
//! is never told what became of a run.
//!
//! Firings keep to the cadence of the creation: the `n`-th falls due `n`
//! periods after it, however late the clock was read in between.

use vstd::prelude::*;
use vstd::string::StringExecFns;
use vstd::arithmetic::div_mod::{
    lemma_basic_div, lemma_div_minus_one, lemma_div_non_zero, lemma_div_plus_one,
    lemma_fundamental_div_mod, lemma_hoist_over_denominator, lemma_mod_add_multiples_vanish,
};
use vstd::arithmetic::mul::{
    lemma_mul_basics, lemma_mul_is_commutative, lemma_mul_is_distributive_add_other_way,
};
use crate::job::{JobRun, JobRunView, JobSpec, JobSpecView};

verus! {

/// Where a ticker stands between two clock readings.
#[derive(Debug, Clone, Copy, PartialEq, Eq)]
pub enum Phase {
    /// Counting down to the next firing.
    Waiting,
    /// A run has just been handed out for launching.
    Firing,
}

/// Mathematical model of an [`Action`].
pub enum ActionView {
    Sleep(nat),
    Launch(JobRunView),
}

/// What the caller of [`Ticker::step`] does next.
#[derive(Debug, PartialEq, Eq)]
pub enum Action {
    /// Nothing is due: read the clock again after this many seconds.
    Sleep(u64),
    /// Launch this run without waiting for it, then read the clock again.
    Launch(JobRun),
}

impl View for Action {
    type V = ActionView;

    open spec fn view(&self) -> ActionView {
        match self {
            Action::Sleep(seconds) => ActionView::Sleep(*seconds as nat),
            Action::Launch(run) => ActionView::Launch(run@),
        }
    }
}

/// Mathematical model of a [`Ticker`]: the job, the phase, the clock reading
/// at creation and the number of firings handed out since.
pub struct TickerView {
    pub job: JobSpecView,
    pub phase: Phase,
    pub origin: nat,
    pub fired: nat,
}

impl TickerView {
    /// The job is well formed: its period is positive.
    pub open spec fn wf(self) -> bool {
        self.job.wf()
    }

    /// The ticker of `job` as created at clock reading `now`.
    pub open spec fn fresh(job: JobSpecView, now: nat) -> TickerView {
        TickerView { job, phase: Phase::Waiting, origin: now, fired: 0 }
    }

    /// The instant at which firing number `n` falls due; firing 0 stands
    /// for the creation.
    pub open spec fn due_at(self, n: nat) -> nat {
        self.origin + n * self.job.interval
    }

    /// The instant at which the next firing falls due.
    pub open spec fn next_due(self) -> nat {
        self.due_at(self.fired + 1)
    }

    /// Seconds left until the next firing, for a reading at which none is
    /// due. A reading earlier than the previous firing counts as the
    /// instant of that firing.
    pub open spec fn remaining(self, now: nat) -> nat {
        if now <= self.due_at(self.fired) {
            self.job.interval
        } else {
            (self.next_due() - now) as nat
        }
    }

    /// One transition: the state after the clock reading `now`, and what the
    /// caller is to do.
    pub open spec fn step(self, now: nat) -> (TickerView, ActionView) {
        if now >= self.next_due() {
            (
                TickerView { phase: Phase::Firing, fired: self.fired + 1, ..self },
                ActionView::Launch(JobRunView { id: self.job.id, started_at: self.next_due() }),
            )
        } else {
            (TickerView { phase: Phase::Waiting, ..self }, ActionView::Sleep(self.remaining(now)))
        }
    }

    /// The number of firings that are due at `now` and not yet handed out.
    pub open spec fn due_count(self, now: nat) -> nat {
        if now >= self.due_at(self.fired) {
            ((now - self.due_at(self.fired)) / (self.job.interval as int)) as nat
        } else {
            0
        }
    }

    /// The state once every firing due at `now` has been handed out.
    pub open spec fn advance(self, now: nat) -> TickerView {
        TickerView { phase: Phase::Waiting, fired: self.fired + self.due_count(now), ..self }
    }

    /// The runs handed out on the way to `self.advance(now)`, oldest first.
    pub open spec fn launches(self, now: nat) -> Seq<JobRunView> {
        Seq::new(
            self.due_count(now),
            |k: int| JobRunView { id: self.job.id, started_at: self.due_at((self.fired + 1 + k) as nat) },
        )
    }
}

proof fn lemma_quotient_step(x: int, d: int)
    requires
        0 <= x,
        0 < d,
    ensures
        x >= d <==> x / d > 0,
        x >= d ==> (x - d) / d == x / d - 1,
        x % d == 0 ==> x == (x / d) * d && (x + d) % d == 0 && (x + d) / d == x / d + 1,
{
    if x >= d {
        lemma_div_non_zero(x, d);
    } else {
        lemma_basic_div(x, d);
    }
    lemma_div_minus_one(x, d);
    lemma_div_plus_one(x, d);
    lemma_fundamental_div_mod(x, d);
    lemma_mul_is_commutative(d, x / d);
    lemma_mod_add_multiples_vanish(x, d);
}

proof fn lemma_next_multiple(n: int, d: int)
    ensures
        (n + 1) * d == n * d + d,
{
    lemma_mul_is_distributive_add_other_way(d, n, 1);
}

/// Stepping leads to `advance`: a step that launches hands out the first of
/// the pending runs and leaves the others pending; a step that sleeps has
/// arrived.
pub proof fn lemma_step_towards_advance(t: TickerView, now: nat)
    requires
        t.wf(),
    ensures
        t.step(now).1 matches ActionView::Launch(run) ==> ({
            &&& t.due_count(now) > 0
            &&& t.step(now).0.advance(now) == t.advance(now)
            &&& seq![run] + t.step(now).0.launches(now) == t.launches(now)
        }),
        t.step(now).1 is Sleep ==> ({
            &&& t.due_count(now) == 0
            &&& t.step(now).0 == t.advance(now)
            &&& t.launches(now) == Seq::<JobRunView>::empty()
        }),
{
    let d = t.job.interval as int;
    let last = t.due_at(t.fired) as int;
    lemma_next_multiple(t.fired as int, d);
    if now >= last {
        lemma_quotient_step(now - last, d);
    }
    let next = t.step(now).0;
    if now >= t.next_due() {
        assert(next.due_count(now) == t.due_count(now) - 1);
        let run = JobRunView { id: t.job.id, started_at: t.next_due() };
        assert(seq![run] + next.launches(now) =~= t.launches(now));
    } else {
        assert(t.launches(now) =~= Seq::<JobRunView>::empty());
    }
}

/// Advancing is cumulative: going to `earlier` and from there to `later`
/// ends in the state, and hands out the runs, of going to `later` at once.
pub proof fn lemma_advance_is_cumulative(t: TickerView, earlier: nat, later: nat)
    requires
        t.wf(),
        earlier <= later,
    ensures
        t.advance(earlier).advance(later) == t.advance(later),
        t.launches(earlier) + t.advance(earlier).launches(later) == t.launches(later),
{
    let d = t.job.interval as int;
    let last = t.due_at(t.fired) as int;
    let k = t.due_count(earlier) as int;
    let mid = t.advance(earlier);
    lemma_mul_is_distributive_add_other_way(d, t.fired as int, k);
    assert(mid.due_at(mid.fired) == last + k * d);
    if earlier >= last {
        lemma_fundamental_div_mod(earlier - last, d);
        lemma_mul_is_commutative(d, k);
        lemma_hoist_over_denominator(later - last - k * d, k, d as nat);
    }
    assert(mid.due_count(later) + k == t.due_count(later));
    assert forall|i: int| 0 <= i < mid.due_count(later) implies mid.launches(later)[i]
        == t.launches(later)[k + i] by {
        assert((mid.fired + 1 + i) as nat == (t.fired + 1 + (k + i)) as nat);
    }
    assert(t.launches(earlier) + mid.launches(later) =~= t.launches(later));
}

/// A ticker fires once per whole period of the window it is observed for:
/// created at `origin` and advanced to `origin + window`, it has handed out
/// `window / interval` runs, the `k`-th of them due `k` periods after
/// `origin`.
pub proof fn lemma_firings_in_window(job: JobSpecView, origin: nat, window: nat)
    requires
        job.wf(),
    ensures
        TickerView::fresh(job, origin).advance(origin + window).fired == window / job.interval,
        TickerView::fresh(job, origin).launches(origin + window).len() == window / job.interval,
        forall|k: int|
            0 <= k < window / job.interval ==> (#[trigger] TickerView::fresh(job, origin).launches(
                origin + window,
            )[k]).started_at == origin + (k + 1) * job.interval,
{
    let t = TickerView::fresh(job, origin);
    assert(0 * job.interval == 0) by {
        lemma_mul_basics(job.interval as int);
    }
    assert(t.due_at(0) == origin);
}

/// A sleep ends when the next firing falls due. Where no reading has run
/// ahead of `now`, the seconds that a step says to sleep are at least one
/// and at most a period, they lead to the instant of the next firing, and
/// the step at that instant launches.
pub proof fn lemma_sleep_ends_at_next_firing(t: TickerView, now: nat)
    requires
        t.wf(),
        t.due_at(t.fired) <= now < t.next_due(),
    ensures
        t.step(now).1 matches ActionView::Sleep(seconds) && ({
            &&& 1 <= seconds <= t.job.interval
            &&& now + seconds == t.next_due()
            &&& t.step(now).0.step(now + seconds).1 is Launch
        }),
{
    lemma_next_multiple(t.fired as int, t.job.interval as int);
}

/// A ticker does not wait for the run it has launched. The next firing
/// falls due one period after the launch and is handed out at the first
/// clock reading from then on; where the work takes longer than a period,
/// that is before the launched run has finished.
pub proof fn lemma_launch_does_not_wait(t: TickerView, now: nat, work: nat)
    requires
        t.wf(),
        t.phase is Firing,
        now >= t.due_at(t.fired) + t.job.interval,
    ensures
        t.step(now).1 matches ActionView::Launch(next) && ({
            &&& next.id == t.job.id
            &&& next.started_at == t.due_at(t.fired) + t.job.interval
            &&& work > t.job.interval ==> next.started_at < t.due_at(t.fired) + work
        }),
{
    lemma_next_multiple(t.fired as int, t.job.interval as int);
}

/// The timer of one job.
#[derive(Debug)]
pub struct Ticker {
    job: JobSpec,
    phase: Phase,
    origin: u64,
    anchor: u64,
}

impl View for Ticker {
    type V = TickerView;

    closed spec fn view(&self) -> TickerView {
        TickerView {
            job: self.job@,
            phase: self.phase,
            origin: self.origin as nat,
            fired: ((self.anchor - self.origin) / (self.job@.interval as int)) as nat,
        }
    }
}

impl DeepView for Ticker {
    type V = TickerView;

    open spec fn deep_view(&self) -> TickerView {
        self@
    }
}

impl Ticker {
    /// `anchor` is the instant at which the latest firing fell due: a whole
    /// number of periods after `origin`.
    #[verifier::type_invariant]
    spec fn on_cadence(self) -> bool {
        &&& self.job@.wf()
        &&& self.origin <= self.anchor
        &&& (self.anchor - self.origin) % (self.job@.interval as int) == 0
    }

    /// Starts the countdown for `job` at clock reading `now`.
    pub fn new(job: JobSpec, now: u64) -> (ticker: Ticker)
        ensures
            ticker@ == TickerView::fresh(job@, now as nat),
            ticker@.wf(),
    {
        let interval = job.interval();
        proof {
            lemma_basic_div(0, interval as int);
            lemma_fundamental_div_mod(0, interval as int);
        }
        Ticker { job, phase: Phase::Waiting, origin: now, anchor: now }
    }

    /// The job that this ticker drives.
    pub fn job(&self) -> (job: &JobSpec)
        ensures
            job@ == self@.job,
    {
        &self.job
    }

    /// Whether the latest reading handed out a run.
    pub fn phase(&self) -> (phase: Phase)
        ensures
            phase == self@.phase,
    {
        self.phase
    }

    /// The number of firings handed out so far.
    pub fn fired(&self) -> (fired: u64)
        ensures
            fired == self@.fired,
    {
        proof {
            use_type_invariant(self);
        }
        let interval = self.job.interval();
        (self.anchor - self.origin) / interval
    }

    /// Takes the clock reading `now` and says what to do: launch the run
    /// that has fallen due, or sleep until the next one does. At most one
    /// run is handed out per reading; the ticker does not wait for it and
    /// keeps no record of it.
    pub fn step(&mut self, now: u64) -> (action: Action)
        ensures
            final(self)@ == old(self)@.step(now as nat).0,
            action@ == old(self)@.step(now as nat).1,
            final(self)@.job == old(self)@.job,
            final(self)@.wf(),
    {
        proof {
            use_type_invariant(&*self);
            lemma_quotient_step(self.anchor - self.origin, self.job@.interval as int);
            lemma_next_multiple(self@.fired as int, self.job@.interval as int);
        }
        let interval = self.job.interval();
        if now >= self.anchor && now - self.anchor >= interval {
            self.anchor = self.anchor + interval;
            self.phase = Phase::Firing;
            Action::Launch(JobRun { id: String::from_str(self.job.id()), started_at: self.anchor })
        } else {
            self.phase = Phase::Waiting;
            if now <= self.anchor {
                Action::Sleep(interval)
            } else {
                Action::Sleep(interval - (now - self.anchor))
            }
        }
    }

    /// Hands out, oldest first, every run that is due at the clock reading
    /// `now`, and leaves the ticker waiting for the one after. Takes time
    /// and memory in proportion to the number of those runs.
    pub fn advance(&mut self, now: u64) -> (runs: Vec<JobRun>)
        ensures
            final(self)@ == old(self)@.advance(now as nat),
            runs.deep_view() == old(self)@.launches(now as nat),
            final(self)@.job == old(self)@.job,
            final(self)@.wf(),
    {
        let mut runs: Vec<JobRun> = Vec::new();
        proof {
            use_type_invariant(&*self);
            assert(runs.deep_view() =~= Seq::<JobRunView>::empty());
        }
        loop
            invariant
                self@.wf(),
                self@.advance(now as nat) == old(self)@.advance(now as nat),
                runs.deep_view() + self@.launches(now as nat) == old(self)@.launches(now as nat),
            ensures
                self@ == old(self)@.advance(now as nat),
                runs.deep_view() == old(self)@.launches(now as nat),
            decreases self@.due_count(now as nat),
        {
            let ghost before = self@;
            let ghost handed = runs.deep_view();
            proof {
                lemma_step_towards_advance(before, now as nat);
            }
            match self.step(now) {
                Action::Launch(run) => {
                    runs.push(run);
                    assert(runs.deep_view() =~= handed + seq![run@]);
                    assert(handed + seq![run@] + self@.launches(now as nat) =~= handed + (seq![run@]
                        + self@.launches(now as nat)));
                },
                Action::Sleep(_) => {
                    assert(handed + Seq::<JobRunView>::empty() =~= handed);
                    break ;
                },
            }
        }
        runs
    }
}

} // verus!
