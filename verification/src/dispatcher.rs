//! The dispatcher: one ticker per job, started together and never joined.

use vstd::prelude::*;
use crate::job::{JobRun, JobRunView, JobSpec, JobSpecView};
use crate::ticker::{Ticker, TickerView};

verus! {

/// The tickers of `jobs`, all created at the clock reading `now`.
pub open spec fn started(jobs: Seq<JobSpecView>, now: nat) -> Seq<TickerView> {
    jobs.map_values(|job: JobSpecView| TickerView::fresh(job, now))
}

/// Every ticker advanced to the clock reading `now`, each on its own.
pub open spec fn advance_all(tickers: Seq<TickerView>, now: nat) -> Seq<TickerView> {
    tickers.map_values(|t: TickerView| t.advance(now))
}

/// The runs that the tickers hand out on the way to `now`: those of the
/// first ticker, oldest first, then those of the second, and so on.
pub open spec fn launches_all(tickers: Seq<TickerView>, now: nat) -> Seq<JobRunView>
    decreases tickers.len(),
{
    if tickers.len() == 0 {
        Seq::empty()
    } else {
        launches_all(tickers.drop_last(), now) + tickers.last().launches(now)
    }
}

/// Tickers run independently of each other: take any one of them away, and
/// each of the others reaches the state, and hands out the runs, that it
/// reaches in its company.
pub proof fn lemma_tickers_are_independent(tickers: Seq<TickerView>, now: nat, removed: int)
    requires
        0 <= removed < tickers.len(),
    ensures
        advance_all(tickers.remove(removed), now) == advance_all(tickers, now).remove(removed),
        forall|i: int|
            0 <= i < removed ==> (#[trigger] tickers.remove(removed)[i]).launches(now)
                == tickers[i].launches(now),
        forall|i: int|
            removed <= i < tickers.len() - 1 ==> (#[trigger] tickers.remove(removed)[i]).launches(now)
                == tickers[i + 1].launches(now),
{
    assert(advance_all(tickers.remove(removed), now) =~= advance_all(tickers, now).remove(removed));
}

/// Starting is job by job: a job list without one of its jobs starts the
/// tickers of the others as the whole list does.
pub proof fn lemma_start_is_jobwise(jobs: Seq<JobSpecView>, now: nat, removed: int)
    requires
        0 <= removed < jobs.len(),
    ensures
        started(jobs.remove(removed), now) == started(jobs, now).remove(removed),
{
    assert(started(jobs.remove(removed), now) =~= started(jobs, now).remove(removed));
}

/// Owner of the tickers of a fixed list of jobs. Tickers are neither added
/// nor removed after the start.
#[derive(Debug)]
pub struct Dispatcher {
    tickers: Vec<Ticker>,
}

impl View for Dispatcher {
    type V = Seq<TickerView>;

    closed spec fn view(&self) -> Seq<TickerView> {
        self.tickers.deep_view()
    }
}

impl Dispatcher {
    /// Creates one ticker for each entry of `jobs`, in order, all counting
    /// from the clock reading `now`.
    pub fn start(jobs: Vec<JobSpec>, now: u64) -> (dispatcher: Dispatcher)
        ensures
            dispatcher@ == started(jobs.deep_view(), now as nat),
    {
        let ghost specs = jobs.deep_view();
        let ghost items = jobs@;
        let mut tickers: Vec<Ticker> = Vec::new();
        for job in it: jobs
            invariant
                it.seq() == items,
                specs == items.map_values(|j: JobSpec| j@),
                tickers.deep_view() =~= started(specs.take(it.index() as int), now as nat),
        {
            let ghost done = tickers.deep_view();
            let ticker = Ticker::new(job, now);
            tickers.push(ticker);
            assert(tickers.deep_view() =~= done.push(ticker@));
            assert(specs.take(it.index() + 1) =~= specs.take(it.index() as int).push(job@));
        }
        assert(specs.take(specs.len() as int) =~= specs);
        Dispatcher { tickers }
    }

    /// The number of tickers.
    pub fn len(&self) -> (len: usize)
        ensures
            len == self@.len(),
    {
        self.tickers.len()
    }

    /// The ticker of the job at `index`, if there is one.
    pub fn ticker(&self, index: usize) -> (ticker: Option<&Ticker>)
        ensures
            index < self@.len() <==> ticker is Some,
            ticker matches Some(t) ==> t@ == self@[index as int],
    {
        if index < self.tickers.len() {
            Some(&self.tickers[index])
        } else {
            None
        }
    }

    /// Gives the tickers away, in order, for each to run on its own.
    pub fn into_tickers(self) -> (tickers: Vec<Ticker>)
        ensures
            tickers.deep_view() == self@,
    {
        self.tickers
    }

    /// Advances every ticker to the clock reading `now` and hands out the
    /// runs that fall due, grouped by ticker in the order of the job list.
    /// No ticker's outcome depends on another's.
    pub fn advance(&mut self, now: u64) -> (runs: Vec<JobRun>)
        ensures
            final(self)@ == advance_all(old(self)@, now as nat),
            runs.deep_view() == launches_all(old(self)@, now as nat),
    {
        let mut runs: Vec<JobRun> = Vec::new();
        let count = self.tickers.len();
        let mut index: usize = 0;
        assert(old(self)@.take(0) =~= Seq::<TickerView>::empty());
        while index < count
            invariant
                index <= count,
                count == self.tickers.len(),
                self@.len() == old(self)@.len() == count,
                forall|i: int| 0 <= i < index ==> self@[i] == (#[trigger] old(self)@[i]).advance(now as nat),
                forall|i: int| index <= i < count ==> self@[i] == #[trigger] old(self)@[i],
                runs.deep_view() == launches_all(old(self)@.take(index as int), now as nat),
            decreases count - index,
        {
            let ghost handed = runs.deep_view();
            let ghost before = self@;
            let mut part = self.tickers[index].advance(now);
            let ghost added = part.deep_view();
            runs.append(&mut part);
            proof {
                let prefix = old(self)@.take(index + 1);
                assert(prefix.drop_last() =~= old(self)@.take(index as int));
                assert(prefix.last() == before[index as int]);
                assert(runs.deep_view() =~= handed + added);
            }
            index = index + 1;
        }
        proof {
            assert(old(self)@.take(count as int) =~= old(self)@);
            assert(self@ =~= advance_all(old(self)@, now as nat));
        }
        runs
    }
}

} // verus!
