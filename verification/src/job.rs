//! Job descriptors and the runs that their firings produce.

use vstd::prelude::*;
use vstd::string::StringExecFns;

verus! {

/// Time, in seconds, that one unit of work keeps its worker busy.
pub const WORK_SECONDS: u64 = 2;

/// Mathematical model of a [`JobSpec`].
pub struct JobSpecView {
    pub id: Seq<char>,
    pub interval: nat,
}

impl JobSpecView {
    /// A job's period is strictly positive.
    pub open spec fn wf(self) -> bool {
        self.interval > 0
    }
}

/// Immutable descriptor of one recurring job: its name and its period in
/// seconds.
#[derive(Debug, PartialEq, Eq)]
pub struct JobSpec {
    id: String,
    interval: u64,
}

impl View for JobSpec {
    type V = JobSpecView;

    closed spec fn view(&self) -> JobSpecView {
        JobSpecView { id: self.id@, interval: self.interval as nat }
    }
}

impl DeepView for JobSpec {
    type V = JobSpecView;

    open spec fn deep_view(&self) -> JobSpecView {
        self@
    }
}

impl JobSpec {
    #[verifier::type_invariant]
    spec fn positive_interval(self) -> bool {
        self.interval > 0
    }

    /// Describes the job `id` that recurs every `interval` seconds. A zero
    /// interval describes no job.
    pub fn new(id: &str, interval: u64) -> (spec: Option<JobSpec>)
        ensures
            interval == 0 <==> spec is None,
            spec matches Some(s) ==> s@ == (JobSpecView { id: id@, interval: interval as nat }),
    {
        if interval == 0 {
            None
        } else {
            Some(JobSpec { id: String::from_str(id), interval })
        }
    }

    /// The job's name.
    pub fn id(&self) -> (id: &str)
        ensures
            id@ == self@.id,
    {
        self.id.as_str()
    }

    /// The job's period in seconds.
    pub fn interval(&self) -> (interval: u64)
        ensures
            interval == self@.interval,
            interval > 0,
    {
        proof {
            use_type_invariant(self);
        }
        self.interval
    }
}

/// Mathematical model of a [`JobRun`].
pub struct JobRunView {
    pub id: Seq<char>,
    pub started_at: nat,
}

/// One execution of a job's unit of work: the job's name and the clock
/// reading at which the firing fell due. Runs of one job are unrelated to
/// each other and may overlap.
#[derive(Debug, PartialEq, Eq)]
pub struct JobRun {
    pub id: String,
    pub started_at: u64,
}

impl View for JobRun {
    type V = JobRunView;

    open spec fn view(&self) -> JobRunView {
        JobRunView { id: self.id@, started_at: self.started_at as nat }
    }
}

impl DeepView for JobRun {
    type V = JobRunView;

    open spec fn deep_view(&self) -> JobRunView {
        self@
    }
}

impl JobRunView {
    /// The record that a finished run leaves behind: the job's name
    /// followed by `" has run."`.
    pub open spec fn completion_record(self) -> Seq<char> {
        self.id + " has run."@
    }
}

impl JobRun {
    /// The log record that marks this run as finished.
    pub fn completion_record(&self) -> (record: String)
        ensures
            record@ == self@.completion_record(),
    {
        self.id.clone().concat(" has run.")
    }
}

} // verus!
