//! Periodic job dispatching on a caller-supplied clock.
//!
//! A [`job::JobSpec`] names a recurring job and gives its period in seconds.
//! A [`ticker::Ticker`] decides, from clock readings alone, when the job
//! falls due: each [`ticker::Ticker::step`] says either how long to sleep or
//! which [`job::JobRun`] to launch. The caller launches the run and does not
//! report back, so slow work never delays a firing, and runs of one job may
//! overlap. A [`dispatcher::Dispatcher`] starts one ticker per job; nothing
//! is shared between them.
//!
//! [`config`] turns the values of the command-line options into the list of
//! jobs, or into the reason why nothing starts. [`service`] holds what the
//! HTTP service beside the dispatcher answers.
//!
//! Clock readings and periods are whole seconds in `u64`. The library takes
//! no time itself: driven by a real clock it schedules, driven by a made-up
//! one it replays a schedule.

pub mod config;
pub mod dispatcher;
pub mod job;
pub mod service;
pub mod ticker;
