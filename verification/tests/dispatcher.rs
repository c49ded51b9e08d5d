use sturgeon::config::job_specs;
use sturgeon::dispatcher::Dispatcher;
use sturgeon::job::{JobRun, JobSpec};
use sturgeon::service::respond;
use sturgeon::ticker::Phase;

fn job(id: &str, interval: u64) -> JobSpec {
    JobSpec::new(id, interval).unwrap()
}

fn run(id: &str, started_at: u64) -> JobRun {
    JobRun { id: id.to_string(), started_at }
}

fn runs_of(runs: &[JobRun], id: &str) -> Vec<u64> {
    runs.iter().filter(|r| r.id == id).map(|r| r.started_at).collect()
}

#[test]
fn start_creates_one_waiting_ticker_per_job() {
    let dispatcher = Dispatcher::start(vec![job("apple", 7), job("banana", 2), job("cherry", 1)], 50);
    assert_eq!(dispatcher.len(), 3);
    let names: Vec<&str> = (0..3).map(|i| dispatcher.ticker(i).unwrap().job().id()).collect();
    assert_eq!(names, vec!["apple", "banana", "cherry"]);
    for i in 0..3 {
        let ticker = dispatcher.ticker(i).unwrap();
        assert_eq!(ticker.phase(), Phase::Waiting);
        assert_eq!(ticker.fired(), 0);
    }
    assert_eq!(dispatcher.ticker(0).unwrap().job().interval(), 7);
    assert_eq!(dispatcher.ticker(1).unwrap().job().interval(), 2);
    assert_eq!(dispatcher.ticker(2).unwrap().job().interval(), 1);
}

#[test]
fn there_is_no_ticker_beyond_the_job_list() {
    let dispatcher = Dispatcher::start(vec![job("apple", 7)], 0);
    assert!(dispatcher.ticker(0).is_some());
    assert!(dispatcher.ticker(1).is_none());
    assert!(dispatcher.ticker(usize::MAX).is_none());
}

#[test]
fn a_dispatcher_without_jobs_hands_out_nothing() {
    let mut dispatcher = Dispatcher::start(vec![], 0);
    assert_eq!(dispatcher.len(), 0);
    assert_eq!(dispatcher.advance(1000), vec![]);
    assert!(dispatcher.into_tickers().is_empty());
}

#[test]
fn advance_groups_the_runs_by_ticker() {
    let mut dispatcher = Dispatcher::start(vec![job("apple", 3), job("banana", 2)], 0);
    assert_eq!(
        dispatcher.advance(6),
        vec![
            run("apple", 3),
            run("apple", 6),
            run("banana", 2),
            run("banana", 4),
            run("banana", 6),
        ]
    );
    assert_eq!(dispatcher.ticker(0).unwrap().fired(), 2);
    assert_eq!(dispatcher.ticker(1).unwrap().fired(), 3);
    assert_eq!(dispatcher.advance(6), vec![]);
    assert_eq!(dispatcher.advance(8), vec![run("banana", 8)]);
}

#[test]
fn tickers_are_given_away_in_order() {
    let mut dispatcher = Dispatcher::start(vec![job("apple", 3), job("banana", 2)], 10);
    dispatcher.advance(14);
    let tickers = dispatcher.into_tickers();
    assert_eq!(tickers.len(), 2);
    assert_eq!(tickers[0].job().id(), "apple");
    assert_eq!(tickers[0].fired(), 1);
    assert_eq!(tickers[1].job().id(), "banana");
    assert_eq!(tickers[1].fired(), 2);
}

#[test]
fn removing_a_job_leaves_the_others_cadence() {
    for removed in 0..3 {
        let mut jobs = vec![job("apple", 3), job("banana", 2), job("cherry", 5)];
        let mut all = Dispatcher::start(jobs, 4);
        jobs = vec![job("apple", 3), job("banana", 2), job("cherry", 5)];
        let gone = jobs.remove(removed);
        let mut rest = Dispatcher::start(jobs, 4);
        for now in [4u64, 5, 9, 10, 31, 64] {
            let with_all = all.advance(now);
            let with_rest = rest.advance(now);
            for id in ["apple", "banana", "cherry"] {
                if id == gone.id() {
                    assert!(runs_of(&with_rest, id).is_empty());
                } else {
                    assert_eq!(runs_of(&with_rest, id), runs_of(&with_all, id));
                }
            }
        }
    }
}

#[test]
fn a_fast_job_does_not_hurry_a_slow_one() {
    let mut alone = Dispatcher::start(vec![job("slow", 10)], 0);
    let mut paired = Dispatcher::start(vec![job("fast", 1), job("slow", 10)], 0);
    let slow_alone = alone.advance(35);
    let both = paired.advance(35);
    assert_eq!(runs_of(&slow_alone, "slow"), vec![10, 20, 30]);
    assert_eq!(runs_of(&both, "slow"), vec![10, 20, 30]);
    assert_eq!(runs_of(&both, "fast").len(), 35);
}

#[test]
fn two_second_jobs_fire_twice_in_five_seconds() {
    let jobs = job_specs(Some("fixed"), Some("2"), None).unwrap();
    let mut dispatcher = Dispatcher::start(jobs, 0);
    let runs = dispatcher.advance(5);
    assert_eq!(runs_of(&runs, "apple"), vec![2, 4]);
    assert_eq!(runs_of(&runs, "banana"), vec![2, 4]);
    assert_eq!(runs.len(), 4);
    assert_eq!(dispatcher.ticker(0).unwrap().fired(), 2);
    assert_eq!(dispatcher.ticker(1).unwrap().fired(), 2);
    let records: Vec<String> = runs.iter().map(|r| r.completion_record()).collect();
    assert_eq!(
        records,
        vec!["apple has run.", "apple has run.", "banana has run.", "banana has run."]
    );
}

#[test]
fn a_rejected_configuration_starts_no_ticker() {
    let tickers = match job_specs(Some("fixed"), None, None) {
        Ok(jobs) => Dispatcher::start(jobs, 0).len(),
        Err(_) => 0,
    };
    assert_eq!(tickers, 0);
    assert!(job_specs(Some("bogus"), Some("2"), None).is_err());
}

#[test]
fn requests_are_answered_while_jobs_fire() {
    let mut dispatcher = Dispatcher::start(vec![job("apple", 1)], 0);
    for now in 1..=10u64 {
        assert_eq!(dispatcher.advance(now), vec![run("apple", now)]);
        for _ in 0..10 {
            let reply = respond("GET", "/");
            assert_eq!(reply.status, 200);
            assert_eq!(reply.body, "Hello World!");
        }
    }
    assert_eq!(dispatcher.ticker(0).unwrap().fired(), 10);
}
