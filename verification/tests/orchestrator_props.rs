use sptfydl::orchestrator::{run_two_stage, RunError, StageConfig};
use sptfydl::pipeline::{Outcome, Processor};

/// Resolves a payload to its upper-case form, failing chosen indices.
struct Resolver {
    fail: Vec<usize>,
    fatal_at: Option<usize>,
}

impl Processor<String, String> for Resolver {
    fn process(&mut self, index: usize, _attempt: usize, payload: &String) -> Outcome<String> {
        if self.fatal_at == Some(index) {
            return Outcome::FatalFailure;
        }
        if self.fail.contains(&index) {
            return Outcome::RetryableFailure;
        }
        Outcome::Success { output: payload.to_uppercase(), fallback: false }
    }
}

/// Fetches a resolved payload by appending an extension, failing chosen
/// stage-two indices.
struct Fetcher {
    fail: Vec<usize>,
}

impl Processor<String, String> for Fetcher {
    fn process(&mut self, index: usize, _attempt: usize, payload: &String) -> Outcome<String> {
        if self.fail.contains(&index) {
            return Outcome::RetryableFailure;
        }
        Outcome::Success { output: format!("{payload}.mp3"), fallback: false }
    }
}

fn cfg(budget: usize) -> StageConfig {
    StageConfig { pool_size: 2, retry_budget: budget }
}

fn items(n: usize) -> Vec<String> {
    (0..n).map(|i| format!("t{i}")).collect()
}

#[test]
fn two_stages_partition_the_original_indices() {
    // Index 1 fails to resolve; of the remaining {0, 2, 3}, the second
    // resolved one (original index 2) fails to fetch. Every original index
    // ends in exactly one of results or failures.
    let mut resolver = Resolver { fail: vec![1], fatal_at: None };
    let mut fetcher = Fetcher { fail: vec![1] };
    let report = run_two_stage(items(4), cfg(0), cfg(0), &mut resolver, &mut fetcher)
        .expect("run yields a report");

    assert_eq!(report.total, 4);
    let got: Vec<(usize, String)> = report.results.clone();
    assert_eq!(got.len(), 2);
    assert_eq!(got[0], (0, "T0.mp3".to_string()));
    assert_eq!(got[1], (3, "T3.mp3".to_string()));
    let mut failed = report.failures.clone();
    failed.sort_unstable();
    assert_eq!(failed, vec![1, 2]);
    assert_eq!(report.resolution_failures.len(), 1);
    assert_eq!(report.resolution_failures[0].0, 1);
    assert_eq!(report.resolution_failures[0].1, "t1");
}

#[test]
fn empty_input_resolves_nothing() {
    let mut resolver = Resolver { fail: vec![], fatal_at: None };
    let mut fetcher = Fetcher { fail: vec![] };
    let r = run_two_stage(items(0), cfg(1), cfg(1), &mut resolver, &mut fetcher);
    assert_eq!(r.err(), Some(RunError::NoResolvedItems));
}

#[test]
fn nothing_resolved_is_an_error() {
    let mut resolver = Resolver { fail: vec![0, 1, 2], fatal_at: None };
    let mut fetcher = Fetcher { fail: vec![] };
    let r = run_two_stage(items(3), cfg(1), cfg(0), &mut resolver, &mut fetcher);
    assert_eq!(r.err(), Some(RunError::NoResolvedItems));
}

#[test]
fn fatal_resolution_is_an_error() {
    let mut resolver = Resolver { fail: vec![], fatal_at: Some(2) };
    let mut fetcher = Fetcher { fail: vec![] };
    let r = run_two_stage(items(5), cfg(1), cfg(0), &mut resolver, &mut fetcher);
    assert_eq!(r.err(), Some(RunError::FatalResolution));
}

#[test]
fn fatal_fetch_is_an_error() {
    struct FatalFetcher;
    impl Processor<String, String> for FatalFetcher {
        fn process(&mut self, _i: usize, _a: usize, _p: &String) -> Outcome<String> {
            Outcome::FatalFailure
        }
    }
    let mut resolver = Resolver { fail: vec![], fatal_at: None };
    let mut fetcher = FatalFetcher;
    let r = run_two_stage(items(3), cfg(0), cfg(0), &mut resolver, &mut fetcher);
    assert_eq!(r.err(), Some(RunError::FatalFetch));
}

#[test]
fn all_clean_keeps_everything_in_order() {
    let mut resolver = Resolver { fail: vec![], fatal_at: None };
    let mut fetcher = Fetcher { fail: vec![] };
    let report = run_two_stage(items(6), cfg(2), cfg(2), &mut resolver, &mut fetcher)
        .expect("run yields a report");
    let indices: Vec<usize> = report.results.iter().map(|p| p.0).collect();
    assert_eq!(indices, vec![0, 1, 2, 3, 4, 5]);
    assert!(report.failures.is_empty());
    assert!(report.warnings.is_empty());
}
