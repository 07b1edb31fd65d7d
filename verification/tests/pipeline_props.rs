use sptfydl::pipeline::{Outcome, Pipeline, Processor, ProgressTracker, run_stage};

/// Succeeds everything except the indices it is told to fail, and counts
/// every invocation per index.
struct Scripted {
    always_retryable: Vec<usize>,
    fatal_at: Option<usize>,
    calls: Vec<usize>,
}

impl Scripted {
    fn new(n: usize) -> Self {
        Scripted { always_retryable: vec![], fatal_at: None, calls: vec![0; n] }
    }
}

impl Processor<String, String> for Scripted {
    fn process(&mut self, index: usize, _attempt: usize, payload: &String) -> Outcome<String> {
        self.calls[index] += 1;
        if self.fatal_at == Some(index) {
            return Outcome::FatalFailure;
        }
        if self.always_retryable.contains(&index) {
            return Outcome::RetryableFailure;
        }
        Outcome::Success { output: format!("out-{payload}"), fallback: false }
    }
}

fn payloads(n: usize) -> Vec<String> {
    (0..n).map(|i| format!("p{i}")).collect()
}

#[test]
fn scenario_five_items_one_poisoned() {
    // Five items, the one at index 2 always fails retryably, budget two:
    // four successes, one permanent failure carrying the original payload,
    // and the progress counter ends at four.
    let mut proc = Scripted::new(5);
    proc.always_retryable = vec![2];
    let mut tracker = ProgressTracker::new(5);
    let report = run_stage(payloads(5), 2, &mut proc, &mut tracker);

    assert!(!report.aborted);
    assert_eq!(report.results.len(), 4);
    let indices: Vec<usize> = report.results.iter().map(|p| p.0).collect();
    assert_eq!(indices, vec![0, 1, 3, 4]);
    assert_eq!(report.failures.len(), 1);
    assert_eq!(report.failures[0].0, 2);
    assert_eq!(report.failures[0].1, "p2");
    assert_eq!(tracker.current(), 4);
}

#[test]
fn attempt_bound_is_budget_plus_one() {
    // A poisoned item is processed exactly budget + 1 times.
    let mut proc = Scripted::new(4);
    proc.always_retryable = vec![1];
    let mut tracker = ProgressTracker::new(4);
    let report = run_stage(payloads(4), 3, &mut proc, &mut tracker);

    assert_eq!(proc.calls[1], 4);
    assert_eq!(proc.calls[0], 1);
    assert_eq!(proc.calls[2], 1);
    assert_eq!(proc.calls[3], 1);
    assert_eq!(report.failures.len(), 1);
}

#[test]
fn zero_retry_fails_first_time() {
    // With budget zero a failing item lands in the failures after exactly
    // one attempt, never requeued.
    let mut proc = Scripted::new(3);
    proc.always_retryable = vec![0, 2];
    let mut tracker = ProgressTracker::new(3);
    let report = run_stage(payloads(3), 0, &mut proc, &mut tracker);

    assert_eq!(proc.calls, vec![1, 1, 1]);
    let failed: Vec<usize> = report.failures.iter().map(|p| p.0).collect();
    assert_eq!(failed, vec![0, 2]);
    assert_eq!(report.results.len(), 1);
    assert_eq!(report.results[0].0, 1);
    assert_eq!(tracker.current(), 1);
}

#[test]
fn fatal_short_circuits_the_stage() {
    // A fatal outcome at index 3 of 10 aborts the run: the report is marked
    // aborted and resolves fewer than ten indices.
    let mut proc = Scripted::new(10);
    proc.fatal_at = Some(3);
    let mut tracker = ProgressTracker::new(10);
    let report = run_stage(payloads(10), 5, &mut proc, &mut tracker);

    assert!(report.aborted);
    assert!(report.results.len() + report.failures.len() < 10);
}

#[test]
fn progress_counts_successes_only() {
    let mut proc = Scripted::new(6);
    proc.always_retryable = vec![1, 4];
    let mut tracker = ProgressTracker::new(6);
    let report = run_stage(payloads(6), 1, &mut proc, &mut tracker);

    assert_eq!(tracker.current(), report.results.len());
    assert_eq!(tracker.current(), 4);
    assert_eq!(tracker.expected(), 6);
    assert_eq!(report.successes, report.results.len());
}

#[test]
fn results_sorted_whatever_the_completion_order() {
    // Drive the pipeline by hand with every item in flight at once and
    // complete them in a scrambled order: the report still comes out in
    // original index order.
    let mut pipe: Pipeline<String, String> = Pipeline::new(payloads(5), 0);
    let mut items = Vec::new();
    while let Some(item) = pipe.next_work() {
        items.push(item);
    }
    assert_eq!(items.len(), 5);
    for pick in [3usize, 0, 4, 2, 1] {
        let pos = items.iter().position(|it| it.index == pick).unwrap();
        let item = items.remove(pos);
        let out = format!("out-{}", item.index);
        pipe.complete(item, Outcome::Success { output: out, fallback: false });
    }
    assert!(pipe.is_done());
    let report = pipe.finalize();
    let indices: Vec<usize> = report.results.iter().map(|p| p.0).collect();
    assert_eq!(indices, vec![0, 1, 2, 3, 4]);
    assert!(!report.aborted);
}

#[test]
fn fallback_success_is_warned() {
    // A success with a fallback candidate lands in the results and its
    // index in the warnings.
    let mut pipe: Pipeline<String, String> = Pipeline::new(payloads(2), 1);
    let first = pipe.next_work().unwrap();
    assert_eq!(first.index, 0);
    pipe.complete(first, Outcome::Success { output: "a".to_string(), fallback: true });
    let second = pipe.next_work().unwrap();
    pipe.complete(second, Outcome::Success { output: "b".to_string(), fallback: false });
    let report = pipe.finalize();
    assert_eq!(report.results.len(), 2);
    assert_eq!(report.warnings, vec![0]);
}

#[test]
fn retry_goes_back_to_the_queue_with_next_attempt() {
    let mut pipe: Pipeline<String, String> = Pipeline::new(payloads(1), 2);
    let first = pipe.next_work().unwrap();
    assert_eq!(first.attempt, 0);
    pipe.complete(first, Outcome::RetryableFailure);
    let second = pipe.next_work().unwrap();
    assert_eq!(second.index, 0);
    assert_eq!(second.attempt, 1);
    pipe.complete(second, Outcome::Success { output: "ok".to_string(), fallback: false });
    let report = pipe.finalize();
    assert_eq!(report.results.len(), 1);
    assert!(report.failures.is_empty());
}

#[test]
fn cancel_stops_handing_out_work() {
    let mut pipe: Pipeline<String, String> = Pipeline::new(payloads(3), 1);
    let item = pipe.next_work().unwrap();
    pipe.complete(item, Outcome::Success { output: "x".to_string(), fallback: false });
    pipe.cancel();
    assert!(pipe.next_work().is_none());
    assert!(pipe.is_done());
    let report = pipe.finalize();
    assert!(report.aborted);
    assert_eq!(report.results.len(), 1);
}

#[test]
fn tracker_never_decreases() {
    let mut tracker = ProgressTracker::new(3);
    let mut last = tracker.current();
    let events = [
        sptfydl::pipeline::CompletionEvent { index: 0, success: true },
        sptfydl::pipeline::CompletionEvent { index: 1, success: false },
        sptfydl::pipeline::CompletionEvent { index: 1, success: true },
        sptfydl::pipeline::CompletionEvent { index: 2, success: false },
    ];
    for ev in events {
        tracker.observe(ev);
        assert!(tracker.current() >= last);
        last = tracker.current();
    }
    assert_eq!(tracker.current(), 2);
}
