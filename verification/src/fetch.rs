//! Fetch-side decisions: what one run of the external fetch tool means to
//! the pipeline.

use vstd::prelude::*;

use crate::pipeline::Outcome;
use crate::strscan::{has_substring, str_contains};

verus! {

/// The diagnostic text the fetch tool prints when the user interrupted it;
/// a run whose output carries it must abort the whole stage rather than be
/// retried.
pub open spec fn user_cancel_marker() -> Seq<char> {
    "Interrupted by user"@
}

/// Whether the fetch tool's diagnostics carry the cancelled-by-user marker.
pub fn is_user_cancel_marker(diag: &str) -> (r: bool)
    ensures
        r == has_substring(diag@, user_cancel_marker()),
{
    str_contains(diag, "Interrupted by user")
}

/// Classify one run of the fetch tool. A produced output path is the
/// success; without one, a diagnostic marking user-initiated cancellation
/// is fatal to the whole stage, and any other failure is retried through
/// the pipeline's requeue.
pub fn classify_fetch_outcome(output_path: Option<String>, cancelled: bool) -> (r: Outcome<
    String,
>)
    ensures
        match output_path {
            Some(p) => (r matches Outcome::Success { output, fallback } && output == p
                && !fallback),
            None => {
                if cancelled {
                    r is FatalFailure
                } else {
                    r is RetryableFailure
                }
            },
        },
{
    match output_path {
        Some(p) => Outcome::Success { output: p, fallback: false },
        None => {
            if cancelled {
                Outcome::FatalFailure
            } else {
                Outcome::RetryableFailure
            }
        },
    }
}

} // verus!
