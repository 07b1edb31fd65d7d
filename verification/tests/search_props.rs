use sptfydl::fetch::{classify_fetch_outcome, is_user_cancel_marker};
use sptfydl::pipeline::Outcome;
use sptfydl::ytsearch::{
    build_search_query, client_version, parse_visitor_id, resolve_outcome, search_retry_step,
    select_candidate, SearchEvent, SearchFilter, SearchResult, SearchStep,
    SEARCH_RETRY_DELAY_SECS,
};

fn candidate(title: &str, id: Option<&str>) -> SearchResult {
    SearchResult { title: title.to_string(), video_id: id.map(ToString::to_string) }
}

#[test]
fn filter_params() {
    assert_eq!(SearchFilter::Albums.param(), "Ig");
    assert_eq!(SearchFilter::Playlists.param(), "Io");
    assert_eq!(SearchFilter::Songs.param(), "II");
    assert_eq!(SearchFilter::Videos.param(), "IQ");
}

#[test]
fn candidate_selection_prefers_the_first_valid() {
    let top_valid = vec![candidate("a", Some("x")), candidate("b", None)];
    assert_eq!(select_candidate(&top_valid), (0, false));

    let fallback = vec![candidate("a", None), candidate("b", None), candidate("c", Some("z"))];
    assert_eq!(select_candidate(&fallback), (2, true));

    let none_valid = vec![candidate("a", None), candidate("b", None)];
    assert_eq!(select_candidate(&none_valid), (0, false));
}

#[test]
fn resolve_outcomes() {
    assert!(matches!(resolve_outcome(None), Outcome::RetryableFailure));
    assert!(matches!(resolve_outcome(Some(vec![])), Outcome::RetryableFailure));

    match resolve_outcome(Some(vec![candidate("a", Some("vid"))])) {
        Outcome::Success { output, fallback } => {
            assert_eq!(output, "https://music.youtube.com/watch?v=vid");
            assert!(!fallback);
        },
        _ => panic!("expected a success"),
    }

    match resolve_outcome(Some(vec![candidate("a", None), candidate("b", Some("w"))])) {
        Outcome::Success { output, fallback } => {
            assert_eq!(output, "https://music.youtube.com/watch?v=w");
            assert!(fallback);
        },
        _ => panic!("expected a fallback success"),
    }

    // No candidate with a resolvable id: the item is retried, not counted
    // resolved with a useless link.
    assert!(matches!(
        resolve_outcome(Some(vec![candidate("a", None), candidate("b", None)])),
        Outcome::RetryableFailure
    ));
}

#[test]
fn micro_retry_policy() {
    match search_retry_step(0, 3, SearchEvent::SendFailed) {
        SearchStep::RetryAfterDelay(d) => assert_eq!(d, SEARCH_RETRY_DELAY_SECS),
        _ => panic!("expected a delay"),
    }
    assert!(matches!(search_retry_step(2, 3, SearchEvent::BadStatus), SearchStep::GiveUp));
    assert!(matches!(search_retry_step(0, 1, SearchEvent::Empty), SearchStep::GiveUp));
    match search_retry_step(1, 3, SearchEvent::Found(vec![candidate("a", Some("x"))])) {
        SearchStep::Accept(rs) => assert_eq!(rs.len(), 1),
        _ => panic!("expected acceptance"),
    }
    assert!(matches!(
        search_retry_step(2, 3, SearchEvent::Found(vec![])),
        SearchStep::GiveUp
    ));
}

#[test]
fn query_building() {
    let names = vec!["Ana".to_string(), "Bo".to_string()];
    assert_eq!(build_search_query("Song", &names), "Song Ana Bo");
    assert_eq!(build_search_query("Song", &vec![]), "Song ");
}

#[test]
fn client_version_stamp() {
    assert_eq!(client_version(2024, 1, 5), "1.20240105.01.00");
    assert_eq!(client_version(2024, 11, 25), "1.20241125.01.00");
}

#[test]
fn visitor_id_extraction() {
    let page = "junk before ytcfg.set({\"VISITOR_DATA\": \"CgtW-abc\", \"k\": 1}); junk after";
    assert_eq!(parse_visitor_id(page), Some("CgtW-abc".to_string()));
    assert_eq!(parse_visitor_id("no blob here"), None);
    let no_field = "ytcfg.set({\"OTHER\": \"x\"});";
    assert_eq!(parse_visitor_id(no_field), None);
}

#[test]
fn fetch_classification() {
    match classify_fetch_outcome(Some("01 - a.opus".to_string()), false) {
        Outcome::Success { output, fallback } => {
            assert_eq!(output, "01 - a.opus");
            assert!(!fallback);
        },
        _ => panic!("expected a success"),
    }
    assert!(matches!(classify_fetch_outcome(None, false), Outcome::RetryableFailure));
    assert!(matches!(classify_fetch_outcome(None, true), Outcome::FatalFailure));
}

#[test]
fn cancel_marker_detection() {
    assert!(is_user_cancel_marker("\nERROR: Interrupted by user\n"));
    assert!(is_user_cancel_marker("Interrupted by user"));
    assert!(!is_user_cancel_marker("ERROR: unable to download video data"));
    assert!(!is_user_cancel_marker(""));
}

#[test]
fn link_or_default() {
    assert_eq!(
        candidate("t", Some("abc")).link_or_default(),
        "https://music.youtube.com/watch?v=abc"
    );
    assert_eq!(candidate("t", None).link_or_default(), "https://music.youtube.com");
}
