//! Search-side logic for the resolution stage: search filters, ranked
//! candidates, the choice among them, the micro-retry policy around one
//! search call, and the request plumbing that can be computed ahead of I/O.

use vstd::prelude::*;

use crate::textutil::{dec_rep, join_of, zero_pad};
use crate::ytauth::signed_dec_rep;

use crate::pipeline::Outcome;

verus! {

/// A filter restricting a music search to one kind of result.
#[derive(Debug, Clone, Copy)]
pub enum SearchFilter {
    Playlists,
    Songs,
    Videos,
    Albums,
}

impl SearchFilter {
    /// The request parameter the search endpoint expects for this filter.
    pub fn param(&self) -> (r: &'static str)
        ensures
            r@ == match *self {
                SearchFilter::Albums => "Ig"@,
                SearchFilter::Playlists => "Io"@,
                SearchFilter::Songs => "II"@,
                SearchFilter::Videos => "IQ"@,
            },
    {
        match self {
            SearchFilter::Albums => "Ig",
            SearchFilter::Playlists => "Io",
            SearchFilter::Songs => "II",
            SearchFilter::Videos => "IQ",
        }
    }
}

/// One ranked candidate the search returned: its title and, when the
/// candidate is playable, its video id.
pub struct SearchResult {
    pub title: String,
    pub video_id: Option<String>,
}

impl SearchResult {
    /// A candidate is usable when it has a resolvable video id.
    pub fn is_valid(&self) -> (r: bool)
        ensures
            r == (self.video_id is Some),
    {
        match &self.video_id {
            Some(_) => true,
            None => false,
        }
    }

    /// The watch link of this candidate, or the service root when it has no
    /// id to link to.
    pub fn link_or_default(&self) -> (r: String)
        ensures
            match self.video_id {
                Some(id) => r@ == "https://music.youtube.com/watch?v="@ + id@,
                None => r@ == "https://music.youtube.com"@,
            },
    {
        match &self.video_id {
            Some(id) => {
                let mut r = String::new();
                r.append("https://music.youtube.com/watch?v=");
                r.append(id.as_str());
                r
            },
            None => {
                let mut r = String::new();
                r.append("https://music.youtube.com");
                r
            },
        }
    }
}

/// Position of the first valid candidate, if any.
pub open spec fn first_valid(s: Seq<SearchResult>) -> Option<int>
    decreases s.len(),
{
    if s.len() == 0 {
        None
    } else if s.first().video_id is Some {
        Some(0)
    } else {
        match first_valid(s.drop_first()) {
            None => None,
            Some(i) => Some(i + 1),
        }
    }
}

/// `first_valid` names a position in range holding a valid candidate.
pub proof fn lemma_first_valid(s: Seq<SearchResult>)
    ensures
        match first_valid(s) {
            Some(i) => 0 <= i < s.len() && s[i].video_id is Some,
            None => true,
        },
    decreases s.len(),
{
    if s.len() > 0 && !(s.first().video_id is Some) {
        lemma_first_valid(s.drop_first());
        if let Some(i) = first_valid(s.drop_first()) {
            assert(s.drop_first()[i] == s[i + 1]);
        }
    }
}

/// Choose among ranked candidates: the first valid one, or the top-ranked
/// one if none is valid. Choosing anything but the top-ranked candidate is
/// a fallback, to be recorded as a warning beside the success.
pub fn select_candidate(results: &Vec<SearchResult>) -> (r: (usize, bool))
    requires
        results@.len() >= 1,
    ensures
        r.0 < results@.len(),
        match first_valid(results@) {
            Some(i) => r.0 == i,
            None => r.0 == 0,
        },
        r.1 == (r.0 != 0),
{
    let mut i: usize = 0;
    let mut choice: usize = 0;
    let mut found = false;
    proof {
        assert(results@.skip(0) =~= results@);
    }
    while i < results.len()
        invariant_except_break
            !found,
            first_valid(results@) == match first_valid(results@.skip(i as int)) {
                None => None::<int>,
                Some(k) => Some(k + i),
            },
        invariant
            i <= results@.len(),
            results@.len() >= 1,
            found ==> i < results@.len() && first_valid(results@) == Some(i as int),
        ensures
            i <= results@.len(),
            results@.len() >= 1,
            found ==> i < results@.len() && first_valid(results@) == Some(i as int),
            !found ==> first_valid(results@) is None,
        decreases results@.len() - i,
    {
        proof {
            assert(results@.skip(i as int).first() == results@[i as int]);
            assert(results@.skip(i as int).drop_first() =~= results@.skip(i as int + 1));
        }
        if results[i].is_valid() {
            found = true;
            break;
        }
        i = i + 1;
    }
    if found {
        choice = i;
    }
    (choice, choice != 0)
}

/// How long a failed search waits before the next internal attempt.
pub const SEARCH_RETRY_DELAY_SECS: u64 = 3;

/// What one search attempt came back with, as the retry policy sees it: the
/// ways it can fail, or the candidates it found.
pub enum SearchEvent {
    /// The request could not be sent.
    SendFailed,
    /// The endpoint answered with a failure status.
    BadStatus,
    /// The response body was not decodable.
    Undecodable,
    /// The response decoded but the candidates could not be read out of it.
    Unparseable,
    /// The response held no candidates at all.
    Empty,
    /// The candidates, best ranked first.
    Found(Vec<SearchResult>),
}

/// What the search loop does next.
pub enum SearchStep {
    /// All attempts are spent: the item escalates to a retryable failure at
    /// the pipeline level.
    GiveUp,
    /// Wait this many seconds, then attempt again.
    RetryAfterDelay(u64),
    /// Use these candidates.
    Accept(Vec<SearchResult>),
}

/// The micro-retry policy around one search call: accept non-empty
/// candidates; after a transient failure, attempt again with a fixed delay
/// while attempts remain — `attempt` counts from zero, `retries` bounds the
/// total number of attempts — and otherwise give up, which the pipeline
/// then sees as a retryable failure of the whole item.
pub fn search_retry_step(attempt: usize, retries: usize, event: SearchEvent) -> (r: SearchStep)
    requires
        attempt < retries,
    ensures
        match event {
            SearchEvent::Found(rs) => {
                if rs@.len() > 0 {
                    r matches SearchStep::Accept(out) && out == rs
                } else if attempt + 1 < retries {
                    r matches SearchStep::RetryAfterDelay(d) && d == SEARCH_RETRY_DELAY_SECS
                } else {
                    r is GiveUp
                }
            },
            _ => {
                if attempt + 1 < retries {
                    r matches SearchStep::RetryAfterDelay(d) && d == SEARCH_RETRY_DELAY_SECS
                } else {
                    r is GiveUp
                }
            },
        },
{
    let has_results = match &event {
        SearchEvent::Found(rs) => rs.len() > 0,
        _ => false,
    };
    if has_results {
        match event {
            SearchEvent::Found(rs) => SearchStep::Accept(rs),
            _ => SearchStep::GiveUp,
        }
    } else if attempt + 1 < retries {
        SearchStep::RetryAfterDelay(SEARCH_RETRY_DELAY_SECS)
    } else {
        SearchStep::GiveUp
    }
}

/// The search query for a track: its name, a space, and its artists'
/// names space-separated.
pub fn build_search_query(name: &str, artist_names: &Vec<String>) -> (r: String)
    ensures
        r@ == name@ + " "@ + join_of(artist_names.deep_view(), " "@),
{
    let joined = crate::textutil::join(artist_names, " ");
    let mut r = String::new();
    r.append(name);
    r.append(" ");
    r.append(joined.as_str());
    r
}

/// The client version the search endpoint expects: a leading one, the date
/// as an eight-digit stamp, and a fixed tail.
pub fn client_version(year: i64, month: u8, day: u8) -> (r: String)
    requires
        1 <= month <= 12,
        1 <= day <= 31,
    ensures
        r@ == "1."@ + signed_dec_rep(year as int) + zero_pad(dec_rep(month as nat), 2)
            + zero_pad(dec_rep(day as nat), 2) + ".01.00"@,
{
    let y = crate::ytauth::i64_to_decimal(year);
    let m = crate::textutil::padded_decimal(month as usize, 2);
    let d = crate::textutil::padded_decimal(day as usize, 2);
    let mut r = String::new();
    r.append("1.");
    r.append(y.as_str());
    r.append(m.as_str());
    r.append(d.as_str());
    r.append(".01.00");
    r
}

/// Named result of the page scan: the configuration blob depends on the
/// page text alone.
pub uninterp spec fn ytcfg_blob_of(s: Seq<char>) -> Option<Seq<char>>;

/// Relies on regex::Regex::captures with the fixed pattern below: the first
/// captured configuration object in the page, a function of the text alone.
#[verifier::external_body]
fn find_ytcfg_blob(s: &str) -> (r: Option<String>)
    ensures
        match r {
            Some(b) => ytcfg_blob_of(s@) == Some(b@),
            None => ytcfg_blob_of(s@) is None,
        },
{
    let re = regex::Regex::new(r"ytcfg\.set\s*\(\s*(\{.+?\})\s*\)\s*;").unwrap();
    re.captures(s).and_then(|c| c.get(1)).map(|m| m.as_str().to_string())
}

/// Named result of the lookup: the field depends on the two texts alone.
pub uninterp spec fn json_str_field_of(s: Seq<char>, key: Seq<char>) -> Option<Seq<char>>;

/// Relies on serde_json::from_str, Value::get and Value::as_str: the string
/// value at `key` in the top-level object `s` parses to, a function of the
/// two texts alone; `None` when `s` does not parse, the key is absent, or
/// the value is no string.
#[verifier::external_body]
fn json_str_field(s: &str, key: &str) -> (r: Option<String>)
    ensures
        match r {
            Some(v) => json_str_field_of(s@, key@) == Some(v@),
            None => json_str_field_of(s@, key@) is None,
        },
{
    let parsed: serde_json::Value = match serde_json::from_str(s) {
        Ok(v) => v,
        Err(_) => {
            return None;
        },
    };
    match parsed.get(key) {
        Some(v) => v.as_str().map(|x| x.to_string()),
        None => None,
    }
}

/// What `parse_visitor_id` extracts: the visitor-data field of the page's
/// configuration blob.
pub open spec fn visitor_id_of(page: Seq<char>) -> Option<Seq<char>> {
    match ytcfg_blob_of(page) {
        None => None,
        Some(blob) => json_str_field_of(blob, "VISITOR_DATA"@),
    }
}

/// Extract the visitor id a search session must echo back, from the
/// service's landing page.
pub fn parse_visitor_id(page: &str) -> (r: Option<String>)
    ensures
        match r {
            Some(v) => visitor_id_of(page@) == Some(v@),
            None => visitor_id_of(page@) is None,
        },
{
    match find_ytcfg_blob(page) {
        None => None,
        Some(blob) => json_str_field(blob.as_str(), "VISITOR_DATA"),
    }
}

/// Turn one finished search for a track into the pipeline-level outcome:
/// the first valid candidate's watch link is the success, marked as a
/// fallback when the top-ranked candidate was not the one chosen. A search
/// with no candidates at all, or none with a resolvable id, is a retryable
/// failure of the whole item.
pub fn resolve_outcome(results: Option<Vec<SearchResult>>) -> (r: Outcome<String>)
    ensures
        match results {
            None => r is RetryableFailure,
            Some(rs) => match first_valid(rs@) {
                None => r is RetryableFailure,
                Some(i) => (r matches Outcome::Success { output, fallback } && fallback == (i
                    != 0) && (rs@[i].video_id matches Some(id) && output@
                    == "https://music.youtube.com/watch?v="@ + id@)),
            },
        },
{
    let rs = match results {
        None => {
            return Outcome::RetryableFailure;
        },
        Some(rs) => rs,
    };
    if rs.len() == 0 {
        return Outcome::RetryableFailure;
    }
    proof {
        lemma_first_valid(rs@);
    }
    let (choice, fallback) = select_candidate(&rs);
    if !rs[choice].is_valid() {
        // The choice fell back to the top candidate because none is valid.
        return Outcome::RetryableFailure;
    }
    let output = rs[choice].link_or_default();
    Outcome::Success { output, fallback }
}

} // verus!
