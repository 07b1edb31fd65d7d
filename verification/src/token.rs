//! The catalog API access token: expiry bookkeeping and the basic
//! authorization value used to request a fresh one.

use vstd::prelude::*;

use base64::Engine;

verus! {

/// A bearer token from the catalog's client-credentials flow. `granted` is
/// the Unix timestamp the token was received at; a cached token without one
/// counts as expired.
pub struct AccessToken {
    pub access_token: String,
    pub token_type: String,
    /// Lifetime in seconds from `granted`.
    pub expires_in: u64,
    /// Unix timestamp of reception; absent for tokens from older caches.
    pub granted: Option<i64>,
}

impl AccessToken {
    /// Whether the token is expired at time `now`: never granted, or older
    /// than its lifetime.
    pub open spec fn expired_at_spec(self, now: int) -> bool {
        match self.granted {
            None => true,
            Some(g) => now - g > self.expires_in,
        }
    }

    /// Whether the token is expired at time `now` (Unix seconds).
    pub fn expired_at(&self, now: i64) -> (r: bool)
        ensures
            r == self.expired_at_spec(now as int),
    {
        match self.granted {
            None => true,
            Some(g) => {
                // Widen so the subtraction cannot overflow.
                let diff: i128 = (now as i128) - (g as i128);
                diff > (self.expires_in as i128)
            },
        }
    }

    /// Whether the token is expired now, by the system clock: the expiry
    /// rule applied at some present timestamp. A token that was never
    /// granted is expired whatever the clock says.
    pub fn expired(&self) -> (r: bool)
        ensures
            exists|now: int| r == self.expired_at_spec(now),
            self.granted is None ==> r,
    {
        let now = now_timestamp();
        self.expired_at(now)
    }

    /// The bearer value requests authenticate with.
    pub fn as_str(&self) -> (r: &str)
        ensures
            r@ == self.access_token@,
    {
        self.access_token.as_str()
    }
}

/// Relies on chrono::Utc::now and DateTime::timestamp: the current Unix
/// time in whole seconds. Nothing is assumed of the clock's value.
#[verifier::external_body]
pub(crate) fn now_timestamp() -> (r: i64) {
    chrono::Utc::now().timestamp()
}

/// Named result of base64: the encoding depends on the input bytes alone.
pub uninterp spec fn base64_std_of(s: Seq<char>) -> Seq<char>;

/// Relies on base64's `STANDARD` engine `encode`: the padded standard
/// base64 of the input's UTF-8 bytes, a function of the input alone.
#[verifier::external_body]
fn base64_std(s: &str) -> (r: String)
    ensures
        r@ == base64_std_of(s@),
{
    base64::engine::general_purpose::STANDARD.encode(s.as_bytes())
}

/// The `Authorization` value of the token request: `Basic` and the base64
/// of `id:secret`.
pub fn basic_auth_value(id: &str, secret: &str) -> (r: String)
    ensures
        r@ == "Basic "@ + base64_std_of(id@ + ":"@ + secret@),
{
    let mut creds = String::new();
    creds.append(id);
    creds.append(":");
    creds.append(secret);
    let encoded = base64_std(creds.as_str());
    let mut r = String::new();
    r.append("Basic ");
    r.append(encoded.as_str());
    r
}

} // verus!
