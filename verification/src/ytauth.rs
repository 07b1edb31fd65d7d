//! Authentication for the music search service: the SAPISID authorization
//! header derived from a browser cookie, and the cookie parsing itself.

use vstd::prelude::*;

use crate::strscan::{
    has_prefix, split_of, split_str, str_starts_with, strip_cr, strip_trailing_cr,
    trim_ascii_start, trimmed_start,
};
use crate::textutil::{dec_rep, to_decimal_u64};

use sha1::Digest;

verus! {

/// Named result of SHA-1: the digest depends on the input bytes alone.
pub uninterp spec fn sha1_of(s: Seq<char>) -> Seq<u8>;

/// Relies on sha1::Sha1::digest: the 20-byte SHA-1 digest of the input's
/// UTF-8 bytes, a function of the input alone.
#[verifier::external_body]
fn sha1_digest(input: &str) -> (r: Vec<u8>)
    ensures
        r@ == sha1_of(input@),
        r@.len() == 20,
{
    sha1::Sha1::digest(input.as_bytes()).to_vec()
}

/// The character for one hexadecimal digit.
pub open spec fn hex_digit(d: nat) -> char {
    if d < 10 {
        crate::textutil::dec_digit(d)
    } else if d == 10 {
        'a'
    } else if d == 11 {
        'b'
    } else if d == 12 {
        'c'
    } else if d == 13 {
        'd'
    } else if d == 14 {
        'e'
    } else {
        'f'
    }
}

/// Lower-case hex rendering of bytes, two digits per byte.
pub open spec fn hex_of(bytes: Seq<u8>) -> Seq<char>
    decreases bytes.len(),
{
    if bytes.len() == 0 {
        Seq::empty()
    } else {
        hex_of(bytes.drop_last()) + seq![
            hex_digit((bytes.last() / 16) as nat),
            hex_digit((bytes.last() % 16) as nat),
        ]
    }
}

/// Append the character of one hexadecimal digit.
fn append_hex_digit(s: &mut String, d: u8)
    requires
        d < 16,
    ensures
        final(s)@ == old(s)@.push(hex_digit(d as nat)),
{
    match d {
        0 => s.append("0"),
        1 => s.append("1"),
        2 => s.append("2"),
        3 => s.append("3"),
        4 => s.append("4"),
        5 => s.append("5"),
        6 => s.append("6"),
        7 => s.append("7"),
        8 => s.append("8"),
        9 => s.append("9"),
        10 => s.append("a"),
        11 => s.append("b"),
        12 => s.append("c"),
        13 => s.append("d"),
        14 => s.append("e"),
        _ => s.append("f"),
    }
    proof {
        reveal_strlit("0");
        reveal_strlit("1");
        reveal_strlit("2");
        reveal_strlit("3");
        reveal_strlit("4");
        reveal_strlit("5");
        reveal_strlit("6");
        reveal_strlit("7");
        reveal_strlit("8");
        reveal_strlit("9");
        reveal_strlit("a");
        reveal_strlit("b");
        reveal_strlit("c");
        reveal_strlit("d");
        reveal_strlit("e");
        reveal_strlit("f");
        assert(final(s)@ =~= old(s)@.push(hex_digit(d as nat)));
    }
}

/// Render bytes in lower-case hex.
pub fn to_hex(bytes: &Vec<u8>) -> (r: String)
    ensures
        r@ == hex_of(bytes@),
{
    let mut r = String::new();
    let mut i: usize = 0;
    while i < bytes.len()
        invariant
            i <= bytes@.len(),
            r@ == hex_of(bytes@.subrange(0, i as int)),
        decreases bytes@.len() - i,
    {
        let b = bytes[i];
        append_hex_digit(&mut r, b / 16);
        append_hex_digit(&mut r, b % 16);
        proof {
            let pre = bytes@.subrange(0, i as int);
            assert(bytes@.subrange(0, i as int + 1) =~= pre.push(bytes@[i as int]));
            assert(pre.push(bytes@[i as int]).drop_last() =~= pre);
            assert(r@ =~= hex_of(bytes@.subrange(0, i as int + 1)));
        }
        i = i + 1;
    }
    proof {
        assert(bytes@.subrange(0, bytes@.len() as int) =~= bytes@);
    }
    r
}

/// Decimal rendering of a signed value: a minus sign before the magnitude.
pub open spec fn signed_dec_rep(n: int) -> Seq<char> {
    if n < 0 {
        seq!['-'] + dec_rep((-n) as nat)
    } else {
        dec_rep(n as nat)
    }
}

/// Render a signed value in decimal.
pub fn i64_to_decimal(n: i64) -> (r: String)
    ensures
        r@ == signed_dec_rep(n as int),
{
    if n >= 0 {
        let r = to_decimal_u64(n as u64);
        r
    } else {
        // The magnitude of the most negative value still fits unsigned.
        let mag: u64 = ((-(n + 1)) as u64) + 1;
        let mut r = String::new();
        r.append("-");
        let digits = to_decimal_u64(mag);
        r.append(digits.as_str());
        proof {
            reveal_strlit("-");
            assert(r@ =~= signed_dec_rep(n as int));
        }
        r
    }
}

/// The text whose SHA-1 digest authenticates a search request: timestamp,
/// SAPISID cookie value, and the service origin, space-separated.
pub open spec fn sapisid_message(ts: int, sapisid: Seq<char>) -> Seq<char> {
    signed_dec_rep(ts) + " "@ + sapisid + " https://music.youtube.com"@
}

/// The authorization header value for one timestamp.
pub open spec fn sapisid_header(ts: int, sapisid: Seq<char>) -> Seq<char> {
    "SAPISIDHASH "@ + signed_dec_rep(ts) + "_"@ + hex_of(sha1_of(sapisid_message(ts, sapisid)))
}

/// The browser-style authentication for the search service: a SAPISID hash
/// header derived from the cookie value and the current time.
pub struct Browser {
    auth: String,
}

impl Browser {
    /// The header value this browser authenticates with.
    pub closed spec fn auth_spec(self) -> Seq<char> {
        self.auth@
    }

    /// Build the authorization header from a SAPISID cookie value: the
    /// SHA-1 hash of timestamp, cookie and origin, at some present
    /// timestamp.
    pub fn new(sapisid: &str) -> (r: Browser)
        ensures
            exists|ts: int| r.auth_spec() == sapisid_header(ts, sapisid@),
    {
        let timestamp = crate::token::now_timestamp();
        let ts_str = i64_to_decimal(timestamp);
        let mut message = String::new();
        message.append(ts_str.as_str());
        message.append(" ");
        message.append(sapisid);
        message.append(" https://music.youtube.com");
        let digest = sha1_digest(message.as_str());
        let hash = to_hex(&digest);
        let mut auth = String::new();
        auth.append("SAPISIDHASH ");
        auth.append(ts_str.as_str());
        auth.append("_");
        auth.append(hash.as_str());
        proof {
            assert(message@ == sapisid_message(timestamp as int, sapisid@));
            assert(auth@ == sapisid_header(timestamp as int, sapisid@));
        }
        Browser { auth }
    }

    /// The header value, for the request sender.
    pub fn as_str(&self) -> (r: &str)
        ensures
            r@ == self.auth_spec(),
    {
        self.auth.as_str()
    }

    /// Hand the header value out by value.
    pub fn into_inner(self) -> (r: String)
        ensures
            r@ == self.auth_spec(),
    {
        self.auth
    }
}

/// The cookie name whose value authenticates the browser session.
pub open spec fn sapisid_cookie_name() -> Seq<char> {
    "__Secure-3PAPISID"@
}

/// The first of `ls` that begins with `prefix`.
pub open spec fn first_with_prefix(ls: Seq<Seq<char>>, prefix: Seq<char>) -> Option<Seq<char>>
    decreases ls.len(),
{
    if ls.len() == 0 {
        None
    } else if has_prefix(ls.first(), prefix) {
        Some(ls.first())
    } else {
        first_with_prefix(ls.drop_first(), prefix)
    }
}

/// The first of `cs` whose leading whitespace is followed by the SAPISID
/// cookie name.
pub open spec fn first_sapisid_cookie(cs: Seq<Seq<char>>) -> Option<Seq<char>>
    decreases cs.len(),
{
    if cs.len() == 0 {
        None
    } else if has_prefix(trimmed_start(cs.first()), sapisid_cookie_name()) {
        Some(cs.first())
    } else {
        first_sapisid_cookie(cs.drop_first())
    }
}

/// The header lines of a pasted block: newline-separated, each without one
/// trailing carriage return, so CRLF blocks read the same as LF blocks.
pub open spec fn lines_of(input: Seq<char>) -> Seq<Seq<char>> {
    split_of(input, '\n').map_values(|l: Seq<char>| strip_cr(l))
}

/// What `parse_cookie` extracts: take the `Cookie:` header line (the input
/// itself if it already is one), the SAPISID cookie among its
/// semicolon-separated cookies, and the value after the first equals sign.
pub open spec fn cookie_value_of(input: Seq<char>) -> Option<Seq<char>> {
    let header = if has_prefix(input, "Cookie: "@) {
        Some(input)
    } else {
        first_with_prefix(lines_of(input), "Cookie: "@)
    };
    match header {
        None => None,
        Some(h) => match first_sapisid_cookie(split_of(h, ';')) {
            None => None,
            Some(c) => {
                let parts = split_of(c, '=');
                if parts.len() >= 2 {
                    Some(parts[1])
                } else {
                    None
                }
            },
        },
    }
}

/// Find the SAPISID cookie value in a pasted `Cookie:` header, or in a block
/// of header lines holding one; CRLF and LF header blocks read alike.
pub fn parse_cookie<'a>(input: &'a str) -> (r: Option<&'a str>)
    ensures
        match r {
            Some(v) => cookie_value_of(input@) == Some(v@),
            None => cookie_value_of(input@) is None,
        },
{
    let header: &str = if str_starts_with(input, "Cookie: ") {
        input
    } else {
        let ls = split_str(input, '\n');
        let ghost lines_v = lines_of(input@);
        let mut j: usize = 0;
        let mut found: Option<&str> = None;
        proof {
            assert(lines_v.skip(0) =~= lines_v);
        }
        while j < ls.len()
            invariant_except_break
                found is None,
                first_with_prefix(lines_v, "Cookie: "@) == first_with_prefix(
                    lines_v.skip(j as int),
                    "Cookie: "@,
                ),
            invariant
                j <= ls@.len(),
                lines_v == lines_of(input@),
                ls.deep_view() == split_of(input@, '\n'),
                lines_v.len() == ls@.len(),
                forall|q: int|
                    0 <= q < ls@.len() ==> #[trigger] lines_v[q] == strip_cr(ls.deep_view()[q]),
            ensures
                j <= ls@.len(),
                lines_v.len() == ls@.len(),
                match found {
                    Some(l) => first_with_prefix(lines_v, "Cookie: "@) == Some(l@),
                    None => first_with_prefix(lines_v, "Cookie: "@) is None && j == ls@.len(),
                },
            decreases ls@.len() - j,
        {
            proof {
                assert(lines_v.skip(j as int).first() == lines_v[j as int]);
                assert(lines_v.skip(j as int).drop_first() =~= lines_v.skip(j as int + 1));
                assert(ls@[j as int]@ == ls.deep_view()[j as int]);
                assert(lines_v[j as int] == strip_cr(ls@[j as int]@));
            }
            let line = strip_trailing_cr(ls[j]);
            if str_starts_with(line, "Cookie: ") {
                found = Some(line);
                proof {
                    assert(first_with_prefix(lines_v.skip(j as int), "Cookie: "@) == Some(
                        lines_v[j as int],
                    ));
                }
                break;
            }
            j = j + 1;
        }
        match found {
            Some(l) => l,
            None => {
                return None;
            },
        }
    };
    let cookies = split_str(header, ';');
    let ghost cookies_v = cookies.deep_view();
    let mut j: usize = 0;
    let mut the_cookie: Option<&str> = None;
    proof {
        assert(cookies_v.skip(0) =~= cookies_v);
    }
    while j < cookies.len()
        invariant_except_break
            the_cookie is None,
            first_sapisid_cookie(cookies_v) == first_sapisid_cookie(cookies_v.skip(j as int)),
        invariant
            j <= cookies@.len(),
            cookies_v == cookies.deep_view(),
            cookies_v.len() == cookies@.len(),
        ensures
            j <= cookies@.len(),
            cookies_v.len() == cookies@.len(),
            match the_cookie {
                Some(c) => first_sapisid_cookie(cookies_v) == Some(c@),
                None => first_sapisid_cookie(cookies_v) is None,
            },
        decreases cookies@.len() - j,
    {
        proof {
            assert(cookies_v.skip(j as int).first() == cookies_v[j as int]);
            assert(cookies_v.skip(j as int).drop_first() =~= cookies_v.skip(j as int + 1));
            assert(cookies@[j as int]@ == cookies_v[j as int]);
        }
        let t = trim_ascii_start(cookies[j]);
        if str_starts_with(t, "__Secure-3PAPISID") {
            the_cookie = Some(cookies[j]);
            proof {
                assert(first_sapisid_cookie(cookies_v.skip(j as int)) == Some(
                    cookies_v[j as int],
                ));
            }
            break;
        }
        j = j + 1;
    }
    let c = match the_cookie {
        Some(c) => c,
        None => {
            return None;
        },
    };
    let parts = split_str(c, '=');
    if parts.len() >= 2 {
        proof {
            assert(parts@[1]@ == parts.deep_view()[1]);
        }
        Some(parts[1])
    } else {
        None
    }
}

} // verus!
