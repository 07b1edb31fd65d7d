use sptfydl::token::{basic_auth_value, AccessToken};
use sptfydl::ytauth::{parse_cookie, to_hex, Browser};

#[test]
fn basic_auth_is_base64_of_credentials() {
    // base64("id:secret") with standard padding.
    assert_eq!(basic_auth_value("id", "secret"), "Basic aWQ6c2VjcmV0");
    assert_eq!(basic_auth_value("", ""), "Basic Og==");
}

#[test]
fn signed_decimals() {
    assert_eq!(sptfydl::ytauth::i64_to_decimal(0), "0");
    assert_eq!(sptfydl::ytauth::i64_to_decimal(1700000000), "1700000000");
    assert_eq!(sptfydl::ytauth::i64_to_decimal(-45), "-45");
    assert_eq!(sptfydl::ytauth::i64_to_decimal(i64::MIN), "-9223372036854775808");
}

#[test]
fn hex_rendering() {
    assert_eq!(to_hex(&vec![]), "");
    assert_eq!(to_hex(&vec![0x00, 0xff, 0x1a]), "00ff1a");
}

#[test]
fn browser_header_shape() {
    // The header is the prefix, a timestamp, and forty hex digits of the
    // SHA-1 digest; a digest that echoed its input would not be hex of
    // that length.
    let b = Browser::new("some-cookie-value");
    let auth = b.into_inner();
    let rest = auth.strip_prefix("SAPISIDHASH ").expect("prefix");
    let (ts, hash) = rest.split_once('_').expect("separator");
    assert!(!ts.is_empty());
    assert!(ts.chars().all(|c| c.is_ascii_digit() || c == '-'));
    assert_eq!(hash.len(), 40);
    assert!(hash.chars().all(|c| c.is_ascii_hexdigit()));
}

#[test]
fn cookie_from_header_line() {
    let input = "Cookie: a=1; __Secure-3PAPISID=the-value; b=2";
    assert_eq!(parse_cookie(input), Some("the-value"));
}

#[test]
fn cookie_from_header_block() {
    let input = "Accept: */*\nCookie: x=9;  __Secure-3PAPISID=abc\nHost: h";
    assert_eq!(parse_cookie(input), Some("abc"));
}

#[test]
fn cookie_from_crlf_header_block() {
    // A block pasted from a CRLF source reads the same as an LF one: no
    // carriage return sticks to the extracted value.
    let input = "Accept: */*\r\nCookie: x=9; __Secure-3PAPISID=abc\r\nHost: h\r\n";
    assert_eq!(parse_cookie(input), Some("abc"));
}

#[test]
fn cookie_missing() {
    assert_eq!(parse_cookie("Accept: */*\nHost: h"), None);
    assert_eq!(parse_cookie("Cookie: a=1; b=2"), None);
    assert_eq!(parse_cookie("Cookie: __Secure-3PAPISID"), None);
}

#[test]
fn token_expiry() {
    let t = AccessToken {
        access_token: "tok".to_string(),
        token_type: "Bearer".to_string(),
        expires_in: 3600,
        granted: Some(1_000_000),
    };
    assert!(!t.expired_at(1_000_000 + 3600));
    assert!(t.expired_at(1_000_000 + 3601));
    let never = AccessToken {
        access_token: "tok".to_string(),
        token_type: "Bearer".to_string(),
        expires_in: 3600,
        granted: None,
    };
    assert!(never.expired());
    assert_eq!(t.as_str(), "tok");
}
