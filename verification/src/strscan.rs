//! Character-level string scanning: prefix and suffix tests, separator
//! splitting, and leading-whitespace trimming, each against a mathematical
//! definition over the string's characters.

use vstd::prelude::*;

verus! {

/// Position of the first occurrence of `sep` in `s`, if any.
pub open spec fn find_sep(s: Seq<char>, sep: char) -> Option<int>
    decreases s.len(),
{
    if s.len() == 0 {
        None
    } else if s[0] == sep {
        Some(0)
    } else {
        match find_sep(s.drop_first(), sep) {
            None => None,
            Some(i) => Some(i + 1),
        }
    }
}

/// `find_sep` names the first occurrence: a separator at its index, none
/// before it, and none at all when it is `None`.
pub proof fn lemma_find_sep(s: Seq<char>, sep: char)
    ensures
        match find_sep(s, sep) {
            Some(i) => 0 <= i < s.len() && s[i] == sep && forall|j: int|
                0 <= j < i ==> s[j] != sep,
            None => forall|j: int| 0 <= j < s.len() ==> s[j] != sep,
        },
    decreases s.len(),
{
    if s.len() > 0 && s[0] != sep {
        lemma_find_sep(s.drop_first(), sep);
        match find_sep(s.drop_first(), sep) {
            Some(i) => {
                assert forall|j: int| 0 <= j < i + 1 implies s[j] != sep by {
                    if j > 0 {
                        assert(s.drop_first()[j - 1] != sep);
                    }
                }
            },
            None => {
                assert forall|j: int| 0 <= j < s.len() implies s[j] != sep by {
                    if j > 0 {
                        assert(s.drop_first()[j - 1] != sep);
                    }
                }
            },
        }
    }
}

/// Conversely, the first occurrence determines `find_sep`.
pub proof fn lemma_find_sep_at(s: Seq<char>, sep: char, i: int)
    requires
        0 <= i < s.len(),
        s[i] == sep,
        forall|j: int| 0 <= j < i ==> s[j] != sep,
    ensures
        find_sep(s, sep) == Some(i),
    decreases s.len(),
{
    if i > 0 {
        lemma_find_sep_at(s.drop_first(), sep, i - 1);
    }
}

/// A whole string free of the separator has no first occurrence.
pub proof fn lemma_find_sep_none(s: Seq<char>, sep: char)
    requires
        forall|j: int| 0 <= j < s.len() ==> s[j] != sep,
    ensures
        find_sep(s, sep) == None::<int>,
    decreases s.len(),
{
    if s.len() > 0 {
        lemma_find_sep_none(s.drop_first(), sep);
    }
}

/// `s` split at every occurrence of `sep`: the pieces between separators, in
/// order, separators not included. A string without separators is one piece;
/// every separator adds a piece.
pub open spec fn split_of(s: Seq<char>, sep: char) -> Seq<Seq<char>>
    decreases s.len(),
{
    match find_sep(s, sep) {
        None => seq![s],
        Some(i) => {
            if 0 <= i < s.len() {
                seq![s.take(i)] + split_of(s.skip(i + 1), sep)
            } else {
                seq![s]
            }
        },
    }
}

/// Whether `prefix` begins `s`.
pub open spec fn has_prefix(s: Seq<char>, prefix: Seq<char>) -> bool {
    s.len() >= prefix.len() && s.take(prefix.len() as int) == prefix
}

/// Whether `suffix` ends `s`.
pub open spec fn has_suffix(s: Seq<char>, suffix: Seq<char>) -> bool {
    s.len() >= suffix.len() && s.skip(s.len() - suffix.len()) == suffix
}

/// Whether `prefix` begins `s`.
pub fn str_starts_with(s: &str, prefix: &str) -> (r: bool)
    ensures
        r == has_prefix(s@, prefix@),
{
    let n = s.unicode_len();
    let pn = prefix.unicode_len();
    if n < pn {
        proof {
            assert(!has_prefix(s@, prefix@));
        }
        return false;
    }
    let mut i: usize = 0;
    while i < pn
        invariant
            i <= pn,
            pn <= n,
            n == s@.len(),
            pn == prefix@.len(),
            forall|j: int| 0 <= j < i ==> s@[j] == prefix@[j],
        decreases pn - i,
    {
        if s.get_char(i) != prefix.get_char(i) {
            proof {
                assert(s@.take(pn as int)[i as int] != prefix@[i as int]);
            }
            return false;
        }
        i = i + 1;
    }
    proof {
        assert(s@.take(pn as int) =~= prefix@);
    }
    true
}

/// Whether `suffix` ends `s`.
pub fn str_ends_with(s: &str, suffix: &str) -> (r: bool)
    ensures
        r == has_suffix(s@, suffix@),
{
    let n = s.unicode_len();
    let sn = suffix.unicode_len();
    if n < sn {
        proof {
            assert(!has_suffix(s@, suffix@));
        }
        return false;
    }
    let base = n - sn;
    let mut i: usize = 0;
    while i < sn
        invariant
            i <= sn,
            sn <= n,
            n == s@.len(),
            sn == suffix@.len(),
            base == n - sn,
            forall|j: int| 0 <= j < i ==> s@[base + j] == suffix@[j],
        decreases sn - i,
    {
        if s.get_char(base + i) != suffix.get_char(i) {
            proof {
                assert(s@.skip(base as int)[i as int] != suffix@[i as int]);
            }
            return false;
        }
        i = i + 1;
    }
    proof {
        assert(s@.skip(base as int) =~= suffix@);
    }
    true
}

/// Position of the first occurrence of `sep` at or after `start`.
pub fn find_char_from(s: &str, sep: char, start: usize) -> (r: Option<usize>)
    requires
        start <= s@.len(),
    ensures
        match r {
            Some(i) => start <= i < s@.len() && s@[i as int] == sep && forall|j: int|
                start <= j < i ==> s@[j] != sep,
            None => forall|j: int| start <= j < s@.len() ==> s@[j] != sep,
        },
{
    let n = s.unicode_len();
    let mut i = start;
    while i < n
        invariant
            start <= i <= n,
            n == s@.len(),
            forall|j: int| start <= j < i ==> s@[j] != sep,
        decreases n - i,
    {
        if s.get_char(i) == sep {
            return Some(i);
        }
        i = i + 1;
    }
    None
}

/// Split `s` at every occurrence of `sep`, as borrowed pieces of `s`.
pub fn split_str<'a>(s: &'a str, sep: char) -> (r: Vec<&'a str>)
    ensures
        r.deep_view() == split_of(s@, sep),
        r@.len() >= 1,
{
    let n = s.unicode_len();
    let mut pieces: Vec<&'a str> = Vec::new();
    let mut cursor: usize = 0;
    proof {
        assert(s@.skip(0) =~= s@);
        assert(pieces.deep_view() =~= Seq::<Seq<char>>::empty());
        assert(pieces.deep_view() + split_of(s@, sep) =~= split_of(s@, sep));
    }
    loop
        invariant
            cursor <= n,
            n == s@.len(),
            // Pieces found so far, then what splitting the rest yields.
            split_of(s@, sep) == pieces.deep_view() + split_of(
                s@.skip(cursor as int),
                sep,
            ),
        ensures
            cursor <= n,
            n == s@.len(),
            split_of(s@, sep) == pieces.deep_view() + split_of(s@.skip(cursor as int), sep),
            forall|j: int| cursor <= j < s@.len() ==> s@[j] != sep,
        decreases n + 1 - cursor,
    {
        match find_char_from(s, sep, cursor) {
            None => {
                break;
            },
            Some(i) => {
                let ghost rest = s@.skip(cursor as int);
                let piece = s.substring_char(cursor, i);
                proof {
                    assert(rest[i - cursor] == sep);
                    assert forall|j: int| 0 <= j < i - cursor implies rest[j] != sep by {
                        assert(s@[cursor + j] != sep);
                    }
                    lemma_find_sep_at(rest, sep, i - cursor);
                    assert(rest.take(i - cursor) =~= s@.subrange(cursor as int, i as int));
                    assert(rest.skip(i - cursor + 1) =~= s@.skip(i + 1));
                    assert(split_of(rest, sep) == seq![piece@] + split_of(s@.skip(i + 1), sep));
                }
                pieces.push(piece);
                proof {
                    assert(pieces.deep_view() =~= pieces.deep_view().subrange(
                        0,
                        pieces.deep_view().len() - 1,
                    ).push(piece@));
                    assert(split_of(s@, sep) =~= pieces.deep_view() + split_of(
                        s@.skip(i + 1),
                        sep,
                    ));
                }
                cursor = i + 1;
            },
        }
    }
    let last = s.substring_char(cursor, n);
    proof {
        let rest = s@.skip(cursor as int);
        lemma_find_sep_none(rest, sep);
        assert(rest =~= s@.subrange(cursor as int, n as int));
        assert(split_of(rest, sep) == seq![rest]);
        assert(pieces.deep_view().push(last@) =~= pieces.deep_view() + seq![last@]);
    }
    pieces.push(last);
    proof {
        assert(pieces.deep_view() =~= split_of(s@, sep));
    }
    pieces
}

/// Whether `needle` occurs contiguously anywhere in `s`.
pub open spec fn has_substring(s: Seq<char>, needle: Seq<char>) -> bool {
    exists|k: int|
        0 <= k <= s.len() - needle.len() && #[trigger] s.subrange(k, k + needle.len()) == needle
}

/// Whether the characters of `needle` stand in `s` at position `k`.
fn matches_at(s: &str, k: usize, needle: &str) -> (r: bool)
    requires
        k + needle@.len() <= s@.len(),
    ensures
        r == (s@.subrange(k as int, k + needle@.len()) == needle@),
{
    let n = s.unicode_len();
    let m = needle.unicode_len();
    let mut j: usize = 0;
    while j < m
        invariant
            j <= m,
            n == s@.len(),
            m == needle@.len(),
            k + m <= n,
            forall|q: int| 0 <= q < j ==> s@[k + q] == needle@[q],
        decreases m - j,
    {
        if s.get_char(k + j) != needle.get_char(j) {
            proof {
                assert(s@.subrange(k as int, k + needle@.len())[j as int] != needle@[j as int]);
            }
            return false;
        }
        j = j + 1;
    }
    proof {
        assert(s@.subrange(k as int, k + needle@.len()) =~= needle@);
    }
    true
}

/// Whether `needle` occurs anywhere in `s`.
pub fn str_contains(s: &str, needle: &str) -> (r: bool)
    ensures
        r == has_substring(s@, needle@),
{
    let n = s.unicode_len();
    let m = needle.unicode_len();
    if m > n {
        proof {
            assert(!has_substring(s@, needle@));
        }
        return false;
    }
    if m == 0 {
        proof {
            assert(s@.subrange(0, 0 + needle@.len() as int) =~= needle@);
            assert(has_substring(s@, needle@));
        }
        return true;
    }
    let mut k: usize = 0;
    while k <= n - m
        invariant
            1 <= m <= n,
            n == s@.len(),
            m == needle@.len(),
            k <= n - m + 1,
            forall|kk: int|
                0 <= kk < k ==> #[trigger] s@.subrange(kk, kk + needle@.len()) != needle@,
        ensures
            k <= n - m + 1,
            n == s@.len(),
            m == needle@.len(),
            forall|kk: int|
                0 <= kk < k ==> #[trigger] s@.subrange(kk, kk + needle@.len()) != needle@,
            k <= n - m ==> s@.subrange(k as int, k + needle@.len()) == needle@,
        decreases n - m + 1 - k,
    {
        if matches_at(s, k, needle) {
            break;
        }
        k = k + 1;
    }
    if k <= n - m {
        proof {
            assert(has_substring(s@, needle@));
        }
        true
    } else {
        proof {
            assert forall|kk: int|
                !(0 <= kk <= s@.len() - needle@.len() && #[trigger] s@.subrange(
                    kk,
                    kk + needle@.len(),
                ) == needle@) by {
                if 0 <= kk <= s@.len() - needle@.len() {
                    assert(kk < k);
                    assert(s@.subrange(kk, kk + needle@.len()) != needle@);
                }
            }
            assert(!has_substring(s@, needle@));
        }
        false
    }
}

/// `l` without one trailing carriage return — what a line split at newlines
/// carries when the text uses CRLF line endings.
pub open spec fn strip_cr(l: Seq<char>) -> Seq<char> {
    if l.len() > 0 && l.last() == '\r' {
        l.drop_last()
    } else {
        l
    }
}

/// Remove one trailing carriage return, if present.
pub fn strip_trailing_cr<'a>(s: &'a str) -> (r: &'a str)
    ensures
        r@ == strip_cr(s@),
{
    let n = s.unicode_len();
    if n > 0 && s.get_char(n - 1) == '\r' {
        let r = s.substring_char(0, n - 1);
        proof {
            assert(s@.subrange(0, n - 1) =~= s@.drop_last());
        }
        r
    } else {
        s
    }
}

/// Whether `c` is the ASCII whitespace that leading trims remove.
pub open spec fn is_ascii_ws(c: char) -> bool {
    c == ' ' || c == '\t' || c == '\n' || c == '\r' || c == '\x0c'
}

/// `s` without its leading ASCII whitespace.
pub open spec fn trimmed_start(s: Seq<char>) -> Seq<char>
    decreases s.len(),
{
    if s.len() == 0 {
        s
    } else if is_ascii_ws(s[0]) {
        trimmed_start(s.drop_first())
    } else {
        s
    }
}

/// Trim leading ASCII whitespace.
pub fn trim_ascii_start<'a>(s: &'a str) -> (r: &'a str)
    ensures
        r@ == trimmed_start(s@),
{
    let n = s.unicode_len();
    let mut i: usize = 0;
    proof {
        assert(s@.skip(0) =~= s@);
    }
    while i < n
        invariant
            i <= n,
            n == s@.len(),
            trimmed_start(s@) == trimmed_start(s@.skip(i as int)),
        ensures
            i <= n,
            n == s@.len(),
            trimmed_start(s@) == trimmed_start(s@.skip(i as int)),
            i < n ==> !is_ascii_ws(s@[i as int]),
        decreases n - i,
    {
        let c = s.get_char(i);
        if !(c == ' ' || c == '\t' || c == '\n' || c == '\r' || c == '\x0c') {
            break;
        }
        proof {
            assert(s@.skip(i as int).drop_first() =~= s@.skip(i + 1));
        }
        i = i + 1;
    }
    let r = s.substring_char(i, n);
    proof {
        assert(s@.skip(i as int) =~= s@.subrange(i as int, n as int));
        if i < n {
            assert(!is_ascii_ws(s@.skip(i as int)[0]));
        }
    }
    r
}

} // verus!
