//! Text building: separator joins, decimal rendering and the zero-padded
//! output name template handed to the fetch tool.

use vstd::prelude::*;

verus! {

/// The parts joined with `sep` between neighbours: empty for no parts, and
/// no trailing separator.
pub open spec fn join_of(parts: Seq<Seq<char>>, sep: Seq<char>) -> Seq<char>
    decreases parts.len(),
{
    if parts.len() == 0 {
        Seq::empty()
    } else if parts.len() == 1 {
        parts[0]
    } else {
        join_of(parts.drop_last(), sep) + sep + parts.last()
    }
}

/// Join `parts` into one string with separator `sep`.
pub fn join(parts: &Vec<String>, sep: &str) -> (r: String)
    ensures
        r@ == join_of(parts.deep_view(), sep@),
{
    let ghost dv = parts.deep_view();
    let mut r = String::new();
    let mut i: usize = 0;
    while i < parts.len()
        invariant
            i <= parts@.len(),
            dv == parts.deep_view(),
            dv.len() == parts@.len(),
            r@ == join_of(dv.subrange(0, i as int), sep@),
        decreases parts@.len() - i,
    {
        if i > 0 {
            r.append(sep);
        }
        r.append(parts[i].as_str());
        proof {
            let pre = dv.subrange(0, i as int);
            assert(dv.subrange(0, i as int + 1) =~= pre.push(dv[i as int]));
            assert(pre.push(dv[i as int]).drop_last() =~= pre);
            assert(pre.push(dv[i as int]).last() == dv[i as int]);
            assert(parts@[i as int]@ == dv[i as int]);
        }
        i = i + 1;
    }
    proof {
        assert(dv.subrange(0, dv.len() as int) =~= dv);
    }
    r
}

/// Joining, available directly on a collection of parts.
pub trait IterExt {
    /// The parts to be joined, as sequences of characters.
    spec fn parts_view(&self) -> Seq<Seq<char>>;

    /// Joins the parts to a string with separator `sep`.
    fn join(&self, sep: &str) -> (r: String)
        ensures
            r@ == join_of(self.parts_view(), sep@),
    ;
}

impl IterExt for Vec<String> {
    open spec fn parts_view(&self) -> Seq<Seq<char>> {
        self.deep_view()
    }

    fn join(&self, sep: &str) -> (r: String)
        ensures
            r@ == join_of(self.parts_view(), sep@),
    {
        join(self, sep)
    }
}

/// The character for one decimal digit.
pub open spec fn dec_digit(d: nat) -> char {
    if d == 0 {
        '0'
    } else if d == 1 {
        '1'
    } else if d == 2 {
        '2'
    } else if d == 3 {
        '3'
    } else if d == 4 {
        '4'
    } else if d == 5 {
        '5'
    } else if d == 6 {
        '6'
    } else if d == 7 {
        '7'
    } else if d == 8 {
        '8'
    } else {
        '9'
    }
}

/// The decimal rendering of `n`, most significant digit first, no leading
/// zeros (a single zero for zero itself).
pub open spec fn dec_rep(n: nat) -> Seq<char>
    decreases n,
{
    if n < 10 {
        seq![dec_digit(n)]
    } else {
        dec_rep(n / 10).push(dec_digit(n % 10))
    }
}

/// A decimal rendering never has more characters than `n + 1`.
pub proof fn lemma_dec_rep_len(n: nat)
    ensures
        1 <= dec_rep(n).len() <= n + 1,
    decreases n,
{
    if n >= 10 {
        lemma_dec_rep_len(n / 10);
    }
}

/// Append the character of the decimal digit `d`.
fn append_digit(s: &mut String, d: usize)
    requires
        d < 10,
    ensures
        final(s)@ == old(s)@.push(dec_digit(d as nat)),
{
    match d {
        0 => s.append("0"),
        1 => s.append("1"),
        2 => s.append("2"),
        3 => s.append("3"),
        4 => s.append("4"),
        5 => s.append("5"),
        6 => s.append("6"),
        7 => s.append("7"),
        8 => s.append("8"),
        _ => s.append("9"),
    }
    proof {
        reveal_strlit("0");
        reveal_strlit("1");
        reveal_strlit("2");
        reveal_strlit("3");
        reveal_strlit("4");
        reveal_strlit("5");
        reveal_strlit("6");
        reveal_strlit("7");
        reveal_strlit("8");
        reveal_strlit("9");
        assert(final(s)@ =~= old(s)@.push(dec_digit(d as nat)));
    }
}

/// Render `n` in decimal.
pub fn to_decimal_u64(n: u64) -> (r: String)
    ensures
        r@ == dec_rep(n as nat),
    decreases n,
{
    if n < 10 {
        let mut r = String::new();
        append_digit(&mut r, (n % 10) as usize);
        proof {
            assert(r@ =~= dec_rep(n as nat));
        }
        r
    } else {
        let mut r = to_decimal_u64(n / 10);
        append_digit(&mut r, (n % 10) as usize);
        r
    }
}

/// Render `n` in decimal.
pub fn to_decimal(n: usize) -> (r: String)
    ensures
        r@ == dec_rep(n as nat),
{
    to_decimal_u64(n as u64)
}

/// How many characters `n` takes in decimal: the width to which indices are
/// padded is the width of the largest index.
pub fn decimal_width(n: usize) -> (w: usize)
    ensures
        w == dec_rep(n as nat).len(),
    decreases n,
{
    if n < 10 {
        1
    } else {
        proof {
            lemma_dec_rep_len(n as nat / 10);
        }
        1 + decimal_width(n / 10)
    }
}

/// `s` left-padded with zeros to `width` characters; unchanged when already
/// that wide.
pub open spec fn zero_pad(s: Seq<char>, width: nat) -> Seq<char> {
    if s.len() >= width {
        s
    } else {
        Seq::new((width - s.len()) as nat, |i: int| '0') + s
    }
}

/// Render `n` in decimal, left-padded with zeros to `width` characters, so
/// that file names of equally padded indices sort lexicographically in index
/// order.
pub fn padded_decimal(n: usize, width: usize) -> (r: String)
    ensures
        r@ == zero_pad(dec_rep(n as nat), width as nat),
{
    let digits = to_decimal(n);
    let len0 = digits.as_str().unicode_len();
    let mut r = String::new();
    let mut k: usize = 0;
    while len0 + k < width
        invariant
            len0 == dec_rep(n as nat).len(),
            len0 + k <= usize::MAX,
            k == 0 || len0 + k <= width,
            r@ =~= Seq::new(k as nat, |i: int| '0'),
        decreases width - k - len0,
    {
        r.append("0");
        proof {
            reveal_strlit("0");
            assert(r@ =~= Seq::new((k + 1) as nat, |i: int| '0'));
        }
        k = k + 1;
    }
    r.append(digits.as_str());
    proof {
        if len0 >= width {
            assert(r@ =~= dec_rep(n as nat));
        } else {
            assert(r@ =~= zero_pad(dec_rep(n as nat), width as nat));
        }
    }
    r
}

/// The output name template handed to the fetch tool for one track: the
/// zero-padded track number, then the tool's own title, id and extension
/// fields.
pub fn output_template(track: usize, width: usize) -> (r: String)
    ensures
        r@ == zero_pad(dec_rep(track as nat), width as nat)
            + " - %(title)s [%(id)s].%(ext)s"@,
{
    let mut r = padded_decimal(track, width);
    r.append(" - %(title)s [%(id)s].%(ext)s");
    r
}

} // verus!
