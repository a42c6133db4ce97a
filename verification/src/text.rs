//! Character-level text helpers shared by the readers and the renderers.

use vstd::prelude::*;
use vstd::string::*;

verus! {

/// `n` copies of `c`.
pub open spec fn repeat_char(c: char, n: nat) -> Seq<char> {
    Seq::new(n, |_i: int| c)
}

/// Whether two strings hold the same characters.
pub fn same_text(a: &str, b: &str) -> (r: bool)
    ensures
        r == (a@ == b@),
{
    let x: String = a.to_owned();
    let y: String = b.to_owned();
    x == y
}

/// Number of characters (not bytes) of `s`.
pub fn char_count(s: &str) -> (n: usize)
    ensures
        n == s@.len(),
{
    s.unicode_len()
}

/// Appends `n` spaces to `out`.
pub fn push_spaces(out: &mut String, n: usize)
    ensures
        final(out)@ == old(out)@ + repeat_char(' ', n as nat),
{
    let mut i: usize = 0;
    while i < n
        invariant
            i <= n,
            out@ == old(out)@ + repeat_char(' ', i as nat),
        decreases n - i,
    {
        proof {
            reveal_strlit(" ");
        }
        out.append(" ");
        i = i + 1;
        assert(out@ =~= old(out)@ + repeat_char(' ', i as nat));
    }
}

/// Appends the `i`-th character of `s` to `out`.
pub fn push_char_of(out: &mut String, s: &str, i: usize)
    requires
        i < s@.len() <= usize::MAX,
    ensures
        final(out)@ == old(out)@.push(s@[i as int]),
{
    let c = s.substring_char(i, i + 1);
    out.append(c);
    assert(c@ =~= seq![s@[i as int]]);
    assert(final(out)@ =~= old(out)@.push(s@[i as int]));
}

/// `s` padded on the right with spaces to `w` characters.
pub open spec fn spec_ljust(s: Seq<char>, w: int) -> Seq<char> {
    s + repeat_char(' ', if w > s.len() { (w - s.len()) as nat } else { 0 })
}

/// `s` padded on the left with spaces to `w` characters.
pub open spec fn spec_rjust(s: Seq<char>, w: int) -> Seq<char> {
    repeat_char(' ', if w > s.len() { (w - s.len()) as nat } else { 0 }) + s
}

/// Left-justify `s` to `w` columns (padding on the right).
pub fn ljust(s: &str, w: usize) -> (r: String)
    ensures
        r@ == spec_ljust(s@, w as int),
{
    let n = char_count(s);
    let pad = w.saturating_sub(n);
    let mut out: String = s.to_owned();
    push_spaces(&mut out, pad);
    out
}

/// Right-justify `s` to `w` columns (padding on the left).
pub fn rjust(s: &str, w: usize) -> (r: String)
    ensures
        r@ == spec_rjust(s@, w as int),
{
    let n = char_count(s);
    let pad = w.saturating_sub(n);
    let mut out = String::new();
    push_spaces(&mut out, pad);
    out.append(s);
    out
}

/// Spaces put to the left of a string of `n` characters centred in `w`
/// columns, following Python's `str.center`.
pub open spec fn center_left(n: int, w: int) -> int {
    let marg = w - n;
    marg / 2 + (if marg % 2 == 1 && w % 2 == 1 { 1int } else { 0int })
}

/// `s` centred in `w` columns as Python's `str.center` does.
pub open spec fn spec_center(s: Seq<char>, w: int) -> Seq<char> {
    if w <= s.len() {
        s
    } else {
        let left = center_left(s.len() as int, w);
        repeat_char(' ', left as nat) + s + repeat_char(' ', (w - s.len() - left) as nat)
    }
}

/// Center `s` in `w` columns, matching Python's `str.center` (the odd extra
/// space goes left exactly when both the margin and the width are odd).
pub fn py_center(s: &str, w: usize) -> (r: String)
    ensures
        r@ == spec_center(s@, w as int),
{
    let n = char_count(s);
    if w <= n {
        return s.to_owned();
    }
    let marg = w - n;
    let odd: usize = if marg % 2 == 1 && w % 2 == 1 { 1 } else { 0 };
    let left = marg / 2 + odd;
    let mut out = String::new();
    push_spaces(&mut out, left);
    out.append(s);
    push_spaces(&mut out, marg - left);
    out
}

/// A non-negative number's text gets a leading space, reserving the slot a
/// minus sign would take.
pub open spec fn spec_lead_num(neg: bool, s: Seq<char>) -> Seq<char> {
    if neg { s } else { seq![' '] + s }
}

/// Prepend a leading sign-space to a non-negative numeric string.
pub fn lead_num(neg: bool, s: String) -> (r: String)
    ensures
        r@ == spec_lead_num(neg, s@),
{
    if neg {
        s
    } else {
        let mut out = String::new();
        proof {
            reveal_strlit(" ");
        }
        out.append(" ");
        out.append(s.as_str());
        out
    }
}

/// The HTML escape of one character.
pub open spec fn escape_char(c: char) -> Seq<char> {
    if c == '&' {
        seq!['&', 'a', 'm', 'p', ';']
    } else if c == '<' {
        seq!['&', 'l', 't', ';']
    } else if c == '>' {
        seq!['&', 'g', 't', ';']
    } else if c == '"' {
        seq!['&', 'q', 'u', 'o', 't', ';']
    } else if c == '\'' {
        seq!['&', '#', 'x', '2', '7', ';']
    } else {
        seq![c]
    }
}

/// `s` with each of the five XML special characters escaped.
pub open spec fn spec_html_escape(s: Seq<char>) -> Seq<char>
    decreases s.len(),
{
    if s.len() == 0 {
        seq![]
    } else {
        spec_html_escape(s.drop_last()) + escape_char(s.last())
    }
}

/// HTML-escape the five XML special characters.
pub fn html_escape(s: &str) -> (r: String)
    ensures
        r@ == spec_html_escape(s@),
{
    let n = char_count(s);
    let mut out = String::new();
    let mut i: usize = 0;
    while i < n
        invariant
            n == s@.len(),
            i <= n,
            out@ == spec_html_escape(s@.take(i as int)),
        decreases n - i,
    {
        let c = s.get_char(i);
        let ghost before = out@;
        if c == '&' {
            proof { reveal_strlit("&amp;"); }
            out.append("&amp;");
        } else if c == '<' {
            proof { reveal_strlit("&lt;"); }
            out.append("&lt;");
        } else if c == '>' {
            proof { reveal_strlit("&gt;"); }
            out.append("&gt;");
        } else if c == '"' {
            proof { reveal_strlit("&quot;"); }
            out.append("&quot;");
        } else if c == '\'' {
            proof { reveal_strlit("&#x27;"); }
            out.append("&#x27;");
        } else {
            push_char_of(&mut out, s, i);
        }
        assert(s@.take(i + 1).drop_last() =~= s@.take(i as int));
        assert(out@ =~= before + escape_char(c));
        i = i + 1;
    }
    assert(s@.take(n as int) =~= s@);
    out
}

/// Decimal digits of a natural number, most significant first.
pub open spec fn nat_digits(n: nat) -> Seq<char>
    decreases n,
{
    if n < 10 {
        seq![digit_char(n)]
    } else {
        nat_digits(n / 10) + seq![digit_char(n % 10)]
    }
}

pub open spec fn digit_char(d: nat) -> char {
    if d == 0 { '0' }
    else if d == 1 { '1' }
    else if d == 2 { '2' }
    else if d == 3 { '3' }
    else if d == 4 { '4' }
    else if d == 5 { '5' }
    else if d == 6 { '6' }
    else if d == 7 { '7' }
    else if d == 8 { '8' }
    else { '9' }
}

/// The decimal text of an integer (a `-` sign for negatives), as Rust's
/// `to_string` writes it.
pub open spec fn int_text(v: int) -> Seq<char> {
    if v < 0 { seq!['-'] + nat_digits((-v) as nat) } else { nat_digits(v as nat) }
}

fn digit_str(d: u64) -> (r: &'static str)
    requires
        d < 10,
    ensures
        r@ == seq![digit_char(d as nat)],
{
    proof {
        reveal_strlit("0");
        reveal_strlit("1");
        reveal_strlit("2");
        reveal_strlit("3");
        reveal_strlit("4");
        reveal_strlit("5");
        reveal_strlit("6");
        reveal_strlit("7");
        reveal_strlit("8");
        reveal_strlit("9");
    }
    if d == 0 { "0" }
    else if d == 1 { "1" }
    else if d == 2 { "2" }
    else if d == 3 { "3" }
    else if d == 4 { "4" }
    else if d == 5 { "5" }
    else if d == 6 { "6" }
    else if d == 7 { "7" }
    else if d == 8 { "8" }
    else { "9" }
}

/// Appends the decimal digits of `n` to `out`.
fn push_digits(out: &mut String, n: u64)
    ensures
        final(out)@ == old(out)@ + nat_digits(n as nat),
    decreases n,
{
    if n < 10 {
        out.append(digit_str(n));
    } else {
        push_digits(out, n / 10);
        out.append(digit_str(n % 10));
    }
}

/// The decimal text of an unsigned integer.
pub fn u64_text(n: u64) -> (r: String)
    ensures
        r@ == nat_digits(n as nat),
{
    let mut out = String::new();
    push_digits(&mut out, n);
    proof {
        assert(out@ =~= nat_digits(n as nat));
    }
    out
}

/// The decimal text of a signed integer.
pub fn i64_text(v: i64) -> (r: String)
    ensures
        r@ == int_text(v as int),
{
    let mut out = String::new();
    if v < 0 {
        proof { reveal_strlit("-"); }
        out.append("-");
        let m: u64 = if v == i64::MIN { 9_223_372_036_854_775_808u64 } else { (-v) as u64 };
        push_digits(&mut out, m);
    } else {
        push_digits(&mut out, v as u64);
    }
    proof {
        assert(out@ =~= int_text(v as int));
    }
    out
}


/// `v` written as Rust's `{:0w$}` writes it: the sign, then zeros up to `w`
/// characters in all, then the digits.
pub open spec fn zero_padded(v: int, w: nat) -> Seq<char> {
    let sign: Seq<char> = if v < 0 { seq!['-'] } else { seq![] };
    let digits = nat_digits((if v < 0 { -v } else { v }) as nat);
    let fill: int = w - sign.len() - digits.len();
    sign + repeat_char('0', if fill > 0 { fill as nat } else { 0 }) + digits
}

/// Appends `v` zero-padded to `w` characters (see [`zero_padded`]).
pub fn push_zero_padded(out: &mut String, v: i64, w: usize)
    ensures
        final(out)@ == old(out)@ + zero_padded(v as int, w as nat),
{
    let before = Ghost(out@);
    if v < 0 {
        proof { reveal_strlit("-"); }
        out.append("-");
    }
    let m: u64 = if v == i64::MIN {
        9_223_372_036_854_775_808u64
    } else if v < 0 {
        (-v) as u64
    } else {
        v as u64
    };
    let digits = u64_text(m);
    let dl = char_count(digits.as_str());
    let sl: usize = if v < 0 { 1 } else { 0 };
    let mut i: usize = 0;
    let fill: usize = if w > sl && w - sl > dl { w - sl - dl } else { 0 };
    let ghost start = out@;
    while i < fill
        invariant
            i <= fill,
            out@ == start + repeat_char('0', i as nat),
        decreases fill - i,
    {
        proof {
            reveal_strlit("0");
        }
        out.append("0");
        i = i + 1;
        assert(out@ =~= start + repeat_char('0', i as nat));
    }
    out.append(digits.as_str());
    proof {
        let sign: Seq<char> = if v < 0 { seq!['-'] } else { seq![] };
        assert(start =~= before@ + sign);
        assert(out@ =~= before@ + zero_padded(v as int, w as nat));
    }
}

} // verus!
