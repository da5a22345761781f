//! Text helpers: blank checks, replacement, decimal numbers, path joining.

use vstd::prelude::*;
use vstd::string::*;

verus! {

/// Whether a character has the Unicode `White_Space` property, which is
/// what `char::is_whitespace` and `str::trim` go by: tab to carriage
/// return, space, next line, no-break space, ogham space mark, the spaces
/// from en quad to hair space, line and paragraph separator, narrow
/// no-break space, medium mathematical space and ideographic space.
pub open spec fn is_white_space(c: char) -> bool {
    let u = c as u32;
    ||| 0x09 <= u <= 0x0D
    ||| u == 0x20
    ||| u == 0x85
    ||| u == 0xA0
    ||| u == 0x1680
    ||| 0x2000 <= u <= 0x200A
    ||| u == 0x2028
    ||| u == 0x2029
    ||| u == 0x202F
    ||| u == 0x205F
    ||| u == 0x3000
}

/// `s` without its leading whitespace.
pub open spec fn trim_start_spec(s: Seq<char>) -> Seq<char>
    decreases s.len(),
{
    if s.len() > 0 && is_white_space(s[0]) {
        trim_start_spec(s.drop_first())
    } else {
        s
    }
}

/// `s` without its trailing whitespace.
pub open spec fn trim_end_spec(s: Seq<char>) -> Seq<char>
    decreases s.len(),
{
    if s.len() > 0 && is_white_space(s.last()) {
        trim_end_spec(s.drop_last())
    } else {
        s
    }
}

/// `s` without leading and trailing whitespace.
pub open spec fn trim_spec(s: Seq<char>) -> Seq<char> {
    trim_end_spec(trim_start_spec(s))
}

/// Calls `str::trim`: std documents that it removes leading and trailing
/// characters with the Unicode `White_Space` property, so what is left
/// neither starts nor ends with one.
#[verifier::external_body]
pub(crate) fn trim(s: &str) -> (r: &str)
    ensures
        r@ == trim_spec(s@),
        r@.len() > 0 ==> !is_white_space(r@[0]) && !is_white_space(r@.last()),
{
    s.trim()
}

/// Nothing is left of the text once it is trimmed.
pub open spec fn blank(s: Seq<char>) -> bool {
    trim_spec(s).len() == 0
}

/// `s.trim().is_empty()`.
pub fn is_blank(s: &str) -> (r: bool)
    ensures
        r == blank(s@),
{
    trim(s).is_empty()
}

/// `s` with every occurrence of the non-empty `from`, scanned from the left
/// without overlap, replaced by `to`.
pub open spec fn replaced(s: Seq<char>, from: Seq<char>, to: Seq<char>) -> Seq<char>
    decreases s.len(),
{
    if from.len() == 0 || s.len() == 0 {
        s
    } else if from.len() <= s.len() && s.subrange(0, from.len() as int) == from {
        to + replaced(s.subrange(from.len() as int, s.len() as int), from, to)
    } else {
        seq![s[0]] + replaced(s.subrange(1, s.len() as int), from, to)
    }
}

/// `s` holds `w` as a run of consecutive characters.
pub open spec fn holds_text(s: Seq<char>, w: Seq<char>) -> bool {
    exists|i: int| 0 <= i && i + w.len() <= s.len() && #[trigger] s.subrange(i, i + w.len()) == w
}

/// Replacing in `a + b` replaces in each part when no match can start in
/// `a` and run into `b`: the first character of `b` does not occur in the
/// pattern.
pub proof fn lemma_replaced_split(a: Seq<char>, b: Seq<char>, from: Seq<char>, to: Seq<char>)
    requires
        from.len() > 0,
        b.len() > 0 ==> forall|j: int| 0 <= j < from.len() ==> from[j] != b[0],
    ensures
        replaced(a + b, from, to) == replaced(a, from, to) + replaced(b, from, to),
    decreases a.len(),
{
    let s = a + b;
    if a.len() == 0 {
        assert(s =~= b);
        assert(replaced(a, from, to) =~= a);
        assert(replaced(a, from, to) + replaced(b, from, to) =~= replaced(b, from, to));
    } else {
        let n = from.len() as int;
        if n <= a.len() && a.subrange(0, n) == from {
            assert(s.subrange(0, n) =~= a.subrange(0, n));
            let rest = a.subrange(n, a.len() as int);
            assert(s.subrange(n, s.len() as int) =~= rest + b);
            lemma_replaced_split(rest, b, from, to);
            assert(replaced(s, from, to) == to + replaced(rest + b, from, to));
            assert(replaced(a, from, to) == to + replaced(rest, from, to));
        } else {
            if n <= s.len() && s.subrange(0, n) == from {
                if n <= a.len() {
                    assert(a.subrange(0, n) =~= s.subrange(0, n));
                } else {
                    assert(s.subrange(0, n)[a.len() as int] == b[0]);
                    assert(from[a.len() as int] == b[0]);
                }
            }
            let rest = a.subrange(1, a.len() as int);
            assert(s.subrange(1, s.len() as int) =~= rest + b);
            lemma_replaced_split(rest, b, from, to);
            assert(replaced(s, from, to) == seq![s[0]] + replaced(rest + b, from, to));
            assert(replaced(a, from, to) == seq![a[0]] + replaced(rest, from, to));
        }
    }
}

/// Text without the pattern's first character is left as it is.
pub proof fn lemma_replaced_untouched(w: Seq<char>, from: Seq<char>, to: Seq<char>)
    requires
        from.len() > 0,
        forall|j: int| 0 <= j < w.len() ==> w[j] != from[0],
    ensures
        replaced(w, from, to) == w,
    decreases w.len(),
{
    if w.len() > 0 {
        if from.len() <= w.len() {
            assert(w.subrange(0, from.len() as int)[0] == w[0]);
        }
        let rest = w.subrange(1, w.len() as int);
        lemma_replaced_untouched(rest, from, to);
        assert(seq![w[0]] + rest =~= w);
    }
}

/// A text that does not start with the pattern's first character keeps its
/// first character.
pub proof fn lemma_replaced_first(s: Seq<char>, from: Seq<char>, to: Seq<char>)
    requires
        from.len() > 0,
        s.len() > 0,
        s[0] != from[0],
    ensures
        replaced(s, from, to).len() > 0,
        replaced(s, from, to)[0] == s[0],
{
    if from.len() <= s.len() {
        assert(s.subrange(0, from.len() as int)[0] == s[0]);
    }
}

/// Replacing in `x + w + y` leaves `w` in place, between the replaced `x`
/// and the replaced `y`, when neither `w` nor the start of `y` can take part
/// in a match.
pub proof fn lemma_replaced_keeps(
    x: Seq<char>,
    w: Seq<char>,
    y: Seq<char>,
    from: Seq<char>,
    to: Seq<char>,
)
    requires
        from.len() > 0,
        w.len() > 0,
        y.len() > 0,
        forall|j: int| 0 <= j < from.len() ==> from[j] != w[0] && from[j] != y[0],
        forall|j: int| 0 <= j < w.len() ==> w[j] != from[0],
        y[0] != from[0],
    ensures
        replaced(x + w + y, from, to) == replaced(x, from, to) + w + replaced(y, from, to),
        replaced(y, from, to).len() > 0,
        replaced(y, from, to)[0] == y[0],
{
    lemma_replaced_split(x + w, y, from, to);
    lemma_replaced_split(x, w, from, to);
    lemma_replaced_untouched(w, from, to);
    lemma_replaced_first(y, from, to);
}

/// Calls `str::replace` with a non-empty pattern: std documents that it
/// replaces all matches of the pattern with the replacement; matches are
/// found from the left and do not overlap.
#[verifier::external_body]
pub(crate) fn replace(s: &str, from: &str, to: &str) -> (r: String)
    requires
        from@.len() > 0,
    ensures
        r@ == replaced(s@, from@, to@),
{
    s.replace(from, to)
}

/// ASCII lowercase of one character.
pub open spec fn ascii_lower(c: char) -> char {
    if 'A' <= c <= 'Z' {
        ((c as u32) + 32) as char
    } else {
        c
    }
}

/// Calls `str::to_ascii_lowercase`: std documents that it maps `A`..`Z` to
/// `a`..`z` and leaves every other character unchanged.
#[verifier::external_body]
pub(crate) fn to_ascii_lowercase(s: &str) -> (r: String)
    ensures
        r@ == s@.map_values(|c: char| ascii_lower(c)),
{
    s.to_ascii_lowercase()
}

/// The decimal digit character for `d`.
pub open spec fn digit_char(d: int) -> char {
    (48 + d) as char
}

/// Decimal text of a natural number, without leading zeros.
pub open spec fn decimal(n: nat) -> Seq<char>
    decreases n,
{
    if n < 10 {
        seq![digit_char(n as int)]
    } else {
        decimal(n / 10).push(digit_char((n % 10) as int))
    }
}

fn digit_str(d: u64) -> (r: &'static str)
    requires
        d < 10,
    ensures
        r@ == seq![digit_char(d as int)],
{
    proof {
        reveal_strlit("0");
        reveal_strlit("1");
        reveal_strlit("2");
        reveal_strlit("3");
        reveal_strlit("4");
        reveal_strlit("5");
        reveal_strlit("6");
        reveal_strlit("7");
        reveal_strlit("8");
        reveal_strlit("9");
    }
    let r = if d == 0 {
        "0"
    } else if d == 1 {
        "1"
    } else if d == 2 {
        "2"
    } else if d == 3 {
        "3"
    } else if d == 4 {
        "4"
    } else if d == 5 {
        "5"
    } else if d == 6 {
        "6"
    } else if d == 7 {
        "7"
    } else if d == 8 {
        "8"
    } else {
        "9"
    };
    assert(r@ =~= seq![digit_char(d as int)]);
    r
}

/// Decimal text of a number, as `Display` writes an unsigned integer.
pub fn decimal_string(n: u64) -> (r: String)
    ensures
        r@ == decimal(n as nat),
    decreases n,
{
    if n < 10 {
        String::from_str(digit_str(n))
    } else {
        let mut s = decimal_string(n / 10);
        s.append(digit_str(n % 10));
        s
    }
}

/// Decimal text of a signed number: a minus sign before a negative one.
pub open spec fn signed_decimal(n: int) -> Seq<char> {
    if n < 0 {
        seq!['-'] + decimal((-n) as nat)
    } else {
        decimal(n as nat)
    }
}

/// Decimal text of a signed number, as `Display` writes a signed integer.
pub fn signed_decimal_string(n: i64) -> (r: String)
    ensures
        r@ == signed_decimal(n as int),
{
    if n < 0 {
        let magnitude: u64 = if n == i64::MIN {
            9_223_372_036_854_775_808
        } else {
            (-n) as u64
        };
        proof {
            reveal_strlit("-");
        }
        let mut s = String::from_str("-");
        let digits = decimal_string(magnitude);
        s.append(digits.as_str());
        s
    } else {
        decimal_string(n as u64)
    }
}

/// A Unix path starts at the root (`Path::is_absolute`).
pub open spec fn absolute(path: Seq<char>) -> bool {
    path.len() > 0 && path[0] == '/'
}

pub fn is_absolute(path: &str) -> (r: bool)
    ensures
        r == absolute(path@),
{
    path.unicode_len() > 0 && path.get_char(0) == '/'
}

/// `base` extended by the relative component `part`, with one `/` between
/// them unless `base` is empty or already ends with one (`Path::join`).
pub open spec fn joined(base: Seq<char>, part: Seq<char>) -> Seq<char> {
    if base.len() == 0 || base.last() == '/' {
        base + part
    } else {
        base + seq!['/'] + part
    }
}

pub fn join(base: &str, part: &str) -> (r: String)
    requires
        !absolute(part@),
    ensures
        r@ == joined(base@, part@),
{
    let n = base.unicode_len();
    let mut s = String::from_str(base);
    if n > 0 && base.get_char(n - 1) != '/' {
        proof {
            reveal_strlit("/");
        }
        s.append("/");
        s.append(part);
        assert(s@ =~= base@ + seq!['/'] + part@);
    } else {
        s.append(part);
    }
    s
}

} // verus!
