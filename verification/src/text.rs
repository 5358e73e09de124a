//! Text: decimal numbers, replacement of a pattern, and white space.

use vstd::prelude::*;
use vstd::string::{StrSliceExecFns, StringExecFns};

verus! {

/// The decimal digit with the given value.
pub open spec fn digit(d: int) -> char {
    ((d + 48) as u32) as char
}

/// A number in decimal, without leading zeros.
pub open spec fn decimal(n: nat) -> Seq<char>
    decreases n,
{
    if n < 10 {
        seq![digit(n as int)]
    } else {
        decimal(n / 10).push(digit(n as int % 10))
    }
}

/// A decimal digit as text.
fn digit_text(d: u64) -> (r: &'static str)
    requires
        d < 10,
    ensures
        r@ == seq![digit(d as int)],
{
    proof {
        reveal_strlit("0");
        reveal_strlit("1");
        reveal_strlit("2");
        reveal_strlit("3");
        reveal_strlit("4");
        reveal_strlit("5");
        reveal_strlit("6");
        reveal_strlit("7");
        reveal_strlit("8");
        reveal_strlit("9");
    }
    match d {
        0 => "0",
        1 => "1",
        2 => "2",
        3 => "3",
        4 => "4",
        5 => "5",
        6 => "6",
        7 => "7",
        8 => "8",
        _ => "9",
    }
}

/// Append a number in decimal.
pub fn push_decimal(out: &mut String, n: u64)
    ensures
        final(out)@ == old(out)@ + decimal(n as nat),
    decreases n,
{
    if n >= 10 {
        push_decimal(out, n / 10);
    }
    out.append(digit_text(n % 10));
}

/// `pattern` stands in `s` at position `i`.
pub open spec fn occurs_at(s: Seq<char>, pattern: Seq<char>, i: int) -> bool {
    &&& 0 <= i <= s.len() - pattern.len()
    &&& s.subrange(i, i + pattern.len()) == pattern
}

/// `s` with each occurrence of `pattern` replaced, taking the occurrences from
/// left to right and none inside of another.
pub open spec fn replaced(s: Seq<char>, pattern: Seq<char>, by: Seq<char>) -> Seq<char>
    decreases s.len(),
{
    if pattern.len() == 0 || s.len() < pattern.len() {
        s
    } else if occurs_at(s, pattern, 0) {
        by + replaced(s.skip(pattern.len() as int), pattern, by)
    } else {
        seq![s[0]] + replaced(s.skip(1), pattern, by)
    }
}

/// Whether `pattern` stands in `s` at position `i`.
fn matches_at(s: &str, pattern: &str, i: usize, len: usize) -> (r: bool)
    requires
        i + len <= s@.len(),
        i + len <= usize::MAX,
        len == pattern@.len(),
    ensures
        r == occurs_at(s@, pattern@, i as int),
{
    let mut k: usize = 0;
    while k < len
        invariant
            k <= len,
            i + len <= s@.len(),
            i + len <= usize::MAX,
            len == pattern@.len(),
            forall|j: int| 0 <= j < k ==> s@[i + j] == pattern@[j],
        decreases len - k,
    {
        if s.get_char(i + k) != pattern.get_char(k) {
            assert(s@.subrange(i as int, i + len)[k as int] != pattern@[k as int]);
            return false;
        }
        k = k + 1;
    }
    assert(s@.subrange(i as int, i + len) =~= pattern@);
    true
}

/// Replace every occurrence of a pattern that is not empty.
pub fn replace_all(s: &str, pattern: &str, by: &str) -> (r: String)
    requires
        pattern@.len() > 0,
    ensures
        r@ == replaced(s@, pattern@, by@),
{
    let n: usize = s.unicode_len();
    let m: usize = pattern.unicode_len();
    let mut out: String = String::new();
    let mut i: usize = 0;
    assert(s@.skip(0) =~= s@);
    while i < n && m <= n - i
        invariant
            i <= n,
            n == s@.len(),
            m == pattern@.len(),
            m > 0,
            out@ + replaced(s@.skip(i as int), pattern@, by@) == replaced(s@, pattern@, by@),
        decreases n - i,
    {
        let ghost rest = s@.skip(i as int);
        if matches_at(s, pattern, i, m) {
            assert(rest.subrange(0, m as int) =~= s@.subrange(i as int, i + m));
            assert(rest.skip(m as int) =~= s@.skip(i + m));
            out.append(by);
            i = i + m;
        } else {
            assert(rest.subrange(0, m as int) =~= s@.subrange(i as int, i + m));
            assert(rest.skip(1) =~= s@.skip(i + 1));
            out.append(s.substring_char(i, i + 1));
            assert(s@.subrange(i as int, i + 1) =~= seq![rest[0]]);
            i = i + 1;
        }
    }
    assert(s@.subrange(i as int, n as int) =~= s@.skip(i as int));
    out.append(s.substring_char(i, n));
    out
}

/// A character that counts as white space.
pub open spec fn white(c: char) -> bool {
    let n = c as u32;
    9 <= n <= 13 || n == 0x20 || n == 0x85 || n == 0xa0 || n == 0x1680 || 0x2000 <= n <= 0x200a || n
        == 0x2028 || n == 0x2029 || n == 0x202f || n == 0x205f || n == 0x3000
}

fn is_white(c: char) -> (r: bool)
    ensures
        r == white(c),
{
    let n: u32 = c as u32;
    (9 <= n && n <= 13) || n == 0x20 || n == 0x85 || n == 0xa0 || n == 0x1680 || (0x2000 <= n && n
        <= 0x200a) || n == 0x2028 || n == 0x2029 || n == 0x202f || n == 0x205f || n == 0x3000
}

/// The characters `from..to` are what is left of a text without the white space
/// at its ends.
pub open spec fn is_trimmed(s: Seq<char>, from: int, to: int) -> bool {
    &&& 0 <= from <= to <= s.len()
    &&& forall|i: int| 0 <= i < from ==> white(#[trigger] s[i])
    &&& forall|i: int| to <= i < s.len() ==> white(#[trigger] s[i])
    &&& from < to ==> !white(s[from]) && !white(s[to - 1])
}

/// The text without the white space at its ends.
pub open spec fn trimmed(s: Seq<char>) -> Seq<char> {
    let (from, to) = choose|from: int, to: int| is_trimmed(s, from, to) && (from == to ==> from == 0);
    s.subrange(from, to)
}

/// There is one way to trim a text.
pub proof fn lemma_trimmed(s: Seq<char>, from: int, to: int)
    requires
        is_trimmed(s, from, to),
        from == to ==> from == 0,
    ensures
        trimmed(s) == s.subrange(from, to),
{
    let (a, b) = choose|a: int, b: int| is_trimmed(s, a, b) && (a == b ==> a == 0);
    assert(is_trimmed(s, a, b));
    if from < to {
        assert(!white(s[from]) && !white(s[to - 1]));
        if a == b {
            assert(white(s[from]));
        }
        if from < a {
            assert(white(s[from]));
        }
        if a < from {
            assert(white(s[a]));
        }
        if b < to {
            assert(white(s[to - 1]));
        }
        if to < b {
            assert(white(s[b - 1]));
        }
    } else {
        if a < b {
            assert(white(s[a]));
        }
    }
}

/// Cut the white space off both ends.
pub fn trim<'a>(s: &'a str) -> (r: &'a str)
    ensures
        r@ == trimmed(s@),
{
    let n: usize = s.unicode_len();
    let mut from: usize = 0;
    while from < n && is_white(s.get_char(from))
        invariant
            from <= n,
            n == s@.len(),
            forall|i: int| 0 <= i < from ==> white(#[trigger] s@[i]),
        decreases n - from,
    {
        from = from + 1;
    }
    if from == n {
        proof {
            lemma_trimmed(s@, 0, 0);
        }
        return s.substring_char(0, 0);
    }
    let mut to: usize = n;
    while to > from && is_white(s.get_char(to - 1))
        invariant
            from < n,
            from <= to <= n,
            n == s@.len(),
            !white(s@[from as int]),
            forall|i: int| to <= i < n ==> white(#[trigger] s@[i]),
        decreases to,
    {
        to = to - 1;
    }
    proof {
        lemma_trimmed(s@, from as int, to as int);
    }
    s.substring_char(from, to)
}

/// A text in quotes, with what cannot stand in quotes escaped.
pub uninterp spec fn quoted(s: Seq<char>) -> Seq<char>;

/// A text in quotes, by the formatting of `str` for debugging. It depends on the
/// text alone; which characters are escaped is left open.
#[verifier::external_body]
pub(crate) fn quote(s: &str) -> (r: String)
    ensures
        r@ == quoted(s@),
{
    format!("{:?}", s)
}

} // verus!
