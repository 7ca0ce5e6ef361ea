//! Character-level helpers: whitespace trimming, quote stripping, prefix
//! tests and the search for the `=` separator.

use vstd::prelude::*;

verus! {

/// The characters with the Unicode `White_Space` property.
pub open spec fn is_space(c: char) -> bool {
    let n = c as u32;
    (0x09 <= n && n <= 0x0D) || n == 0x20 || n == 0x85 || n == 0xA0 || n == 0x1680 || (0x2000
        <= n && n <= 0x200A) || n == 0x2028 || n == 0x2029 || n == 0x202F || n == 0x205F || n
        == 0x3000
}

/// `s` without its leading whitespace.
pub open spec fn trim_start(s: Seq<char>) -> Seq<char>
    decreases s.len(),
{
    if s.len() > 0 && is_space(s[0]) {
        trim_start(s.drop_first())
    } else {
        s
    }
}

/// `s` without its trailing whitespace.
pub open spec fn trim_end(s: Seq<char>) -> Seq<char>
    decreases s.len(),
{
    if s.len() > 0 && is_space(s.last()) {
        trim_end(s.drop_last())
    } else {
        s
    }
}

/// `s` without leading and trailing whitespace.
pub open spec fn trim(s: Seq<char>) -> Seq<char> {
    trim_end(trim_start(s))
}

/// `s` has at least two characters, and both its first and its last are `q`.
pub open spec fn enclosed(s: Seq<char>, q: char) -> bool {
    s.len() >= 2 && s[0] == q && s.last() == q
}

/// `s` with one enclosing pair of double or single quotes removed, if it has one.
pub open spec fn unquote(s: Seq<char>) -> Seq<char> {
    if enclosed(s, '"') || enclosed(s, '\'') {
        s.subrange(1, s.len() - 1)
    } else {
        s
    }
}

/// The value of a known field, from what follows its `KEY=` prefix.
pub open spec fn field_value(rest: Seq<char>) -> Seq<char> {
    unquote(trim(rest))
}

/// `k` is the position of the first `=` in `s`.
pub open spec fn separator_at(s: Seq<char>, k: int) -> bool {
    0 <= k < s.len() && s[k] == '=' && forall|j: int| 0 <= j < k ==> s[j] != '='
}

/// `s` holds a `=`.
pub open spec fn has_separator(s: Seq<char>) -> bool {
    exists|k: int| 0 <= k < s.len() && s[k] == '='
}

/// Relies on `char::is_whitespace`: true exactly for the characters with the
/// Unicode `White_Space` property.
#[verifier::external_body]
fn is_space_char(c: char) -> (r: bool)
    ensures
        r == is_space(c),
{
    c.is_whitespace()
}

proof fn lemma_trim_start_step(s: Seq<char>, i: int)
    requires
        0 <= i < s.len(),
        is_space(s[i]),
    ensures
        trim_start(s.subrange(i, s.len() as int)) == trim_start(s.subrange(i + 1, s.len() as int)),
{
    assert(s.subrange(i, s.len() as int).drop_first() =~= s.subrange(i + 1, s.len() as int));
}

proof fn lemma_trim_end_step(s: Seq<char>, i: int, j: int)
    requires
        0 <= i < j <= s.len(),
        is_space(s[j - 1]),
    ensures
        trim_end(s.subrange(i, j)) == trim_end(s.subrange(i, j - 1)),
{
    assert(s.subrange(i, j).drop_last() =~= s.subrange(i, j - 1));
}

/// `s` without leading and trailing whitespace.
pub fn trim_spaces(s: &str) -> (r: &str)
    ensures
        r@ == trim(s@),
{
    let n = s.unicode_len();
    let mut i: usize = 0;
    assert(s@.subrange(0, n as int) =~= s@);
    while i < n && is_space_char(s.get_char(i))
        invariant
            n == s@.len(),
            i <= n,
            trim_start(s@.subrange(i as int, n as int)) == trim_start(s@),
        decreases n - i,
    {
        proof {
            lemma_trim_start_step(s@, i as int);
        }
        i = i + 1;
    }
    assert(trim_start(s@) == s@.subrange(i as int, n as int));
    let mut j: usize = n;
    while j > i && is_space_char(s.get_char(j - 1))
        invariant
            n == s@.len(),
            i <= j <= n,
            trim_start(s@) == s@.subrange(i as int, n as int),
            trim_end(s@.subrange(i as int, j as int)) == trim(s@),
        decreases j,
    {
        proof {
            lemma_trim_end_step(s@, i as int, j as int);
        }
        j = j - 1;
    }
    s.substring_char(i, j)
}

/// Whether `line` has at least two characters and both its first and its
/// last are `pattern`.
pub fn is_enclosed_with(line: &str, pattern: char) -> (r: bool)
    ensures
        r == enclosed(line@, pattern),
{
    let n = line.unicode_len();
    n >= 2 && line.get_char(0) == pattern && line.get_char(n - 1) == pattern
}

/// The value that follows a `KEY=` prefix of `skip` characters: trimmed, with
/// one enclosing pair of quotes removed.
pub fn parse_line(line: &str, skip: usize) -> (r: &str)
    requires
        skip <= line@.len(),
    ensures
        r@ == field_value(line@.subrange(skip as int, line@.len() as int)),
{
    let rest = line.substring_char(skip, line.unicode_len());
    let t = trim_spaces(rest);
    if is_enclosed_with(t, '"') || is_enclosed_with(t, '\'') {
        t.substring_char(1, t.unicode_len() - 1)
    } else {
        t
    }
}

/// Whether `s` starts with `p`.
pub fn has_prefix(s: &str, p: &str) -> (r: bool)
    ensures
        r == p@.is_prefix_of(s@),
{
    let n = s.unicode_len();
    let m = p.unicode_len();
    if m > n {
        return false;
    }
    let mut k: usize = 0;
    while k < m
        invariant
            m == p@.len(),
            n == s@.len(),
            m <= n,
            k <= m,
            forall|j: int| 0 <= j < k ==> p@[j] == s@[j],
        decreases m - k,
    {
        if p.get_char(k) != s.get_char(k) {
            return false;
        }
        k = k + 1;
    }
    assert(p@ =~= s@.subrange(0, m as int));
    true
}

/// The position of the first `=` in `s`, if it holds one.
pub fn find_separator(s: &str) -> (r: Option<usize>)
    ensures
        match r {
            Some(k) => separator_at(s@, k as int),
            None => !has_separator(s@),
        },
{
    let n = s.unicode_len();
    let mut i: usize = 0;
    while i < n
        invariant
            n == s@.len(),
            i <= n,
            forall|j: int| 0 <= j < i ==> s@[j] != '=',
        decreases n - i,
    {
        if s.get_char(i) == '=' {
            return Some(i);
        }
        i = i + 1;
    }
    None
}

/// Every character of `ws` is whitespace.
pub open spec fn all_space(ws: Seq<char>) -> bool {
    forall|k: int| 0 <= k < ws.len() ==> is_space(ws[k])
}

/// Leading whitespace does not change what trimming the start leaves.
pub proof fn lemma_trim_start_skips(ws: Seq<char>, s: Seq<char>)
    requires
        all_space(ws),
    ensures
        trim_start(ws + s) == trim_start(s),
    decreases ws.len(),
{
    if ws.len() > 0 {
        assert((ws + s).drop_first() =~= ws.drop_first() + s);
        lemma_trim_start_skips(ws.drop_first(), s);
    } else {
        assert(ws + s =~= s);
    }
}

/// Trailing whitespace does not change what trimming the end leaves.
pub proof fn lemma_trim_end_skips(s: Seq<char>, ws: Seq<char>)
    requires
        all_space(ws),
    ensures
        trim_end(s + ws) == trim_end(s),
    decreases ws.len(),
{
    if ws.len() > 0 {
        assert((s + ws).drop_last() =~= s + ws.drop_last());
        lemma_trim_end_skips(s, ws.drop_last());
    } else {
        assert(s + ws =~= s);
    }
}

/// Trimming the start leaves a suffix.
pub proof fn lemma_trim_start_suffix(s: Seq<char>)
    ensures
        trim_start(s) == s.subrange(s.len() - trim_start(s).len(), s.len() as int),
        trim_start(s).len() <= s.len(),
    decreases s.len(),
{
    if s.len() > 0 && is_space(s[0]) {
        lemma_trim_start_suffix(s.drop_first());
        assert(trim_start(s) =~= s.subrange(s.len() - trim_start(s).len(), s.len() as int));
    } else {
        assert(s =~= s.subrange(0, s.len() as int));
    }
}

/// Trimming the end leaves a prefix.
pub proof fn lemma_trim_end_prefix(s: Seq<char>)
    ensures
        trim_end(s) == s.subrange(0, trim_end(s).len() as int),
        trim_end(s).len() <= s.len(),
    decreases s.len(),
{
    if s.len() > 0 && is_space(s.last()) {
        lemma_trim_end_prefix(s.drop_last());
        assert(trim_end(s) =~= s.subrange(0, trim_end(s).len() as int));
    } else {
        assert(s =~= s.subrange(0, s.len() as int));
    }
}

/// A string without `=` keeps none after trimming.
pub proof fn lemma_trim_keeps_no_separator(s: Seq<char>)
    requires
        !has_separator(s),
    ensures
        !has_separator(trim(s)),
{
    lemma_trim_start_suffix(s);
    lemma_trim_end_prefix(trim_start(s));
    let a = s.len() - trim_start(s).len();
    if has_separator(trim(s)) {
        let k = choose|k: int| 0 <= k < trim(s).len() && trim(s)[k] == '=';
        assert(trim_start(s)[k] == '=');
        assert(s[a + k] == '=');
    }
}

} // verus!
