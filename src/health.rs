//! What a health check of the store reports.

use vstd::prelude::*;
use vstd::string::*;

verus! {

/// The state of the store as a detailed health check finds it.
#[derive(Debug)]
pub struct HealthStatus {
    pub connection: bool,
    pub database_name: String,
    pub user: String,
    /// The first two words of the server's version string.
    pub version: String,
    /// Tables in the public schema.
    pub table_count: i64,
    /// The database size, as the server writes it.
    pub database_size: String,
    pub pool_size: u32,
    pub idle_connections: usize,
}

/// A character with the Unicode `White_Space` property, as
/// `char::is_whitespace` decides.
pub open spec fn is_space(c: char) -> bool {
    ('\t' <= c && c <= '\r') || c == ' ' || c == '\u{85}' || c == '\u{a0}' || c == '\u{1680}'
        || ('\u{2000}' <= c && c <= '\u{200a}') || c == '\u{2028}' || c == '\u{2029}'
        || c == '\u{202f}' || c == '\u{205f}' || c == '\u{3000}'
}

fn is_space_char(c: char) -> (r: bool)
    ensures
        r == is_space(c),
{
    ('\t' <= c && c <= '\r') || c == ' ' || c == '\u{85}' || c == '\u{a0}' || c == '\u{1680}'
        || ('\u{2000}' <= c && c <= '\u{200a}') || c == '\u{2028}' || c == '\u{2029}'
        || c == '\u{202f}' || c == '\u{205f}' || c == '\u{3000}'
}

/// The number of characters before the first space.
pub open spec fn word_len(s: Seq<char>) -> nat
    decreases s.len(),
{
    if s.len() == 0 || is_space(s[0]) {
        0
    } else {
        1 + word_len(s.skip(1))
    }
}

/// The words of a text: its maximal runs of characters that are not spaces.
pub open spec fn words(s: Seq<char>) -> Seq<Seq<char>>
    decreases s.len(),
{
    if s.len() == 0 {
        Seq::empty()
    } else if is_space(s[0]) {
        words(s.skip(1))
    } else {
        let n = word_len(s);
        // `n` is at least 1 and at most the length here; the test states it
        // for the termination check.
        if n == 0 || n > s.len() {
            Seq::empty()
        } else {
            seq![s.take(n as int)] + words(s.skip(n as int))
        }
    }
}

/// The first `k` words, or all of them if there are fewer.
pub open spec fn first_words(ws: Seq<Seq<char>>, k: nat) -> Seq<Seq<char>> {
    if ws.len() <= k { ws } else { ws.take(k as int) }
}

/// Words joined by single spaces.
pub open spec fn joined(ws: Seq<Seq<char>>) -> Seq<char>
    decreases ws.len(),
{
    if ws.len() == 0 {
        Seq::empty()
    } else if ws.len() == 1 {
        ws[0]
    } else {
        joined(ws.drop_last()) + " "@ + ws.last()
    }
}

proof fn lemma_word_len(s: Seq<char>, start: int, end: int)
    requires
        0 <= start <= end <= s.len(),
        forall|i: int| start <= i < end ==> !is_space(#[trigger] s[i]),
        end == s.len() || is_space(s[end]),
    ensures
        word_len(s.skip(start)) == end - start,
    decreases end - start,
{
    if start < end {
        lemma_word_len(s, start + 1, end);
        assert(s.skip(start).skip(1) =~= s.skip(start + 1));
    } else {
        assert(s.skip(start).len() == 0 || s.skip(start)[0] == s[end]);
    }
}

proof fn lemma_skip_spaces(s: Seq<char>, from: int, start: int)
    requires
        0 <= from <= start <= s.len(),
        forall|i: int| from <= i < start ==> is_space(#[trigger] s[i]),
    ensures
        words(s.skip(from)) == words(s.skip(start)),
    decreases start - from,
{
    if from < start {
        lemma_skip_spaces(s, from + 1, start);
        assert(s.skip(from).skip(1) =~= s.skip(from + 1));
        assert(s.skip(from)[0] == s[from]);
    }
}

/// Finds the first word at or after `from`: where it starts and ends.
fn next_word(s: &str, n: usize, from: usize) -> (r: (usize, usize))
    requires
        n == s@.len(),
        from <= n,
    ensures
        from <= r.0 <= r.1 <= n,
        r.0 == r.1 ==> r.0 == n && words(s@.skip(from as int)).len() == 0,
        r.0 < r.1 ==> words(s@.skip(from as int)) == seq![s@.subrange(r.0 as int, r.1 as int)] + words(
            s@.skip(r.1 as int),
        ),
{
    let mut start = from;
    while start < n && is_space_char(s.get_char(start))
        invariant
            from <= start <= n,
            n == s@.len(),
            forall|i: int| from <= i < start ==> is_space(#[trigger] s@[i]),
        decreases n - start,
    {
        start = start + 1;
    }
    let mut end = start;
    while end < n && !is_space_char(s.get_char(end))
        invariant
            start <= end <= n,
            n == s@.len(),
            forall|i: int| start <= i < end ==> !is_space(#[trigger] s@[i]),
        decreases n - end,
    {
        end = end + 1;
    }
    proof {
        lemma_skip_spaces(s@, from as int, start as int);
        lemma_word_len(s@, start as int, end as int);
        let t = s@.skip(start as int);
        if start == n {
            assert(t.len() == 0);
        } else {
            assert(t[0] == s@[start as int]);
            assert(!is_space(t[0]));
            assert(t.take(end - start) =~= s@.subrange(start as int, end as int));
            assert(t.skip(end - start) =~= s@.skip(end as int));
        }
    }
    (start, end)
}

/// The first two words of a server's version string, joined by a space.
pub fn short_version(full: &str) -> (r: String)
    ensures
        r@ == joined(first_words(words(full@), 2)),
{
    let n = full.unicode_len();
    assert(full@.skip(0) =~= full@);
    let (s1, e1) = next_word(full, n, 0);
    if s1 == e1 {
        assert(first_words(words(full@), 2) =~= Seq::<Seq<char>>::empty());
        return String::new();
    }
    let first = full.substring_char(s1, e1);
    let (s2, e2) = next_word(full, n, e1);
    let ghost w1 = full@.subrange(s1 as int, e1 as int);
    if s2 == e2 {
        assert(words(full@) =~= seq![w1]);
        assert(first_words(words(full@), 2) =~= seq![w1]);
        return String::from_str(first);
    }
    let second = full.substring_char(s2, e2);
    let ghost w2 = full@.subrange(s2 as int, e2 as int);
    assert(first_words(words(full@), 2) =~= seq![w1, w2]);
    assert(seq![w1, w2].drop_last() =~= seq![w1]);
    assert(joined(seq![w1]) == w1);
    assert(joined(seq![w1, w2]) == w1 + " "@ + w2);
    let mut out = String::from_str(first);
    out.append(" ");
    out.append(second);
    out
}

} // verus!
