//! Paging and search parameters of a listing, and the envelope it is sent in.

use vstd::prelude::*;
use vstd::string::*;
use crate::text::{lower_of, lowercase};

verus! {

/// How many products a listing returns when no limit is given.
pub const DEFAULT_LIMIT: i32 = 10;

/// The query of a listing: at most `limit` products (10 if absent), after
/// skipping `offset` (0 if absent), of those whose name or brand contains
/// `search`, ignoring case.
#[derive(Debug, Clone)]
pub struct Pagination {
    pub limit: Option<i32>,
    pub offset: Option<i32>,
    pub search: Option<String>,
}

/// A page of results with the paging values it was asked with.
#[derive(Debug)]
pub struct TemplateResponse<T> {
    pub items: Vec<T>,
    /// The number of items on this page.
    pub total: usize,
    pub limit: i32,
    pub offset: i32,
}

/// The text with each `\\`, `%` and `_` preceded by `\\`, so that a LIKE
/// pattern (whose escape character is `\\`) matches it literally.
pub open spec fn like_escaped(s: Seq<char>) -> Seq<char>
    decreases s.len(),
{
    if s.len() == 0 {
        Seq::empty()
    } else {
        let c = s.last();
        like_escaped(s.drop_last()) + if c == '\\' || c == '%' || c == '_' {
            seq!['\\', c]
        } else {
            seq![c]
        }
    }
}

/// `%text%`, with the text escaped: the pattern that matches exactly the
/// texts containing `text`.
pub open spec fn like_pattern(text: Seq<char>) -> Seq<char> {
    "%"@ + like_escaped(text) + "%"@
}

/// Escapes the LIKE wildcards and the escape character in a text.
pub fn escape_like(s: &str) -> (r: String)
    ensures
        r@ == like_escaped(s@),
{
    let n = s.unicode_len();
    let mut out = String::new();
    let mut i: usize = 0;
    assert(s@.take(0) =~= Seq::<char>::empty());
    while i < n
        invariant
            n == s@.len(),
            i <= n,
            out@ == like_escaped(s@.take(i as int)),
        decreases n - i,
    {
        let c = s.get_char(i);
        let ghost before = out@;
        let special = c == '\\' || c == '%' || c == '_';
        if special {
            let mark = "\\";
            proof {
                reveal_strlit("\\");
            }
            assert(mark@ =~= seq!['\\']);
            out.append(mark);
        }
        let one = s.substring_char(i, i + 1);
        assert(one@ =~= seq![c]);
        out.append(one);
        if special {
            assert(out@ =~= before + seq!['\\', c]);
        } else {
            assert(out@ =~= before + seq![c]);
        }
        assert(s@.take(i + 1).drop_last() =~= s@.take(i as int));
        assert(s@.take(i + 1).last() == c);
        assert(out@ =~= like_escaped(s@.take(i + 1)));
        i = i + 1;
    }
    assert(s@.take(n as int) =~= s@);
    out
}

impl Pagination {
    /// The limit a listing applies.
    pub open spec fn limit_value(&self) -> int {
        match self.limit {
            Some(l) => l as int,
            None => 10,
        }
    }

    /// The number of matches a listing skips.
    pub open spec fn offset_value(&self) -> int {
        match self.offset {
            Some(o) => o as int,
            None => 0,
        }
    }

    pub fn page_limit(&self) -> (r: i64)
        ensures
            r == self.limit_value(),
    {
        match self.limit {
            Some(l) => l as i64,
            None => DEFAULT_LIMIT as i64,
        }
    }

    pub fn page_offset(&self) -> (r: i64)
        ensures
            r == self.offset_value(),
    {
        match self.offset {
            Some(o) => o as i64,
            None => 0,
        }
    }

    /// The pattern bound to the search filter of the listing statement: the
    /// lowercased search text, with its wildcards escaped, between `%` signs.
    pub fn search_pattern(&self) -> (r: Option<String>)
        ensures
            r is Some <==> self.search is Some,
            r matches Some(p) ==> p@ == like_pattern(lower_of(self.search->0@)),
    {
        match &self.search {
            Some(s) => {
                let lowered = lowercase(s.as_str());
                let escaped = escape_like(lowered.as_str());
                let mut p = String::from_str("%");
                p.append(escaped.as_str());
                p.append("%");
                Some(p)
            },
            None => None,
        }
    }
}

impl<T> TemplateResponse<T> {
    /// The envelope of a page: `total` counts the items of the page, and the
    /// limit and offset are those the listing applied (10 and 0 where absent).
    pub fn from_page(items: Vec<T>, p: &Pagination) -> (r: TemplateResponse<T>)
        ensures
            r.items@ == items@,
            r.total == items@.len(),
            r.limit as int == p.limit_value(),
            r.offset == match p.offset {
                Some(o) => o,
                None => 0,
            },
    {
        let total = items.len();
        let limit = match p.limit {
            Some(l) => l,
            None => DEFAULT_LIMIT,
        };
        let offset = match p.offset {
            Some(o) => o,
            None => 0,
        };
        TemplateResponse { items, total, limit, offset }
    }
}

} // verus!
