//! A small query-string reader for URIs.

use vstd::prelude::*;

verus! {

/// The query component of the URI that `s` parses to: `None` where `s` is no
/// URI, `Some(None)` where it has no query.
pub uninterp spec fn uri_query_of(s: Seq<char>) -> Option<Option<Seq<char>>>;

/// Relies on http::Uri's `FromStr` to parse the URI and on `Uri::query` for its
/// query component (the text after `?`, without the fragment).
#[verifier::external_body]
fn uri_query(s: &str) -> (r: Option<Option<String>>)
    ensures
        match r {
            Some(Some(q)) => uri_query_of(s@) == Some(Some(q@)),
            Some(None) => uri_query_of(s@) == Some(None::<Seq<char>>),
            None => uri_query_of(s@) is None,
        },
{
    match s.parse::<http::Uri>() {
        Ok(u) => Some(u.query().map(String::from)),
        Err(_) => None,
    }
}

/// `s` cut at every `sep`, as `str::split` cuts it (an empty `s` gives one
/// empty part).
pub open spec fn split_of(s: Seq<char>, sep: char) -> Seq<Seq<char>>
    decreases s.len(),
{
    if s.len() == 0 {
        seq![Seq::empty()]
    } else {
        let prev = split_of(s.drop_last(), sep);
        if s.last() == sep {
            prev.push(Seq::empty())
        } else {
            prev.update(prev.len() - 1, prev.last().push(s.last()))
        }
    }
}

proof fn lemma_split_nonempty(s: Seq<char>, sep: char)
    ensures
        split_of(s, sep).len() >= 1,
    decreases s.len(),
{
    if s.len() > 0 {
        lemma_split_nonempty(s.drop_last(), sep);
    }
}

/// The parts of `s` between the separators `sep`.
pub fn split_chars(s: &str, sep: char) -> (r: Vec<String>)
    ensures
        r@.map_values(|p: String| p@) == split_of(s@, sep),
{
    let v = crate::text::chars_of(s);
    let n = v.len();
    let mut parts: Vec<String> = Vec::new();
    let mut cur: Vec<char> = Vec::new();
    let mut i: usize = 0;
    while i < n
        invariant
            n == v@.len(),
            v@ == s@,
            i <= n,
            parts@.map_values(|p: String| p@).push(cur@) == split_of(v@.subrange(0, i as int), sep),
        decreases n - i,
    {
        let c = v[i];
        let ghost before = parts@.map_values(|p: String| p@);
        proof {
            lemma_split_nonempty(v@.subrange(0, i as int), sep);
        }
        assert(v@.subrange(0, i + 1).drop_last() == v@.subrange(0, i as int));
        if c == sep {
            let part = crate::text::string_of_chars(&cur);
            parts.push(part);
            cur = Vec::new();
            assert(parts@.map_values(|p: String| p@) =~= before.push(part@));
            assert(parts@.map_values(|p: String| p@).push(cur@) =~= before.push(part@).push(
                Seq::empty(),
            ));
        } else {
            let ghost old_cur = cur@;
            cur.push(c);
            assert(before.push(cur@) =~= before.push(old_cur).update(
                before.len() as int,
                old_cur.push(c),
            ));
        }
        i += 1;
    }
    assert(v@.subrange(0, n as int) == v@);
    let last = crate::text::string_of_chars(&cur);
    let ghost before = parts@.map_values(|p: String| p@);
    parts.push(last);
    assert(parts@.map_values(|p: String| p@) =~= before.push(last@));
    parts
}

/// Whether `s` begins with `prefix`.
pub fn starts_with(s: &str, prefix: &str) -> (r: bool)
    ensures
        r == prefix@.is_prefix_of(s@),
{
    let n = prefix.unicode_len();
    if n > s.unicode_len() {
        return false;
    }
    let mut i: usize = 0;
    while i < n
        invariant
            n == prefix@.len() <= s@.len(),
            i <= n,
            forall|j: int| 0 <= j < i ==> prefix@[j] == s@[j],
        decreases n - i,
    {
        if prefix.get_char(i) != s.get_char(i) {
            return false;
        }
        i += 1;
    }
    true
}

/// Why a query string could not be read.
#[derive(Debug, Clone, Copy, PartialEq, Eq, Structural)]
pub enum QueryError {
    /// The text is not a URI.
    InvalidUri,
}

/// The `&`-separated entries of a URI's query, as written (`key=value`).
pub struct Query {
    qs: Vec<String>,
}

/// The entries of the query of URI `s`: none where it has no query.
pub open spec fn query_entries_of(s: Seq<char>) -> Option<Seq<Seq<char>>> {
    match uri_query_of(s) {
        None => None,
        Some(None) => Some(Seq::empty()),
        Some(Some(q)) => Some(split_of(q, '&')),
    }
}

/// The value that `get` finds for `key` among `entries`: what follows the key
/// and one more character (the `=`) in the first entry that begins with the
/// key; empty where nothing follows the key.
pub open spec fn query_get_of(entries: Seq<Seq<char>>, key: Seq<char>) -> Option<Seq<char>>
    decreases entries.len(),
{
    if entries.len() == 0 {
        None
    } else if key.is_prefix_of(entries[0]) {
        let e = entries[0];
        Some(
            if e.len() > key.len() {
                e.subrange(key.len() + 1int, e.len() as int)
            } else {
                Seq::empty()
            },
        )
    } else {
        query_get_of(entries.drop_first(), key)
    }
}

impl Query {
    pub closed spec fn entries(&self) -> Seq<Seq<char>> {
        self.qs@.map_values(|p: String| p@)
    }

    /// Reads the query string of a URI.
    pub fn parse(s: &str) -> (r: Result<Query, QueryError>)
        ensures
            match r {
                Ok(q) => query_entries_of(s@) == Some(q.entries()),
                Err(e) => e == QueryError::InvalidUri && query_entries_of(s@) is None,
            },
    {
        match uri_query(s) {
            None => Err(QueryError::InvalidUri),
            Some(None) => {
                let q = Query { qs: Vec::new() };
                assert(q.entries() =~= Seq::empty());
                Ok(q)
            },
            Some(Some(text)) => Ok(Query { qs: split_chars(text.as_str(), '&') }),
        }
    }

    /// The value of the first entry that begins with `key`.
    pub fn get(&self, key: &str) -> (r: Option<&str>)
        ensures
            match r {
                Some(v) => query_get_of(self.entries(), key@) == Some(v@),
                None => query_get_of(self.entries(), key@) is None,
            },
    {
        let mut i: usize = 0;
        assert(self.entries().subrange(0, self.qs@.len() as int) =~= self.entries());
        while i < self.qs.len()
            invariant
                i <= self.qs@.len(),
                query_get_of(self.entries(), key@) == query_get_of(
                    self.entries().subrange(i as int, self.qs@.len() as int),
                    key@,
                ),
            decreases self.qs@.len() - i,
        {
            let ghost rest = self.entries().subrange(i as int, self.qs@.len() as int);
            assert(rest[0] == self.qs@[i as int]@);
            let s = self.qs[i].as_str();
            if starts_with(s, key) {
                let n = s.unicode_len();
                let k = key.unicode_len();
                if n > k {
                    return Some(s.substring_char(k + 1, n));
                } else {
                    return Some(s.substring_char(n, n));
                }
            }
            assert(rest.drop_first() =~= self.entries().subrange(i + 1, self.qs@.len() as int));
            i += 1;
        }
        None
    }
}

impl std::str::FromStr for Query {
    type Err = QueryError;

    fn from_str(s: &str) -> Result<Query, QueryError> {
        Query::parse(s)
    }
}

} // verus!
