//! A course as the portal's home page lists it.

use crate::text::{chars_of, trim_bounds, trim_of};
use vstd::prelude::*;

verus! {

/// A course: its key, its listed title (`<code>: <name>(<semester>)`), and
/// whether it belongs to the current term.
pub struct CourseMeta {
    pub id: String,
    pub long_title: String,
    pub is_current: bool,
}

/// The index of the first `c` in `s`, or -1.
pub open spec fn first_index(s: Seq<char>, c: char) -> int
    decreases s.len(),
{
    if s.len() == 0 {
        -1
    } else if s[0] == c {
        0
    } else if first_index(s.drop_first(), c) < 0 {
        -1
    } else {
        first_index(s.drop_first(), c) + 1
    }
}

/// The index of the last `c` in `s`, or -1.
pub open spec fn last_index(s: Seq<char>, c: char) -> int
    decreases s.len(),
{
    if s.len() == 0 {
        -1
    } else if s.last() == c {
        s.len() - 1
    } else {
        last_index(s.drop_last(), c)
    }
}

/// The course title with its semester: what follows the first `:`, trimmed.
pub open spec fn title_of(long_title: Seq<char>) -> Option<Seq<char>> {
    let i = first_index(long_title, ':');
    if i < 0 {
        None
    } else {
        Some(trim_of(long_title.subrange(i + 1, long_title.len() as int)))
    }
}

/// The course name: the title up to its last `(`, trimmed.
pub open spec fn name_of(long_title: Seq<char>) -> Option<Seq<char>> {
    match title_of(long_title) {
        None => None,
        Some(t) => {
            let i = last_index(t, '(');
            if i < 0 {
                None
            } else {
                Some(trim_of(t.subrange(0, i)))
            }
        },
    }
}

fn find_first(v: &Vec<char>, lo: usize, hi: usize, c: char) -> (r: i64)
    requires
        lo <= hi <= v@.len() < i64::MAX,
    ensures
        r == first_index(v@.subrange(lo as int, hi as int), c),
        -1 <= r < hi - lo,
{
    let mut i = hi;
    let mut r: i64 = -1;
    while i > lo
        invariant
            lo <= i <= hi <= v@.len() < i64::MAX,
            r == first_index(v@.subrange(i as int, hi as int), c),
            -1 <= r < hi - i,
        decreases i - lo,
    {
        let ghost s = v@.subrange(i - 1, hi as int);
        assert(s.drop_first() =~= v@.subrange(i as int, hi as int));
        if v[i - 1] == c {
            r = 0;
        } else if r >= 0 {
            r = r + 1;
        }
        i -= 1;
    }
    r
}

fn find_last(v: &Vec<char>, lo: usize, hi: usize, c: char) -> (r: i64)
    requires
        lo <= hi <= v@.len() < i64::MAX,
    ensures
        r == last_index(v@.subrange(lo as int, hi as int), c),
        -1 <= r < hi - lo,
{
    let mut i = lo;
    let mut r: i64 = -1;
    while i < hi
        invariant
            lo <= i <= hi <= v@.len() < i64::MAX,
            r == last_index(v@.subrange(lo as int, i as int), c),
            -1 <= r < i - lo,
        decreases hi - i,
    {
        assert(v@.subrange(lo as int, i + 1).drop_last() =~= v@.subrange(lo as int, i as int));
        if v[i] == c {
            r = (i - lo) as i64;
        }
        i += 1;
    }
    r
}

impl CourseMeta {
    pub fn id(&self) -> (r: &str)
        ensures
            r@ == self.id@,
    {
        self.id.as_str()
    }

    /// The course title with its semester, where the listed title has a `:`.
    pub fn title(&self) -> (r: Option<&str>)
        requires
            self.long_title@.len() < i64::MAX,
        ensures
            match r {
                Some(t) => title_of(self.long_title@) == Some(t@),
                None => title_of(self.long_title@) is None,
            },
    {
        let v = chars_of(self.long_title.as_str());
        let n = v.len();
        let i = find_first(&v, 0, n, ':');
        assert(v@.subrange(0, n as int) == v@);
        if i < 0 {
            return None;
        }
        let (a, b) = trim_bounds(&v, i as usize + 1, n);
        Some(self.long_title.as_str().substring_char(a, b))
    }

    /// The course name, where the title has a `(` before its semester.
    pub fn name(&self) -> (r: Option<&str>)
        requires
            self.long_title@.len() < i64::MAX,
        ensures
            match r {
                Some(t) => name_of(self.long_title@) == Some(t@),
                None => name_of(self.long_title@) is None,
            },
    {
        let v = chars_of(self.long_title.as_str());
        let n = v.len();
        let i = find_first(&v, 0, n, ':');
        assert(v@.subrange(0, n as int) == v@);
        if i < 0 {
            return None;
        }
        let (a, b) = trim_bounds(&v, i as usize + 1, n);
        let j = find_last(&v, a, b, '(');
        if j < 0 {
            return None;
        }
        let (c, d) = trim_bounds(&v, a, a + j as usize);
        assert(v@.subrange(a as int, b as int).subrange(0, j as int) =~= v@.subrange(
            a as int,
            a + j,
        ));
        Some(self.long_title.as_str().substring_char(c, d))
    }
}

} // verus!
