//! Small readers for values embedded in the portal's links.

use vstd::prelude::*;

verus! {

pub open spec fn is_key_char(c: char) -> bool {
    ('0' <= c && c <= '9') || c == '_'
}

/// The length of the run of key characters (digits and `_`) at `i` in `s`.
pub open spec fn key_run(s: Seq<char>, i: int) -> nat
    decreases s.len() - i,
{
    if 0 <= i < s.len() && is_key_char(s[i]) {
        1 + key_run(s, i + 1)
    } else {
        0
    }
}

/// The course key that a link holds at `i`: `key=`, then one or more digits
/// or `_`, then `,`.
pub open spec fn key_at(s: Seq<char>, i: int) -> Option<Seq<char>> {
    let start = i + 4;
    let n = key_run(s, start);
    if 0 <= i && start <= s.len() && s.subrange(i, start) == "key="@ && n > 0 && start + n < s.len()
        && s[start + n] == ',' {
        Some(s.subrange(start, start + n))
    } else {
        None
    }
}

/// The first course key in `s` at or after `i`.
pub open spec fn course_key_from(s: Seq<char>, i: int) -> Option<Seq<char>>
    decreases s.len() - i,
{
    if i < 0 || i >= s.len() {
        None
    } else if key_at(s, i) is Some {
        key_at(s, i)
    } else {
        course_key_from(s, i + 1)
    }
}

/// The run of key characters at `i`, as an index past its end.
fn run_end(v: &Vec<char>, i: usize) -> (r: usize)
    requires
        i <= v@.len(),
    ensures
        r == i + key_run(v@, i as int),
        r <= v@.len(),
{
    let mut j = i;
    while j < v.len() && (('0' <= v[j] && v[j] <= '9') || v[j] == '_')
        invariant
            i <= j <= v@.len(),
            key_run(v@, i as int) == (j - i) + key_run(v@, j as int),
        decreases v@.len() - j,
    {
        j += 1;
    }
    j
}

/// The course key of a course link (`...key=_80052_1,...`): the first `key=`
/// followed by digits or `_` and then a comma.
pub fn course_key(href: &str) -> (r: Option<String>)
    ensures
        match r {
            Some(k) => course_key_from(href@, 0) == Some(k@),
            None => course_key_from(href@, 0) is None,
        },
{
    let v = crate::text::chars_of(href);
    let n = v.len();
    let mut i: usize = 0;
    while i < n
        invariant
            n == v@.len(),
            v@ == href@,
            i <= n,
            course_key_from(href@, 0) == course_key_from(href@, i as int),
        decreases n - i,
    {
        if 4 <= n - i && v[i] == 'k' && v[i + 1] == 'e' && v[i + 2] == 'y' && v[i + 3] == '=' {
            proof {
                reveal_strlit("key=");
                assert(v@.subrange(i as int, i + 4) =~= "key="@);
            }
            let e = run_end(&v, i + 4);
            if e > i + 4 && e < n && v[e] == ',' {
                let mut key: Vec<char> = Vec::new();
                let mut j = i + 4;
                while j < e
                    invariant
                        i + 4 <= j <= e <= v@.len(),
                        key@ == v@.subrange(i + 4, j as int),
                    decreases e - j,
                {
                    key.push(v[j]);
                    j += 1;
                }
                return Some(crate::text::string_of_chars(&key));
            }
        } else {
            proof {
                reveal_strlit("key=");
                if 4 <= n - i {
                    assert(v@.subrange(i as int, i + 4)[0] == v@[i as int]);
                    assert(v@.subrange(i as int, i + 4)[1] == v@[i + 1]);
                    assert(v@.subrange(i as int, i + 4)[2] == v@[i + 2]);
                    assert(v@.subrange(i as int, i + 4)[3] == v@[i + 3]);
                }
            }
        }
        i += 1;
    }
    None
}

} // verus!
