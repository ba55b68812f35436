use vstd::prelude::*;

use crate::chars::chars_of;

verus! {

/// Whether `q` occurs in `t` as a contiguous run of characters.
pub open spec fn contains(t: Seq<char>, q: Seq<char>) -> bool {
    exists|i: int| 0 <= i && i + q.len() <= t.len() && #[trigger] t.subrange(i, i + q.len()) == q
}

/// Whether a text passes the search: always without one, and otherwise when
/// the text holds the search term, case and all.
pub open spec fn passes(search: Option<Seq<char>>, t: Seq<char>) -> bool {
    match search {
        None => true,
        Some(q) => contains(t, q),
    }
}

pub open spec fn search_view(search: Option<&str>) -> Option<Seq<char>> {
    match search {
        None => None,
        Some(s) => Some(s@),
    }
}

fn contains_chars(t: &Vec<char>, q: &Vec<char>) -> (r: bool)
    ensures
        r == contains(t@, q@),
{
    let n = t.len();
    let m = q.len();
    if m > n {
        return false;
    }
    let mut i: usize = 0;
    while i <= n - m
        invariant
            m <= n,
            n == t@.len(),
            m == q@.len(),
            i <= n - m + 1,
            forall|j: int| 0 <= j < i ==> #[trigger] t@.subrange(j, j + m) != q@,
        decreases n - m + 1 - i,
    {
        let mut k: usize = 0;
        while k < m && t[i + k] == q[k]
            invariant
                m <= n,
                n == t@.len(),
                m == q@.len(),
                i + m <= n,
                k <= m,
                forall|l: int| 0 <= l < k ==> t@[i + l] == q@[l],
            decreases m - k,
        {
            k = k + 1;
        }
        if k == m {
            assert(t@.subrange(i as int, i + m) == q@);
            return true;
        }
        assert(t@.subrange(i as int, i + m)[k as int] != q@[k as int]);
        i = i + 1;
    }
    false
}

/// Whether `text` passes the search `search`.
pub fn search_filter(search: Option<&str>, text: &str) -> (r: bool)
    ensures
        r == passes(search_view(search), text@),
{
    match search {
        None => true,
        Some(q) => {
            let t = chars_of(text);
            let qs = chars_of(q);
            contains_chars(&t, &qs)
        },
    }
}

/// Without a search every text passes; an empty search term is held by every
/// text, so it lets every text pass too; and a search term lets a text pass
/// exactly when the text holds it.
pub proof fn search_laws(t: Seq<char>, q: Seq<char>)
    ensures
        passes(None, t),
        passes(Some(Seq::<char>::empty()), t),
        passes(Some(q), t) == contains(t, q),
{
    let e = Seq::<char>::empty();
    assert(t.subrange(0, 0 + e.len() as int) == e);
}

} // verus!
