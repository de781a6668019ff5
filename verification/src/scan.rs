//! Low-level escape-aware scanning over template text.
//!
//! Text is modelled as its sequence of Unicode scalar values
//! (`Seq<char>`); every operation here is specified against that
//! model.  A backslash marks the following start token, end token or
//! backslash as literal; the scan skips such an escaped unit without
//! treating it as a delimiter.

use vstd::prelude::*;

verus! {

/// The token `t` occurs literally in `s` at character index `i`.
pub open spec fn occurs_at(s: Seq<char>, t: Seq<char>, i: int) -> bool {
    0 <= i && i + t.len() <= s.len() && s.subrange(i, i + t.len()) == t
}

/// `p` is a prefix of `s`.
pub open spec fn is_prefix(p: Seq<char>, s: Seq<char>) -> bool {
    p.len() <= s.len() && s.subrange(0, p.len() as int) == p
}

/// Character index of the first literal occurrence of `t` in `s` at or
/// after `i`, ignoring escapes.
pub open spec fn find_at(s: Seq<char>, t: Seq<char>, i: int) -> Option<int>
    decreases s.len() - i,
{
    if i >= s.len() {
        None
    } else if occurs_at(s, t, i) {
        Some(i)
    } else {
        find_at(s, t, i + 1)
    }
}

/// Number of unescaped occurrences of `t` in `s`, scanning left to
/// right from character index `i`.  A backslash makes the scan skip
/// the following escaped unit: the token itself if it follows, one
/// character otherwise.
pub open spec fn count_from(s: Seq<char>, t: Seq<char>, i: int) -> nat
    decreases s.len() - i,
{
    if i < 0 || i >= s.len() || t.len() == 0 {
        0
    } else if s[i] == '\\' {
        if i + 1 < s.len() {
            if occurs_at(s, t, i + 1) {
                count_from(s, t, i + 1 + t.len())
            } else {
                count_from(s, t, i + 2)
            }
        } else {
            0
        }
    } else if occurs_at(s, t, i) {
        1 + count_from(s, t, i + t.len())
    } else {
        count_from(s, t, i + 1)
    }
}

/// `find_at` returns the first occurrence at or after `i`: the found
/// index carries an occurrence and nothing before it does; `None`
/// means nothing at or after `i` does.
pub proof fn lemma_find_at_bounds(s: Seq<char>, t: Seq<char>, i: int)
    requires
        t.len() >= 1,
    ensures
        match find_at(s, t, i) {
            Some(k) => i <= k && occurs_at(s, t, k) && forall|j: int|
                i <= j < k ==> !occurs_at(s, t, j),
            None => forall|j: int| j >= i ==> !occurs_at(s, t, j),
        },
    decreases s.len() - i,
{
    if i >= s.len() {
    } else if occurs_at(s, t, i) {
    } else {
        lemma_find_at_bounds(s, t, i + 1);
    }
}

/// Whether token `t` occurs at character index `i` of `s`.
pub(crate) fn token_occurs_at(s: &str, t: &str, i: usize) -> (b: bool)
    ensures
        b == occurs_at(s@, t@, i as int),
{
    let m = s.unicode_len();
    let n = t.unicode_len();
    if i > m || n > m - i {
        return false;
    }
    let mut j: usize = 0;
    while j < n
        invariant
            m == s@.len(),
            n == t@.len(),
            i + n <= m,
            j <= n,
            forall|k: int| 0 <= k < j ==> s@[i + k] == t@[k],
        decreases n - j,
    {
        if s.get_char(i + j) != t.get_char(j) {
            proof {
                if occurs_at(s@, t@, i as int) {
                    assert(s@.subrange(i as int, i + n)[j as int] == s@[i + j]);
                }
            }
            return false;
        }
        j += 1;
    }
    proof {
        assert(s@.subrange(i as int, i + n) =~= t@);
    }
    true
}

/// Character index of the first literal occurrence of `t` in `s` at or
/// after `from`.
pub(crate) fn find_token_from(s: &str, t: &str, from: usize) -> (r: Option<usize>)
    requires
        from <= s@.len(),
    ensures
        match r {
            Some(k) => from <= k && find_at(s@, t@, from as int) == Some(k as int),
            None => find_at(s@, t@, from as int) is None,
        },
{
    let m = s.unicode_len();
    let mut j = from;
    loop
        invariant
            m == s@.len(),
            from <= j <= m,
            find_at(s@, t@, from as int) == find_at(s@, t@, j as int),
        decreases m - j,
    {
        if j >= m {
            return None;
        }
        if token_occurs_at(s, t, j) {
            return Some(j);
        }
        j += 1;
    }
}

/// Number of unescaped occurrences of `t` in `s`.
pub(crate) fn count_unescaped(s: &str, t: &str) -> (c: usize)
    requires
        t@.len() >= 1,
    ensures
        c == count_from(s@, t@, 0),
{
    let m = s.unicode_len();
    let tl = t.unicode_len();
    let mut i: usize = 0;
    let mut c: usize = 0;
    while i < m
        invariant
            m == s@.len(),
            tl == t@.len(),
            tl >= 1,
            i <= m,
            c <= i,
            count_from(s@, t@, 0) == c + count_from(s@, t@, i as int),
        decreases m - i,
    {
        if s.get_char(i) == '\\' {
            if i + 1 < m {
                if token_occurs_at(s, t, i + 1) {
                    i = i + 1 + tl;
                } else {
                    i = i + 2;
                }
            } else {
                i = i + 1;
            }
        } else if token_occurs_at(s, t, i) {
            c = c + 1;
            i = i + tl;
        } else {
            i = i + 1;
        }
    }
    c
}

} // verus!
