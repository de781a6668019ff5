//! Replacing the first unresolved parameter occurrence with a value.

use vstd::prelude::*;
use crate::scan::occurs_at;
use crate::scan::token_occurs_at;

verus! {

/// Character index of the closing end token for an occurrence whose
/// payload starts at `j`.  Scanning forward, an escaped unit
/// (a backslash and the one character after it) is skipped; the first
/// unescaped end token closes the occurrence; an unescaped start token
/// found first means the occurrence has no closing delimiter, as does
/// reaching the end of the text.  With an empty end token there is
/// nothing to search for.
pub open spec fn find_end_from(s: Seq<char>, st: Seq<char>, en: Seq<char>, j: int) -> Option<
    int,
>
    decreases s.len() - j,
{
    if j < 0 || j >= s.len() || en.len() == 0 {
        None
    } else if s[j] == '\\' {
        if j + 1 >= s.len() {
            None
        } else {
            find_end_from(s, st, en, j + 2)
        }
    } else if occurs_at(s, en, j) {
        Some(j)
    } else if occurs_at(s, st, j) {
        None
    } else {
        find_end_from(s, st, en, j + 1)
    }
}

/// `s[i..]` with the first unescaped start token occurrence replaced
/// by `v`.  Everything before it, escaped units included, is copied
/// verbatim.  If the occurrence has a closing end token, the
/// replacement consumes through it; otherwise only the start token is
/// consumed and the rest of the text is copied untouched.
pub open spec fn replace_from(
    s: Seq<char>,
    st: Seq<char>,
    en: Seq<char>,
    v: Seq<char>,
    i: int,
) -> Seq<char>
    decreases s.len() - i,
{
    if i < 0 || i >= s.len() || st.len() == 0 {
        Seq::empty()
    } else if s[i] == '\\' {
        if i + 1 >= s.len() {
            seq!['\\']
        } else if occurs_at(s, st, i + 1) {
            seq!['\\'] + st + replace_from(s, st, en, v, i + 1 + st.len())
        } else if en.len() > 0 && occurs_at(s, en, i + 1) {
            seq!['\\'] + en + replace_from(s, st, en, v, i + 1 + en.len())
        } else {
            seq!['\\', s[i + 1]] + replace_from(s, st, en, v, i + 2)
        }
    } else if occurs_at(s, st, i) {
        match find_end_from(s, st, en, i + st.len()) {
            Some(e) => v + s.skip(e + en.len()),
            None => v + s.skip(i + st.len()),
        }
    } else {
        seq![s[i]] + replace_from(s, st, en, v, i + 1)
    }
}

/// Locates the closing end token for a payload starting at `from`.
pub(crate) fn find_end_token(s: &str, st: &str, en: &str, from: usize) -> (r: Option<usize>)
    requires
        from <= s@.len(),
    ensures
        match r {
            Some(e) => find_end_from(s@, st@, en@, from as int) == Some(e as int) && e + en@.len()
                <= s@.len(),
            None => find_end_from(s@, st@, en@, from as int) is None,
        },
{
    let m = s.unicode_len();
    let enl = en.unicode_len();
    if enl == 0 {
        return None;
    }
    let mut j = from;
    loop
        invariant
            m == s@.len(),
            enl == en@.len(),
            enl >= 1,
            j <= m,
            find_end_from(s@, st@, en@, from as int) == find_end_from(s@, st@, en@, j as int),
        decreases m - j,
    {
        if j >= m {
            return None;
        }
        if s.get_char(j) == '\\' {
            if j + 1 >= m {
                return None;
            }
            j = j + 2;
        } else if token_occurs_at(s, en, j) {
            return Some(j);
        } else if token_occurs_at(s, st, j) {
            return None;
        } else {
            j = j + 1;
        }
    }
}

/// Replaces the first unescaped start token occurrence in `s` with
/// `value`.
pub(crate) fn replace_first_text(s: &str, st: &str, en: &str, value: &str) -> (r: String)
    requires
        st@.len() >= 1,
    ensures
        r@ == replace_from(s@, st@, en@, value@, 0),
{
    let m = s.unicode_len();
    let stl = st.unicode_len();
    let enl = en.unicode_len();
    let mut out = String::new();
    let mut i: usize = 0;
    while i < m
        invariant
            m == s@.len(),
            stl == st@.len(),
            enl == en@.len(),
            stl >= 1,
            i <= m,
            replace_from(s@, st@, en@, value@, 0) == out@ + replace_from(
                s@,
                st@,
                en@,
                value@,
                i as int,
            ),
        decreases m - i,
    {
        proof {
            reveal_strlit("\\");
        }
        if s.get_char(i) == '\\' {
            if i + 1 >= m {
                out.append("\\");
                i = i + 1;
            } else if token_occurs_at(s, st, i + 1) {
                out.append("\\");
                out.append(st);
                i = i + 1 + stl;
            } else if enl > 0 && token_occurs_at(s, en, i + 1) {
                out.append("\\");
                out.append(en);
                i = i + 1 + enl;
            } else {
                let piece = s.substring_char(i, i + 2);
                proof {
                    assert(s@.subrange(i as int, i + 2) =~= seq![s@[i as int], s@[i + 1]]);
                }
                out.append(piece);
                i = i + 2;
            }
        } else if token_occurs_at(s, st, i) {
            let resume = match find_end_token(s, st, en, i + stl) {
                Some(e) => e + enl,
                None => i + stl,
            };
            out.append(value);
            let rest = s.substring_char(resume, m);
            proof {
                assert(s@.subrange(resume as int, m as int) =~= s@.skip(resume as int));
            }
            out.append(rest);
            return out;
        } else {
            let piece = s.substring_char(i, i + 1);
            proof {
                assert(s@.subrange(i as int, i + 1) =~= seq![s@[i as int]]);
            }
            out.append(piece);
            i = i + 1;
        }
    }
    out
}

} // verus!
