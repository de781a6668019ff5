//! The backslash escape grammar: encoding literal tokens into inert
//! payload and stripping the markers again once no hole is left.

use vstd::prelude::*;
use crate::scan::occurs_at;
use crate::scan::token_occurs_at;

verus! {

/// Escaped form of `s[i..]`: every backslash is doubled and every
/// literal occurrence of the start token, or of the non-empty end
/// token, gains a leading backslash, so that a later escape-aware scan
/// treats it as inert payload.
pub open spec fn escape_from(s: Seq<char>, st: Seq<char>, en: Seq<char>, i: int) -> Seq<char>
    decreases s.len() - i,
{
    if i < 0 || i >= s.len() || st.len() == 0 {
        Seq::empty()
    } else if s[i] == '\\' {
        seq!['\\', '\\'] + escape_from(s, st, en, i + 1)
    } else if occurs_at(s, st, i) {
        seq!['\\'] + st + escape_from(s, st, en, i + st.len())
    } else if en.len() > 0 && occurs_at(s, en, i) {
        seq!['\\'] + en + escape_from(s, st, en, i + en.len())
    } else {
        seq![s[i]] + escape_from(s, st, en, i + 1)
    }
}

/// `s[i..]` with the escape markers stripped: an escaped start token,
/// end token or backslash is emitted literally without its marker; a
/// backslash in front of anything else is kept together with the
/// following character, and a lone trailing backslash is preserved.
pub open spec fn cleanup_from(s: Seq<char>, st: Seq<char>, en: Seq<char>, i: int) -> Seq<char>
    decreases s.len() - i,
{
    if i < 0 || i >= s.len() || st.len() == 0 {
        Seq::empty()
    } else if s[i] == '\\' {
        if i + 1 >= s.len() {
            seq!['\\']
        } else if occurs_at(s, st, i + 1) {
            st + cleanup_from(s, st, en, i + 1 + st.len())
        } else if en.len() > 0 && occurs_at(s, en, i + 1) {
            en + cleanup_from(s, st, en, i + 1 + en.len())
        } else if s[i + 1] == '\\' {
            seq!['\\'] + cleanup_from(s, st, en, i + 2)
        } else {
            seq!['\\', s[i + 1]] + cleanup_from(s, st, en, i + 2)
        }
    } else {
        seq![s[i]] + cleanup_from(s, st, en, i + 1)
    }
}

/// Builds the escaped form of `s`.
pub(crate) fn escape_text(s: &str, st: &str, en: &str) -> (r: String)
    requires
        st@.len() >= 1,
    ensures
        r@ == escape_from(s@, st@, en@, 0),
{
    let m = s.unicode_len();
    let stl = st.unicode_len();
    let enl = en.unicode_len();
    let mut out = String::new();
    let mut i: usize = 0;
    while i < m
        invariant
            m == s@.len(),
            stl == st@.len(),
            enl == en@.len(),
            stl >= 1,
            i <= m,
            escape_from(s@, st@, en@, 0) == out@ + escape_from(s@, st@, en@, i as int),
        decreases m - i,
    {
        proof {
            reveal_strlit("\\");
            reveal_strlit("\\\\");
        }
        if s.get_char(i) == '\\' {
            out.append("\\\\");
            i = i + 1;
        } else if token_occurs_at(s, st, i) {
            out.append("\\");
            out.append(st);
            i = i + stl;
        } else if enl > 0 && token_occurs_at(s, en, i) {
            out.append("\\");
            out.append(en);
            i = i + enl;
        } else {
            let piece = s.substring_char(i, i + 1);
            proof {
                assert(s@.subrange(i as int, i + 1) =~= seq![s@[i as int]]);
            }
            out.append(piece);
            i = i + 1;
        }
    }
    out
}

/// Strips the escape markers from `s`.
pub(crate) fn cleanup_text(s: &str, st: &str, en: &str) -> (r: String)
    requires
        st@.len() >= 1,
    ensures
        r@ == cleanup_from(s@, st@, en@, 0),
{
    let m = s.unicode_len();
    let stl = st.unicode_len();
    let enl = en.unicode_len();
    let mut out = String::new();
    let mut i: usize = 0;
    while i < m
        invariant
            m == s@.len(),
            stl == st@.len(),
            enl == en@.len(),
            stl >= 1,
            i <= m,
            cleanup_from(s@, st@, en@, 0) == out@ + cleanup_from(s@, st@, en@, i as int),
        decreases m - i,
    {
        proof {
            reveal_strlit("\\");
        }
        if s.get_char(i) == '\\' {
            if i + 1 >= m {
                out.append("\\");
                i = i + 1;
            } else if token_occurs_at(s, st, i + 1) {
                out.append(st);
                i = i + 1 + stl;
            } else if enl > 0 && token_occurs_at(s, en, i + 1) {
                out.append(en);
                i = i + 1 + enl;
            } else if s.get_char(i + 1) == '\\' {
                out.append("\\");
                i = i + 2;
            } else {
                let piece = s.substring_char(i, i + 2);
                proof {
                    assert(s@.subrange(i as int, i + 2) =~= seq![s@[i as int], s@[i + 1]]);
                }
                out.append(piece);
                i = i + 2;
            }
        } else {
            let piece = s.substring_char(i, i + 1);
            proof {
                assert(s@.subrange(i as int, i + 1) =~= seq![s@[i as int]]);
            }
            out.append(piece);
            i = i + 1;
        }
    }
    out
}

} // verus!
