//! Locating the next parameter occurrence for display.
//!
//! The span computation reuses the escape-aware forward scan of the
//! replacement logic, but for display purposes the search for the end
//! of an occurrence stops early at an unescaped space or at another
//! start token: an unterminated or space-broken occurrence highlights
//! only the start token itself.

use vstd::prelude::*;
use crate::scan::occurs_at;
use crate::scan::token_occurs_at;

verus! {

/// Character index of the first unescaped occurrence of `st` in `s`
/// at or after `i`.
pub open spec fn next_occurrence_from(s: Seq<char>, st: Seq<char>, i: int) -> Option<int>
    decreases s.len() - i,
{
    if i < 0 || i >= s.len() || st.len() == 0 {
        None
    } else if s[i] == '\\' {
        if i + 1 >= s.len() {
            None
        } else if occurs_at(s, st, i + 1) {
            next_occurrence_from(s, st, i + 1 + st.len())
        } else {
            next_occurrence_from(s, st, i + 2)
        }
    } else if occurs_at(s, st, i) {
        Some(i)
    } else {
        next_occurrence_from(s, st, i + 1)
    }
}

/// Character index just past the end token that closes the occurrence
/// whose payload starts at `j`, for display purposes: an escaped unit
/// is skipped, and an unescaped start token or plain space before any
/// end token, like the end of the text, means the occurrence is cut
/// short.
pub open spec fn span_end_from(s: Seq<char>, st: Seq<char>, en: Seq<char>, j: int) -> Option<int>
    decreases s.len() - j,
{
    if j < 0 || j >= s.len() || en.len() == 0 {
        None
    } else if s[j] == '\\' {
        if j + 1 >= s.len() {
            None
        } else {
            span_end_from(s, st, en, j + 2)
        }
    } else if occurs_at(s, st, j) {
        None
    } else if occurs_at(s, en, j) {
        Some(j + en.len())
    } else if s[j] == ' ' {
        None
    } else {
        span_end_from(s, st, en, j + 1)
    }
}

/// The character span of the next occurrence to be resolved: from the
/// start token through its closing end token, or the start token
/// alone when no end token closes it before a space, another start
/// token or the end of the text.
pub open spec fn highlight_span_spec(s: Seq<char>, st: Seq<char>, en: Seq<char>) -> Option<
    (int, int),
> {
    match next_occurrence_from(s, st, 0) {
        None => None,
        Some(p) => match span_end_from(s, st, en, p + st.len()) {
            Some(q) => Some((p, q)),
            None => Some((p, p + st.len())),
        },
    }
}

/// Character index of the first unescaped occurrence of `st` in
/// `text`.
pub(crate) fn next_occurrence(text: &str, st: &str) -> (r: Option<usize>)
    requires
        st@.len() >= 1,
    ensures
        match r {
            Some(p) => next_occurrence_from(text@, st@, 0) == Some(p as int) && occurs_at(
                text@,
                st@,
                p as int,
            ),
            None => next_occurrence_from(text@, st@, 0) is None,
        },
{
    let m = text.unicode_len();
    let stl = st.unicode_len();
    let mut i: usize = 0;
    loop
        invariant
            m == text@.len(),
            stl == st@.len(),
            stl >= 1,
            i <= m,
            next_occurrence_from(text@, st@, 0) == next_occurrence_from(text@, st@, i as int),
        decreases m - i,
    {
        if i >= m {
            return None;
        }
        if text.get_char(i) == '\\' {
            if i + 1 >= m {
                return None;
            }
            if token_occurs_at(text, st, i + 1) {
                i = i + 1 + stl;
            } else {
                i = i + 2;
            }
        } else if token_occurs_at(text, st, i) {
            return Some(i);
        } else {
            i = i + 1;
        }
    }
}

/// The character span of the next occurrence to be resolved in
/// `text`, or `None` when every occurrence is resolved.  The input is
/// only read; rendering is the caller's business.
pub fn highlight_span(text: &str, start_token: &str, end_token: &str) -> (r: Option<
    (usize, usize),
>)
    requires
        start_token@.len() >= 1,
    ensures
        match r {
            Some(span) => highlight_span_spec(text@, start_token@, end_token@) == Some(
                (span.0 as int, span.1 as int),
            ) && span.0 <= span.1 <= text@.len(),
            None => highlight_span_spec(text@, start_token@, end_token@) is None,
        },
{
    let m = text.unicode_len();
    let stl = start_token.unicode_len();
    let enl = end_token.unicode_len();
    let p = match next_occurrence(text, start_token) {
        Some(p) => p,
        None => {
            return None;
        },
    };
    if enl == 0 {
        return Some((p, p + stl));
    }
    let mut j = p + stl;
    loop
        invariant
            m == text@.len(),
            stl == start_token@.len(),
            enl == end_token@.len(),
            stl >= 1,
            enl >= 1,
            p + stl <= j <= m,
            p + stl <= m,
            next_occurrence_from(text@, start_token@, 0) == Some(p as int),
            occurs_at(text@, start_token@, p as int),
            span_end_from(text@, start_token@, end_token@, p + stl) == span_end_from(
                text@,
                start_token@,
                end_token@,
                j as int,
            ),
        decreases m - j,
    {
        if j >= m {
            return Some((p, p + stl));
        }
        if text.get_char(j) == '\\' {
            if j + 1 >= m {
                return Some((p, p + stl));
            }
            j = j + 2;
        } else if token_occurs_at(text, start_token, j) {
            return Some((p, p + stl));
        } else if token_occurs_at(text, end_token, j) {
            return Some((p, j + enl));
        } else if text.get_char(j) == ' ' {
            return Some((p, p + stl));
        } else {
            j = j + 1;
        }
    }
}

} // verus!
