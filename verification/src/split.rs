//! Splitting a template on every literal occurrence of a token.
//!
//! The split here is delimiter-exact and escape-unaware; it serves
//! token values that never appear escaped, such as whitespace
//! tokenization.

use vstd::prelude::*;
use crate::scan::find_at;
use crate::scan::lemma_find_at_bounds;
use crate::scan::find_token_from;

verus! {

/// The pieces of `s[i..]` between consecutive literal occurrences of
/// `t`.  Pieces adjacent to an occurrence at either edge are empty and
/// are preserved positionally.
pub open spec fn split_from(s: Seq<char>, t: Seq<char>, i: int) -> Seq<Seq<char>>
    decreases s.len() - i,
    via split_from_decreases
{
    if i < 0 || i > s.len() || t.len() == 0 {
        Seq::empty()
    } else {
        match find_at(s, t, i) {
            None => seq![s.skip(i)],
            Some(k) => seq![s.subrange(i, k)] + split_from(s, t, k + t.len()),
        }
    }
}

#[via_fn]
proof fn split_from_decreases(s: Seq<char>, t: Seq<char>, i: int) {
    if 0 <= i <= s.len() && t.len() >= 1 {
        lemma_find_at_bounds(s, t, i);
    }
}

/// The pieces of `split_from` with the separator token reinserted as
/// its own element between them; empty pieces are dropped but still
/// give rise to a separator element.
pub open spec fn interleave_token(pieces: Seq<Seq<char>>, t: Seq<char>) -> Seq<Seq<char>>
    decreases pieces.len(),
{
    if pieces.len() == 0 {
        Seq::empty()
    } else {
        let head: Seq<Seq<char>> = if pieces[0].len() == 0 {
            Seq::empty()
        } else {
            seq![pieces[0]]
        };
        let sep: Seq<Seq<char>> = if pieces.len() > 1 {
            seq![t]
        } else {
            Seq::empty()
        };
        head + sep + interleave_token(pieces.skip(1), t)
    }
}

/// Splits `s` at every literal occurrence of `t`, the separators left
/// out.
pub(crate) fn split_text(s: &str, t: &str) -> (r: Vec<String>)
    requires
        t@.len() >= 1,
    ensures
        r.deep_view() == split_from(s@, t@, 0),
{
    let m = s.unicode_len();
    let tl = t.unicode_len();
    let mut out: Vec<String> = Vec::new();
    let mut pos: usize = 0;
    loop
        invariant
            m == s@.len(),
            tl == t@.len(),
            tl >= 1,
            pos <= m,
            split_from(s@, t@, 0) == out.deep_view() + split_from(s@, t@, pos as int),
        decreases m - pos,
    {
        let ghost old_dv = out.deep_view();
        match find_token_from(s, t, pos) {
            Some(k) => {
                proof {
                    lemma_find_at_bounds(s@, t@, pos as int);
                }
                let piece = s.substring_char(pos, k).to_owned();
                out.push(piece);
                proof {
                    assert(out.deep_view() =~= old_dv.push(s@.subrange(pos as int, k as int)));
                }
                pos = k + tl;
            },
            None => {
                let piece = s.substring_char(pos, m).to_owned();
                out.push(piece);
                proof {
                    assert(s@.subrange(pos as int, m as int) =~= s@.skip(pos as int));
                    assert(out.deep_view() =~= old_dv.push(s@.skip(pos as int)));
                }
                return out;
            },
        }
    }
}

/// Splits `s` at every literal occurrence of `t`, keeping the
/// separators as elements of their own and dropping empty pieces.
pub(crate) fn split_inclusive_text(s: &str, t: &str) -> (r: Vec<String>)
    requires
        t@.len() >= 1,
    ensures
        r.deep_view() == interleave_token(split_from(s@, t@, 0), t@),
{
    let pieces = split_text(s, t);
    let n = pieces.len();
    let mut out: Vec<String> = Vec::new();
    let mut idx: usize = 0;
    proof {
        assert(pieces.deep_view().skip(0) =~= pieces.deep_view());
        assert(out.deep_view() + interleave_token(pieces.deep_view(), t@) =~= interleave_token(
            pieces.deep_view(),
            t@,
        ));
    }
    while idx < n
        invariant
            n == pieces.len(),
            idx <= n,
            pieces.deep_view() == split_from(s@, t@, 0),
            interleave_token(pieces.deep_view(), t@) == out.deep_view() + interleave_token(
                pieces.deep_view().skip(idx as int),
                t@,
            ),
        decreases n - idx,
    {
        let ghost suffix = pieces.deep_view().skip(idx as int);
        proof {
            assert(suffix[0] == pieces.deep_view()[idx as int]);
            assert(suffix.skip(1) =~= pieces.deep_view().skip(idx + 1));
        }
        let piece = &pieces[idx];
        if !piece.as_str().is_empty() {
            let ghost old_dv = out.deep_view();
            out.push(piece.clone());
            proof {
                assert(out.deep_view() =~= old_dv.push(pieces.deep_view()[idx as int]));
            }
        }
        if idx + 1 < n {
            let ghost old_dv = out.deep_view();
            out.push(t.to_owned());
            proof {
                assert(out.deep_view() =~= old_dv.push(t@));
            }
        }
        idx += 1;
    }
    out
}

} // verus!
