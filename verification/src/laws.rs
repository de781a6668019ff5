//! General laws of the template engine, stated and proved once for
//! all inputs.

use vstd::prelude::*;
use crate::escape::cleanup_from;
use crate::escape::escape_from;
use crate::replace::find_end_from;
use crate::replace::replace_from;
use crate::scan::count_from;
use crate::scan::is_prefix;
use crate::scan::occurs_at;

verus! {

/// Number of non-overlapping literal occurrences of `t` in `s[i..]`,
/// counted greedily left to right and ignoring escapes.
pub open spec fn literal_count_from(s: Seq<char>, t: Seq<char>, i: int) -> nat
    decreases s.len() - i,
{
    if i < 0 || i >= s.len() || t.len() == 0 {
        0
    } else if occurs_at(s, t, i) {
        1 + literal_count_from(s, t, i + t.len())
    } else {
        literal_count_from(s, t, i + 1)
    }
}

proof fn lemma_count_literal_from(s: Seq<char>, t: Seq<char>, i: int)
    requires
        t.len() >= 1,
        t[0] != '\\',
        forall|j: int| #![trigger occurs_at(s, t, j)]
            1 <= j < s.len() && occurs_at(s, t, j) ==> s[j - 1] != '\\',
        0 <= i,
    ensures
        count_from(s, t, i) == literal_count_from(s, t, i),
    decreases s.len() - i,
{
    if i >= s.len() {
    } else if s[i] == '\\' {
        assert(!occurs_at(s, t, i)) by {
            if occurs_at(s, t, i) {
                assert(s.subrange(i, i + t.len())[0] == s[i]);
            }
        }
        if i + 1 < s.len() {
            assert(!occurs_at(s, t, i + 1)) by {
                if occurs_at(s, t, i + 1) {
                    assert(s[i + 1 - 1] != '\\');
                }
            }
            lemma_count_literal_from(s, t, i + 2);
            assert(literal_count_from(s, t, i + 1) == literal_count_from(s, t, i + 2));
        } else {
            assert(literal_count_from(s, t, i + 1) == 0);
        }
    } else if occurs_at(s, t, i) {
        lemma_count_literal_from(s, t, i + t.len());
    } else {
        lemma_count_literal_from(s, t, i + 1);
    }
}

/// When no occurrence of the token is preceded by a backslash, the
/// escape-aware count agrees with the plain count of non-overlapping
/// literal occurrences.  A token that itself begins with a backslash
/// is left out: there the escape scan reads the token's own first
/// character as a marker.
pub proof fn lemma_count_counts_literals(s: Seq<char>, t: Seq<char>)
    requires
        t.len() >= 1,
        t[0] != '\\',
        forall|j: int| #![trigger occurs_at(s, t, j)]
            1 <= j < s.len() && occurs_at(s, t, j) ==> s[j - 1] != '\\',
    ensures
        count_from(s, t, 0) == literal_count_from(s, t, 0),
{
    lemma_count_literal_from(s, t, 0);
}

/// `s` holds no escape marker: no backslash in it is followed by the
/// start token, by the non-empty end token, or by another backslash.
pub open spec fn no_escape_markers(s: Seq<char>, st: Seq<char>, en: Seq<char>) -> bool {
    forall|i: int| #![trigger s[i]]
        0 <= i < s.len() && s[i] == '\\' ==> !occurs_at(s, st, i + 1) && !(en.len() > 0
            && occurs_at(s, en, i + 1)) && !(i + 1 < s.len() && s[i + 1] == '\\')
}

proof fn lemma_cleanup_of_clean_from(s: Seq<char>, st: Seq<char>, en: Seq<char>, i: int)
    requires
        st.len() >= 1,
        no_escape_markers(s, st, en),
        0 <= i <= s.len(),
    ensures
        cleanup_from(s, st, en, i) == s.skip(i),
    decreases s.len() - i,
{
    if i == s.len() {
        assert(cleanup_from(s, st, en, i) =~= s.skip(i));
    } else if s[i] == '\\' {
        if i + 1 >= s.len() {
            assert(s.skip(i) =~= seq!['\\']);
        } else {
            lemma_cleanup_of_clean_from(s, st, en, i + 2);
            assert(s.skip(i) =~= seq!['\\', s[i + 1]] + s.skip(i + 2));
        }
    } else {
        lemma_cleanup_of_clean_from(s, st, en, i + 1);
        assert(s.skip(i) =~= seq![s[i]] + s.skip(i + 1));
    }
}

/// Cleanup is a no-op on text that holds no escape marker.
pub proof fn lemma_cleanup_of_clean(s: Seq<char>, st: Seq<char>, en: Seq<char>)
    requires
        st.len() >= 1,
        no_escape_markers(s, st, en),
    ensures
        cleanup_from(s, st, en, 0) == s,
{
    lemma_cleanup_of_clean_from(s, st, en, 0);
    assert(s.skip(0) =~= s);
}

/// Two texts with the same suffix agree on token occurrences at
/// corresponding positions in that suffix.
proof fn lemma_occurs_suffix(s1: Seq<char>, i1: int, s2: Seq<char>, i2: int, t: Seq<char>, d: int)
    requires
        0 <= i1 <= s1.len(),
        0 <= i2 <= s2.len(),
        s1.skip(i1) == s2.skip(i2),
        0 <= d,
    ensures
        occurs_at(s1, t, i1 + d) == occurs_at(s2, t, i2 + d),
{
    assert(s1.skip(i1).len() == s1.len() - i1);
    assert(s2.skip(i2).len() == s2.len() - i2);
    if i1 + d + t.len() <= s1.len() {
        assert(s1.subrange(i1 + d, i1 + d + t.len()) =~= s1.skip(i1).subrange(d, d + t.len()));
        assert(s2.subrange(i2 + d, i2 + d + t.len()) =~= s2.skip(i2).subrange(d, d + t.len()));
    }
}

/// Skipping `k` more characters preserves suffix equality.
proof fn lemma_skip_shift(s1: Seq<char>, i1: int, s2: Seq<char>, i2: int, k: int)
    requires
        0 <= i1 <= s1.len(),
        0 <= i2 <= s2.len(),
        s1.skip(i1) == s2.skip(i2),
        0 <= k <= s1.len() - i1,
    ensures
        0 <= i2 + k <= s2.len(),
        s1.skip(i1 + k) == s2.skip(i2 + k),
{
    assert(s1.skip(i1).len() == s1.len() - i1);
    assert(s2.skip(i2).len() == s2.len() - i2);
    assert(s1.skip(i1 + k) =~= s1.skip(i1).skip(k));
    assert(s2.skip(i2 + k) =~= s2.skip(i2).skip(k));
}

/// Cleanup of a suffix depends only on that suffix.
proof fn lemma_cleanup_suffix(s1: Seq<char>, i1: int, s2: Seq<char>, i2: int, st: Seq<char>, en: Seq<char>)
    requires
        0 <= i1 <= s1.len(),
        0 <= i2 <= s2.len(),
        s1.skip(i1) == s2.skip(i2),
    ensures
        cleanup_from(s1, st, en, i1) == cleanup_from(s2, st, en, i2),
    decreases s1.len() - i1,
{
    let a = s1.skip(i1);
    assert(a.len() == s1.len() - i1);
    assert(s2.skip(i2).len() == s2.len() - i2);
    if i1 >= s1.len() || st.len() == 0 {
    } else {
        assert(s1[i1] == a[0] && s2[i2] == a[0]);
        lemma_occurs_suffix(s1, i1, s2, i2, st, 1);
        lemma_occurs_suffix(s1, i1, s2, i2, en, 1);
        if s1[i1] == '\\' {
            if i1 + 1 >= s1.len() {
            } else {
                assert(s1[i1 + 1] == a[1] && s2[i2 + 1] == a[1]);
                if occurs_at(s1, st, i1 + 1) {
                    lemma_skip_shift(s1, i1, s2, i2, 1 + st.len() as int);
                    lemma_cleanup_suffix(s1, i1 + 1 + st.len() as int, s2, i2 + 1 + st.len() as int, st, en);
                } else if en.len() > 0 && occurs_at(s1, en, i1 + 1) {
                    lemma_skip_shift(s1, i1, s2, i2, 1 + en.len() as int);
                    lemma_cleanup_suffix(s1, i1 + 1 + en.len() as int, s2, i2 + 1 + en.len() as int, st, en);
                } else {
                    lemma_skip_shift(s1, i1, s2, i2, 2);
                    lemma_cleanup_suffix(s1, i1 + 2, s2, i2 + 2, st, en);
                }
            }
        } else {
            lemma_skip_shift(s1, i1, s2, i2, 1);
            lemma_cleanup_suffix(s1, i1 + 1, s2, i2 + 1, st, en);
        }
    }
}

/// A backslash-free prefix of escaped text is a prefix of the
/// unescaped text: escaping only inserts backslashes.
proof fn lemma_escape_prefix_clean(s: Seq<char>, st: Seq<char>, en: Seq<char>, i: int, w: Seq<char>)
    requires
        st.len() >= 1,
        0 <= i <= s.len(),
        forall|k: int| 0 <= k < w.len() ==> w[k] != '\\',
        is_prefix(w, escape_from(s, st, en, i)),
    ensures
        is_prefix(w, s.skip(i)),
    decreases w.len(),
{
    let e = escape_from(s, st, en, i);
    if w.len() == 0 {
        assert(s.skip(i).subrange(0, 0) =~= w);
    } else {
        assert(e.len() > 0);
        assert(i < s.len());
        assert(w[0] == e.subrange(0, w.len() as int)[0]);
        assert(w[0] == e[0]);
        if s[i] == '\\' {
            assert(e[0] == '\\');
        } else if occurs_at(s, st, i) {
            assert(e[0] == '\\');
        } else if en.len() > 0 && occurs_at(s, en, i) {
            assert(e[0] == '\\');
        } else {
            let e2 = escape_from(s, st, en, i + 1);
            assert(e == seq![s[i]] + e2);
            assert(w[0] == s[i]);
            let w2 = w.skip(1);
            assert(is_prefix(w2, e2)) by {
                assert(w2.len() <= e2.len());
                assert forall|k: int| 0 <= k < w2.len() implies e2.subrange(0, w2.len() as int)[k]
                    == w2[k] by {
                    assert(w2[k] == w[k + 1]);
                    assert(w[k + 1] == e.subrange(0, w.len() as int)[k + 1]);
                    assert(e[k + 1] == e2[k]);
                }
                assert(e2.subrange(0, w2.len() as int) =~= w2);
            }
            lemma_escape_prefix_clean(s, st, en, i + 1, w2);
            assert(is_prefix(w, s.skip(i))) by {
                assert(w2.len() <= s.skip(i + 1).len());
                assert forall|k: int| 0 <= k < w.len() implies s.skip(i).subrange(
                    0,
                    w.len() as int,
                )[k] == w[k] by {
                    if k == 0 {
                        assert(s.skip(i)[0] == s[i]);
                    } else {
                        assert(s.skip(i)[k] == s.skip(i + 1)[k - 1]);
                        assert(s.skip(i + 1).subrange(0, w2.len() as int)[k - 1] == w2[k - 1]);
                        assert(w2[k - 1] == w[k]);
                    }
                }
                assert(s.skip(i).subrange(0, w.len() as int) =~= w);
            }
        }
    }
}

proof fn lemma_escape_roundtrip_from(s: Seq<char>, st: Seq<char>, en: Seq<char>, i: int)
    requires
        st.len() >= 1,
        0 <= i <= s.len(),
        forall|k: int| 0 <= k < st.len() ==> st[k] != '\\',
        forall|k: int| 0 <= k < en.len() ==> en[k] != '\\',
    ensures
        cleanup_from(escape_from(s, st, en, i), st, en, 0) == s.skip(i),
    decreases s.len() - i,
{
    let e = escape_from(s, st, en, i);
    if i == s.len() {
        assert(e =~= Seq::<char>::empty());
        assert(s.skip(i) =~= Seq::<char>::empty());
    } else if s[i] == '\\' {
        let e2 = escape_from(s, st, en, i + 1);
        assert(e == seq!['\\', '\\'] + e2);
        assert(e[0] == '\\' && e[1] == '\\');
        assert(!occurs_at(e, st, 1)) by {
            if occurs_at(e, st, 1) {
                assert(e.subrange(1, 1 + st.len() as int)[0] == e[1]);
            }
        }
        assert(!(en.len() > 0 && occurs_at(e, en, 1))) by {
            if en.len() > 0 && occurs_at(e, en, 1) {
                assert(e.subrange(1, 1 + en.len() as int)[0] == e[1]);
            }
        }
        assert(e.skip(2) =~= e2);
        assert(e2.skip(0) =~= e2);
        lemma_cleanup_suffix(e, 2, e2, 0, st, en);
        lemma_escape_roundtrip_from(s, st, en, i + 1);
        assert(cleanup_from(e, st, en, 0) == seq!['\\'] + s.skip(i + 1));
        assert(s.skip(i) =~= seq!['\\'] + s.skip(i + 1));
    } else if occurs_at(s, st, i) {
        let e2 = escape_from(s, st, en, i + st.len());
        assert(e == seq!['\\'] + st + e2);
        assert(e[0] == '\\');
        assert(occurs_at(e, st, 1)) by {
            assert(e.subrange(1, 1 + st.len() as int) =~= st);
        }
        assert(e.skip(1 + st.len() as int) =~= e2);
        assert(e2.skip(0) =~= e2);
        lemma_cleanup_suffix(e, 1 + st.len() as int, e2, 0, st, en);
        lemma_escape_roundtrip_from(s, st, en, i + st.len());
        assert(cleanup_from(e, st, en, 0) == st + s.skip(i + st.len()));
        assert(s.skip(i) =~= st + s.skip(i + st.len())) by {
            assert(s.subrange(i, i + st.len()) == st);
            assert forall|k: int| 0 <= k < st.len() implies s.skip(i)[k] == st[k] by {
                assert(s.subrange(i, i + st.len())[k] == s[i + k]);
            }
        }
    } else if en.len() > 0 && occurs_at(s, en, i) {
        let e2 = escape_from(s, st, en, i + en.len());
        assert(e == seq!['\\'] + en + e2);
        assert(e[0] == '\\');
        assert(forall|k: int| 0 <= k < en.len() ==> e[1 + k] == en[k]);
        assert(forall|k: int| 0 <= k < e2.len() ==> e[1 + en.len() as int + k] == e2[k]);
        assert(!occurs_at(e, st, 1)) by {
            if occurs_at(e, st, 1) {
                assert(forall|k: int| 0 <= k < st.len() ==> st[k] == e.subrange(
                    1,
                    1 + st.len() as int,
                )[k]);
                assert(forall|k: int| 0 <= k < st.len() ==> st[k] == e[1 + k]);
                if st.len() <= en.len() {
                    assert(occurs_at(s, st, i)) by {
                        assert(s.subrange(i, i + en.len()) == en);
                        assert forall|k: int| 0 <= k < st.len() implies s.subrange(
                            i,
                            i + st.len(),
                        )[k] == st[k] by {
                            assert(s[i + k] == s.subrange(i, i + en.len())[k]);
                            assert(en[k] == e[1 + k]);
                        }
                        assert(s.subrange(i, i + st.len()) =~= st);
                    }
                } else {
                    let w = st.skip(en.len() as int);
                    assert(is_prefix(w, e2)) by {
                        assert(w.len() <= e2.len());
                        assert forall|k: int| 0 <= k < w.len() implies e2.subrange(
                            0,
                            w.len() as int,
                        )[k] == w[k] by {
                            assert(w[k] == st[en.len() + k]);
                            assert(st[en.len() + k] == e[1 + en.len() as int + k]);
                        }
                        assert(e2.subrange(0, w.len() as int) =~= w);
                    }
                    assert(forall|k: int| 0 <= k < w.len() ==> w[k] != '\\');
                    lemma_escape_prefix_clean(s, st, en, i + en.len(), w);
                    assert(occurs_at(s, st, i)) by {
                        assert(w.len() <= s.skip(i + en.len()).len());
                        assert(i + st.len() <= s.len());
                        assert forall|k: int| 0 <= k < st.len() implies s.subrange(
                            i,
                            i + st.len(),
                        )[k] == st[k] by {
                            if k < en.len() {
                                assert(s.subrange(i, i + en.len())[k] == s[i + k]);
                            } else {
                                assert(s.skip(i + en.len()).subrange(0, w.len() as int)[k
                                    - en.len()] == w[k - en.len()]);
                                assert(s.skip(i + en.len())[k - en.len()] == s[i + k]);
                            }
                        }
                        assert(s.subrange(i, i + st.len()) =~= st);
                    }
                }
            }
        }
        assert(occurs_at(e, en, 1)) by {
            assert(e.subrange(1, 1 + en.len() as int) =~= en);
        }
        assert(e.skip(1 + en.len() as int) =~= e2);
        assert(e2.skip(0) =~= e2);
        lemma_cleanup_suffix(e, 1 + en.len() as int, e2, 0, st, en);
        lemma_escape_roundtrip_from(s, st, en, i + en.len());
        assert(cleanup_from(e, st, en, 0) == en + s.skip(i + en.len()));
        assert(s.skip(i) =~= en + s.skip(i + en.len())) by {
            assert(s.subrange(i, i + en.len()) == en);
            assert forall|k: int| 0 <= k < en.len() implies s.skip(i)[k] == en[k] by {
                assert(s.subrange(i, i + en.len())[k] == s[i + k]);
            }
        }
    } else {
        let e2 = escape_from(s, st, en, i + 1);
        assert(e == seq![s[i]] + e2);
        assert(e[0] == s[i]);
        assert(e.skip(1) =~= e2);
        assert(e2.skip(0) =~= e2);
        lemma_cleanup_suffix(e, 1, e2, 0, st, en);
        lemma_escape_roundtrip_from(s, st, en, i + 1);
        assert(cleanup_from(e, st, en, 0) == seq![s[i]] + s.skip(i + 1));
        assert(s.skip(i) =~= seq![s[i]] + s.skip(i + 1));
    }
}

/// Escaping and then cleaning up is the identity, for any payload and
/// any tokens that do not themselves contain a backslash: every
/// marker the escape inserts is consumed again by the cleanup, and
/// nothing else is read as a marker.
pub proof fn lemma_escape_cleanup_roundtrip(s: Seq<char>, st: Seq<char>, en: Seq<char>)
    requires
        st.len() >= 1,
        forall|k: int| 0 <= k < st.len() ==> st[k] != '\\',
        forall|k: int| 0 <= k < en.len() ==> en[k] != '\\',
    ensures
        cleanup_from(escape_from(s, st, en, 0), st, en, 0) == s,
{
    lemma_escape_roundtrip_from(s, st, en, 0);
    assert(s.skip(0) =~= s);
}

/// The unescaped count of a suffix depends only on that suffix.
proof fn lemma_count_suffix(s1: Seq<char>, i1: int, s2: Seq<char>, i2: int, t: Seq<char>)
    requires
        0 <= i1 <= s1.len(),
        0 <= i2 <= s2.len(),
        s1.skip(i1) == s2.skip(i2),
    ensures
        count_from(s1, t, i1) == count_from(s2, t, i2),
    decreases s1.len() - i1,
{
    let a = s1.skip(i1);
    assert(a.len() == s1.len() - i1);
    assert(s2.skip(i2).len() == s2.len() - i2);
    if i1 >= s1.len() || t.len() == 0 {
    } else {
        assert(s1[i1] == a[0] && s2[i2] == a[0]);
        lemma_occurs_suffix(s1, i1, s2, i2, t, 0);
        lemma_occurs_suffix(s1, i1, s2, i2, t, 1);
        if s1[i1] == '\\' {
            if i1 + 1 >= s1.len() {
            } else if occurs_at(s1, t, i1 + 1) {
                lemma_skip_shift(s1, i1, s2, i2, 1 + t.len() as int);
                lemma_count_suffix(s1, i1 + 1 + t.len() as int, s2, i2 + 1 + t.len() as int, t);
            } else {
                lemma_skip_shift(s1, i1, s2, i2, 2);
                lemma_count_suffix(s1, i1 + 2, s2, i2 + 2, t);
            }
        } else if occurs_at(s1, t, i1) {
            lemma_skip_shift(s1, i1, s2, i2, t.len() as int);
            lemma_count_suffix(s1, i1 + t.len() as int, s2, i2 + t.len() as int, t);
        } else {
            lemma_skip_shift(s1, i1, s2, i2, 1);
            lemma_count_suffix(s1, i1 + 1, s2, i2 + 1, t);
        }
    }
}

proof fn lemma_count_prefix_plain_from(v: Seq<char>, rest: Seq<char>, t: Seq<char>, j: int)
    requires
        t.len() == 1,
        forall|k: int| 0 <= k < v.len() ==> v[k] != '\\' && v[k] != t[0],
        0 <= j <= v.len(),
    ensures
        count_from(v + rest, t, j) == count_from(rest, t, 0),
    decreases v.len() - j,
{
    let s = v + rest;
    if j == v.len() {
        assert(s.skip(v.len() as int) =~= rest);
        assert(rest.skip(0) =~= rest);
        lemma_count_suffix(s, v.len() as int, rest, 0, t);
    } else {
        assert(s[j] == v[j]);
        assert(!occurs_at(s, t, j)) by {
            if occurs_at(s, t, j) {
                assert(s.subrange(j, j + 1)[0] == s[j]);
            }
        }
        lemma_count_prefix_plain_from(v, rest, t, j + 1);
    }
}

/// With single-character tokens, the escape-aware count scans the
/// payload of a closed occurrence without counting anything: the
/// count from the payload start equals the count from past the end
/// token.
proof fn lemma_find_end_payload(s: Seq<char>, st: Seq<char>, en: Seq<char>, j: int, e: int)
    requires
        st.len() == 1,
        en.len() == 1,
        en[0] != st[0],
        0 <= j,
        find_end_from(s, st, en, j) == Some(e),
    ensures
        j <= e < s.len(),
        count_from(s, st, j) == count_from(s, st, e + 1),
    decreases s.len() - j,
{
    if j >= s.len() {
    } else if s[j] == '\\' {
        if j + 1 >= s.len() {
        } else {
            lemma_find_end_payload(s, st, en, j + 2, e);
            if occurs_at(s, st, j + 1) {
                assert(count_from(s, st, j) == count_from(s, st, j + 2));
            }
        }
    } else if occurs_at(s, en, j) {
        assert(e == j);
        assert(s.subrange(j, j + 1)[0] == s[j]);
        assert(s[j] == en[0]);
        assert(!occurs_at(s, st, j)) by {
            if occurs_at(s, st, j) {
                assert(s.subrange(j, j + 1)[0] == s[j]);
            }
        }
    } else if occurs_at(s, st, j) {
    } else {
        lemma_find_end_payload(s, st, en, j + 1, e);
    }
}

proof fn lemma_replace_decrements_from(
    s: Seq<char>,
    st: Seq<char>,
    en: Seq<char>,
    v: Seq<char>,
    i: int,
)
    requires
        st.len() == 1,
        en.len() <= 1,
        en.len() == 1 ==> en[0] != st[0],
        forall|k: int| 0 <= k < v.len() ==> v[k] != '\\' && v[k] != st[0],
        0 <= i,
        count_from(s, st, i) >= 1,
    ensures
        count_from(replace_from(s, st, en, v, i), st, 0) == count_from(s, st, i) - 1,
    decreases s.len() - i,
{
    let r = replace_from(s, st, en, v, i);
    if s[i] == '\\' {
        let r2 = replace_from(s, st, en, v, i + 2);
        lemma_replace_decrements_from(s, st, en, v, i + 2);
        assert(r.len() >= 2 && r[0] == '\\');
        if occurs_at(s, st, i + 1) {
            assert(r == seq!['\\'] + st + r2);
            assert(count_from(s, st, i) == count_from(s, st, i + 2));
            assert(r[1] == st[0]);
            assert(occurs_at(r, st, 1)) by {
                assert(r.subrange(1, 2) =~= st);
            }
            assert(r.skip(2) =~= r2);
            assert(r2.skip(0) =~= r2);
            lemma_count_suffix(r, 2, r2, 0, st);
        } else {
            if en.len() == 1 && occurs_at(s, en, i + 1) {
                assert(r == seq!['\\'] + en + r2);
                assert(r[1] == en[0]);
            } else {
                assert(r == seq!['\\', s[i + 1]] + r2);
                assert(r[1] == s[i + 1]);
                assert(s[i + 1] != st[0]) by {
                    if s[i + 1] == st[0] {
                        assert(occurs_at(s, st, i + 1)) by {
                            assert(s.subrange(i + 1, i + 2) =~= st);
                        }
                    }
                }
            }
            assert(r[1] != st[0]);
            assert(!occurs_at(r, st, 1)) by {
                if occurs_at(r, st, 1) {
                    assert(r.subrange(1, 2)[0] == r[1]);
                }
            }
            assert(r.skip(2) =~= r2);
            assert(r2.skip(0) =~= r2);
            lemma_count_suffix(r, 2, r2, 0, st);
        }
    } else if occurs_at(s, st, i) {
        assert(count_from(s, st, i) == 1 + count_from(s, st, i + 1));
        match find_end_from(s, st, en, i + 1) {
            Some(e) => {
                assert(en.len() == 1);
                lemma_find_end_payload(s, st, en, i + 1, e);
                assert(r == v + s.skip(e + 1));
                lemma_count_prefix_plain_from(v, s.skip(e + 1), st, 0);
                assert(s.skip(e + 1).skip(0) =~= s.skip(e + 1));
                lemma_count_suffix(s.skip(e + 1), 0, s, e + 1, st);
            },
            None => {
                assert(r == v + s.skip(i + 1));
                lemma_count_prefix_plain_from(v, s.skip(i + 1), st, 0);
                assert(s.skip(i + 1).skip(0) =~= s.skip(i + 1));
                lemma_count_suffix(s.skip(i + 1), 0, s, i + 1, st);
            },
        }
    } else {
        let r2 = replace_from(s, st, en, v, i + 1);
        lemma_replace_decrements_from(s, st, en, v, i + 1);
        assert(r == seq![s[i]] + r2);
        assert(r[0] == s[i]);
        assert(s[i] != st[0]) by {
            if s[i] == st[0] {
                assert(occurs_at(s, st, i)) by {
                    assert(s.subrange(i, i + 1) =~= st);
                }
            }
        }
        assert(!occurs_at(r, st, 0)) by {
            if occurs_at(r, st, 0) {
                assert(r.subrange(0, 1)[0] == r[0]);
            }
        }
        assert(r.skip(1) =~= r2);
        assert(r2.skip(0) =~= r2);
        lemma_count_suffix(r, 1, r2, 0, st);
    }
}

/// Replacing the first occurrence lowers the unescaped count by
/// exactly one, so looping the replacement drives it to zero.  Stated
/// for single-character tokens and a value that holds neither a
/// backslash nor the start token, as a guarded user value does.
pub proof fn lemma_replace_decrements_count(s: Seq<char>, st: Seq<char>, en: Seq<char>, v: Seq<char>)
    requires
        st.len() == 1,
        en.len() <= 1,
        en.len() == 1 ==> en[0] != st[0],
        forall|k: int| 0 <= k < v.len() ==> v[k] != '\\' && v[k] != st[0],
        count_from(s, st, 0) >= 1,
    ensures
        count_from(replace_from(s, st, en, v, 0), st, 0) == count_from(s, st, 0) - 1,
{
    lemma_replace_decrements_from(s, st, en, v, 0);
}

proof fn lemma_replace_noop_from(s: Seq<char>, st: Seq<char>, en: Seq<char>, v: Seq<char>, i: int)
    requires
        st.len() == 1,
        en.len() <= 1,
        0 <= i <= s.len(),
        count_from(s, st, i) == 0,
    ensures
        replace_from(s, st, en, v, i) == s.skip(i),
    decreases s.len() - i,
{
    if i >= s.len() {
        assert(replace_from(s, st, en, v, i) =~= s.skip(i));
    } else if s[i] == '\\' {
        if i + 1 >= s.len() {
            assert(s.skip(i) =~= seq!['\\']);
        } else {
            if occurs_at(s, st, i + 1) {
                assert(s.subrange(i + 1, i + 2)[0] == s[i + 1]);
                assert(st == s.subrange(i + 1, i + 2));
            }
            if en.len() == 1 && occurs_at(s, en, i + 1) {
                assert(s.subrange(i + 1, i + 2)[0] == s[i + 1]);
                assert(en == s.subrange(i + 1, i + 2));
            }
            lemma_replace_noop_from(s, st, en, v, i + 2);
            assert(s.skip(i) =~= seq!['\\', s[i + 1]] + s.skip(i + 2));
            if occurs_at(s, st, i + 1) {
                assert(seq!['\\'] + st + s.skip(i + 2) =~= s.skip(i));
            } else if en.len() > 0 && occurs_at(s, en, i + 1) {
                assert(seq!['\\'] + en + s.skip(i + 2) =~= s.skip(i));
            }
        }
    } else if occurs_at(s, st, i) {
        assert(count_from(s, st, i) >= 1);
    } else {
        lemma_replace_noop_from(s, st, en, v, i + 1);
        assert(s.skip(i) =~= seq![s[i]] + s.skip(i + 1));
    }
}

/// When no unescaped occurrence is left, the replacement leaves the
/// text untouched, whatever the value.  Stated for single-character
/// tokens.
pub proof fn lemma_replace_none_left_unchanged(
    s: Seq<char>,
    st: Seq<char>,
    en: Seq<char>,
    v: Seq<char>,
)
    requires
        st.len() == 1,
        en.len() <= 1,
        count_from(s, st, 0) == 0,
    ensures
        replace_from(s, st, en, v, 0) == s,
{
    lemma_replace_noop_from(s, st, en, v, 0);
    assert(s.skip(0) =~= s);
}

/// Cleanup is idempotent on any text whose cleaned form holds no
/// escape marker left over.  Text whose cleaned form still holds a
/// marker is left out: stripping a doubled backslash can expose the
/// character after it as a fresh marker.
pub proof fn lemma_cleanup_idempotent(s: Seq<char>, st: Seq<char>, en: Seq<char>)
    requires
        st.len() >= 1,
        no_escape_markers(cleanup_from(s, st, en, 0), st, en),
    ensures
        cleanup_from(cleanup_from(s, st, en, 0), st, en, 0) == cleanup_from(s, st, en, 0),
{
    lemma_cleanup_of_clean(cleanup_from(s, st, en, 0), st, en);
}

} // verus!
