//! The interactive fill session: a state machine that collects one
//! value per parameter occurrence.
//!
//! The session holds the partially resolved template and a pending
//! input buffer.  Character and backspace events edit the buffer; a
//! submit event guards the buffered value against colliding with the
//! delimiter tokens, substitutes it for the first unresolved
//! occurrence and either finishes the session or waits for the next
//! value; a cancel event ends the session without a result.

use vstd::prelude::*;
use crate::escape::cleanup_from;
use crate::escape::cleanup_text;
use crate::replace::replace_from;
use crate::replace::replace_first_text;
use crate::scan::count_from;
use crate::scan::count_unescaped;
use crate::scan::find_at;
use crate::scan::find_token_from;
use crate::scan::lemma_find_at_bounds;

verus! {

/// Stands in for a literal start token inside a user-supplied value
/// until the final cleanup pass is over.  A private-use code point,
/// not expected in normal command text.
pub const PARAM_START_GUARD: char = '\u{E000}';

/// Stands in for a literal end token inside a user-supplied value
/// until the final cleanup pass is over.
pub const PARAM_END_GUARD: char = '\u{E001}';

/// One input event of a fill session.
#[derive(Clone, Copy, Debug)]
pub enum FillEvent {
    Character(char),
    Backspace,
    Submit,
    Cancel,
}

/// Why a fill session could not be started.
#[derive(Debug, PartialEq, Eq, Structural)]
pub enum FillError {
    /// The start token was empty.
    EmptyStartToken,
}

/// What a fill session turned into after one event.
#[derive(Debug)]
pub enum SessionStep {
    /// The session goes on and waits for the next event.
    AwaitingInput(FillSession),
    /// Every occurrence is resolved; the final command text is ready.
    Done(String),
    /// The user abandoned the session; there is no result.
    Cancelled,
}

/// `s[i..]` with every literal occurrence of `pat` replaced by `rep`,
/// left to right and non-overlapping.
pub open spec fn replace_all_from(s: Seq<char>, pat: Seq<char>, rep: Seq<char>, i: int) -> Seq<
    char,
>
    decreases s.len() - i,
    via replace_all_from_decreases
{
    if i < 0 || i > s.len() || pat.len() == 0 {
        Seq::empty()
    } else {
        match find_at(s, pat, i) {
            None => s.skip(i),
            Some(k) => s.subrange(i, k) + rep + replace_all_from(s, pat, rep, k + pat.len()),
        }
    }
}

#[via_fn]
proof fn replace_all_from_decreases(s: Seq<char>, pat: Seq<char>, rep: Seq<char>, i: int) {
    if 0 <= i <= s.len() && pat.len() >= 1 {
        lemma_find_at_bounds(s, pat, i);
    }
}

/// A user value with every literal start token replaced by
/// `PARAM_START_GUARD` and, when the end token is non-empty, every
/// literal end token replaced by `PARAM_END_GUARD`.
pub open spec fn guarded_value(v: Seq<char>, st: Seq<char>, en: Seq<char>) -> Seq<char> {
    let g = replace_all_from(v, st, seq![PARAM_START_GUARD], 0);
    if en.len() > 0 {
        replace_all_from(g, en, seq![PARAM_END_GUARD], 0)
    } else {
        g
    }
}

/// The final command text with the guard code points turned back into
/// the literal tokens.
pub open spec fn restored_text(s: Seq<char>, st: Seq<char>, en: Seq<char>) -> Seq<char> {
    let r = replace_all_from(s, seq![PARAM_START_GUARD], st, 0);
    if en.len() > 0 {
        replace_all_from(r, seq![PARAM_END_GUARD], en, 0)
    } else {
        r
    }
}

/// Replaces every literal occurrence of `pat` in `s` by `rep`.
pub(crate) fn replace_all_text(s: &str, pat: &str, rep: &str) -> (r: String)
    requires
        pat@.len() >= 1,
    ensures
        r@ == replace_all_from(s@, pat@, rep@, 0),
{
    let m = s.unicode_len();
    let patl = pat.unicode_len();
    let mut out = String::new();
    let mut pos: usize = 0;
    loop
        invariant
            m == s@.len(),
            patl == pat@.len(),
            patl >= 1,
            pos <= m,
            replace_all_from(s@, pat@, rep@, 0) == out@ + replace_all_from(
                s@,
                pat@,
                rep@,
                pos as int,
            ),
        decreases m - pos,
    {
        match find_token_from(s, pat, pos) {
            Some(k) => {
                proof {
                    lemma_find_at_bounds(s@, pat@, pos as int);
                }
                let piece = s.substring_char(pos, k);
                out.append(piece);
                out.append(rep);
                pos = k + patl;
            },
            None => {
                let piece = s.substring_char(pos, m);
                proof {
                    assert(s@.subrange(pos as int, m as int) =~= s@.skip(pos as int));
                }
                out.append(piece);
                return out;
            },
        }
    }
}

/// Relies on String::push: appends exactly the given character to the
/// end of the string.
#[verifier::external_body]
fn push_char(s: &mut String, c: char)
    ensures
        final(s)@ == old(s)@.push(c),
{
    s.push(c)
}

/// Guards a raw user value so that its own text cannot be taken for a
/// delimiter by later rounds or by the cleanup pass.
pub(crate) fn guard_input(v: &str, st: &str, en: &str) -> (r: String)
    requires
        st@.len() >= 1,
    ensures
        r@ == guarded_value(v@, st@, en@),
{
    proof {
        reveal_strlit("\u{e000}");
        reveal_strlit("\u{e001}");
        assert("\u{e000}"@ =~= seq![PARAM_START_GUARD]);
        assert("\u{e001}"@ =~= seq![PARAM_END_GUARD]);
    }
    let g = replace_all_text(v, st, "\u{e000}");
    if en.unicode_len() > 0 {
        replace_all_text(g.as_str(), en, "\u{e001}")
    } else {
        g
    }
}

/// Turns the guard code points in a finished command back into the
/// literal tokens.
pub(crate) fn restore_guards(s: &str, st: &str, en: &str) -> (r: String)
    ensures
        r@ == restored_text(s@, st@, en@),
{
    proof {
        reveal_strlit("\u{e000}");
        reveal_strlit("\u{e001}");
        assert("\u{e000}"@ =~= seq![PARAM_START_GUARD]);
        assert("\u{e001}"@ =~= seq![PARAM_END_GUARD]);
    }
    let r = replace_all_text(s, "\u{e000}", st);
    if en.unicode_len() > 0 {
        replace_all_text(r.as_str(), "\u{e001}", en)
    } else {
        r
    }
}

/// The transient state of one fill session.
#[derive(Debug)]
pub struct FillSession {
    /// The current, partially resolved template text.
    pub template: String,
    /// The start token of a parameter occurrence; never empty.
    pub start_token: String,
    /// The end token of a parameter occurrence; may be empty.
    pub end_token: String,
    /// The value typed so far for the next occurrence.
    pub pending: String,
    /// How many occurrences have been resolved so far.
    pub resolved_count: usize,
}

impl FillSession {
    /// A session is well formed when its start token is non-empty.
    pub open spec fn wf(&self) -> bool {
        self.start_token@.len() >= 1
    }

    /// The template after submitting the pending value: the value is
    /// guarded, then substituted for the first unresolved occurrence.
    pub open spec fn submit_replaced(&self) -> Seq<char> {
        replace_from(
            self.template@,
            self.start_token@,
            self.end_token@,
            guarded_value(self.pending@, self.start_token@, self.end_token@),
            0,
        )
    }

    /// Whether the submit leaves no unresolved occurrence behind.
    pub open spec fn submit_finished(&self) -> bool {
        count_from(self.submit_replaced(), self.start_token@, 0) == 0
    }

    /// The final command a finishing submit yields: the escape markers
    /// are stripped and only then are the guard code points restored.
    pub open spec fn submit_final_command(&self) -> Seq<char> {
        restored_text(
            cleanup_from(self.submit_replaced(), self.start_token@, self.end_token@, 0),
            self.start_token@,
            self.end_token@,
        )
    }

    /// Starts a session for `template`; a session with an empty start
    /// token is refused.
    pub fn new(template: &str, start_token: &str, end_token: &str) -> (r: Result<
        FillSession,
        FillError,
    >)
        ensures
            r is Err <==> start_token@.len() == 0,
            match r {
                Ok(s) => s.wf() && s.template@ == template@ && s.start_token@ == start_token@
                    && s.end_token@ == end_token@ && s.pending@ == Seq::<char>::empty()
                    && s.resolved_count == 0,
                Err(e) => e == FillError::EmptyStartToken,
            },
    {
        if start_token.unicode_len() == 0 {
            return Err(FillError::EmptyStartToken);
        }
        Ok(
            FillSession {
                template: template.to_owned(),
                start_token: start_token.to_owned(),
                end_token: end_token.to_owned(),
                pending: String::new(),
                resolved_count: 0,
            },
        )
    }

    /// Feeds one event into the session.  A character is appended to
    /// the pending buffer, a backspace drops its last character, a
    /// cancel abandons the session, and a submit resolves the next
    /// occurrence with the buffered value: the session finishes with
    /// the cleaned-up command when nothing is left to resolve, and
    /// waits for the next value otherwise.
    pub fn on_event(self, event: FillEvent) -> (r: SessionStep)
        requires
            self.wf(),
        ensures
            match event {
                FillEvent::Cancel => r is Cancelled,
                FillEvent::Backspace => r matches SessionStep::AwaitingInput(s) && s.wf()
                    && s.template@ == self.template@ && s.start_token@ == self.start_token@
                    && s.end_token@ == self.end_token@ && s.resolved_count == self.resolved_count
                    && s.pending@ == (if self.pending@.len() == 0 {
                    self.pending@
                } else {
                    self.pending@.drop_last()
                }),
                FillEvent::Character(c) => r matches SessionStep::AwaitingInput(s) && s.wf()
                    && s.template@ == self.template@ && s.start_token@ == self.start_token@
                    && s.end_token@ == self.end_token@ && s.resolved_count == self.resolved_count
                    && s.pending@ == self.pending@.push(c),
                FillEvent::Submit => if self.submit_finished() {
                    r matches SessionStep::Done(out) && out@ == self.submit_final_command()
                } else {
                    r matches SessionStep::AwaitingInput(s) && s.wf() && s.template@
                        == self.submit_replaced() && s.start_token@ == self.start_token@
                        && s.end_token@ == self.end_token@ && s.pending@ == Seq::<char>::empty()
                        && s.resolved_count == (if self.resolved_count < usize::MAX {
                        self.resolved_count + 1
                    } else {
                        usize::MAX as int
                    })
                },
            },
    {
        match event {
            FillEvent::Cancel => SessionStep::Cancelled,
            FillEvent::Backspace => {
                let FillSession { template, start_token, end_token, pending, resolved_count } =
                    self;
                let n = pending.as_str().unicode_len();
                let new_pending = if n == 0 {
                    pending
                } else {
                    let p = pending.as_str().substring_char(0, n - 1).to_owned();
                    proof {
                        assert(pending@.subrange(0, pending@.len() - 1) =~= pending@.drop_last());
                    }
                    p
                };
                SessionStep::AwaitingInput(
                    FillSession {
                        template,
                        start_token,
                        end_token,
                        pending: new_pending,
                        resolved_count,
                    },
                )
            },
            FillEvent::Character(c) => {
                let FillSession { template, start_token, end_token, mut pending, resolved_count } =
                    self;
                push_char(&mut pending, c);
                SessionStep::AwaitingInput(
                    FillSession { template, start_token, end_token, pending, resolved_count },
                )
            },
            FillEvent::Submit => {
                let guarded = guard_input(
                    self.pending.as_str(),
                    self.start_token.as_str(),
                    self.end_token.as_str(),
                );
                let replaced = replace_first_text(
                    self.template.as_str(),
                    self.start_token.as_str(),
                    self.end_token.as_str(),
                    guarded.as_str(),
                );
                if count_unescaped(replaced.as_str(), self.start_token.as_str()) == 0 {
                    let cleaned = cleanup_text(
                        replaced.as_str(),
                        self.start_token.as_str(),
                        self.end_token.as_str(),
                    );
                    let restored = restore_guards(
                        cleaned.as_str(),
                        self.start_token.as_str(),
                        self.end_token.as_str(),
                    );
                    SessionStep::Done(restored)
                } else {
                    let count = if self.resolved_count < usize::MAX {
                        self.resolved_count + 1
                    } else {
                        usize::MAX
                    };
                    SessionStep::AwaitingInput(
                        FillSession {
                            template: replaced,
                            start_token: self.start_token,
                            end_token: self.end_token,
                            pending: String::new(),
                            resolved_count: count,
                        },
                    )
                }
            },
        }
    }
}

} // verus!
