//! The template engine operations, exposed as a trait on the command
//! value.

use vstd::prelude::*;
use crate::command::HoardCmd;
use crate::escape::cleanup_from;
use crate::escape::cleanup_text;
use crate::escape::escape_from;
use crate::escape::escape_text;
use crate::replace::replace_from;
use crate::replace::replace_first_text;
use crate::scan::count_from;
use crate::scan::count_unescaped;
use crate::scan::find_token_from;
use crate::scan::lemma_find_at_bounds;
use crate::scan::occurs_at;
use crate::split::interleave_token;
use crate::split::split_from;
use crate::split::split_inclusive_text;
use crate::split::split_text;

verus! {

/// Escape-aware scanning, counting, splitting and replacing on a
/// command's text.
pub trait Parameterized: Sized {
    /// The text of this command, as a sequence of Unicode scalar
    /// values.
    spec fn text(&self) -> Seq<char>;

    /// Escapes arbitrary user text so that a later escape-aware scan
    /// treats it as inert payload.
    fn escape_input(input: &str, start_token: &str, end_token: &str) -> (r: String)
        requires
            start_token@.len() >= 1,
        ensures
            r@ == escape_from(input@, start_token@, end_token@, 0),
    ;

    /// Strips the escape markers from the command text, once no
    /// unresolved occurrence is left.
    fn cleanup_escapes(&self, start_token: &str, end_token: &str) -> (r: HoardCmd)
        requires
            start_token@.len() >= 1,
        ensures
            r@ == cleanup_from(self.text(), start_token@, end_token@, 0),
    ;

    /// Whether the command text contains `token` literally anywhere.
    fn is_parameterized(&self, token: &str) -> (r: bool)
        requires
            token@.len() >= 1,
        ensures
            r == exists|k: int| occurs_at(self.text(), token@, k),
    ;

    /// The number of unescaped occurrences of `token` in the command
    /// text.
    fn get_parameter_count(&self, token: &str) -> (c: usize)
        requires
            token@.len() >= 1,
        ensures
            c == count_from(self.text(), token@, 0),
    ;

    /// The command text split at every literal occurrence of `token`,
    /// empty pieces preserved positionally.
    fn split(&self, token: &str) -> (r: Vec<String>)
        requires
            token@.len() >= 1,
        ensures
            r.deep_view() == split_from(self.text(), token@, 0),
    ;

    /// Like `split`, but the separator is reinserted as an element of
    /// its own between the pieces, and empty pieces are dropped.
    fn split_inclusive_token(&self, token: &str) -> (r: Vec<String>)
        requires
            token@.len() >= 1,
        ensures
            r.deep_view() == interleave_token(split_from(self.text(), token@, 0), token@),
    ;

    /// The command with the first unescaped occurrence of `token`
    /// replaced by `parameter`: with a closing `ending_token` the
    /// whole occurrence is consumed, without one only the start token
    /// itself.  Occurrences after the first are left untouched.
    fn replace_parameter(&self, token: &str, ending_token: &str, parameter: &str) -> (r: HoardCmd)
        requires
            token@.len() >= 1,
        ensures
            r@ == replace_from(self.text(), token@, ending_token@, parameter@, 0),
    ;
}

impl Parameterized for HoardCmd {
    open spec fn text(&self) -> Seq<char> {
        self.command@
    }

    fn escape_input(input: &str, start_token: &str, end_token: &str) -> (r: String) {
        escape_text(input, start_token, end_token)
    }

    fn cleanup_escapes(&self, start_token: &str, end_token: &str) -> (r: HoardCmd) {
        let cleaned = cleanup_text(self.command.as_str(), start_token, end_token);
        HoardCmd { command: cleaned }
    }

    fn is_parameterized(&self, token: &str) -> (r: bool) {
        proof {
            lemma_find_at_bounds(self.command@, token@, 0);
        }
        match find_token_from(self.command.as_str(), token, 0) {
            Some(k) => {
                proof {
                    assert(occurs_at(self.text(), token@, k as int));
                }
                true
            },
            None => false,
        }
    }

    fn get_parameter_count(&self, token: &str) -> (c: usize) {
        count_unescaped(self.command.as_str(), token)
    }

    fn split(&self, token: &str) -> (r: Vec<String>) {
        split_text(self.command.as_str(), token)
    }

    fn split_inclusive_token(&self, token: &str) -> (r: Vec<String>) {
        split_inclusive_text(self.command.as_str(), token)
    }

    fn replace_parameter(&self, token: &str, ending_token: &str, parameter: &str) -> (r: HoardCmd) {
        let replaced = replace_first_text(self.command.as_str(), token, ending_token, parameter);
        HoardCmd { command: replaced }
    }
}

} // verus!
