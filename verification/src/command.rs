//! The command template value: an owned text buffer.

use vstd::prelude::*;

verus! {

/// A stored command, possibly still containing parameter holes.  Its
/// mathematical model is the sequence of Unicode scalar values of the
/// command text.
#[derive(Debug, Clone)]
pub struct HoardCmd {
    pub command: String,
}

impl View for HoardCmd {
    type V = Seq<char>;

    open spec fn view(&self) -> Seq<char> {
        self.command@
    }
}

impl Default for HoardCmd {
    /// An empty command.
    fn default() -> (r: Self)
        ensures
            r@ == Seq::<char>::empty(),
    {
        let r = HoardCmd { command: String::new() };
        proof {
            assert(r@ =~= Seq::<char>::empty());
        }
        r
    }
}

impl PartialEq for HoardCmd {
    fn eq(&self, other: &Self) -> (r: bool) {
        self.command == other.command
    }
}

impl vstd::std_specs::cmp::PartialEqSpecImpl for HoardCmd {
    open spec fn obeys_eq_spec() -> bool {
        true
    }

    open spec fn eq_spec(&self, other: &Self) -> bool {
        self.command@ == other.command@
    }
}

impl HoardCmd {
    /// The same command with its text replaced by `command`.
    pub fn with_command(self, command: &str) -> (r: Self)
        ensures
            r@ == command@,
    {
        HoardCmd { command: command.to_owned() }
    }
}

} // verus!
