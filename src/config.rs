use vstd::prelude::*;

use crate::message::str_eq;

verus! {

/// What the assistant is set up for; it decides the opening system message.
#[derive(Debug, Clone, Copy, PartialEq, Eq, Structural, Default)]
pub enum Mode {
    Dev,
    Bash,
    #[default]
    General,
}

/// The mode named `name`: `"dev"` or `"bash"`; any other name is the general mode.
pub open spec fn mode_named(name: Seq<char>) -> Mode {
    if name == seq!['d', 'e', 'v'] {
        Mode::Dev
    } else if name == seq!['b', 'a', 's', 'h'] {
        Mode::Bash
    } else {
        Mode::General
    }
}

impl Mode {
    pub fn from_name(name: &str) -> (r: Mode)
        ensures
            r == mode_named(name@),
    {
        let dev = "dev";
        let bash = "bash";
        proof {
            reveal_strlit("dev");
            reveal_strlit("bash");
            assert(dev@ =~= seq!['d', 'e', 'v']);
            assert(bash@ =~= seq!['b', 'a', 's', 'h']);
        }
        if str_eq(name, dev) {
            Mode::Dev
        } else if str_eq(name, bash) {
            Mode::Bash
        } else {
            Mode::General
        }
    }

    /// Whether replies are offered as shell commands to run.
    pub fn executes(&self) -> (r: bool)
        ensures
            r == (*self == Mode::Bash),
    {
        match self {
            Mode::Bash => true,
            _ => false,
        }
    }
}

} // verus!
