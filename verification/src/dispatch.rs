//! From the picker's answer to the way a command is run.
//!
//! Applications that live in an isolated runtime image are started through
//! a wrapper command and need a controlling terminal. Their command lines
//! are told by the prefix they begin with; they run inside a
//! pseudo-terminal, all others run directly.

use vstd::prelude::*;
use vstd::std_specs::iter::IteratorSpec;

use crate::candidates::{command_of, CandidateList};
use crate::launcher::Launcher;

verus! {

/// The way a command is run.
#[derive(Debug, Clone, Copy, PartialEq, Eq, Structural)]
pub enum Route {
    /// As a child of the launcher, on the launcher's own streams.
    Direct,
    /// Inside a pseudo-terminal that the launcher drains.
    Pty,
}

/// What follows from one exchange with the picker.
#[derive(Debug)]
pub enum Dispatch {
    /// Nothing was selected: there is nothing to do.
    NoSelection,
    /// The selection is the name of no candidate: there is nothing to run.
    NoApplication { choice: String },
    /// The selected candidate's command is to be run by `route`.
    Run { route: Route, command: String },
}

/// The route of `command` where `prefix` marks the commands that need a
/// terminal.
pub open spec fn route_of(command: Seq<char>, prefix: Seq<char>) -> Route {
    if prefix.is_prefix_of(command) {
        Route::Pty
    } else {
        Route::Direct
    }
}

/// Tells whether `text` begins with `prefix`.
fn starts_with(text: &str, prefix: &str) -> (b: bool)
    ensures
        b == prefix@.is_prefix_of(text@),
{
    let mut rest = text.chars();
    let mut wanted = prefix.chars();
    let ghost mut matched: int = 0;
    loop
        invariant
            0 <= matched <= prefix@.len(),
            matched <= text@.len(),
            wanted.remaining() == prefix@.skip(matched),
            rest.remaining() == text@.skip(matched),
            prefix@.take(matched) == text@.take(matched),
        decreases prefix@.len() - matched,
    {
        match wanted.next() {
            None => {
                assert(prefix@ =~= prefix@.take(matched));
                return true;
            },
            Some(w) => {
                assert(w == prefix@[matched]);
                match rest.next() {
                    None => {
                        return false;
                    },
                    Some(c) => {
                        assert(c == text@[matched]);
                        if c != w {
                            assert(!prefix@.is_prefix_of(text@)) by {
                                if prefix@.is_prefix_of(text@) {
                                    assert(prefix@[matched] == text@.subrange(
                                        0,
                                        prefix@.len() as int,
                                    )[matched]);
                                }
                            }
                            return false;
                        }
                        proof {
                            assert(prefix@.take(matched + 1) =~= prefix@.take(matched).push(w));
                            assert(text@.take(matched + 1) =~= text@.take(matched).push(c));
                            assert(prefix@.skip(matched).drop_first() =~= prefix@.skip(
                                matched + 1,
                            ));
                            assert(text@.skip(matched).drop_first() =~= text@.skip(matched + 1));
                            matched = matched + 1;
                        }
                    },
                }
            },
        }
    }
}

impl Launcher {
    /// Chooses the way `command` is run: inside a pseudo-terminal if it
    /// begins with `prefix`, directly if it does not.
    pub fn route(&self, command: &str, prefix: &str) -> (route: Route)
        ensures
            route == route_of(command@, prefix@),
    {
        if starts_with(command, prefix) {
            Route::Pty
        } else {
            Route::Direct
        }
    }

    /// Decides what the picker's answer `choice` leads to.
    ///
    /// No answer leads to nothing, and so does the name of no candidate.
    /// The name of a candidate leads to its command, routed by `prefix`.
    pub fn dispatch(&self, apps: &CandidateList, choice: Option<String>, prefix: &str) -> (next:
        Dispatch)
        ensures
            match choice {
                None => next is NoSelection,
                Some(name) => if apps@.contains_key(name@) {
                    &&& next matches Dispatch::Run { route, command }
                    &&& command@ == command_of(apps@[name@])
                    &&& route == route_of(command@, prefix@)
                } else {
                    &&& next matches Dispatch::NoApplication { choice: unknown }
                    &&& unknown@ == name@
                },
            },
    {
        match choice {
            None => Dispatch::NoSelection,
            Some(name) => match apps.get(name.as_str()) {
                None => Dispatch::NoApplication { choice: name },
                Some(appinfo) => {
                    let command = self.get_command_from_appinfo(appinfo);
                    let route = self.route(command.as_str(), prefix);
                    Dispatch::Run { route, command }
                },
            },
        }
    }
}

} // verus!
