//! What one invocation of the launcher is to do.
//!
//! The command line offers four flags. At most one of them decides: help
//! goes before everything, the picker before a direct command, a direct
//! command before the listing. A direct command needs its command and
//! always runs inside a pseudo-terminal. Without any flag there is nothing
//! to do but to explain the flags.

use vstd::prelude::*;

use crate::dispatch::Route;
use crate::launcher::Launcher;

verus! {

/// A flag that may come with a value.
#[derive(Debug)]
pub enum Flag {
    /// The flag was not given.
    Absent,
    /// The flag was given without a value.
    Bare,
    /// The flag was given with this value.
    Valued(String),
}

/// The flags of one invocation.
#[derive(Debug)]
pub struct Flags {
    /// `-h`, `--help`.
    pub help: bool,
    /// `-d`, `--dmenu`, with the picker's command line as its value.
    pub dmenu: Flag,
    /// `-l`, `--list`.
    pub list: bool,
    /// `-c`, `--command`, with the command line to run as its value.
    pub command: Flag,
}

/// What the launcher does in one invocation.
#[derive(Debug)]
pub enum Mode {
    /// Print how the launcher is used.
    Usage,
    /// Offer the candidates through the picker `picker` and run what is
    /// selected.
    Select { picker: String },
    /// Run `command` by `route`, without asking the picker.
    Command { command: String, route: Route },
    /// Print the names of the candidates.
    List,
}

impl Launcher {
    /// Decides the mode of an invocation from its flags. `default_picker`
    /// is the picker's command line where `--dmenu` names none.
    pub fn mode(&self, flags: Flags, default_picker: &str) -> (mode: Mode)
        ensures
            flags.help ==> mode is Usage,
            !flags.help ==> match (flags.dmenu, flags.command) {
                (Flag::Valued(picker), _) => mode matches Mode::Select { picker: p } && p@
                    == picker@,
                (Flag::Bare, _) => mode matches Mode::Select { picker: p } && p@
                    == default_picker@,
                (Flag::Absent, Flag::Valued(command)) => mode matches Mode::Command {
                    command: c,
                    route,
                } && c@ == command@ && route == Route::Pty,
                (Flag::Absent, Flag::Bare) => mode is Usage,
                (Flag::Absent, Flag::Absent) => if flags.list {
                    mode is List
                } else {
                    mode is Usage
                },
            },
    {
        if flags.help {
            return Mode::Usage;
        }
        match flags.dmenu {
            Flag::Valued(picker) => Mode::Select { picker },
            Flag::Bare => Mode::Select { picker: default_picker.to_owned() },
            Flag::Absent => match flags.command {
                Flag::Valued(command) => Mode::Command { command, route: Route::Pty },
                Flag::Bare => Mode::Usage,
                Flag::Absent => if flags.list {
                    Mode::List
                } else {
                    Mode::Usage
                },
            },
        }
    }
}

} // verus!
