//! From a command string to the process that runs it.
//!
//! A desktop entry's exec line is shell-quoted text. Splitting it into
//! words is the shell parser's business and happens outside this crate; the
//! caller hands in what the parser said. This module decides what that
//! means: which words are arguments, and what, if anything, is to be run.

use vstd::prelude::*;

use crate::field_codes::{is_field_code, lemma_strip_leaves_no_field_code, strip_field_codes};
use crate::launcher::Launcher;

verus! {

/// A command string that is no valid shell input.
#[derive(Debug)]
pub struct MalformedCommand {
    /// What the shell parser objected to, in its own words.
    pub reason: String,
}

/// What is to be done to run a command.
#[derive(Debug)]
pub enum LaunchAction {
    /// The command names nothing to run.
    Skip,
    /// Start `program` with `args`, and wait for it to end.
    Spawn { program: String, args: Vec<String> },
}

/// The part that the calling process plays after a pseudo-terminal was
/// forked.
#[derive(Debug, Clone, Copy, PartialEq, Eq, Structural)]
pub enum PtyRole {
    /// It holds the master end of the terminal.
    Parent,
    /// It is attached to the terminal and about to become the application.
    Child,
}

/// What a process does after the fork, by its role.
#[derive(Debug)]
pub enum PtyAction {
    /// Read the master end until the stream ends; never write to it.
    Drain,
    /// Carry out the launch and leave.
    Execute(LaunchAction),
}

/// What the shell parser returned, by views: the words, or its complaint.
pub open spec fn words_view(words: Result<Vec<String>, String>) -> Result<
    Seq<Seq<char>>,
    Seq<char>,
> {
    match words {
        Ok(w) => Ok(w.deep_view()),
        Err(reason) => Err(reason@),
    }
}

/// The argument vector of the command string `cmd`, given the `words` that
/// the shell parser made of it.
///
/// The empty string is the empty vector, whatever a parser says of it. Any
/// other string is its words without the field codes, or malformed where
/// the parser found it so.
pub open spec fn argument_vector(cmd: Seq<char>, words: Result<Seq<Seq<char>>, Seq<char>>) -> Result<
    Seq<Seq<char>>,
    Seq<char>,
> {
    if cmd.len() == 0 {
        Ok(Seq::empty())
    } else {
        match words {
            Ok(w) => Ok(strip_field_codes(w)),
            Err(reason) => Err(reason),
        }
    }
}

/// An argument vector never holds a field code.
pub proof fn lemma_argument_vector_has_no_field_code(
    cmd: Seq<char>,
    words: Result<Seq<Seq<char>>, Seq<char>>,
)
    ensures
        argument_vector(cmd, words) matches Ok(argv) ==> forall|i: int|
            0 <= i < argv.len() ==> !is_field_code(#[trigger] argv[i]),
{
    if cmd.len() > 0 {
        if let Ok(w) = words {
            lemma_strip_leaves_no_field_code(w);
        }
    }
}

impl LaunchAction {
    /// Whether this action runs exactly the argument vector `argv`: nothing
    /// for the empty vector, else its first word with the others as
    /// arguments.
    pub open spec fn runs(&self, argv: Seq<Seq<char>>) -> bool {
        match self {
            LaunchAction::Skip => argv.len() == 0,
            LaunchAction::Spawn { program, args } => argv =~= seq![program@] + args.deep_view(),
        }
    }
}

impl Launcher {
    /// Turns the command string `cmd` into its argument vector.
    ///
    /// `words` is what the shell parser made of `cmd`: its words in order,
    /// or the reason why it is no valid shell input.
    pub fn split_command_args(&self, cmd: &str, words: Result<Vec<String>, String>) -> (args:
        Result<Vec<String>, MalformedCommand>)
        ensures
            match argument_vector(cmd@, words_view(words)) {
                Ok(argv) => args matches Ok(v) && v.deep_view() == argv,
                Err(reason) => args matches Err(e) && e.reason@ == reason,
            },
            cmd@.len() == 0 ==> (args matches Ok(v) && v.len() == 0),
            args matches Ok(v) ==> forall|i: int|
                0 <= i < v.len() ==> !is_field_code(#[trigger] v[i]@),
    {
        if cmd.is_empty() {
            let args: Vec<String> = Vec::new();
            proof {
                assert(args.deep_view() =~= Seq::<Seq<char>>::empty());
            }
            return Ok(args);
        }
        match words {
            Ok(raw) => Ok(self.filter_field_codes(raw)),
            Err(reason) => Err(MalformedCommand { reason }),
        }
    }

    /// Decides how to run the command string `cmd`, of which the shell
    /// parser made `words`.
    ///
    /// A command without arguments is skipped. Any other is spawned: its
    /// first argument is the program, the rest is handed to it.
    pub fn launch(&self, cmd: &str, words: Result<Vec<String>, String>) -> (action: Result<
        LaunchAction,
        MalformedCommand,
    >)
        ensures
            match argument_vector(cmd@, words_view(words)) {
                Ok(argv) => action matches Ok(a) && a.runs(argv),
                Err(reason) => action matches Err(e) && e.reason@ == reason,
            },
    {
        match self.split_command_args(cmd, words) {
            Ok(args) => {
                let mut args = args;
                if args.len() == 0 {
                    Ok(LaunchAction::Skip)
                } else {
                    let ghost argv = args.deep_view();
                    let program = args.remove(0);
                    proof {
                        assert(argv =~= seq![program@] + args.deep_view());
                    }
                    Ok(LaunchAction::Spawn { program, args })
                }
            },
            Err(e) => Err(e),
        }
    }

    /// Decides what a process does once the pseudo-terminal is forked.
    ///
    /// The parent drains the terminal, whatever the command is. The child
    /// launches the command as `launch` would.
    pub fn launch_pty(&self, role: PtyRole, cmd: &str, words: Result<Vec<String>, String>) -> (action:
        Result<PtyAction, MalformedCommand>)
        ensures
            role is Parent ==> action matches Ok(PtyAction::Drain),
            role is Child ==> match argument_vector(cmd@, words_view(words)) {
                Ok(argv) => action matches Ok(PtyAction::Execute(a)) && a.runs(argv),
                Err(reason) => action matches Err(e) && e.reason@ == reason,
            },
    {
        match role {
            PtyRole::Parent => Ok(PtyAction::Drain),
            PtyRole::Child => match self.launch(cmd, words) {
                Ok(a) => Ok(PtyAction::Execute(a)),
                Err(e) => Err(e),
            },
        }
    }
}

} // verus!
