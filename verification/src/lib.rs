//! Verified core of a desktop application launcher.
//!
//! The launcher offers the installed applications to an external picker and
//! runs the one that is selected. This crate holds its decisions and none
//! of its effects: it never touches a process, a pipe or a terminal. Every
//! function maps plain values to plain values and carries a contract that
//! Verus proves, so the program around it only has to carry out the plans
//! it is handed and to report back what happened.

pub mod candidates;
pub mod command;
pub mod dispatch;
pub mod field_codes;
pub mod launcher;
pub mod listing;
pub mod mode;
pub mod name_order;
pub mod picker;

pub use candidates::{AppInfo, CandidateList};
pub use command::{LaunchAction, MalformedCommand, PtyAction, PtyRole};
pub use dispatch::{Dispatch, Route};
pub use launcher::Launcher;
pub use mode::{Flag, Flags, Mode};
pub use name_order::{compare_names, NameOrder};
pub use picker::{is_whitespace, PickerRequest};
