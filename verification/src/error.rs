//! The crate's error taxonomy: user-correctable conditions are reported
//! distinctly from internal defects.

use vstd::prelude::*;

verus! {

/// The two classes of failure the program reports.
#[derive(Debug, Clone, Copy, PartialEq, Eq)]
pub enum JpreError {
    /// An error in user input: reported with its messages, exit status 1.
    UserError,
    /// An unexpected error from APIs or the system: reported whole.
    Unexpected,
}

/// A message for the user, attached to a [`JpreError::UserError`].
#[derive(Debug, Clone, PartialEq, Eq)]
pub struct UserMessage {
    pub message: Vec<u8>,
}

} // verus!
