//! What can keep an edit from starting.

use vstd::prelude::*;

verus! {

/// Why an edit could not be carried out.
#[derive(Debug, Clone, Copy, PartialEq, Eq, Structural)]
pub enum EditError {
    /// The contents were to come from stdin, which is a terminal.
    StdinIsTerminal,
    /// A relative path was given and the working directory is unknown.
    NoWorkingDirectory,
    /// The fallback editor's command line holds no program.
    NoFallbackEditor,
    /// The request could not be written as JSON.
    RequestNotWritten,
}

/// The message for `error`.
pub open spec fn message_text(error: EditError) -> Seq<char> {
    match error {
        EditError::StdinIsTerminal =>
            "'-' means read the contents from stdin, but stdin is a terminal; pipe something in, e.g. `kubectl get pods | warp edit -`"@,
        EditError::NoWorkingDirectory => "the working directory is not known"@,
        EditError::NoFallbackEditor =>
            "no fallback editor to run; check $WARP_EDIT_FALLBACK_EDITOR"@,
        EditError::RequestNotWritten => "the edit request could not be written as JSON"@,
    }
}

impl EditError {
    /// What to tell the user.
    pub fn message(&self) -> (r: &'static str)
        ensures
            r@ == message_text(*self),
    {
        match self {
            EditError::StdinIsTerminal =>
                "'-' means read the contents from stdin, but stdin is a terminal; pipe something in, e.g. `kubectl get pods | warp edit -`",
            EditError::NoWorkingDirectory => "the working directory is not known",
            EditError::NoFallbackEditor =>
                "no fallback editor to run; check $WARP_EDIT_FALLBACK_EDITOR",
            EditError::RequestNotWritten => "the edit request could not be written as JSON",
        }
    }
}

} // verus!
