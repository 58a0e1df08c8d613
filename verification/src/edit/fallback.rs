//! The editor to run when the built-in one cannot be reached.

use vstd::prelude::*;

use crate::edit::error::EditError;
use crate::edit::input::EditInput;
use crate::file_path::FilePath;
use crate::text::{
    blank, is_blank, lemma_words_of_text_that_is_not_blank, split_words, texts, white_space, words,
};

verus! {

/// The systems that differ in the editor they have.
#[derive(Debug, Clone, Copy, PartialEq, Eq, Structural)]
pub enum Platform {
    Windows,
    Other,
}

/// The editor of last resort.
pub open spec fn default_editor(platform: Platform) -> Seq<char> {
    match platform {
        Platform::Windows => "notepad"@,
        Platform::Other => "vi"@,
    }
}

/// The editor that the user configured, or else the one of last resort.
pub open spec fn fallback_editor_text(
    configured: Option<Seq<char>>,
    platform: Platform,
) -> Seq<char> {
    match configured {
        Some(editor) if !blank(editor) => editor,
        _ => default_editor(platform),
    }
}

/// What an optional text says.
pub open spec fn text_view(text: Option<&str>) -> Option<Seq<char>> {
    match text {
        Some(text) => Some(text@),
        None => None,
    }
}

/// Returns the fallback editor's command line, given what the environment
/// configures.
///
/// A blank value counts as none: better to drop the user into an editor they
/// did not ask for than to lose whatever they were about to write.
pub fn fallback_editor(configured: Option<&str>, platform: Platform) -> (r: String)
    ensures
        r@ == fallback_editor_text(text_view(configured), platform),
{
    match configured {
        Some(editor) => if !is_blank(editor) {
            return editor.to_owned();
        },
        None => {},
    }
    match platform {
        Platform::Windows => "notepad".to_owned(),
        Platform::Other => "vi".to_owned(),
    }
}

/// A command to run.
#[derive(Debug)]
pub struct FallbackCommand {
    /// The program.
    pub program: String,
    /// Its arguments, but for the last.
    pub args: Vec<String>,
    /// Its last argument, the file to edit.
    pub path: FilePath,
    /// Whether its stdin is to be the terminal, this process's own being a pipe
    /// that has run dry.
    pub reattach_stdin: bool,
}

/// The command that edits `input` with the command line `editor`.
///
/// What is configured is a command line, not a bare program name: its first
/// word is the program, the others are arguments in front of the file.
pub fn fallback_command(editor: &str, input: &EditInput) -> (r: Result<
    FallbackCommand,
    EditError,
>)
    ensures
        r is Err <==> words(editor@).len() == 0,
        r matches Err(error) ==> error == EditError::NoFallbackEditor,
        r matches Ok(command) ==> {
            &&& words(editor@) == seq![command.program@] + texts(command.args@)
            &&& command.path@ == input.path_view()
            &&& command.reattach_stdin == (input is Stdin)
        },
{
    let mut parts = split_words(editor);
    assert(parts@.len() == words(editor@).len());
    if parts.len() == 0 {
        return Err(EditError::NoFallbackEditor);
    }
    let ghost all = parts@;
    let program = parts.remove(0);
    proof {
        assert(program@ == texts(all)[0]);
        assert forall|i: int| 0 <= i < parts@.len() implies texts(parts@)[i] == #[trigger] texts(
            all,
        )[i + 1] by {}
        assert(texts(all) =~= seq![program@] + texts(parts@));
    }
    Ok(
        FallbackCommand {
            program,
            args: parts,
            path: input.path().clone(),
            reattach_stdin: input.is_stdin(),
        },
    )
}

/// There is always an editor to fall back to, whatever is configured.
pub proof fn law_fallback_editor_names_a_program(
    configured: Option<Seq<char>>,
    platform: Platform,
)
    ensures
        words(fallback_editor_text(configured, platform)).len() > 0,
{
    reveal_strlit("notepad");
    reveal_strlit("vi");
    let editor = fallback_editor_text(configured, platform);
    assert(!blank(editor)) by {
        if editor == default_editor(platform) {
            assert(!white_space(editor[0]));
        }
    }
    lemma_words_of_text_that_is_not_blank(editor);
}

/// The exit code to report for a fallback editor that exited with `status`, or
/// with none because a signal ended it.
pub open spec fn status_code(status: Option<i32>) -> i32 {
    match status {
        Some(code) => code,
        None => 1i32,
    }
}

/// The exit code to report for a fallback editor that exited with `status`.
pub fn fallback_exit_code(status: Option<i32>) -> (r: i32)
    ensures
        r == status_code(status),
        status matches Some(code) ==> r == code,
        status is None ==> r == 1,
{
    match status {
        Some(code) => code,
        None => 1,
    }
}

/// Why the fallback editor is run inside a session of the terminal.
#[derive(Debug)]
pub enum FallbackReason {
    /// The request could not be written, for this reason.
    TerminalUnreachable(String),
    /// The request was not acknowledged in time.
    NoResponse,
}

/// The reason in words.
pub open spec fn reason_text(reason: FallbackReason) -> Seq<char> {
    match reason {
        FallbackReason::TerminalUnreachable(detail) => "could not reach the terminal ("@ + detail@
            + ")"@,
        FallbackReason::NoResponse => "Warp did not respond"@,
    }
}

/// The message that announces the fallback to `editor`.
pub fn fallback_notice(reason: &FallbackReason, editor: &str) -> (r: String)
    ensures
        r@ == "warp edit: "@ + reason_text(*reason) + "; falling back to "@ + editor@,
{
    let reason = match reason {
        FallbackReason::TerminalUnreachable(
            detail,
        ) => "could not reach the terminal (".to_owned().concat(detail.as_str()).concat(")"),
        FallbackReason::NoResponse => "Warp did not respond".to_owned(),
    };
    "warp edit: ".to_owned().concat(reason.as_str()).concat("; falling back to ").concat(editor)
}

/// The exit code of an editor is reported as it is, whatever it is, and an
/// editor that a signal ended does not count as a success.
pub proof fn law_exit_codes_are_passed_on(code: i32)
    ensures
        status_code(Some(code)) == code,
        status_code(None) != 0,
        status_code(None) == 1,
{
}

/// What is configured is used as it is if any of it is not white space, and
/// else the editor that every system has.
pub proof fn law_what_is_configured_is_used(configured: Seq<char>, platform: Platform)
    ensures
        (exists|i: int| 0 <= i < configured.len() && !white_space(#[trigger] configured[i]))
            ==> fallback_editor_text(Some(configured), platform) == configured,
        (forall|i: int| 0 <= i < configured.len() ==> white_space(#[trigger] configured[i]))
            ==> fallback_editor_text(Some(configured), platform) == fallback_editor_text(
            None,
            platform,
        ),
        fallback_editor_text(None, Platform::Other) == "vi"@,
        fallback_editor_text(None, Platform::Windows) == "notepad"@,
{
}

/// A text that is there says what it says.
pub proof fn law_what_an_optional_text_says(text: &str)
    ensures
        text_view(Some(text)) == Some(text@),
        text_view(None) is None,
{
}

/// The notice names the reason: what went wrong on the way to the terminal, word
/// for word, or that nothing answered.
pub proof fn law_the_reason_is_given(detail: String)
    ensures
        reason_text(FallbackReason::TerminalUnreachable(detail)) == "could not reach the terminal ("@
            + detail@ + ")"@,
        reason_text(FallbackReason::NoResponse) == "Warp did not respond"@,
{
}

} // verus!
