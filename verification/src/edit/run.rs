//! The course of one edit, from the request to the exit code.
//!
//! [`EditRun`] decides what to do next from what has happened. Whoever drives
//! it performs each action and reports back how it went.

use vstd::prelude::*;

use crate::edit::fallback::{fallback_exit_code, status_code, text_view};
use crate::edit::input::{EditArgs, EditInput};
use crate::edit::markers::{exit_code, read_exit_code, MarkerPaths, ACK_TIMEOUT};
use crate::edit::request::{EditRequest, RequestView};
use crate::file_path::{path_text, FilePath};
use crate::text::{i32_value, trimmed};

verus! {

/// Whether this process runs inside a local session of the terminal, given the
/// value of the variable that marks one.
pub fn in_warp_local_session(marker: Option<&str>) -> (r: bool)
    ensures
        r == (text_view(marker) == Some("1"@)),
        r <==> marker is Some && marker->0@ == "1"@,
{
    proof {
        reveal_strlit("1");
    }
    match marker {
        Some(value) => {
            let same: bool = value.unicode_len() == 1 && value.get_char(0) == '1';
            assert(same ==> value@ == "1"@);
            same
        },
        None => false,
    }
}

/// One of the two marker files.
#[derive(Debug, Clone, Copy, PartialEq, Eq, Structural)]
pub enum Marker {
    Ack,
    Done,
}

/// Why the fallback editor is run.
#[derive(Debug, Clone, Copy, PartialEq, Eq, Structural)]
pub enum FallbackCause {
    /// The process does not run inside a local session of the terminal.
    NotInSession,
    /// The request could not be written to the terminal.
    TerminalUnreachable,
    /// The request was not acknowledged in time.
    NoResponse,
}

/// What is to be done next.
#[derive(Debug, Clone, Copy, PartialEq, Eq, Structural)]
pub enum EditAction {
    /// Write the request to the terminal.
    SendHook,
    /// Wait until the marker exists, giving up after the timeout, in
    /// nanoseconds, if there is one.
    AwaitMarker { marker: Marker, timeout: Option<u128> },
    /// Remove the marker. It does not matter whether that succeeds.
    RemoveMarker(Marker),
    /// Read what the done marker holds.
    ReadDoneMarker,
    /// Run the fallback editor and wait for it to exit.
    RunFallback(FallbackCause),
    /// Terminate with this code.
    Exit(i32),
}

/// How an action went.
#[derive(Debug)]
pub enum EditEvent {
    /// The request was written to the terminal.
    HookSent,
    /// The request could not be written.
    HookFailed,
    /// The marker that was waited for exists.
    MarkerAppeared,
    /// The time to wait for the marker is up.
    MarkerTimedOut,
    /// The marker is gone, or could not be removed.
    MarkerRemoved,
    /// The done marker holds this, or could not be read.
    DoneMarkerRead(Option<String>),
    /// The fallback editor exited with this status, or by a signal.
    FallbackExited(Option<i32>),
}

/// What an edit is waiting to hear.
#[derive(Debug, Clone, Copy, PartialEq, Eq, Structural)]
pub enum EditPhase {
    Sending,
    AwaitingAck,
    RemovingAck,
    AwaitingDone,
    ReadingDone,
    RemovingDone { code: i32 },
    FallingBack,
    Finished { code: i32 },
}

/// An edit under way.
#[derive(Debug)]
pub struct EditRun {
    /// What the edit is waiting to hear.
    pub phase: EditPhase,
    /// The request.
    pub request: EditRequest,
    /// The files through which the terminal answers.
    pub markers: MarkerPaths,
}

/// What an optional text says.
pub open spec fn contents_view(contents: Option<String>) -> Option<Seq<char>> {
    match contents {
        Some(text) => Some(text@),
        None => None,
    }
}

/// Whether the caller is to be blocked until the edit is finished.
///
/// Piped-in contents have no calling tool waiting to read the file back.
pub open spec fn waits(no_wait: bool, from_stdin: bool) -> bool {
    !no_wait && !from_stdin
}

/// Where an edit starts.
pub open spec fn first_step(in_session: bool) -> (EditPhase, EditAction) {
    if in_session {
        (EditPhase::Sending, EditAction::SendHook)
    } else {
        (EditPhase::FallingBack, EditAction::RunFallback(FallbackCause::NotInSession))
    }
}

/// Where an edit goes from `phase` at `event`, or `None` where `phase` is not
/// waiting for such an event.
pub open spec fn next_step(phase: EditPhase, wait: bool, event: EditEvent) -> Option<
    (EditPhase, EditAction),
> {
    match (phase, event) {
        (EditPhase::Sending, EditEvent::HookSent) => Some(
            (
                EditPhase::AwaitingAck,
                EditAction::AwaitMarker { marker: Marker::Ack, timeout: Some(ACK_TIMEOUT) },
            ),
        ),
        (EditPhase::Sending, EditEvent::HookFailed) => Some(
            (
                EditPhase::FallingBack,
                EditAction::RunFallback(FallbackCause::TerminalUnreachable),
            ),
        ),
        (EditPhase::AwaitingAck, EditEvent::MarkerAppeared) => Some(
            (EditPhase::RemovingAck, EditAction::RemoveMarker(Marker::Ack)),
        ),
        (EditPhase::AwaitingAck, EditEvent::MarkerTimedOut) => Some(
            (EditPhase::FallingBack, EditAction::RunFallback(FallbackCause::NoResponse)),
        ),
        (EditPhase::RemovingAck, EditEvent::MarkerRemoved) => Some(
            if wait {
                (
                    EditPhase::AwaitingDone,
                    EditAction::AwaitMarker { marker: Marker::Done, timeout: None },
                )
            } else {
                (EditPhase::RemovingDone { code: 0 }, EditAction::RemoveMarker(Marker::Done))
            },
        ),
        (EditPhase::AwaitingDone, EditEvent::MarkerAppeared) => Some(
            (EditPhase::ReadingDone, EditAction::ReadDoneMarker),
        ),
        (EditPhase::ReadingDone, EditEvent::DoneMarkerRead(contents)) => Some(
            (
                EditPhase::RemovingDone { code: exit_code(contents_view(contents)) },
                EditAction::RemoveMarker(Marker::Done),
            ),
        ),
        (EditPhase::RemovingDone { code }, EditEvent::MarkerRemoved) => Some(
            (EditPhase::Finished { code }, EditAction::Exit(code)),
        ),
        (EditPhase::FallingBack, EditEvent::FallbackExited(status)) => {
            let code = status_code(status);
            Some((EditPhase::Finished { code }, EditAction::Exit(code)))
        },
        _ => None,
    }
}

impl EditRun {
    /// Starts an edit of `input`, inside a local session of the terminal or
    /// not. The second result is the first action.
    pub fn start(
        args: &EditArgs,
        input: &EditInput,
        in_session: bool,
        markers: MarkerPaths,
    ) -> (r: (EditRun, EditAction))
        ensures
            r.0.phase == first_step(in_session).0,
            r.1 == first_step(in_session).1,
            r.0.markers == markers,
            r.0.request@ == (RequestView {
                path: path_text(input.path_view()),
                host: Seq::empty(),
                ack_path: path_text(markers.ack@),
                done_path: path_text(markers.done@),
                wait: waits(args.no_wait, input is Stdin),
            }),
            r.1 == (if in_session {
                EditAction::SendHook
            } else {
                EditAction::RunFallback(FallbackCause::NotInSession)
            }),
            r.0.request.wait == (!args.no_wait && !(input is Stdin)),
    {
        let wait = !args.no_wait && !input.is_stdin();
        let request = EditRequest::for_local_file(
            input.path().to_text(),
            markers.ack.to_text(),
            markers.done.to_text(),
            wait,
        );
        let (phase, action) = if in_session {
            (EditPhase::Sending, EditAction::SendHook)
        } else {
            (EditPhase::FallingBack, EditAction::RunFallback(FallbackCause::NotInSession))
        };
        (EditRun { phase, request, markers }, action)
    }

    /// The path of a marker file.
    pub fn marker_path(&self, marker: Marker) -> (r: &FilePath)
        ensures
            *r == (match marker {
                Marker::Ack => self.markers.ack,
                Marker::Done => self.markers.done,
            }),
    {
        match marker {
            Marker::Ack => &self.markers.ack,
            Marker::Done => &self.markers.done,
        }
    }

    /// Takes note of how the last action went. The result is the next action,
    /// or `None`, with nothing changed, if that is not what the edit was waiting
    /// to hear.
    pub fn advance(&mut self, event: EditEvent) -> (r: Option<EditAction>)
        ensures
            final(self).request == old(self).request,
            final(self).markers == old(self).markers,
            match next_step(old(self).phase, old(self).request.wait, event) {
                Some((phase, action)) => final(self).phase == phase && r == Some(action),
                None => final(self).phase == old(self).phase && r is None,
            },
            event is HookSent && r is Some ==> r == Some(
                EditAction::AwaitMarker { marker: Marker::Ack, timeout: Some(ACK_TIMEOUT) },
            ),
            r matches Some(EditAction::AwaitMarker { marker, timeout }) ==> match marker {
                Marker::Ack => event is HookSent && timeout == Some(ACK_TIMEOUT),
                Marker::Done => {
                    &&& old(self).request.wait
                    &&& old(self).phase is RemovingAck
                    &&& event is MarkerRemoved
                    &&& timeout is None
                },
            },
            event matches EditEvent::FallbackExited(Some(code)) ==> (r is Some ==> r == Some(
                EditAction::Exit(code),
            )),
            event matches EditEvent::FallbackExited(None) ==> (r is Some ==> r == Some(
                EditAction::Exit(1i32),
            )),
    {
        let (phase, action) = match (self.phase, event) {
            (EditPhase::Sending, EditEvent::HookSent) => (
                EditPhase::AwaitingAck,
                EditAction::AwaitMarker { marker: Marker::Ack, timeout: Some(ACK_TIMEOUT) },
            ),
            (EditPhase::Sending, EditEvent::HookFailed) => (
                EditPhase::FallingBack,
                EditAction::RunFallback(FallbackCause::TerminalUnreachable),
            ),
            (EditPhase::AwaitingAck, EditEvent::MarkerAppeared) => (
                EditPhase::RemovingAck,
                EditAction::RemoveMarker(Marker::Ack),
            ),
            (EditPhase::AwaitingAck, EditEvent::MarkerTimedOut) => (
                EditPhase::FallingBack,
                EditAction::RunFallback(FallbackCause::NoResponse),
            ),
            (EditPhase::RemovingAck, EditEvent::MarkerRemoved) => if self.request.wait {
                (
                    EditPhase::AwaitingDone,
                    EditAction::AwaitMarker { marker: Marker::Done, timeout: None },
                )
            } else {
                (EditPhase::RemovingDone { code: 0 }, EditAction::RemoveMarker(Marker::Done))
            },
            (EditPhase::AwaitingDone, EditEvent::MarkerAppeared) => (
                EditPhase::ReadingDone,
                EditAction::ReadDoneMarker,
            ),
            (EditPhase::ReadingDone, EditEvent::DoneMarkerRead(contents)) => {
                let code = match &contents {
                    Some(text) => read_exit_code(Some(text.as_str())),
                    None => read_exit_code(None),
                };
                (EditPhase::RemovingDone { code }, EditAction::RemoveMarker(Marker::Done))
            },
            (EditPhase::RemovingDone { code }, EditEvent::MarkerRemoved) => (
                EditPhase::Finished { code },
                EditAction::Exit(code),
            ),
            (EditPhase::FallingBack, EditEvent::FallbackExited(status)) => {
                let code = fallback_exit_code(status);
                (EditPhase::Finished { code }, EditAction::Exit(code))
            },
            _ => {
                return None;
            },
        };
        self.phase = phase;
        Some(action)
    }
}

/// Where an edit is after `events`, and what it has had done for them, or
/// `None` if one of them is not what it was waiting to hear.
pub open spec fn drive(phase: EditPhase, wait: bool, events: Seq<EditEvent>) -> Option<
    (EditPhase, Seq<EditAction>),
>
    decreases events.len(),
{
    if events.len() == 0 {
        Some((phase, Seq::empty()))
    } else {
        match next_step(phase, wait, events[0]) {
            None => None,
            Some((next, action)) => match drive(next, wait, events.skip(1)) {
                None => None,
                Some((last, actions)) => Some((last, seq![action] + actions)),
            },
        }
    }
}

/// What an edit has had done for `events`.
pub open spec fn actions_of(phase: EditPhase, wait: bool, events: Seq<EditEvent>) -> Seq<
    EditAction,
> {
    match drive(phase, wait, events) {
        Some((_, actions)) => actions,
        None => Seq::empty(),
    }
}

/// Whether `events` is a fallback editor run that ends with `code`.
pub open spec fn fell_back(events: Seq<EditEvent>, code: i32) -> bool {
    &&& events.len() == 1
    &&& events[0] matches EditEvent::FallbackExited(status)
    &&& code == status_code(status)
}

/// Whether `events` is an acknowledged request of a caller that does not wait.
pub open spec fn opened(events: Seq<EditEvent>) -> bool {
    &&& events.len() == 4
    &&& events[0] is HookSent
    &&& events[1] is MarkerAppeared
    &&& events[2] is MarkerRemoved
    &&& events[3] is MarkerRemoved
}

/// Whether `events` is an acknowledged request whose edit finished with a done
/// marker that says `code`.
pub open spec fn edited(events: Seq<EditEvent>, code: i32) -> bool {
    &&& events.len() == 6
    &&& events[0] is HookSent
    &&& events[1] is MarkerAppeared
    &&& events[2] is MarkerRemoved
    &&& events[3] is MarkerAppeared
    &&& events[4] matches EditEvent::DoneMarkerRead(contents)
    &&& code == exit_code(contents_view(contents))
    &&& events[5] is MarkerRemoved
}

/// Whether a run that starts at `phase` is at its end after `events`, with
/// `code`.
pub open spec fn finishes(phase: EditPhase, wait: bool, events: Seq<EditEvent>, code: i32) -> bool {
    match drive(phase, wait, events) {
        Some((last, _)) => last == (EditPhase::Finished { code }),
        None => false,
    }
}

proof fn lemma_finished(wait: bool, events: Seq<EditEvent>, from: i32, code: i32)
    ensures
        finishes(EditPhase::Finished { code: from }, wait, events, code) <==> events.len() == 0
            && code == from,
{
}

proof fn lemma_falling_back(wait: bool, events: Seq<EditEvent>, code: i32)
    ensures
        finishes(EditPhase::FallingBack, wait, events, code) <==> fell_back(events, code),
{
    if events.len() > 0 {
        if let EditEvent::FallbackExited(status) = events[0] {
            lemma_finished(wait, events.skip(1), status_code(status), code);
        }
    }
}

proof fn lemma_removing_done(wait: bool, events: Seq<EditEvent>, from: i32, code: i32)
    ensures
        finishes(EditPhase::RemovingDone { code: from }, wait, events, code) <==> events.len() == 1
            && events[0] is MarkerRemoved && code == from,
{
    if events.len() > 0 && events[0] is MarkerRemoved {
        lemma_finished(wait, events.skip(1), from, code);
    }
}

proof fn lemma_awaiting_done(wait: bool, events: Seq<EditEvent>, code: i32)
    ensures
        finishes(EditPhase::AwaitingDone, wait, events, code) <==> {
            &&& events.len() == 3
            &&& events[0] is MarkerAppeared
            &&& events[1] matches EditEvent::DoneMarkerRead(contents)
            &&& code == exit_code(contents_view(contents))
            &&& events[2] is MarkerRemoved
        },
{
    reveal_with_fuel(drive, 3);
    if events.len() > 0 && events[0] is MarkerAppeared {
        let rest = events.skip(1);
        if rest.len() > 0 {
            assert(rest[0] == events[1]);
            if let EditEvent::DoneMarkerRead(contents) = rest[0] {
                lemma_removing_done(
                    wait,
                    rest.skip(1),
                    exit_code(contents_view(contents)),
                    code,
                );
                if events.len() == 3 {
                    assert(rest.skip(1)[0] == events[2]);
                }
            }
        }
    }
}

/// Outside a session of the terminal an edit is a run of the fallback editor,
/// and its exit code is that of the editor.
pub proof fn law_outside_a_session_the_fallback_decides(
    wait: bool,
    events: Seq<EditEvent>,
    code: i32,
)
    ensures
        finishes(first_step(false).0, wait, events, code) <==> fell_back(events, code),
{
    lemma_falling_back(wait, events, code);
}

/// Inside a session an edit ends in one of four ways, and no other: the request
/// cannot be written, or is not acknowledged, and the fallback editor decides;
/// or it is acknowledged, and a caller that does not wait gets success while
/// one that waits gets what the done marker says, once it has appeared.
pub proof fn law_how_an_edit_ends(wait: bool, events: Seq<EditEvent>, code: i32)
    ensures
        finishes(first_step(true).0, wait, events, code) <==> {
            ||| events.len() == 2 && events[0] is HookFailed && fell_back(events.skip(1), code)
            ||| events.len() == 3 && events[0] is HookSent && events[1] is MarkerTimedOut
                && fell_back(events.skip(2), code)
            ||| !wait && opened(events) && code == 0
            ||| wait && edited(events, code)
        },
{
    reveal_with_fuel(drive, 4);
    if events.len() > 0 {
        let rest = events.skip(1);
        if events[0] is HookFailed {
            lemma_falling_back(wait, rest, code);
        } else if events[0] is HookSent && rest.len() > 0 {
            assert(rest[0] == events[1]);
            let after = rest.skip(1);
            assert(after == events.skip(2));
            if rest[0] is MarkerTimedOut {
                lemma_falling_back(wait, after, code);
            } else if rest[0] is MarkerAppeared && after.len() > 0 {
                assert(after[0] == events[2]);
                if after[0] is MarkerRemoved {
                    let last = after.skip(1);
                    if wait {
                        lemma_awaiting_done(wait, last, code);
                        if last.len() == 3 {
                            assert(last[0] == events[3] && last[1] == events[4] && last[2]
                                == events[5]);
                        }
                    } else {
                        lemma_removing_done(wait, last, 0, code);
                        if last.len() == 1 {
                            assert(last[0] == events[3]);
                        }
                    }
                }
            }
        }
    }
}

/// An edit that was acknowledged and has ended has had both marker files
/// removed, and ended last of all.
pub proof fn law_markers_are_cleaned_up(wait: bool, events: Seq<EditEvent>, code: i32)
    requires
        finishes(first_step(true).0, wait, events, code),
        events.len() >= 4,
    ensures
        ({
            let actions = actions_of(first_step(true).0, wait, events);
            &&& actions.contains(EditAction::RemoveMarker(Marker::Ack))
            &&& actions.contains(EditAction::RemoveMarker(Marker::Done))
            &&& actions.last() == EditAction::Exit(code)
        }),
{
    law_how_an_edit_ends(wait, events, code);
    reveal_with_fuel(drive, 7);
    let actions = actions_of(first_step(true).0, wait, events);
    assert(actions[1] == EditAction::RemoveMarker(Marker::Ack));
    assert(actions.len() == events.len());
    assert(actions[events.len() - 2] == EditAction::RemoveMarker(Marker::Done));
    assert(actions[events.len() - 1] == EditAction::Exit(code));
}

/// What is awaited, and for how long, at any step: the acknowledgement, for ten
/// seconds, once the request has been written, be the caller waiting or not; and
/// the done marker, without a limit, only for a caller that waits and only once
/// the acknowledgement has been removed.
pub proof fn law_what_is_awaited(phase: EditPhase, wait: bool, event: EditEvent)
    ensures
        next_step(phase, wait, event) matches Some((_, action)) ==> {
            &&& event is HookSent ==> action == (EditAction::AwaitMarker {
                marker: Marker::Ack,
                timeout: Some(10_000_000_000u128),
            })
            &&& action matches EditAction::AwaitMarker { marker, timeout } ==> match marker {
                Marker::Ack => event is HookSent && timeout == Some(10_000_000_000u128),
                Marker::Done => {
                    &&& wait
                    &&& phase is RemovingAck
                    &&& event is MarkerRemoved
                    &&& timeout is None
                },
            }
        },
{
}

/// Inside a session, and whether the caller waits or not, the acknowledgement is
/// awaited first, and the done marker only by a caller that waits and only
/// behind the removal of the acknowledgement.
pub proof fn law_the_acknowledgement_is_awaited_first(wait: bool, events: Seq<EditEvent>, i: int)
    requires
        drive(first_step(true).0, wait, events) is Some,
        0 <= i < events.len(),
    ensures
        ({
            let actions = actions_of(first_step(true).0, wait, events);
            &&& actions.len() == events.len()
            &&& events[0] is HookSent ==> actions[0] == (EditAction::AwaitMarker {
                marker: Marker::Ack,
                timeout: Some(10_000_000_000u128),
            })
            &&& actions[i] matches EditAction::AwaitMarker { marker, timeout } ==> match marker {
                Marker::Ack => i == 0 && timeout == Some(10_000_000_000u128),
                Marker::Done => {
                    &&& wait
                    &&& timeout is None
                    &&& i == 2
                    &&& actions[1] == EditAction::RemoveMarker(Marker::Ack)
                },
            }
        }),
{
    lemma_course_in_session(wait, events);
}

/// The course of a run inside a session, step by step: whatever it was told so
/// far, it took only what it had asked for, and it asked for this next.
proof fn lemma_course_in_session(wait: bool, events: Seq<EditEvent>)
    requires
        drive(first_step(true).0, wait, events) is Some,
    ensures
        ({
            let actions = actions_of(first_step(true).0, wait, events);
            let n = events.len();
            &&& actions.len() == n
            &&& n > 0 ==> {
                ||| events[0] is HookSent && actions[0] == (EditAction::AwaitMarker {
                    marker: Marker::Ack,
                    timeout: Some(10_000_000_000u128),
                })
                ||| events[0] is HookFailed && n <= 2 && actions[0] == EditAction::RunFallback(
                    FallbackCause::TerminalUnreachable,
                )
            }
            &&& n > 1 && events[0] is HookSent ==> {
                ||| events[1] is MarkerAppeared && actions[1] == EditAction::RemoveMarker(
                    Marker::Ack,
                )
                ||| events[1] is MarkerTimedOut && n <= 3 && actions[1]
                    == EditAction::RunFallback(FallbackCause::NoResponse)
            }
            &&& n > 1 && events[0] is HookFailed ==> exit_follows(events[1], actions[1])
            &&& n > 2 && events[1] is MarkerTimedOut ==> exit_follows(events[2], actions[2])
            &&& n > 2 && events[1] is MarkerAppeared ==> events[2] is MarkerRemoved && actions[2]
                == if wait {
                EditAction::AwaitMarker { marker: Marker::Done, timeout: None }
            } else {
                EditAction::RemoveMarker(Marker::Done)
            }
            &&& n > 3 && !wait ==> n == 4 && events[3] is MarkerRemoved && actions[3]
                == EditAction::Exit(0)
            &&& n > 3 && wait ==> events[3] is MarkerAppeared && actions[3]
                == EditAction::ReadDoneMarker
            &&& n > 4 ==> events[4] is DoneMarkerRead && actions[4] == EditAction::RemoveMarker(
                Marker::Done,
            )
            &&& n > 5 ==> n == 6 && events[5] is MarkerRemoved && actions[5] is Exit
        }),
{
    reveal_with_fuel(drive, 8);
    let n = events.len();
    let e1 = events.skip(1);
    let e2 = e1.skip(1);
    let e3 = e2.skip(1);
    let e4 = e3.skip(1);
    let e5 = e4.skip(1);
    let e6 = e5.skip(1);
    if n > 1 {
        assert(e1[0] == events[1]);
    }
    if n > 2 {
        assert(e2[0] == events[2]);
    }
    if n > 3 {
        assert(e3[0] == events[3]);
    }
    if n > 4 {
        assert(e4[0] == events[4]);
    }
    if n > 5 {
        assert(e5[0] == events[5]);
    }
    if n > 6 {
        assert(e6[0] == events[6]);
    }
}

spec fn exit_follows(event: EditEvent, action: EditAction) -> bool {
    event is FallbackExited && action is Exit
}

/// Each course that an edit can take is taken to its end, with these actions in
/// this order. An editor's own exit code is the one reported, whatever it is,
/// and an editor that a signal ended is reported as failed.
pub proof fn law_courses_of_an_edit(wait: bool, code: i32, contents: Option<String>)
    ensures
        first_step(true).1 == EditAction::SendHook,
        first_step(false).1 == EditAction::RunFallback(FallbackCause::NotInSession),
        actions_of(
            first_step(false).0,
            wait,
            seq![EditEvent::FallbackExited(Some(code))],
        ) == seq![EditAction::Exit(code)],
        ({
            let actions = actions_of(
                first_step(false).0,
                wait,
                seq![EditEvent::FallbackExited(None)],
            );
            actions == seq![EditAction::Exit(1i32)]
        }),
        actions_of(
            first_step(true).0,
            wait,
            seq![EditEvent::HookFailed, EditEvent::FallbackExited(Some(code))],
        ) == seq![
            EditAction::RunFallback(FallbackCause::TerminalUnreachable),
            EditAction::Exit(code),
        ],
        actions_of(
            first_step(true).0,
            wait,
            seq![
                EditEvent::HookSent,
                EditEvent::MarkerTimedOut,
                EditEvent::FallbackExited(Some(code)),
            ],
        ) == seq![
            EditAction::AwaitMarker { marker: Marker::Ack, timeout: Some(10_000_000_000u128) },
            EditAction::RunFallback(FallbackCause::NoResponse),
            EditAction::Exit(code),
        ],
        actions_of(
            first_step(true).0,
            false,
            seq![
                EditEvent::HookSent,
                EditEvent::MarkerAppeared,
                EditEvent::MarkerRemoved,
                EditEvent::MarkerRemoved,
            ],
        ) == seq![
            EditAction::AwaitMarker { marker: Marker::Ack, timeout: Some(10_000_000_000u128) },
            EditAction::RemoveMarker(Marker::Ack),
            EditAction::RemoveMarker(Marker::Done),
            EditAction::Exit(0),
        ],
        actions_of(
            first_step(true).0,
            true,
            seq![
                EditEvent::HookSent,
                EditEvent::MarkerAppeared,
                EditEvent::MarkerRemoved,
                EditEvent::MarkerAppeared,
                EditEvent::DoneMarkerRead(contents),
                EditEvent::MarkerRemoved,
            ],
        ) == seq![
            EditAction::AwaitMarker { marker: Marker::Ack, timeout: Some(10_000_000_000u128) },
            EditAction::RemoveMarker(Marker::Ack),
            EditAction::AwaitMarker { marker: Marker::Done, timeout: None },
            EditAction::ReadDoneMarker,
            EditAction::RemoveMarker(Marker::Done),
            EditAction::Exit(
                match contents {
                    Some(text) => match i32_value(trimmed(text@)) {
                        Some(said) => said,
                        None => 0i32,
                    },
                    None => 0i32,
                },
            ),
        ],
{
    lemma_one_event(EditPhase::FallingBack, wait, EditEvent::FallbackExited(Some(code)));
    lemma_one_event(EditPhase::FallingBack, wait, EditEvent::FallbackExited(None));
    let failed = seq![EditEvent::HookFailed, EditEvent::FallbackExited(Some(code))];
    law_a_run_is_its_steps(EditPhase::Sending, wait, failed);
    assert(failed.skip(1) == seq![EditEvent::FallbackExited(Some(code))]);
    let late = seq![
        EditEvent::HookSent,
        EditEvent::MarkerTimedOut,
        EditEvent::FallbackExited(Some(code)),
    ];
    law_a_run_is_its_steps(EditPhase::Sending, wait, late);
    law_a_run_is_its_steps(EditPhase::AwaitingAck, wait, late.skip(1));
    assert(late.skip(1).skip(1) == seq![EditEvent::FallbackExited(Some(code))]);
    let brief = seq![
        EditEvent::HookSent,
        EditEvent::MarkerAppeared,
        EditEvent::MarkerRemoved,
        EditEvent::MarkerRemoved,
    ];
    law_a_run_is_its_steps(EditPhase::Sending, false, brief);
    law_a_run_is_its_steps(EditPhase::AwaitingAck, false, brief.skip(1));
    law_a_run_is_its_steps(EditPhase::RemovingAck, false, brief.skip(1).skip(1));
    assert(brief.skip(1).skip(1).skip(1) == seq![EditEvent::MarkerRemoved]);
    lemma_one_event(EditPhase::RemovingDone { code: 0 }, false, EditEvent::MarkerRemoved);
    let full = seq![
        EditEvent::HookSent,
        EditEvent::MarkerAppeared,
        EditEvent::MarkerRemoved,
        EditEvent::MarkerAppeared,
        EditEvent::DoneMarkerRead(contents),
        EditEvent::MarkerRemoved,
    ];
    let said = exit_code(contents_view(contents));
    law_a_run_is_its_steps(EditPhase::Sending, true, full);
    law_a_run_is_its_steps(EditPhase::AwaitingAck, true, full.skip(1));
    law_a_run_is_its_steps(EditPhase::RemovingAck, true, full.skip(1).skip(1));
    law_a_run_is_its_steps(EditPhase::AwaitingDone, true, full.skip(1).skip(1).skip(1));
    law_a_run_is_its_steps(EditPhase::ReadingDone, true, full.skip(1).skip(1).skip(1).skip(1));
    assert(full.skip(1).skip(1).skip(1).skip(1).skip(1) == seq![EditEvent::MarkerRemoved]);
    lemma_one_event(EditPhase::RemovingDone { code: said }, true, EditEvent::MarkerRemoved);
}

/// A run is what its steps make of the events, one by one, and has each step's
/// action done in turn.
pub proof fn law_a_run_is_its_steps(phase: EditPhase, wait: bool, events: Seq<EditEvent>)
    ensures
        events.len() == 0 ==> drive(phase, wait, events) == Some(
            (phase, Seq::<EditAction>::empty()),
        ),
        events.len() > 0 && next_step(phase, wait, events[0]) is None ==> drive(
            phase,
            wait,
            events,
        ) is None,
        events.len() > 0 && next_step(phase, wait, events[0]) is Some ==> {
            let (next, action) = next_step(phase, wait, events[0])->0;
            match drive(next, wait, events.skip(1)) {
                Some((last, actions)) => drive(phase, wait, events) == Some(
                    (last, seq![action] + actions),
                ),
                None => drive(phase, wait, events) is None,
            }
        },
{
}

proof fn lemma_one_event(phase: EditPhase, wait: bool, event: EditEvent)
    requires
        next_step(phase, wait, event) is Some,
    ensures
        ({
            let (next, action) = next_step(phase, wait, event)->0;
            drive(phase, wait, seq![event]) == Some((next, seq![action]))
        }),
{
    let (next, action) = next_step(phase, wait, event)->0;
    law_a_run_is_its_steps(phase, wait, seq![event]);
    assert(seq![event].skip(1) == Seq::<EditEvent>::empty());
    assert(drive(next, wait, Seq::empty()) == Some((next, Seq::<EditAction>::empty())));
    assert(seq![action] + Seq::<EditAction>::empty() == seq![action]);
}

/// An editor that exited with a code, wherever the run stood when it was
/// started, ends the run with that same code. One that a signal ended ends it
/// with another code than success.
pub proof fn law_the_editors_code_is_reported(phase: EditPhase, wait: bool, code: i32)
    ensures
        next_step(phase, wait, EditEvent::FallbackExited(Some(code))) matches Some((next, action))
            ==> action == EditAction::Exit(code) && next == (EditPhase::Finished { code }),
        next_step(phase, wait, EditEvent::FallbackExited(None)) matches Some((_, action)) ==> {
            &&& action matches EditAction::Exit(reported)
            &&& reported != 0
        },
        next_step(EditPhase::FallingBack, wait, EditEvent::FallbackExited(Some(code))) is Some,
        next_step(EditPhase::FallingBack, wait, EditEvent::FallbackExited(None)) is Some,
{
}

/// The caller is kept waiting unless it asked not to be or the contents were
/// piped in.
pub proof fn law_who_waits(no_wait: bool, from_stdin: bool)
    ensures
        waits(no_wait, from_stdin) <==> no_wait == false && from_stdin == false,
{
}

} // verus!
