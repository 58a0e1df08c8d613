use std::path::{Path, PathBuf};
use std::time::{Duration, Instant};

use lx_term::edit::error::EditError;
use lx_term::edit::fallback::{
    fallback_command, fallback_editor, fallback_exit_code, fallback_notice, FallbackReason,
    Platform,
};
use lx_term::edit::input::{
    absolute_path, choose_input, spool_to_temp_file, EditArgs, EditInput, InputSource,
};
use lx_term::edit::markers::{
    poll_marker, read_exit_code, stdin_file_for_id, MarkerPaths, PollStep, ACK_TIMEOUT,
    POLL_INTERVAL,
};
use lx_term::edit::request::EditRequest;
use lx_term::edit::run::{
    in_warp_local_session, EditAction, EditEvent, EditPhase, EditRun, FallbackCause, Marker,
};
use lx_term::file_path::FilePath;
use lx_term::unique_id::UniqueId;

fn path(text: &str) -> FilePath {
    FilePath::from_text(text)
}

fn std_path(path: &FilePath) -> PathBuf {
    PathBuf::from(String::from_utf8(path.bytes.clone()).expect("utf-8"))
}

fn request(path: &str) -> EditRequest {
    EditRequest {
        path: path.to_owned(),
        host: String::new(),
        ack_path: "/tmp/warp-edit-abc.ack".to_owned(),
        done_path: "/tmp/warp-edit-abc.done".to_owned(),
        wait: true,
    }
}

/// Waits for a marker file, as the shim does, but calls `meanwhile` with the
/// time that has passed where the shim sleeps.
fn wait_for_marker(
    marker: &Path,
    timeout: Option<Duration>,
    mut meanwhile: impl FnMut(Duration),
) -> bool {
    let started_at = Instant::now();
    loop {
        let elapsed = started_at.elapsed().as_nanos();
        match poll_marker(marker.exists(), elapsed, timeout.map(|limit| limit.as_nanos())) {
            PollStep::Appeared => return true,
            PollStep::GaveUp => return false,
            PollStep::Sleep => meanwhile(started_at.elapsed()),
        }
    }
}

#[test]
fn hook_payload_serializes_with_the_field_names_the_client_expects() {
    let payload = request("/tmp/kubectl-edit-1234.yaml");

    let json: serde_json::Value =
        serde_json::from_str(&payload.to_json().expect("payload serializes")).expect("json");

    assert_eq!(json["path"], "/tmp/kubectl-edit-1234.yaml");
    assert_eq!(json["host"], "");
    assert_eq!(json["ack_path"], "/tmp/warp-edit-abc.ack");
    assert_eq!(json["done_path"], "/tmp/warp-edit-abc.done");
    assert_eq!(json["wait"], true);
}

#[test]
fn the_escape_sequence_is_a_hex_encoded_warp_shell_hook() {
    let request = request("/tmp/kubectl-edit-1234.yaml");

    let sequence = request.escape_sequence().expect("sequence builds");

    let body = sequence
        .strip_prefix("\x1b]9278;d;")
        .and_then(|body| body.strip_suffix("\x07"))
        .expect("sequence is a bell-terminated OSC 9278 hook");

    let decoded = String::from_utf8(hex::decode(body).expect("payload is hex")).expect("utf-8");
    let parsed: serde_json::Value = serde_json::from_str(&decoded).expect("payload is json");

    assert_eq!(parsed["hook"], "EditFile");
    assert_eq!(parsed["value"]["path"], "/tmp/kubectl-edit-1234.yaml");
}

#[test]
fn paths_that_would_corrupt_the_sequence_survive_encoding() {
    // Hex encoding exists precisely so that a path containing the OSC
    // separator, a terminator, or a newline cannot break out of the payload.
    let hostile_path = "/tmp/we;ird\x07path\nwith\x1bescapes.yaml";
    let request = request(hostile_path);

    let sequence = request.escape_sequence().expect("sequence builds");

    let body = sequence
        .strip_prefix("\x1b]9278;d;")
        .and_then(|body| body.strip_suffix("\x07"))
        .expect("sequence is a bell-terminated OSC 9278 hook");

    assert!(
        body.bytes().all(|byte| byte.is_ascii_hexdigit()),
        "the payload must not be able to terminate the sequence early"
    );
    let decoded = String::from_utf8(hex::decode(body).expect("payload is hex")).expect("utf-8");
    let parsed: serde_json::Value = serde_json::from_str(&decoded).expect("payload is json");

    assert_eq!(parsed["value"]["path"], hostile_path);
}

/// The request as `serde_json` writes it when it is handed the whole object.
fn serde_json_text(request: &EditRequest) -> String {
    let mut value = serde_json::Map::new();
    value.insert("path".to_owned(), request.path.as_str().into());
    value.insert("host".to_owned(), request.host.as_str().into());
    value.insert("ack_path".to_owned(), request.ack_path.as_str().into());
    value.insert("done_path".to_owned(), request.done_path.as_str().into());
    value.insert("wait".to_owned(), request.wait.into());
    let mut hook = serde_json::Map::new();
    hook.insert("hook".to_owned(), "EditFile".into());
    hook.insert("value".to_owned(), serde_json::Value::Object(value));
    serde_json::to_string(&serde_json::Value::Object(hook)).expect("json")
}

#[test]
fn the_hook_is_written_as_serde_json_writes_it() {
    let mut every_ascii = String::new();
    for byte in 0u8..128 {
        every_ascii.push(byte as char);
    }
    for text in ["", "plain", "\"quoted\" \\ /", "caf\u{e9} \u{1f980} \u{2028}\u{7f}", &every_ascii] {
        for wait in [true, false] {
            let request = EditRequest {
                path: text.to_owned(),
                host: "host".to_owned(),
                ack_path: format!("{text}.ack"),
                done_path: format!("{text}.done"),
                wait,
            };
            let expected = format!(
                "\x1b]9278;d;{}\x07",
                hex::encode(serde_json_text(&request))
            );
            assert_eq!(request.escape_sequence(), Ok(expected));
        }
    }
}

#[test]
fn a_short_request_has_this_escape_sequence() {
    let request = EditRequest {
        path: "p".to_owned(),
        host: String::new(),
        ack_path: "a\n".to_owned(),
        done_path: "d".to_owned(),
        wait: false,
    };

    assert_eq!(
        request.to_json().expect("json"),
        r#"{"ack_path":"a\n","done_path":"d","host":"","path":"p","wait":false}"#
    );
    let copy = request.clone();
    assert_eq!(copy.escape_sequence(), request.escape_sequence());
    assert!(request
        .escape_sequence()
        .expect("sequence builds")
        .starts_with("\x1b]9278;d;7b22686f6f6b223a224564697446696c65222c"));
}

#[test]
fn requests_that_differ_have_different_sequences() {
    let one = request("/tmp/a").escape_sequence().expect("sequence builds");
    let other = request("/tmp/b").escape_sequence().expect("sequence builds");
    assert_ne!(one, other);
}

#[test]
fn marker_paths_are_unique_per_invocation() {
    let temp_dir = path("/tmp");
    let first = MarkerPaths::new(&temp_dir);
    let second = MarkerPaths::new(&temp_dir);

    assert_ne!(std_path(&first.ack), std_path(&second.ack));
    assert_ne!(std_path(&first.done), std_path(&second.done));
    assert_ne!(std_path(&first.ack), std_path(&first.done));
}

#[test]
fn marker_paths_are_named_after_the_invocation() {
    let id = UniqueId { value: 0x0123_4567_89ab_4def_8123_4567_89ab_cdef };
    let markers = MarkerPaths::for_id(&path("/var/tmp/"), &id);

    let base = Path::new("/var/tmp/").join("warp-edit-01234567-89ab-4def-8123-456789abcdef");
    assert_eq!(std_path(&markers.ack), base.with_extension("ack"));
    assert_eq!(std_path(&markers.done), base.with_extension("done"));
}

#[test]
fn wait_for_marker_gives_up_once_the_timeout_elapses() {
    let dir = tempfile::tempdir().expect("temp dir");
    let missing = dir.path().join("never-written.ack");

    let mut waited = Duration::ZERO;
    assert!(!wait_for_marker(&missing, Some(Duration::from_millis(150)), |elapsed| {
        waited = elapsed;
    }));
    assert!(waited > Duration::ZERO);
}

#[test]
fn wait_for_marker_returns_once_the_marker_appears() {
    let dir = tempfile::tempdir().expect("temp dir");
    let marker = dir.path().join("eventually.done");

    for timeout in [Some(Duration::from_secs(5)), None] {
        let mut written = None;
        assert!(!marker.exists());
        assert!(wait_for_marker(&marker, timeout, |elapsed| {
            if elapsed >= Duration::from_millis(100) && written.is_none() {
                let file = tempfile::Builder::new()
                    .prefix("eventually.done")
                    .rand_bytes(0)
                    .tempfile_in(dir.path())
                    .expect("write marker");
                written = Some(file);
            }
        }));
        assert!(written.is_some());
    }
}

#[test]
fn a_poll_prefers_the_marker_to_the_timeout() {
    assert_eq!(poll_marker(true, 10, Some(10)), PollStep::Appeared);
    assert_eq!(poll_marker(false, 10, Some(10)), PollStep::GaveUp);
    assert_eq!(poll_marker(false, 9, Some(10)), PollStep::Sleep);
    assert_eq!(poll_marker(false, u128::MAX, None), PollStep::Sleep);
    assert_eq!(poll_marker(true, 0, None), PollStep::Appeared);
}

#[test]
fn the_timings_are_those_of_the_shim() {
    assert_eq!(ACK_TIMEOUT, Duration::from_secs(10).as_nanos());
    assert_eq!(POLL_INTERVAL, Duration::from_millis(50).as_nanos());
}

#[test]
fn exit_code_is_read_from_the_done_marker() {
    assert_eq!(read_exit_code(Some("0\n")), 0);
    assert_eq!(read_exit_code(Some("1")), 1);
}

#[test]
fn a_malformed_done_marker_is_treated_as_success() {
    // A truncated or empty write must not turn a completed edit into a failure,
    // which for `kubectl edit` would mean silently discarding the user's edits.
    assert_eq!(read_exit_code(Some("")), 0);
    assert_eq!(read_exit_code(Some("not-a-number")), 0);
    assert_eq!(read_exit_code(None), 0);
}

#[test]
fn exit_codes_read_like_trimmed_integers() {
    for text in [
        "0", "1", " 2 ", "-3\r\n", "+4", "\u{2003}5\u{3000}", "2147483647", "2147483648",
        "-2147483648", "-2147483649", "99999999999999999999", "007", "-0", "+", "-", "+-1", "1 2",
        "0x10", "1_000", "\u{661}", "--1", "", "\n", "12a", "00000000000000000000000000000001",
    ] {
        let expected = text.trim().parse::<i32>().unwrap_or(0);
        assert_eq!(read_exit_code(Some(text)), expected, "{text:?}");
    }
}

#[test]
fn relative_paths_are_resolved_against_the_working_directory() {
    let resolved =
        absolute_path(&path("resource.yaml"), false, Some(&path("/work/dir"))).expect("resolves");

    assert!(resolved.is_absolute());
    assert!(std_path(&resolved).is_absolute());
    assert!(std_path(&resolved).ends_with("resource.yaml"));
    assert_eq!(resolved.bytes, b"/work/dir/resource.yaml".to_vec());
}

#[test]
fn absolute_paths_are_left_alone() {
    for absolute in [path("/tmp/resource.yaml"), path(r"C:\tmp\resource.yaml")] {
        assert_eq!(absolute_path(&absolute, true, None).expect("resolves").bytes, absolute.bytes);
        assert_eq!(
            absolute_path(&absolute, true, Some(&path("/work"))).expect("resolves").bytes,
            absolute.bytes
        );
    }
}

#[test]
fn relative_paths_need_a_working_directory() {
    assert!(matches!(
        absolute_path(&path("resource.yaml"), false, None),
        Err(EditError::NoWorkingDirectory)
    ));
}

#[test]
fn the_input_follows_from_the_path() {
    let file = EditArgs { path: path("a.yaml"), no_wait: false };
    let stdin = EditArgs { path: path("-"), no_wait: false };
    let dashed = EditArgs { path: path("./-"), no_wait: false };
    let work = path("/work");

    assert!(!file.is_stdin());
    assert!(stdin.is_stdin());
    assert!(stdin.clone().is_stdin());
    assert!(!dashed.is_stdin());

    match choose_input(&file, false, true, Some(&work)) {
        Ok(InputSource::File(p)) => assert_eq!(p.bytes, b"/work/a.yaml".to_vec()),
        other => panic!("{other:?}"),
    }
    let drive = EditArgs { path: path(r"C:\a.yaml"), no_wait: false };
    match choose_input(&drive, true, true, Some(&work)) {
        Ok(InputSource::File(p)) => assert_eq!(p.bytes, br"C:\a.yaml".to_vec()),
        other => panic!("{other:?}"),
    }
    match choose_input(&dashed, false, true, Some(&work)) {
        Ok(InputSource::File(p)) => assert_eq!(p.bytes, b"/work/./-".to_vec()),
        other => panic!("{other:?}"),
    }
    assert!(matches!(choose_input(&stdin, false, false, None), Ok(InputSource::Stdin)));
    assert!(matches!(
        choose_input(&stdin, false, true, Some(&work)),
        Err(EditError::StdinIsTerminal)
    ));
    assert!(matches!(
        choose_input(&file, false, false, None),
        Err(EditError::NoWorkingDirectory)
    ));
}

#[test]
fn piped_in_contents_go_to_a_fresh_file() {
    let temp = path("/tmp");
    let mut spooled = Vec::new();
    for contents in [b"one\n".to_vec(), vec![0xff, 0x00], Vec::new()] {
        let file = spool_to_temp_file::<&str>(Ok(contents.clone()), &temp).expect("was read");
        assert_eq!(file.contents, contents);
        let text = String::from_utf8(file.path.bytes.clone()).expect("utf-8");
        assert!(text.starts_with("/tmp/warp-stdin-"));
        assert!(text.ends_with(".txt"));
        assert_eq!(text.len(), "/tmp/warp-stdin-.txt".len() + 36);
        match file.into_input::<&str>(Ok(())) {
            Ok(EditInput::Stdin(p)) => assert_eq!(p.bytes, text.as_bytes().to_vec()),
            other => panic!("{other:?}"),
        }
        spooled.push(text);
    }
    spooled.sort();
    spooled.dedup();
    assert_eq!(spooled.len(), 3);

    assert_eq!(spool_to_temp_file(Err("closed"), &temp).err(), Some("closed"));
    let file = spool_to_temp_file::<&str>(Ok(Vec::new()), &temp).expect("was read");
    assert_eq!(file.into_input(Err("disk full")).err(), Some("disk full"));
}

#[test]
fn a_spool_file_is_named_after_the_invocation() {
    assert_eq!(
        stdin_file_for_id(&path("/tmp"), &UniqueId { value: 0xabc }).bytes,
        b"/tmp/warp-stdin-00000000-0000-0000-0000-000000000abc.txt".to_vec()
    );
}

#[test]
fn errors_say_what_is_wrong() {
    assert_eq!(
        EditError::StdinIsTerminal.message(),
        "'-' means read the contents from stdin, but stdin is a terminal; \
         pipe something in, e.g. `kubectl get pods | warp edit -`"
    );
    assert_eq!(
        EditError::NoFallbackEditor.message(),
        "no fallback editor to run; check $WARP_EDIT_FALLBACK_EDITOR"
    );
    assert_ne!(
        EditError::NoWorkingDirectory.message(),
        EditError::RequestNotWritten.message()
    );
}

#[test]
fn only_the_value_one_marks_a_local_session() {
    assert!(in_warp_local_session(Some("1")));
    assert!(!in_warp_local_session(Some("")));
    assert!(!in_warp_local_session(Some("0")));
    assert!(!in_warp_local_session(Some("11")));
    assert!(!in_warp_local_session(Some("1 ")));
    assert!(!in_warp_local_session(None));
}

#[test]
fn the_fallback_editor_is_never_blank() {
    assert_eq!(fallback_editor(Some("code -w"), Platform::Other), "code -w");
    assert_eq!(fallback_editor(Some(" \t\u{a0}"), Platform::Other), "vi");
    assert_eq!(fallback_editor(Some(""), Platform::Windows), "notepad");
    assert_eq!(fallback_editor(None, Platform::Other), "vi");
    for configured in [Some("code -w"), Some(" "), None] {
        let editor = fallback_editor(configured, Platform::Other);
        let input = EditInput::File(path("/a"));
        assert!(fallback_command(&editor, &input).is_ok());
    }
}

#[test]
fn the_fallback_editor_is_a_command_line() {
    let input = EditInput::File(path("/tmp/with space"));
    let command =
        fallback_command("  emacsclient\t-nw \u{2003} -c ", &input).expect("has a program");
    assert_eq!(command.program, "emacsclient");
    assert_eq!(command.args, ["-nw", "-c"]);
    assert_eq!(command.path.bytes, b"/tmp/with space".to_vec());
    assert!(!command.reattach_stdin);

    let piped = EditInput::Stdin(path("/tmp/spool.txt"));
    let command = fallback_command("vi", &piped).expect("has a program");
    assert_eq!(command.program, "vi");
    assert!(command.args.is_empty());
    assert!(command.reattach_stdin);

    assert!(matches!(fallback_command(" \n", &input), Err(EditError::NoFallbackEditor)));
}

#[test]
fn a_fallback_editor_ended_by_a_signal_counts_as_failed() {
    assert_eq!(fallback_exit_code(Some(0)), 0);
    assert_eq!(fallback_exit_code(Some(7)), 7);
    assert_eq!(fallback_exit_code(None), 1);
}

#[test]
fn the_fallback_is_announced() {
    assert_eq!(
        fallback_notice(&FallbackReason::NoResponse, "vi"),
        "warp edit: Warp did not respond; falling back to vi"
    );
    assert_eq!(
        fallback_notice(&FallbackReason::TerminalUnreachable("no tty".to_owned()), "code -w"),
        "warp edit: could not reach the terminal (no tty); falling back to code -w"
    );
}

fn start(no_wait: bool, input: EditInput, in_session: bool) -> (EditRun, EditAction) {
    let args = EditArgs { path: path("ignored"), no_wait };
    let id = UniqueId { value: 7 };
    EditRun::start(&args, &input, in_session, MarkerPaths::for_id(&path("/tmp"), &id))
}

#[test]
fn a_blocking_edit_reports_what_the_done_marker_says() {
    let (mut run, first) = start(false, EditInput::File(path("/a")), true);
    assert_eq!(first, EditAction::SendHook);
    assert_eq!(run.request.path, "/a");
    assert_eq!(run.request.host, "");
    assert_eq!(
        run.request.ack_path,
        "/tmp/warp-edit-00000000-0000-0000-0000-000000000007.ack"
    );
    assert_eq!(
        run.request.done_path,
        "/tmp/warp-edit-00000000-0000-0000-0000-000000000007.done"
    );
    assert!(run.request.wait);

    assert_eq!(
        run.advance(EditEvent::HookSent),
        Some(EditAction::AwaitMarker { marker: Marker::Ack, timeout: Some(ACK_TIMEOUT) })
    );
    assert_eq!(
        run.advance(EditEvent::MarkerAppeared),
        Some(EditAction::RemoveMarker(Marker::Ack))
    );
    assert_eq!(
        run.advance(EditEvent::MarkerRemoved),
        Some(EditAction::AwaitMarker { marker: Marker::Done, timeout: None })
    );
    // A wait without a limit does not time out.
    assert_eq!(run.advance(EditEvent::MarkerTimedOut), None);
    assert_eq!(run.phase, EditPhase::AwaitingDone);
    assert_eq!(run.advance(EditEvent::MarkerAppeared), Some(EditAction::ReadDoneMarker));
    assert_eq!(
        run.advance(EditEvent::DoneMarkerRead(Some("3\n".to_owned()))),
        Some(EditAction::RemoveMarker(Marker::Done))
    );
    assert_eq!(run.advance(EditEvent::MarkerRemoved), Some(EditAction::Exit(3)));
    assert_eq!(run.phase, EditPhase::Finished { code: 3 });
    assert_eq!(run.advance(EditEvent::MarkerRemoved), None);
    assert_eq!(
        run.marker_path(Marker::Ack).bytes,
        run.request.ack_path.as_bytes().to_vec()
    );
    assert_eq!(
        run.marker_path(Marker::Done).bytes,
        run.request.done_path.as_bytes().to_vec()
    );
}

#[test]
fn an_edit_that_does_not_block_succeeds_once_it_is_acknowledged() {
    for (no_wait, input) in [
        (true, EditInput::File(path("/a"))),
        (false, EditInput::Stdin(path("/tmp/spool.txt"))),
        (true, EditInput::Stdin(path("/tmp/spool.txt"))),
    ] {
        let (mut run, first) = start(no_wait, input, true);
        assert_eq!(first, EditAction::SendHook);
        assert!(!run.request.wait);
        run.advance(EditEvent::HookSent);
        run.advance(EditEvent::MarkerAppeared);
        assert_eq!(
            run.advance(EditEvent::MarkerRemoved),
            Some(EditAction::RemoveMarker(Marker::Done))
        );
        assert_eq!(run.advance(EditEvent::MarkerRemoved), Some(EditAction::Exit(0)));
    }
}

#[test]
fn an_edit_falls_back_when_the_terminal_does_not_answer() {
    let (mut run, first) = start(false, EditInput::File(path("/a")), false);
    assert_eq!(first, EditAction::RunFallback(FallbackCause::NotInSession));
    assert_eq!(run.advance(EditEvent::FallbackExited(Some(4))), Some(EditAction::Exit(4)));

    let (mut run, _) = start(false, EditInput::File(path("/a")), true);
    assert_eq!(
        run.advance(EditEvent::HookFailed),
        Some(EditAction::RunFallback(FallbackCause::TerminalUnreachable))
    );
    assert_eq!(run.advance(EditEvent::FallbackExited(None)), Some(EditAction::Exit(1)));

    let (mut run, _) = start(false, EditInput::File(path("/a")), true);
    run.advance(EditEvent::HookSent);
    assert_eq!(
        run.advance(EditEvent::MarkerTimedOut),
        Some(EditAction::RunFallback(FallbackCause::NoResponse))
    );
    assert_eq!(run.advance(EditEvent::FallbackExited(Some(0))), Some(EditAction::Exit(0)));
}

#[test]
fn paths_that_are_not_utf_8_are_sent_with_replacement_characters() {
    let input = EditInput::File(FilePath::from_bytes(vec![b'/', 0xff, b'a']));
    let (run, _) = start(false, input, true);
    assert_eq!(run.request.path, "/\u{fffd}a");
}
