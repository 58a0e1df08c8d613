use lx_term::edit::markers::read_exit_code;
use lx_term::file_path::FilePath;
use lx_term::pending_edit::{
    completion_text, CompletedEdit, PendingEditsModel, EXIT_CODE_COMPLETED,
};

fn path(text: &str) -> FilePath {
    FilePath::from_text(text)
}

/// The done markers that have been written.
struct Written(Vec<Vec<u8>>);

impl Written {
    fn note(&mut self, completed: Option<CompletedEdit>) {
        if let Some(edit) = completed {
            self.0.push(edit.done_path.bytes);
        }
    }

    fn has(&self, marker: &str) -> bool {
        self.0.iter().any(|written| written == marker.as_bytes())
    }
}

fn model() -> (PendingEditsModel, Written) {
    (PendingEditsModel::new(), Written(Vec::new()))
}

#[test]
fn dropping_a_session_writes_the_done_marker() {
    let (mut model, written) = model();

    let session = model.register(path("/tmp/resource.yaml"), path("edit.done"));
    model.forget(&path("/tmp/resource.yaml"));
    assert!(!written.has("edit.done"), "edit completes only once the session drops");

    let completed = model.release(session).expect("done marker written");

    assert_eq!(completed.done_path.bytes, b"edit.done".to_vec());
    assert_eq!(completed.path.bytes, b"/tmp/resource.yaml".to_vec());
    assert_eq!(completion_text(), "0");
}

#[test]
fn a_claimed_session_stays_pending_until_the_claimer_drops_it() {
    let (mut model, mut written) = model();
    let file = path("/tmp/resource.yaml");

    let registered = model.register(file.clone(), path("edit.done"));
    let claimed = model.claim(&file).expect("session is claimable");
    assert_eq!(claimed.path().bytes, file.bytes);
    assert_eq!(claimed.done_path().bytes, b"edit.done".to_vec());

    // The editor tab now owns the session; the requester letting go of its own
    // reference must not complete the edit.
    model.forget(&file);
    written.note(model.release(registered));
    assert!(!written.has("edit.done"));

    written.note(model.release(claimed));
    assert!(written.has("edit.done"));
}

#[test]
fn an_unclaimed_session_completes_so_the_caller_is_never_stranded() {
    let (mut model, mut written) = model();
    let file = path("/tmp/resource.yaml");

    // Nothing claims the session: the file turned out not to be openable.
    let registered = model.register(file.clone(), path("edit.done"));
    model.forget(&file);
    written.note(model.release(registered));

    assert!(
        written.has("edit.done"),
        "a file that never opened must still unblock the calling tool"
    );
}

#[test]
fn a_session_can_only_be_claimed_once() {
    let (mut model, _) = model();
    let file = path("/tmp/resource.yaml");

    let _registered = model.register(file.clone(), path("edit.done"));

    assert!(model.claim(&file).is_some());
    assert!(model.claim(&file).is_none());
}

#[test]
fn claiming_an_unrelated_path_finds_nothing() {
    let (mut model, _) = model();

    let _registered = model.register(path("/tmp/resource.yaml"), path("edit.done"));

    assert!(model.claim(&path("/tmp/other.yaml")).is_none());
}

#[test]
fn re_registering_a_path_completes_the_earlier_edit() {
    let (mut model, mut written) = model();
    let file = path("/tmp/resource.yaml");

    let first = model.register(file.clone(), path("first.done"));
    let second = model.register(file.clone(), path("second.done"));
    written.note(model.release(first));

    assert!(written.has("first.done"), "the superseded edit must not stay blocked");
    assert!(!written.has("second.done"));

    model.forget(&file);
    written.note(model.release(second));
    assert!(written.has("second.done"));
}

#[test]
fn giving_the_requesters_reference_back_completes_an_unclaimed_edit_at_once() {
    let (mut model, mut written) = model();
    let file = path("/tmp/resource.yaml");

    let session = model.register(file.clone(), path("edit.done"));
    written.note(model.release(session));

    assert!(written.has("edit.done"), "the registry does not keep an edit pending");
    assert!(model.claim(&file).is_none());

    // The path is free for another edit, which stands on its own.
    let again = model.register(file.clone(), path("again.done"));
    assert_eq!(written.0.len(), 1);
    let claimed = model.claim(&file).expect("session is claimable");
    written.note(model.release(again));
    assert!(!written.has("again.done"));
    written.note(model.release(claimed));
    assert!(written.has("again.done"));
}

#[test]
fn forgetting_a_path_completes_nothing() {
    let (mut model, mut written) = model();
    let file = path("/tmp/resource.yaml");

    let session = model.register(file.clone(), path("edit.done"));
    model.forget(&file);
    model.forget(&file);
    assert!(model.claim(&file).is_none());
    let copy = model.share(&session);
    written.note(model.release(session));
    assert!(!written.has("edit.done"));
    written.note(model.release(copy));
    assert!(written.has("edit.done"));
}

#[test]
fn a_copied_session_keeps_the_edit_pending() {
    let (mut model, mut written) = model();
    let file = path("/tmp/resource.yaml");

    let session = model.register(file.clone(), path("edit.done"));
    model.forget(&file);
    assert!(model.can_share(&session));
    let copy = model.share(&session);
    written.note(model.release(session));
    assert!(!written.has("edit.done"));
    written.note(model.release(copy));
    assert!(written.has("edit.done"));
}

#[test]
fn spellings_of_one_path_share_an_edit() {
    let (mut model, _) = model();

    let _registered = model.register(path("/tmp//./resource.yaml/"), path("edit.done"));

    assert!(model.claim(&path("tmp/resource.yaml")).is_none());
    assert!(model.claim(&path("/tmp/resource.yaml")).is_some());
}

#[test]
fn edits_of_different_paths_are_independent() {
    let (mut model, mut written) = model();
    assert!(model.can_register());

    let a = model.register(path("/a"), path("a.done"));
    let b = model.register(path("/b"), path("b.done"));
    let c = model.register(path("/c"), path("c.done"));
    model.forget(&path("/b"));
    written.note(model.release(b));
    assert_eq!(written.0, [b"b.done".to_vec()]);
    assert!(model.claim(&path("/a")).is_some());
    assert!(model.claim(&path("/c")).is_some());
    written.note(model.release(a));
    written.note(model.release(c));
    assert_eq!(written.0.len(), 1);
}

#[test]
fn the_completion_marker_reads_as_success() {
    assert_eq!(read_exit_code(Some(completion_text())), EXIT_CODE_COMPLETED);
}

#[test]
fn every_edit_completes_once() {
    let mut model = PendingEditsModel::default();
    let mut written = Written(Vec::new());
    let files = ["/a", "/b", "/a", "/c", "/b", "/a"];

    let mut held = Vec::new();
    for (n, file) in files.iter().enumerate() {
        let session = model.register(path(file), path(&format!("{n}.done")));
        if n % 2 == 0 {
            held.push(model.share(&session));
        }
        if n % 3 == 0 {
            held.extend(model.claim(&path(file)));
        }
        held.push(session);
    }
    for file in ["/a", "/b", "/c"] {
        model.forget(&path(file));
    }
    assert!(written.0.is_empty());
    for session in held {
        written.note(model.release(session));
    }

    written.0.sort();
    let expected: Vec<Vec<u8>> =
        (0..files.len()).map(|n| format!("{n}.done").into_bytes()).collect();
    assert_eq!(written.0, expected);
}

#[test]
fn a_claim_finds_what_was_registered_whatever_happens_to_other_paths() {
    let (mut model, mut written) = model();

    let _before = model.register(path("/other"), path("before.done"));
    let session = model.register(path("/a"), path("a.done"));
    let _again = model.register(path("/other"), path("again.done"));
    assert!(model.claim(&path("/other")).is_some());
    let _third = model.register(path("/third"), path("third.done"));
    model.forget(&path("/other"));
    let copy = model.share(&session);
    written.note(model.release(copy));

    assert!(model.can_claim(&path("/a")));
    let claimed = model.claim(&path("/a")).expect("session is claimable");
    assert_eq!(claimed.path().bytes, b"/a".to_vec());
    assert_eq!(claimed.done_path().bytes, b"a.done".to_vec());
    assert!(written.0.is_empty());
    assert!(model.claim(&path("/a")).is_none());
    assert!(model.claim(&path("/third")).is_some());
    written.note(model.release(session));
    assert!(written.0.is_empty());
    written.note(model.release(claimed));
    assert_eq!(written.0, [b"a.done".to_vec()]);
}
