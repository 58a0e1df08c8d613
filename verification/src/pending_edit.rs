//! Tracks files opened in the built-in editor on behalf of a blocked `edit`
//! process.
//!
//! Such a process waits for a marker file until the user is done, and the user
//! is done when nobody holds the edit any more: neither the editor tab that
//! shows the file nor whoever requested it. The model counts those references,
//! and hands out the marker to write at the moment the last one goes away.
//! However a tab goes away, it gives up its reference, so no caller is left
//! hanging, also if no tab was ever opened: the registry of requests lets a tab
//! find an edit, and does not keep it pending.

use vstd::prelude::*;

use crate::edit::markers::exit_code;
use crate::file_path::{path_key, FilePath, PathKey};
use crate::text::{decimal, decimal_value, trim_end, trim_start};

verus! {

/// The exit code reported to the caller when the edit completed normally.
pub const EXIT_CODE_COMPLETED: i32 = 0;

/// A reference to an `edit` invocation that waits for a file to be closed.
///
/// It is to be given back with [`PendingEditsModel::release`].
#[derive(Debug)]
pub struct PendingEditSession {
    id: u64,
    path: FilePath,
    done_path: FilePath,
}

/// An edit whose last reference is gone: its marker is to be written.
#[derive(Debug)]
pub struct CompletedEdit {
    /// The file that was edited.
    pub path: FilePath,
    /// The marker that unblocks the caller.
    pub done_path: FilePath,
}

/// An edit that is still referred to.
#[derive(Debug)]
struct LiveEdit {
    id: u64,
    path: FilePath,
    done_path: FilePath,
    refs: u64,
    registered: bool,
}

/// Edits that have been requested and not yet completed.
#[derive(Debug)]
pub struct PendingEditsModel {
    edits: Vec<LiveEdit>,
    next_id: u64,
}

/// What there is to know of an edit that is still referred to.
pub struct EditView {
    /// The file that is edited.
    pub path: Seq<u8>,
    /// The marker that unblocks the caller.
    pub done_path: Seq<u8>,
    /// The number of references.
    pub refs: nat,
    /// Whether the registry lists the edit, for a tab to claim.
    pub registered: bool,
}

/// What there is to know of a completed edit.
pub struct CompletedView {
    pub path: Seq<u8>,
    pub done_path: Seq<u8>,
}

/// The state of a [`PendingEditsModel`].
pub struct ModelView {
    /// The edits that are still referred to.
    pub live: Map<u64, EditView>,
    /// The number that the next edit gets.
    pub next_id: u64,
}

impl View for LiveEdit {
    type V = EditView;

    closed spec fn view(&self) -> EditView {
        EditView {
            path: self.path@,
            done_path: self.done_path@,
            refs: self.refs as nat,
            registered: self.registered,
        }
    }
}

impl View for CompletedEdit {
    type V = CompletedView;

    open spec fn view(&self) -> CompletedView {
        CompletedView { path: self.path@, done_path: self.done_path@ }
    }
}

/// What `completed` says, if anything was completed.
pub open spec fn completed_view(completed: Option<CompletedEdit>) -> Option<CompletedView> {
    match completed {
        Some(edit) => Some(edit@),
        None => None,
    }
}

/// Whether the registry lists the edit `id` for the path with this key.
pub open spec fn registered_as(state: ModelView, id: u64, key: PathKey) -> bool {
    &&& state.live.contains_key(id)
    &&& state.live[id].registered
    &&& path_key(state.live[id].path) == key
}

/// The edit that the registry lists for the path with this key.
pub open spec fn pending_id(state: ModelView, key: PathKey) -> Option<u64> {
    if exists|id: u64| registered_as(state, id, key) {
        Some(choose|id: u64| registered_as(state, id, key))
    } else {
        None
    }
}

/// Whether `state` is one that a model can be in: numbers are not used twice,
/// every edit is referred to, and no path has two edits in the registry.
pub open spec fn state_valid(state: ModelView) -> bool {
    &&& forall|id: u64| #[trigger] state.live.contains_key(id) ==> id < state.next_id
    &&& forall|id: u64| #[trigger] state.live.contains_key(id) ==> state.live[id].refs >= 1
    &&& forall|a: u64, b: u64, key: PathKey| #[trigger]
        registered_as(state, a, key) && #[trigger] registered_as(state, b, key) ==> a == b
}

/// The state once the edit `id` has one reference less.
pub open spec fn without_ref(state: ModelView, id: u64) -> ModelView {
    let edit = state.live[id];
    ModelView {
        live: if edit.refs > 1 {
            state.live.insert(id, EditView { refs: (edit.refs - 1) as nat, ..edit })
        } else {
            state.live.remove(id)
        },
        ..state
    }
}

/// What is completed when the edit `id` loses a reference.
pub open spec fn completed_by_losing_ref(state: ModelView, id: u64) -> Option<CompletedView> {
    let edit = state.live[id];
    if edit.refs > 1 {
        None
    } else {
        Some(CompletedView { path: edit.path, done_path: edit.done_path })
    }
}

/// The state once the registry does not list the edit `id`.
pub open spec fn unregistered(state: ModelView, id: u64) -> ModelView {
    ModelView {
        live: state.live.insert(id, EditView { registered: false, ..state.live[id] }),
        ..state
    }
}

/// The state once the registry lists nothing for the path with this key.
pub open spec fn after_forget(state: ModelView, key: PathKey) -> ModelView {
    match pending_id(state, key) {
        Some(id) => unregistered(state, id),
        None => state,
    }
}

/// The state once an edit of `path` has been registered: a new edit that the
/// caller holds and the registry lists, in place of an earlier one.
pub open spec fn after_register(
    state: ModelView,
    path: Seq<u8>,
    done_path: Seq<u8>,
) -> ModelView {
    ModelView {
        live: after_forget(state, path_key(path)).live.insert(
            state.next_id,
            EditView { path, done_path, refs: 1, registered: true },
        ),
        next_id: (state.next_id + 1) as u64,
    }
}

/// The state once the edit that the registry lists for the path with this key,
/// if any, is off the list and the claimer holds it too.
pub open spec fn after_claim(state: ModelView, key: PathKey) -> ModelView {
    match pending_id(state, key) {
        Some(id) => after_share(unregistered(state, id), id),
        None => state,
    }
}

/// Whether one more reference to what the registry lists for the path with this
/// key can be counted.
pub open spec fn claim_counts(state: ModelView, key: PathKey) -> bool {
    match pending_id(state, key) {
        Some(id) => state.live[id].refs < u64::MAX,
        None => true,
    }
}

/// The state once there is one more reference to the edit `id`.
pub open spec fn after_share(state: ModelView, id: u64) -> ModelView {
    ModelView {
        live: state.live.insert(
            id,
            EditView { refs: state.live[id].refs + 1, ..state.live[id] },
        ),
        ..state
    }
}

/// Where `edits` holds the edit `id`.
spec fn index_of(edits: Seq<LiveEdit>, id: u64) -> int {
    choose|i: int| 0 <= i < edits.len() && (#[trigger] edits[i]).id == id
}

/// `edits` by their numbers.
spec fn by_id(edits: Seq<LiveEdit>) -> Map<u64, EditView> {
    Map::new(
        |id: u64| exists|i: int| 0 <= i < edits.len() && (#[trigger] edits[i]).id == id,
        |id: u64| edits[index_of(edits, id)]@,
    )
}

/// Whether no two of `edits` have the same number.
spec fn ids_differ(edits: Seq<LiveEdit>) -> bool {
    forall|i: int, j: int|
        0 <= i < edits.len() && 0 <= j < edits.len() && i != j ==> (#[trigger] edits[i]).id != (
        #[trigger] edits[j]).id
}

proof fn lemma_by_id(edits: Seq<LiveEdit>, i: int)
    requires
        ids_differ(edits),
        0 <= i < edits.len(),
    ensures
        by_id(edits).contains_key(edits[i].id),
        by_id(edits)[edits[i].id] == edits[i]@,
{
    let k = index_of(edits, edits[i].id);
    assert(edits[i].id == edits[i].id);
    assert(0 <= k < edits.len() && edits[k].id == edits[i].id);
}

proof fn lemma_by_id_update(edits: Seq<LiveEdit>, i: int, edit: LiveEdit)
    requires
        ids_differ(edits),
        0 <= i < edits.len(),
        edit.id == edits[i].id,
    ensures
        ids_differ(edits.update(i, edit)),
        by_id(edits.update(i, edit)) == by_id(edits).insert(edit.id, edit@),
{
    let updated = edits.update(i, edit);
    assert forall|id: u64| #[trigger] by_id(updated).contains_key(id) <==> by_id(edits).insert(
        edit.id,
        edit@,
    ).contains_key(id) by {
        if by_id(updated).contains_key(id) {
            let k = index_of(updated, id);
            assert(edits[k].id == id);
        }
        if by_id(edits).contains_key(id) {
            let k = index_of(edits, id);
            assert(updated[k].id == id);
        }
        assert(updated[i].id == edit.id);
    }
    assert forall|id: u64| #[trigger] by_id(updated).contains_key(id) implies by_id(updated)[id]
        == by_id(edits).insert(edit.id, edit@)[id] by {
        let k = index_of(updated, id);
        lemma_by_id(updated, k);
        if k != i {
            lemma_by_id(edits, k);
        }
    }
    assert(by_id(updated) =~= by_id(edits).insert(edit.id, edit@));
}

proof fn lemma_by_id_remove(edits: Seq<LiveEdit>, i: int)
    requires
        ids_differ(edits),
        0 <= i < edits.len(),
    ensures
        ids_differ(edits.remove(i)),
        by_id(edits.remove(i)) == by_id(edits).remove(edits[i].id),
{
    let removed = edits.remove(i);
    assert forall|k: int| 0 <= k < removed.len() implies #[trigger] removed[k] == edits[if k < i {
        k
    } else {
        k + 1
    }] by {}
    assert forall|id: u64| #[trigger] by_id(removed).contains_key(id) <==> by_id(edits).remove(
        edits[i].id,
    ).contains_key(id) by {
        if by_id(removed).contains_key(id) {
            let k = index_of(removed, id);
            assert(removed[k].id == id);
            assert(edits[if k < i {
                k
            } else {
                k + 1
            }].id == id);
        }
        if by_id(edits).contains_key(id) && id != edits[i].id {
            let k = index_of(edits, id);
            assert(edits[k].id == id);
            assert(removed[if k < i {
                k
            } else {
                k - 1
            }].id == id);
        }
    }
    assert forall|id: u64| #[trigger] by_id(removed).contains_key(id) implies by_id(removed)[id]
        == by_id(edits).remove(edits[i].id)[id] by {
        let k = index_of(removed, id);
        lemma_by_id(removed, k);
        lemma_by_id(
            edits,
            if k < i {
                k
            } else {
                k + 1
            },
        );
    }
    assert(by_id(removed) =~= by_id(edits).remove(edits[i].id));
}

proof fn lemma_by_id_push(edits: Seq<LiveEdit>, edit: LiveEdit)
    requires
        ids_differ(edits),
        !by_id(edits).contains_key(edit.id),
    ensures
        ids_differ(edits.push(edit)),
        by_id(edits.push(edit)) == by_id(edits).insert(edit.id, edit@),
{
    let pushed = edits.push(edit);
    assert forall|i: int| 0 <= i < edits.len() implies (#[trigger] edits[i]).id != edit.id by {
        lemma_by_id(edits, i);
    }
    assert(pushed[edits.len() as int] == edit);
    assert forall|i: int| 0 <= i < edits.len() implies #[trigger] pushed[i] == edits[i] by {}
    assert forall|id: u64| #[trigger] by_id(pushed).contains_key(id) <==> by_id(edits).insert(
        edit.id,
        edit@,
    ).contains_key(id) by {
        if by_id(pushed).contains_key(id) {
            let k = index_of(pushed, id);
            assert(pushed[k].id == id);
            if k < edits.len() {
                assert(edits[k].id == id);
            }
        }
        if by_id(edits).contains_key(id) {
            let k = index_of(edits, id);
            assert(pushed[k].id == id);
        }
    }
    assert forall|id: u64| #[trigger] by_id(pushed).contains_key(id) implies by_id(pushed)[id]
        == by_id(edits).insert(edit.id, edit@)[id] by {
        let k = index_of(pushed, id);
        lemma_by_id(pushed, k);
        if k < edits.len() {
            lemma_by_id(edits, k);
        }
    }
    assert(by_id(pushed) =~= by_id(edits).insert(edit.id, edit@));
}

/// What the marker of a completed edit is to hold.
pub fn completion_text() -> (r: &'static str)
    ensures
        r@ == "0"@,
{
    "0"
}

impl PendingEditSession {
    /// The number of the edit that this refers to.
    pub closed spec fn id(&self) -> u64 {
        self.id
    }

    /// The file that is edited.
    pub closed spec fn path_view(&self) -> Seq<u8> {
        self.path@
    }

    /// The marker that unblocks the caller.
    pub closed spec fn done_path_view(&self) -> Seq<u8> {
        self.done_path@
    }

    /// The file that is edited.
    pub fn path(&self) -> (r: &FilePath)
        ensures
            r@ == self.path_view(),
    {
        &self.path
    }

    /// The marker that unblocks the caller.
    pub fn done_path(&self) -> (r: &FilePath)
        ensures
            r@ == self.done_path_view(),
    {
        &self.done_path
    }
}

/// Whether `session` is a reference to an edit of `state`.
pub open spec fn holds(state: ModelView, session: PendingEditSession) -> bool {
    &&& state.live.contains_key(session.id())
    &&& state.live[session.id()].path == session.path_view()
    &&& state.live[session.id()].done_path == session.done_path_view()
}

proof fn lemma_registered_position(state: ModelView, id: u64, key: PathKey)
    requires
        state_valid(state),
        registered_as(state, id, key),
    ensures
        pending_id(state, key) == Some(id),
{
    let chosen = choose|id: u64| registered_as(state, id, key);
    assert(registered_as(state, chosen, key));
}

proof fn lemma_without_ref_valid(state: ModelView, id: u64)
    requires
        state_valid(state),
        state.live.contains_key(id),
    ensures
        state_valid(without_ref(state, id)),
{
    let next = without_ref(state, id);
    assert forall|a: u64, b: u64, key: PathKey| #[trigger]
        registered_as(next, a, key) && #[trigger] registered_as(next, b, key) implies a == b by {
        assert(registered_as(state, a, key));
        assert(registered_as(state, b, key));
    }
}

proof fn lemma_unregistered_valid(state: ModelView, id: u64)
    requires
        state_valid(state),
        state.live.contains_key(id),
    ensures
        state_valid(unregistered(state, id)),
{
    let next = unregistered(state, id);
    assert forall|a: u64, b: u64, key: PathKey| #[trigger]
        registered_as(next, a, key) && #[trigger] registered_as(next, b, key) implies a == b by {
        assert(registered_as(state, a, key));
        assert(registered_as(state, b, key));
    }
}

proof fn lemma_forget_valid(state: ModelView, key: PathKey)
    requires
        state_valid(state),
    ensures
        state_valid(after_forget(state, key)),
        pending_id(after_forget(state, key), key) is None,
{
    let next = after_forget(state, key);
    match pending_id(state, key) {
        Some(id) => {
            lemma_unregistered_valid(state, id);
            assert forall|other: u64| !registered_as(next, other, key) by {
                if registered_as(next, other, key) {
                    assert(registered_as(state, other, key));
                    assert(registered_as(state, id, key));
                }
            }
        },
        None => {},
    }
}

proof fn lemma_register_valid(state: ModelView, path: Seq<u8>, done_path: Seq<u8>)
    requires
        state_valid(state),
        state.next_id < u64::MAX,
    ensures
        state_valid(after_register(state, path, done_path)),
        pending_id(after_register(state, path, done_path), path_key(path)) == Some(state.next_id),
{
    let key = path_key(path);
    let forgot = after_forget(state, key);
    let next = after_register(state, path, done_path);
    lemma_forget_valid(state, key);
    assert forall|a: u64, b: u64, k: PathKey| #[trigger]
        registered_as(next, a, k) && #[trigger] registered_as(next, b, k) implies a == b by {
        if a != state.next_id {
            assert(registered_as(forgot, a, k));
        }
        if b != state.next_id {
            assert(registered_as(forgot, b, k));
        }
    }
    assert(registered_as(next, state.next_id, key));
    lemma_registered_position(next, state.next_id, key);
}

proof fn lemma_share_valid(state: ModelView, id: u64)
    requires
        state_valid(state),
        state.live.contains_key(id),
    ensures
        state_valid(after_share(state, id)),
{
    let next = after_share(state, id);
    assert forall|a: u64, b: u64, key: PathKey| #[trigger]
        registered_as(next, a, key) && #[trigger] registered_as(next, b, key) implies a == b by {
        assert(registered_as(state, a, key));
        assert(registered_as(state, b, key));
    }
}

impl View for PendingEditsModel {
    type V = ModelView;

    closed spec fn view(&self) -> ModelView {
        ModelView { live: by_id(self.edits@), next_id: self.next_id }
    }
}

impl Default for PendingEditsModel {
    fn default() -> (r: PendingEditsModel)
        ensures
            r.wf(),
            r@.live == Map::<u64, EditView>::empty(),
            r@.next_id == 0,
    {
        PendingEditsModel::new()
    }
}

impl PendingEditsModel {
    /// Whether the model keeps each edit once.
    pub closed spec fn edits_differ(&self) -> bool {
        ids_differ(self.edits@)
    }

    /// Whether the model is in a state that it can be in.
    pub open spec fn wf(&self) -> bool {
        self.edits_differ() && state_valid(self@)
    }

    /// A model with no edits.
    pub fn new() -> (r: PendingEditsModel)
        ensures
            r.wf(),
            r@.live == Map::<u64, EditView>::empty(),
            r@.next_id == 0,
    {
        let model = PendingEditsModel { edits: Vec::new(), next_id: 0 };
        assert(by_id(model.edits@) =~= Map::<u64, EditView>::empty());
        model
    }

    /// Whether there is a number left for another edit.
    pub fn can_register(&self) -> (r: bool)
        ensures
            r == (self@.next_id < u64::MAX),
    {
        self.next_id < u64::MAX
    }

    /// Where the edit is that the registry lists for `path`.
    fn find_registered(&self, path: &FilePath) -> (r: Option<usize>)
        requires
            self.wf(),
        ensures
            match r {
                Some(i) => {
                    &&& i < self.edits@.len()
                    &&& self.edits@[i as int].registered
                    &&& pending_id(self@, path_key(path@)) == Some(self.edits@[i as int].id)
                },
                None => pending_id(self@, path_key(path@)) is None,
            },
    {
        let ghost key = path_key(path@);
        let mut i: usize = 0;
        while i < self.edits.len()
            invariant
                i <= self.edits.len(),
                self.wf(),
                key == path_key(path@),
                forall|j: int|
                    0 <= j < i ==> !((#[trigger] self.edits@[j]).registered && path_key(
                        self.edits@[j].path@,
                    ) == key),
            decreases self.edits.len() - i,
        {
            if self.edits[i].registered && self.edits[i].path.same_path(path) {
                proof {
                    lemma_by_id(self.edits@, i as int);
                    lemma_registered_position(self@, self.edits@[i as int].id, key);
                }
                return Some(i);
            }
            i = i + 1;
        }
        proof {
            if pending_id(self@, key) is Some {
                let id = choose|id: u64| registered_as(self@, id, key);
                let k = index_of(self.edits@, id);
                assert(registered_as(self@, id, key));
                lemma_by_id(self.edits@, k);
            }
        }
        None
    }

    /// Where the edit `id` is.
    fn find(&self, id: u64) -> (r: usize)
        requires
            self.wf(),
            self@.live.contains_key(id),
        ensures
            r < self.edits@.len(),
            self.edits@[r as int].id == id,
    {
        let ghost k = index_of(self.edits@, id);
        assert(0 <= k < self.edits@.len() && self.edits@[k].id == id);
        let mut i: usize = 0;
        while i < self.edits.len()
            invariant
                i <= self.edits.len(),
                0 <= k < self.edits@.len(),
                self.edits@[k].id == id,
                i <= k,
            decreases self.edits.len() - i,
        {
            if self.edits[i].id == id {
                return i;
            }
            i = i + 1;
        }
        i
    }

    /// Registers a request to edit `path`, returning the reference to keep until
    /// an editor tab claims the edit.
    ///
    /// The caller is to hold it across the call that opens the file and then give
    /// it back: if no tab claimed the edit in the meantime, that completes the
    /// edit at once rather than leaving the calling tool blocked on an editor
    /// that never appeared. A second request for a path that is already pending
    /// replaces the first in the registry.
    pub fn register(&mut self, path: FilePath, done_path: FilePath) -> (r: PendingEditSession)
        requires
            old(self).wf(),
            old(self)@.next_id < u64::MAX,
        ensures
            final(self).wf(),
            final(self)@ == after_register(old(self)@, path@, done_path@),
            r.id() == old(self)@.next_id,
            r.path_view() == path@,
            r.done_path_view() == done_path@,
            holds(final(self)@, r),
    {
        let ghost before = self@;
        self.forget(&path);
        let id = self.next_id;
        let session = PendingEditSession {
            id,
            path: path.clone(),
            done_path: done_path.clone(),
        };
        let edit = LiveEdit { id, path, done_path, refs: 1, registered: true };
        proof {
            lemma_register_valid(before, path@, done_path@);
            lemma_by_id_push(self.edits@, edit);
        }
        self.edits.push(edit);
        self.next_id = id + 1;
        assert(self@.live =~= after_register(before, path@, done_path@).live);
        session
    }

    /// Whether there can be one more reference to the edit that is pending for
    /// `path`, if any.
    pub fn can_claim(&self, path: &FilePath) -> (r: bool)
        requires
            self.wf(),
        ensures
            r == claim_counts(self@, path_key(path@)),
    {
        match self.find_registered(path) {
            Some(i) => {
                proof {
                    lemma_by_id(self.edits@, i as int);
                }
                self.edits[i].refs < u64::MAX
            },
            None => true,
        }
    }

    /// Claims the edit of `path`, if one is pending: the caller gets a reference
    /// of its own, and nobody else can claim the edit.
    pub fn claim(&mut self, path: &FilePath) -> (r: Option<PendingEditSession>)
        requires
            old(self).wf(),
            claim_counts(old(self)@, path_key(path@)),
        ensures
            final(self).wf(),
            final(self)@ == after_claim(old(self)@, path_key(path@)),
            match r {
                Some(session) => {
                    &&& pending_id(old(self)@, path_key(path@)) == Some(session.id())
                    &&& holds(final(self)@, session)
                },
                None => pending_id(old(self)@, path_key(path@)) is None,
            },
    {
        match self.find_registered(path) {
            Some(i) => {
                let ghost before = self@;
                let id = self.edits[i].id;
                let session = PendingEditSession {
                    id,
                    path: self.edits[i].path.clone(),
                    done_path: self.edits[i].done_path.clone(),
                };
                proof {
                    lemma_by_id(self.edits@, i as int);
                    lemma_unregistered_valid(before, id);
                    lemma_share_valid(unregistered(before, id), id);
                }
                let refs = self.edits[i].refs + 1;
                self.recount(i, refs, false);
                assert(self@.live =~= after_claim(before, path_key(path@)).live);
                Some(session)
            },
            None => None,
        }
    }

    /// Takes the edit of `path` off the registry without completing it.
    ///
    /// Called after the file has been opened, so that an edit nobody claimed is
    /// not listed forever.
    pub fn forget(&mut self, path: &FilePath)
        requires
            old(self).wf(),
        ensures
            final(self).wf(),
            final(self)@ == after_forget(old(self)@, path_key(path@)),
    {
        match self.find_registered(path) {
            Some(i) => {
                let ghost before = self@;
                let ghost id = self.edits@[i as int].id;
                proof {
                    lemma_by_id(self.edits@, i as int);
                    lemma_unregistered_valid(before, id);
                }
                let refs = self.edits[i].refs;
                self.recount(i, refs, false);
                assert(self@.live =~= unregistered(before, id).live);
            },
            None => {},
        }
    }

    /// Gives the edit at `i` this number of references, and lists it in the
    /// registry or not.
    fn recount(&mut self, i: usize, refs: u64, registered: bool)
        requires
            old(self).edits_differ(),
            i < old(self).edits@.len(),
        ensures
            final(self).edits_differ(),
            final(self)@.next_id == old(self)@.next_id,
            final(self)@.live == old(self)@.live.insert(
                old(self).edits@[i as int].id,
                EditView { refs: refs as nat, registered, ..old(self).edits@[i as int]@ },
            ),
    {
        let edit = LiveEdit {
            id: self.edits[i].id,
            path: self.edits[i].path.clone(),
            done_path: self.edits[i].done_path.clone(),
            refs,
            registered,
        };
        proof {
            lemma_by_id_update(self.edits@, i as int, edit);
        }
        self.edits.set(i, edit);
    }

    /// Whether there can be one more reference to the edit of `session`.
    pub fn can_share(&self, session: &PendingEditSession) -> (r: bool)
        requires
            self.wf(),
            holds(self@, *session),
        ensures
            r == (self@.live[session.id()].refs < u64::MAX),
    {
        let i = self.find(session.id);
        proof {
            lemma_by_id(self.edits@, i as int);
        }
        self.edits[i].refs < u64::MAX
    }

    /// Another reference to the edit of `session`, as when a tab is cloned.
    pub fn share(&mut self, session: &PendingEditSession) -> (r: PendingEditSession)
        requires
            old(self).wf(),
            holds(old(self)@, *session),
            old(self)@.live[session.id()].refs < u64::MAX,
        ensures
            final(self).wf(),
            final(self)@ == after_share(old(self)@, session.id()),
            r.id() == session.id(),
            r.path_view() == session.path_view(),
            r.done_path_view() == session.done_path_view(),
            holds(final(self)@, r),
    {
        let ghost before = self@;
        let i = self.find(session.id);
        proof {
            lemma_by_id(self.edits@, i as int);
        }
        proof {
            lemma_share_valid(before, session.id());
        }
        let refs = self.edits[i].refs + 1;
        let registered = self.edits[i].registered;
        self.recount(i, refs, registered);
        assert(self@.live =~= after_share(before, session.id()).live);
        PendingEditSession {
            id: session.id,
            path: session.path.clone(),
            done_path: session.done_path.clone(),
        }
    }

    /// Gives a reference back. The result is the edit if it was the last one.
    pub fn release(&mut self, session: PendingEditSession) -> (r: Option<CompletedEdit>)
        requires
            old(self).wf(),
            holds(old(self)@, session),
        ensures
            final(self).wf(),
            final(self)@ == without_ref(old(self)@, session.id()),
            completed_view(r) == completed_by_losing_ref(old(self)@, session.id()),
            r is Some <==> old(self)@.live[session.id()].refs == 1,
            r matches Some(edit) ==> {
                &&& edit.path@ == session.path_view()
                &&& edit.done_path@ == session.done_path_view()
            },
    {
        let ghost before = self@;
        let ghost id = session.id();
        let i = self.find(session.id);
        proof {
            lemma_by_id(self.edits@, i as int);
            lemma_without_ref_valid(before, id);
        }
        let refs = self.edits[i].refs;
        if refs > 1 {
            let registered = self.edits[i].registered;
            self.recount(i, refs - 1, registered);
            assert(self@.live =~= without_ref(before, id).live);
            None
        } else {
            proof {
                lemma_by_id_remove(self.edits@, i as int);
            }
            let edit = self.edits.remove(i);
            assert(self@.live =~= without_ref(before, id).live);
            Some(CompletedEdit { path: edit.path, done_path: edit.done_path })
        }
    }
}

/// A claimed edit stays pending until the claimer lets go of it: neither the
/// registry forgetting the path nor the requester giving its reference back
/// completes it, and the claimer giving its own back does.
pub proof fn law_claimed_session_stays_pending(
    state: ModelView,
    path: Seq<u8>,
    done_path: Seq<u8>,
)
    requires
        state_valid(state),
        state.next_id < u64::MAX,
    ensures
        ({
            let id = state.next_id;
            let key = path_key(path);
            let registered = after_register(state, path, done_path);
            let claimed = after_claim(registered, key);
            let forgot = after_forget(claimed, key);
            let requester_gone = without_ref(forgot, id);
            &&& pending_id(registered, key) == Some(id)
            &&& forgot == claimed
            &&& completed_by_losing_ref(forgot, id) is None
            &&& requester_gone.live.contains_key(id)
            &&& completed_by_losing_ref(requester_gone, id) == Some(
                CompletedView { path, done_path },
            )
            &&& !without_ref(requester_gone, id).live.contains_key(id)
        }),
{
    let key = path_key(path);
    let registered = after_register(state, path, done_path);
    lemma_register_valid(state, path, done_path);
    law_claim_happens_once(registered, key);
}

/// An edit that nobody claims completes as soon as the requester gives its
/// reference back, whether the registry has forgotten it by then or not, so the
/// caller is never stranded. Nothing is left to claim then.
pub proof fn law_unclaimed_session_completes(state: ModelView, path: Seq<u8>, done_path: Seq<u8>)
    requires
        state_valid(state),
        state.next_id < u64::MAX,
    ensures
        completed_by_losing_ref(after_register(state, path, done_path), state.next_id) == Some(
            CompletedView { path, done_path },
        ),
        ({
            let id = state.next_id;
            let key = path_key(path);
            let registered = after_register(state, path, done_path);
            let gone = without_ref(registered, id);
            let forgot = after_forget(registered, key);
            &&& !gone.live.contains_key(id)
            &&& pending_id(gone, key) is None
            &&& forgot.live.contains_key(id)
            &&& completed_by_losing_ref(forgot, id) == Some(CompletedView { path, done_path })
            &&& !without_ref(forgot, id).live.contains_key(id)
        }),
{
    let id = state.next_id;
    let key = path_key(path);
    let registered = after_register(state, path, done_path);
    let gone = without_ref(registered, id);
    lemma_register_valid(state, path, done_path);
    assert forall|other: u64| !registered_as(gone, other, key) by {
        if registered_as(gone, other, key) {
            assert(registered_as(registered, other, key));
            assert(registered_as(registered, id, key));
        }
    }
}

/// Once a path has been claimed there is nothing left to claim for it.
pub proof fn law_claim_happens_once(state: ModelView, key: PathKey)
    requires
        state_valid(state),
    ensures
        state_valid(after_claim(state, key)),
        pending_id(after_claim(state, key), key) is None,
{
    let next = after_claim(state, key);
    match pending_id(state, key) {
        Some(id) => {
            assert(registered_as(state, id, key));
            lemma_unregistered_valid(state, id);
            lemma_share_valid(unregistered(state, id), id);
            assert forall|other: u64| !registered_as(next, other, key) by {
                if registered_as(next, other, key) {
                    assert(registered_as(state, other, key));
                }
            }
        },
        None => {},
    }
}

/// Registering, claiming or forgetting a path leaves what is pending for any
/// other path as it was.
pub proof fn law_other_paths_are_unaffected(
    state: ModelView,
    path: Seq<u8>,
    done_path: Seq<u8>,
    other: PathKey,
)
    requires
        state_valid(state),
        other != path_key(path),
    ensures
        state.next_id < u64::MAX ==> pending_id(after_register(state, path, done_path), other)
            == pending_id(state, other),
        pending_id(after_claim(state, path_key(path)), other) == pending_id(state, other),
        pending_id(after_forget(state, path_key(path)), other) == pending_id(state, other),
{
    let key = path_key(path);
    if state.next_id < u64::MAX {
        lemma_register_valid(state, path, done_path);
    }
    lemma_forget_valid(state, key);
    law_claim_happens_once(state, key);
    let registered = after_register(state, path, done_path);
    let claimed = after_claim(state, key);
    let forgot = after_forget(state, key);
    assert forall|id: u64| #[trigger] registered_as(forgot, id, other) == registered_as(
        state,
        id,
        other,
    ) by {}
    assert forall|id: u64| #[trigger] registered_as(claimed, id, other) == registered_as(
        state,
        id,
        other,
    ) by {}
    assert forall|id: u64|
        state.next_id < u64::MAX implies #[trigger] registered_as(registered, id, other)
        == registered_as(state, id, other) by {
        assert(registered_as(forgot, id, other) == registered_as(state, id, other));
    }
    assert forall|next: ModelView|
        (next == registered && state.next_id < u64::MAX || next == claimed || next
            == forgot) implies #[trigger] pending_id(
        next,
        other,
    ) == pending_id(state, other) by {
        assert forall|id: u64| #[trigger] registered_as(next, id, other) == registered_as(
            state,
            id,
            other,
        ) by {}
        if pending_id(state, other) is Some {
            let id = choose|id: u64| registered_as(state, id, other);
            assert(registered_as(next, id, other));
            lemma_registered_position(state, id, other);
            lemma_registered_position(next, id, other);
        } else if pending_id(next, other) is Some {
            let id = choose|id: u64| registered_as(next, id, other);
            assert(registered_as(state, id, other));
        }
    }
}

/// Registering a path again makes the later edit the one to claim. The earlier
/// one completes once its requester has let go of it, and that leaves the later
/// one pending until its own requester lets go.
pub proof fn law_superseded_session_completes(
    state: ModelView,
    path: Seq<u8>,
    first_done: Seq<u8>,
    again: Seq<u8>,
    second_done: Seq<u8>,
)
    requires
        state_valid(state),
        state.next_id + 1 < u64::MAX,
        path_key(again) == path_key(path),
    ensures
        ({
            let first = state.next_id;
            let second = (state.next_id + 1) as u64;
            let key = path_key(path);
            let once = after_register(state, path, first_done);
            let twice = after_register(once, again, second_done);
            let first_gone = without_ref(twice, first);
            &&& twice.live.contains_key(first)
            &&& completed_by_losing_ref(twice, first) == Some(
                CompletedView { path, done_path: first_done },
            )
            &&& !first_gone.live.contains_key(first)
            &&& first_gone.live.contains_key(second)
            &&& pending_id(twice, key) == Some(second)
            &&& pending_id(first_gone, key) == Some(second)
            &&& completed_by_losing_ref(after_forget(first_gone, key), second) == Some(
                CompletedView { path: again, done_path: second_done },
            )
        }),
{
    let first = state.next_id;
    let second = (state.next_id + 1) as u64;
    let key = path_key(path);
    let once = after_register(state, path, first_done);
    lemma_register_valid(state, path, first_done);
    let twice = after_register(once, again, second_done);
    lemma_register_valid(once, again, second_done);
    let first_gone = without_ref(twice, first);
    lemma_without_ref_valid(twice, first);
    assert(registered_as(first_gone, second, key));
    lemma_registered_position(first_gone, second, key);
}

/// A copy of a reference keeps the edit pending: giving either back completes
/// nothing, and restores the state from before the copy.
pub proof fn law_copy_keeps_session_pending(state: ModelView, id: u64)
    requires
        state_valid(state),
        state.live.contains_key(id),
    ensures
        completed_by_losing_ref(after_share(state, id), id) is None,
        without_ref(after_share(state, id), id) == state,
{
    assert(without_ref(after_share(state, id), id).live =~= state.live);
}

/// An edit stops being pending exactly when its last reference is given back,
/// and is then handed out with the path and marker it was registered with.
/// Forgetting or claiming a path ends no edit, and nothing touches the path or
/// the marker of an edit that stays pending.
pub proof fn law_edits_end_by_completion(state: ModelView, id: u64, key: PathKey, other: u64)
    requires
        state_valid(state),
        state.live.contains_key(other),
    ensures
        state.live.contains_key(id) ==> {
            let next = without_ref(state, id);
            &&& next.live.contains_key(other) <==> !(id == other && completed_by_losing_ref(
                state,
                id,
            ) is Some)
            &&& next.live.contains_key(other) ==> next.live[other].path == state.live[other].path
                && next.live[other].done_path == state.live[other].done_path
            &&& !next.live.contains_key(other) ==> completed_by_losing_ref(state, id) == Some(
                CompletedView {
                    path: state.live[other].path,
                    done_path: state.live[other].done_path,
                },
            )
        },
        ({
            let next = after_forget(state, key);
            &&& next.live.contains_key(other)
            &&& next.live[other].path == state.live[other].path
            &&& next.live[other].done_path == state.live[other].done_path
            &&& next.live[other].refs == state.live[other].refs
        }),
        ({
            let next = after_claim(state, key);
            &&& next.live.contains_key(other)
            &&& next.live[other].path == state.live[other].path
            &&& next.live[other].done_path == state.live[other].done_path
            &&& next.live[other].refs == state.live[other].refs + (if pending_id(state, key)
                == Some(other) {
                1int
            } else {
                0int
            })
        }),
{
    lemma_pending_id(state, key);
}

/// The state after the edit `id` has lost `n` references.
pub open spec fn without_refs(state: ModelView, id: u64, n: nat) -> ModelView
    decreases n,
{
    if n == 0 {
        state
    } else {
        without_ref(without_refs(state, id, (n - 1) as nat), id)
    }
}

/// An edit completes with the last of its references and not before, however
/// many there are.
pub proof fn law_last_reference_completes(state: ModelView, id: u64, n: nat)
    requires
        state_valid(state),
        state.live.contains_key(id),
        n < state.live[id].refs,
    ensures
        without_refs(state, id, n).live.contains_key(id),
        without_refs(state, id, n).live[id] == (EditView {
            refs: (state.live[id].refs - n) as nat,
            ..state.live[id]
        }),
        completed_by_losing_ref(without_refs(state, id, n), id) is Some <==> n + 1
            == state.live[id].refs,
        without_refs(state, id, n + 1).live.contains_key(id) <==> n + 1 < state.live[id].refs,
    decreases n,
{
    if n > 0 {
        law_last_reference_completes(state, id, (n - 1) as nat);
    }
    assert(without_refs(state, id, n + 1) == without_ref(without_refs(state, id, n), id));
}

/// The marker of a completed edit reads back as the exit code of an edit that
/// completed normally.
pub proof fn law_completion_reads_as_success()
    ensures
        exit_code(Some("0"@)) == EXIT_CODE_COMPLETED,
{
    reveal_strlit("0");
    let text = "0"@;
    assert(trim_start(text) == text);
    assert(trim_end(text) == text);
    assert(decimal(text));
    assert(text.drop_last() == Seq::<char>::empty());
    assert(decimal_value(text) == 0) by {
        reveal_with_fuel(decimal_value, 2);
    }
}

/// Something that happens to a model.
pub enum PendingOp {
    /// An edit of `path` is requested.
    Register { path: Seq<u8>, done_path: Seq<u8> },
    /// An editor tab claims the edit of `path`.
    Claim { path: Seq<u8> },
    /// The registry forgets `path`.
    Forget { path: Seq<u8> },
    /// A holder copies its reference to the edit `id`.
    Share { id: u64 },
    /// A holder gives its reference to the edit `id` back.
    Release { id: u64 },
}

/// Whether `op` can happen in `state`: only who holds a reference can copy it
/// or give it back.
pub open spec fn op_possible(state: ModelView, op: PendingOp) -> bool {
    match op {
        PendingOp::Register { .. } => state.next_id < u64::MAX,
        PendingOp::Claim { .. } => true,
        PendingOp::Forget { .. } => true,
        PendingOp::Share { id } => state.live.contains_key(id),
        PendingOp::Release { id } => state.live.contains_key(id),
    }
}

/// The state after `op`.
pub open spec fn after_op(state: ModelView, op: PendingOp) -> ModelView {
    match op {
        PendingOp::Register { path, done_path } => after_register(state, path, done_path),
        PendingOp::Claim { path } => after_claim(state, path_key(path)),
        PendingOp::Forget { path } => after_forget(state, path_key(path)),
        PendingOp::Share { id } => after_share(state, id),
        PendingOp::Release { id } => without_ref(state, id),
    }
}

/// The edit that `op` completes.
pub open spec fn completed_id(state: ModelView, op: PendingOp) -> Option<u64> {
    match op {
        PendingOp::Release { id } => if completed_by_losing_ref(state, id) is Some {
            Some(id)
        } else {
            None
        },
        _ => None,
    }
}

/// The state after `ops`.
pub open spec fn after_ops(state: ModelView, ops: Seq<PendingOp>) -> ModelView
    decreases ops.len(),
{
    if ops.len() == 0 {
        state
    } else {
        after_op(after_ops(state, ops.drop_last()), ops.last())
    }
}

/// Whether `ops` can happen one after the other.
pub open spec fn ops_possible(state: ModelView, ops: Seq<PendingOp>) -> bool
    decreases ops.len(),
{
    ops.len() > 0 ==> ops_possible(state, ops.drop_last()) && op_possible(
        after_ops(state, ops.drop_last()),
        ops.last(),
    )
}

/// The edits that `ops` complete, in order.
pub open spec fn completed_ids(state: ModelView, ops: Seq<PendingOp>) -> Seq<u64>
    decreases ops.len(),
{
    if ops.len() == 0 {
        Seq::empty()
    } else {
        let before = completed_ids(state, ops.drop_last());
        match completed_id(after_ops(state, ops.drop_last()), ops.last()) {
            Some(id) => before.push(id),
            None => before,
        }
    }
}

proof fn lemma_op(state: ModelView, op: PendingOp)
    requires
        state_valid(state),
        op_possible(state, op),
    ensures
        state_valid(after_op(state, op)),
        after_op(state, op).next_id == state.next_id + (if op is Register {
            1int
        } else {
            0int
        }),
        forall|id: u64|
            #![trigger after_op(state, op).live.contains_key(id)]
            id < state.next_id ==> (after_op(state, op).live.contains_key(id)
                <==> state.live.contains_key(id) && completed_id(state, op) != Some(id)),
        op is Register ==> after_op(state, op).live.contains_key(state.next_id),
        completed_id(state, op) matches Some(id) ==> state.live.contains_key(id),
{
    match op {
        PendingOp::Register { path, done_path } => {
            lemma_register_valid(state, path, done_path);
            lemma_pending_id(state, path_key(path));
        },
        PendingOp::Claim { path } => {
            law_claim_happens_once(state, path_key(path));
            lemma_pending_id(state, path_key(path));
        },
        PendingOp::Forget { path } => {
            lemma_forget_valid(state, path_key(path));
            lemma_pending_id(state, path_key(path));
        },
        PendingOp::Share { id } => {
            lemma_share_valid(state, id);
        },
        PendingOp::Release { id } => {
            lemma_without_ref_valid(state, id);
        },
    }
}

proof fn lemma_pending_id(state: ModelView, key: PathKey)
    ensures
        pending_id(state, key) matches Some(id) ==> registered_as(state, id, key),
{
}

/// Whatever happens to a model, no edit is completed twice, and one that was not
/// completed is still referred to: no caller is unblocked twice or forgotten.
pub proof fn law_no_edit_is_completed_twice_or_lost(state: ModelView, ops: Seq<PendingOp>)
    requires
        state_valid(state),
        ops_possible(state, ops),
    ensures
        state_valid(after_ops(state, ops)),
        state.next_id <= after_ops(state, ops).next_id,
        forall|id: u64|
            #![trigger completed_ids(state, ops).contains(id)]
            state.live.contains_key(id) || state.next_id <= id < after_ops(state, ops).next_id ==> (
            completed_ids(state, ops).contains(id) <==> !after_ops(state, ops).live.contains_key(
                id,
            )),
        forall|id: u64| #[trigger]
            completed_ids(state, ops).contains(id) ==> id < after_ops(state, ops).next_id && (
            state.live.contains_key(id) || state.next_id <= id),
        completed_ids(state, ops).no_duplicates(),
    decreases ops.len(),
{
    if ops.len() > 0 {
        let before = ops.drop_last();
        let op = ops.last();
        let mid = after_ops(state, before);
        let end = after_ops(state, ops);
        let done_before = completed_ids(state, before);
        let done = completed_ids(state, ops);
        law_no_edit_is_completed_twice_or_lost(state, before);
        lemma_op(mid, op);
        match completed_id(mid, op) {
            Some(gone) => {
                assert(done == done_before.push(gone));
                assert forall|id: u64| #[trigger] done.contains(id) <==> done_before.contains(id)
                    || id == gone by {
                    if done_before.contains(id) {
                        let k = choose|k: int| 0 <= k < done_before.len() && done_before[k] == id;
                        assert(done[k] == id);
                    }
                    assert(done[done_before.len() as int] == gone);
                }
                assert(mid.live.contains_key(gone));
                if !(state.live.contains_key(gone) || state.next_id <= gone) {
                    lemma_only_known_edits(state, before, gone);
                }
                assert(!done_before.contains(gone));
            },
            None => {
                assert(done == done_before);
            },
        }
        assert forall|id: u64|
            #![trigger done.contains(id)]
            state.live.contains_key(id) || state.next_id <= id < end.next_id implies (
        done.contains(id) <==> !end.live.contains_key(id)) by {
            assert(done_before.contains(id) || !done_before.contains(id));
        }
    }
}

proof fn lemma_only_known_edits(state: ModelView, ops: Seq<PendingOp>, id: u64)
    requires
        state_valid(state),
        ops_possible(state, ops),
        id < state.next_id,
        !state.live.contains_key(id),
    ensures
        state_valid(after_ops(state, ops)),
        state.next_id <= after_ops(state, ops).next_id,
        !after_ops(state, ops).live.contains_key(id),
    decreases ops.len(),
{
    if ops.len() > 0 {
        lemma_only_known_edits(state, ops.drop_last(), id);
        lemma_op(after_ops(state, ops.drop_last()), ops.last());
    }
}

/// Whether `op` leaves what the registry lists for the path with this key alone.
/// References may still be copied and given back.
pub open spec fn spares(op: PendingOp, key: PathKey) -> bool {
    match op {
        PendingOp::Register { path, .. } => path_key(path) != key,
        PendingOp::Claim { path } => path_key(path) != key,
        PendingOp::Forget { path } => path_key(path) != key,
        PendingOp::Share { .. } => true,
        PendingOp::Release { .. } => true,
    }
}

/// Whether the registry lists the edit `id` of `path` with this marker.
spec fn waits_for_claim(state: ModelView, id: u64, path: Seq<u8>, done_path: Seq<u8>) -> bool {
    &&& registered_as(state, id, path_key(path))
    &&& state.live[id].path == path
    &&& state.live[id].done_path == done_path
}

proof fn lemma_op_spares(
    state: ModelView,
    op: PendingOp,
    id: u64,
    path: Seq<u8>,
    done_path: Seq<u8>,
)
    requires
        state_valid(state),
        op_possible(state, op),
        spares(op, path_key(path)),
        waits_for_claim(state, id, path, done_path),
        completed_id(state, op) != Some(id),
    ensures
        waits_for_claim(after_op(state, op), id, path, done_path),
{
    match op {
        PendingOp::Register { path, .. } => lemma_pending_id(state, path_key(path)),
        PendingOp::Claim { path } => lemma_pending_id(state, path_key(path)),
        PendingOp::Forget { path } => lemma_pending_id(state, path_key(path)),
        _ => {},
    }
}

proof fn lemma_ops_spare(
    state: ModelView,
    ops: Seq<PendingOp>,
    id: u64,
    path: Seq<u8>,
    done_path: Seq<u8>,
)
    requires
        state_valid(state),
        ops_possible(state, ops),
        forall|i: int| 0 <= i < ops.len() ==> spares(#[trigger] ops[i], path_key(path)),
        waits_for_claim(state, id, path, done_path),
        !completed_ids(state, ops).contains(id),
    ensures
        state_valid(after_ops(state, ops)),
        waits_for_claim(after_ops(state, ops), id, path, done_path),
    decreases ops.len(),
{
    if ops.len() > 0 {
        let before = ops.drop_last();
        assert forall|i: int| 0 <= i < before.len() implies spares(
            #[trigger] before[i],
            path_key(path),
        ) by {
            assert(before[i] == ops[i]);
        }
        let done = completed_ids(state, before);
        let gone = completed_id(after_ops(state, before), ops.last());
        if done.contains(id) {
            let k = choose|k: int| 0 <= k < done.len() && done[k] == id;
            assert(completed_ids(state, ops)[k] == id);
        }
        if gone == Some(id) {
            assert(completed_ids(state, ops)[done.len() as int] == id);
        }
        lemma_ops_spare(state, before, id, path, done_path);
        lemma_op(after_ops(state, before), ops.last());
        lemma_op_spares(after_ops(state, before), ops.last(), id, path, done_path);
    }
}

/// Whatever happens to other paths in between, and as long as somebody holds the
/// edit that was registered for a path, claiming the path finds that edit, with
/// its marker. The claim completes nothing,
/// leaves nothing to claim for the path, and leaves what is pending for any
/// other path as it was.
pub proof fn law_claim_finds_what_was_registered(
    state: ModelView,
    path: Seq<u8>,
    done_path: Seq<u8>,
    ops: Seq<PendingOp>,
    other: PathKey,
)
    requires
        state_valid(state),
        state.next_id < u64::MAX,
        ops_possible(after_register(state, path, done_path), ops),
        forall|i: int| 0 <= i < ops.len() ==> spares(#[trigger] ops[i], path_key(path)),
        !completed_ids(after_register(state, path, done_path), ops).contains(state.next_id),
        other != path_key(path),
    ensures
        ({
            let id = state.next_id;
            let key = path_key(path);
            let registered = after_register(state, path, done_path);
            let pending = after_ops(registered, ops);
            let claimed = after_claim(pending, key);
            &&& pending_id(pending, key) == Some(id)
            &&& pending.live[id].path == path
            &&& pending.live[id].done_path == done_path
            &&& claimed.live.dom() == pending.live.dom()
            &&& pending_id(claimed, key) is None
            &&& pending_id(claimed, other) == pending_id(pending, other)
        }),
{
    let id = state.next_id;
    let key = path_key(path);
    let registered = after_register(state, path, done_path);
    let pending = after_ops(registered, ops);
    lemma_register_valid(state, path, done_path);
    lemma_ops_spare(registered, ops, id, path, done_path);
    lemma_registered_position(pending, id, key);
    law_claim_happens_once(pending, key);
    law_other_paths_are_unaffected(pending, path, done_path, other);
    assert(after_claim(pending, key).live.dom() =~= pending.live.dom());
}

/// An edit is pending for a path exactly if the registry lists it, somebody
/// holds it, and it is an edit of that path.
pub proof fn law_what_is_pending(state: ModelView, path: Seq<u8>, id: u64)
    requires
        state_valid(state),
    ensures
        pending_id(state, path_key(path)) == Some(id) <==> {
            &&& state.live.contains_key(id)
            &&& state.live[id].registered
            &&& path_key(state.live[id].path) == path_key(path)
        },
        pending_id(state, path_key(path)) is None <==> forall|other: u64| #[trigger]
            state.live.contains_key(other) && state.live[other].registered ==> path_key(
                state.live[other].path,
            ) != path_key(path),
{
    let key = path_key(path);
    lemma_pending_id(state, key);
    if registered_as(state, id, key) {
        lemma_registered_position(state, id, key);
    }
    if pending_id(state, key) is None {
        assert forall|other: u64| #[trigger]
            state.live.contains_key(other) && state.live[other].registered implies path_key(
            state.live[other].path,
        ) != key by {
            assert(!registered_as(state, other, key));
        }
    } else {
        let found = pending_id(state, key)->0;
        assert(state.live.contains_key(found));
    }
}

/// Registering adds one edit, held once and listed, and changes nothing about
/// any other but that one of the same path is no longer listed.
pub proof fn law_what_registering_changes(
    state: ModelView,
    path: Seq<u8>,
    done_path: Seq<u8>,
    other: u64,
)
    requires
        state_valid(state),
        state.next_id < u64::MAX,
    ensures
        ({
            let id = state.next_id;
            let next = after_register(state, path, done_path);
            &&& !state.live.contains_key(id)
            &&& next.next_id == id + 1
            &&& next.live.contains_key(id)
            &&& next.live[id].path == path
            &&& next.live[id].done_path == done_path
            &&& next.live[id].refs == 1
            &&& next.live[id].registered
            &&& other != id ==> (next.live.contains_key(other) <==> state.live.contains_key(other))
            &&& state.live.contains_key(other) ==> {
                &&& next.live[other].path == state.live[other].path
                &&& next.live[other].done_path == state.live[other].done_path
                &&& next.live[other].refs == state.live[other].refs
                &&& next.live[other].registered <==> state.live[other].registered && path_key(
                    state.live[other].path,
                ) != path_key(path)
            }
        }),
{
    let key = path_key(path);
    lemma_pending_id(state, key);
    if state.live.contains_key(other) && registered_as(state, other, key) {
        lemma_registered_position(state, other, key);
    }
}

/// Claiming a path adds one reference to the edit that is listed for it and
/// takes it off the list. Forgetting the path only takes it off the list. Neither
/// changes anything about any other edit.
pub proof fn law_what_claiming_and_forgetting_change(state: ModelView, path: Seq<u8>, other: u64)
    requires
        state_valid(state),
    ensures
        ({
            let key = path_key(path);
            let claimed = after_claim(state, key);
            let forgot = after_forget(state, key);
            let listed = state.live.contains_key(other) && state.live[other].registered && path_key(
                state.live[other].path,
            ) == key;
            &&& claimed.next_id == state.next_id
            &&& forgot.next_id == state.next_id
            &&& claimed.live.contains_key(other) <==> state.live.contains_key(other)
            &&& forgot.live.contains_key(other) <==> state.live.contains_key(other)
            &&& !listed && state.live.contains_key(other) ==> claimed.live[other]
                == state.live[other] && forgot.live[other] == state.live[other]
            &&& listed ==> {
                &&& claimed.live[other] == EditView {
                    refs: state.live[other].refs + 1,
                    registered: false,
                    path: state.live[other].path,
                    done_path: state.live[other].done_path,
                }
                &&& forgot.live[other] == EditView {
                    refs: state.live[other].refs,
                    registered: false,
                    path: state.live[other].path,
                    done_path: state.live[other].done_path,
                }
            }
        }),
{
    let key = path_key(path);
    lemma_pending_id(state, key);
    if registered_as(state, other, key) {
        lemma_registered_position(state, other, key);
    }
}

/// Copying a reference and giving one back change the number of references to
/// that edit by one and nothing else, but that giving back the last one ends the
/// edit, with its own path and marker.
pub proof fn law_what_copying_and_giving_back_change(state: ModelView, id: u64, other: u64)
    requires
        state_valid(state),
        state.live.contains_key(id),
    ensures
        ({
            let edit = state.live[id];
            let copied = after_share(state, id);
            let back = without_ref(state, id);
            &&& copied.next_id == state.next_id
            &&& back.next_id == state.next_id
            &&& copied.live.contains_key(id)
            &&& copied.live[id] == EditView {
                refs: edit.refs + 1,
                registered: edit.registered,
                path: edit.path,
                done_path: edit.done_path,
            }
            &&& back.live.contains_key(id) <==> edit.refs > 1
            &&& edit.refs > 1 ==> back.live[id] == EditView {
                refs: (edit.refs - 1) as nat,
                registered: edit.registered,
                path: edit.path,
                done_path: edit.done_path,
            } && completed_by_losing_ref(state, id) is None
            &&& edit.refs == 1 ==> completed_by_losing_ref(state, id) == Some(
                CompletedView { path: edit.path, done_path: edit.done_path },
            )
            &&& other != id ==> {
                &&& copied.live.contains_key(other) <==> state.live.contains_key(other)
                &&& back.live.contains_key(other) <==> state.live.contains_key(other)
                &&& state.live.contains_key(other) ==> copied.live[other] == state.live[other]
                    && back.live[other] == state.live[other]
            }
        }),
{
}

/// What is completed is handed out with the path and the marker it holds.
pub proof fn law_what_is_handed_out(completed: Option<CompletedEdit>)
    ensures
        completed is None ==> completed_view(completed) is None,
        completed matches Some(edit) ==> completed_view(completed) == Some(
            CompletedView { path: edit.path@, done_path: edit.done_path@ },
        ),
{
}

} // verus!
