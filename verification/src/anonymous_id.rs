//! The identifier of an anonymous user.

use vstd::prelude::*;

use crate::unique_id::{is_version_4, UniqueId};

verus! {

/// Returns an in-memory anonymous identifier for code that still expects one.
///
/// It is drawn anew on each call and kept nowhere, so it cannot act as a stable
/// identifier of a user across sessions.
pub fn get_or_create_anonymous_id() -> (r: UniqueId)
    ensures
        is_version_4(r.value),
{
    UniqueId::random()
}

} // verus!
