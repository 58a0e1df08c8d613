//! The marker files that synchronize the shim with the terminal: where they
//! are, how long to wait for them, and what the done marker says.

use vstd::prelude::*;
use vstd::utf8::*;

use crate::file_path::{lemma_joined_path_ends_in_name, path_join, path_key, FilePath, SEPARATOR};
use crate::hexadecimal::lemma_hex_digit;
use crate::text::{
    i32_value, law_trimming_leaves_the_middle, law_what_is_an_integer, parse_i32, signed_value,
    trim, trimmed, white_space,
};
use crate::unique_id::{
    digit_at, hyphenated, is_version_4, lemma_hyphenated_is_injective, nibble, UniqueId,
};

verus! {

/// How long to wait for the terminal to acknowledge a request before assuming
/// nothing is listening, in nanoseconds.
pub const ACK_TIMEOUT: u128 = 10_000_000_000;

/// How often the marker files are checked, in nanoseconds.
pub const POLL_INTERVAL: u128 = 50_000_000;

/// Paths of the two marker files of one invocation.
#[derive(Debug)]
pub struct MarkerPaths {
    /// Written once the request has been accepted.
    pub ack: FilePath,
    /// Written once the editor tab is closed.
    pub done: FilePath,
}

/// The file in `temp_dir` whose name is `prefix`, the identifier `id` and
/// `suffix`.
pub open spec fn temp_file(
    temp_dir: Seq<u8>,
    prefix: Seq<char>,
    id: UniqueId,
    suffix: Seq<char>,
) -> Seq<u8> {
    path_join(temp_dir, encode_utf8(prefix + hyphenated(id.value) + suffix))
}

/// The acknowledgement marker of the invocation `id`.
pub open spec fn ack_marker(temp_dir: Seq<u8>, id: UniqueId) -> Seq<u8> {
    temp_file(temp_dir, "warp-edit-"@, id, ".ack"@)
}

/// The done marker of the invocation `id`.
pub open spec fn done_marker(temp_dir: Seq<u8>, id: UniqueId) -> Seq<u8> {
    temp_file(temp_dir, "warp-edit-"@, id, ".done"@)
}

/// The file that holds what was piped in on stdin.
pub open spec fn stdin_file(temp_dir: Seq<u8>, id: UniqueId) -> Seq<u8> {
    temp_file(temp_dir, "warp-stdin-"@, id, ".txt"@)
}

/// The path of the file in `temp_dir` that is named after `id`.
fn temp_file_path(temp_dir: &FilePath, prefix: &str, id: &UniqueId, suffix: &str) -> (r: FilePath)
    ensures
        r@ == temp_file(temp_dir@, prefix@, *id, suffix@),
{
    let name = prefix.to_owned().concat(id.to_text().as_str()).concat(suffix);
    temp_dir.join(&FilePath::from_text(name.as_str()))
}

/// A fresh path in `temp_dir` for what is piped in on stdin.
pub fn stdin_file_path(temp_dir: &FilePath) -> (r: FilePath)
    ensures
        exists|id: UniqueId| is_version_4(id.value) && r@ == #[trigger] stdin_file(temp_dir@, id),
{
    let id = UniqueId::random();
    let path = stdin_file_for_id(temp_dir, &id);
    assert(path@ == stdin_file(temp_dir@, id));
    path
}

/// The path in `temp_dir` for what is piped in on stdin to the invocation `id`.
pub fn stdin_file_for_id(temp_dir: &FilePath, id: &UniqueId) -> (r: FilePath)
    ensures
        r@ == stdin_file(temp_dir@, *id),
{
    temp_file_path(temp_dir, "warp-stdin-", id, ".txt")
}

impl MarkerPaths {
    /// Fresh marker paths in `temp_dir`.
    pub fn new(temp_dir: &FilePath) -> (r: MarkerPaths)
        ensures
            exists|id: UniqueId|
                is_version_4(id.value) && r.ack@ == #[trigger] ack_marker(temp_dir@, id)
                    && r.done@ == done_marker(temp_dir@, id),
    {
        let id = UniqueId::random();
        let markers = MarkerPaths::for_id(temp_dir, &id);
        assert(markers.ack@ == ack_marker(temp_dir@, id));
        markers
    }

    /// The marker paths of the invocation `id`.
    pub fn for_id(temp_dir: &FilePath, id: &UniqueId) -> (r: MarkerPaths)
        ensures
            r.ack@ == ack_marker(temp_dir@, *id),
            r.done@ == done_marker(temp_dir@, *id),
    {
        MarkerPaths {
            ack: temp_file_path(temp_dir, "warp-edit-", id, ".ack"),
            done: temp_file_path(temp_dir, "warp-edit-", id, ".done"),
        }
    }
}

/// Whether `s` can be the name of a file: ASCII, with no separator.
spec fn plain(s: Seq<char>) -> bool {
    forall|i: int| 0 <= i < s.len() ==> 0 <= #[trigger] s[i] as int <= 127 && s[i] != '/'
}

proof fn lemma_hyphenated_is_plain(value: u128)
    ensures
        plain(hyphenated(value)),
{
    assert forall|i: int| 0 <= i < hyphenated(value).len() implies 0 <= #[trigger] hyphenated(
        value,
    )[i] as int <= 127 && hyphenated(value)[i] != '/' by {
        lemma_hex_digit(nibble(value, digit_at(i)));
    }
}

proof fn lemma_plain_name(s: Seq<char>)
    requires
        plain(s),
    ensures
        is_ascii_chars(s),
        encode_utf8(s).len() == s.len(),
        forall|i: int| 0 <= i < s.len() ==> #[trigger] encode_utf8(s)[i] == s[i] as u8,
        forall|i: int| 0 <= i < s.len() ==> #[trigger] encode_utf8(s)[i] != SEPARATOR,
{
    is_ascii_chars_encode_utf8(s);
}

proof fn lemma_temp_files_differ(
    temp_dir: Seq<u8>,
    prefix1: Seq<char>,
    id1: UniqueId,
    suffix1: Seq<char>,
    prefix2: Seq<char>,
    id2: UniqueId,
    suffix2: Seq<char>,
)
    requires
        plain(prefix1),
        plain(suffix1),
        plain(prefix2),
        plain(suffix2),
        prefix1 + hyphenated(id1.value) + suffix1 != prefix2 + hyphenated(id2.value) + suffix2,
    ensures
        path_key(temp_file(temp_dir, prefix1, id1, suffix1)) != path_key(
            temp_file(temp_dir, prefix2, id2, suffix2),
        ),
{
    let name1 = prefix1 + hyphenated(id1.value) + suffix1;
    let name2 = prefix2 + hyphenated(id2.value) + suffix2;
    lemma_hyphenated_is_plain(id1.value);
    lemma_hyphenated_is_plain(id2.value);
    assert(plain(name1));
    assert(plain(name2));
    lemma_plain_name(name1);
    lemma_plain_name(name2);
    lemma_joined_path_ends_in_name(temp_dir, encode_utf8(name1));
    lemma_joined_path_ends_in_name(temp_dir, encode_utf8(name2));
    encode_utf8_decode_utf8(name1);
    encode_utf8_decode_utf8(name2);
}

/// Invocations with different identifiers share no marker file.
pub proof fn law_markers_are_unique_per_invocation(temp_dir: Seq<u8>, a: UniqueId, b: UniqueId)
    requires
        a != b,
    ensures
        path_key(ack_marker(temp_dir, a)) != path_key(ack_marker(temp_dir, b)),
        path_key(done_marker(temp_dir, a)) != path_key(done_marker(temp_dir, b)),
{
    reveal_strlit("warp-edit-");
    reveal_strlit(".ack");
    reveal_strlit(".done");
    if hyphenated(a.value) == hyphenated(b.value) {
        lemma_hyphenated_is_injective(a.value, b.value);
    }
    let start = "warp-edit-"@;
    assert forall|suffix: Seq<char>| #[trigger] (start + hyphenated(a.value) + suffix) != start
        + hyphenated(b.value) + suffix by {
        let x = start + hyphenated(a.value) + suffix;
        let y = start + hyphenated(b.value) + suffix;
        assert(x.subrange(10, 46) == hyphenated(a.value));
        assert(y.subrange(10, 46) == hyphenated(b.value));
    }
    lemma_temp_files_differ(temp_dir, start, a, ".ack"@, start, b, ".ack"@);
    lemma_temp_files_differ(temp_dir, start, a, ".done"@, start, b, ".done"@);
}

/// An acknowledgement marker is never a done marker, be it of the same
/// invocation or of another.
pub proof fn law_ack_and_done_markers_differ(temp_dir: Seq<u8>, a: UniqueId, b: UniqueId)
    ensures
        path_key(ack_marker(temp_dir, a)) != path_key(done_marker(temp_dir, b)),
{
    reveal_strlit("warp-edit-");
    reveal_strlit(".ack");
    reveal_strlit(".done");
    let start = "warp-edit-"@;
    assert((start + hyphenated(a.value) + ".ack"@).len() != (start + hyphenated(b.value)
        + ".done"@).len());
    lemma_temp_files_differ(temp_dir, start, a, ".ack"@, start, b, ".done"@);
}

/// What piped-in contents are spooled to is fresh for each identifier and is
/// never a marker file.
pub proof fn law_stdin_files_are_unique(temp_dir: Seq<u8>, a: UniqueId, b: UniqueId)
    ensures
        a != b ==> path_key(stdin_file(temp_dir, a)) != path_key(stdin_file(temp_dir, b)),
        path_key(stdin_file(temp_dir, a)) != path_key(ack_marker(temp_dir, b)),
        path_key(stdin_file(temp_dir, a)) != path_key(done_marker(temp_dir, b)),
{
    reveal_strlit("warp-edit-");
    reveal_strlit("warp-stdin-");
    reveal_strlit(".ack");
    reveal_strlit(".done");
    reveal_strlit(".txt");
    let start = "warp-stdin-"@;
    let name = start + hyphenated(a.value) + ".txt"@;
    if a != b {
        if hyphenated(a.value) == hyphenated(b.value) {
            lemma_hyphenated_is_injective(a.value, b.value);
        }
        let other = start + hyphenated(b.value) + ".txt"@;
        assert(name.subrange(11, 47) == hyphenated(a.value));
        assert(other.subrange(11, 47) == hyphenated(b.value));
        lemma_temp_files_differ(temp_dir, start, a, ".txt"@, start, b, ".txt"@);
    }
    let ack = "warp-edit-"@ + hyphenated(b.value) + ".ack"@;
    let done = "warp-edit-"@ + hyphenated(b.value) + ".done"@;
    assert(name[5] == 's' && ack[5] == 'e' && done[5] == 'e');
    lemma_temp_files_differ(temp_dir, start, a, ".txt"@, "warp-edit-"@, b, ".ack"@);
    lemma_temp_files_differ(temp_dir, start, a, ".txt"@, "warp-edit-"@, b, ".done"@);
}

/// What to do after a look at a marker file.
#[derive(Debug, Clone, Copy, PartialEq, Eq, Structural)]
pub enum PollStep {
    /// The marker is there.
    Appeared,
    /// It is not there and the time is up.
    GaveUp,
    /// It is not there yet.
    Sleep,
}

/// The step after a look at a marker that is there or not, so many nanoseconds
/// into a wait that may be limited.
pub open spec fn poll_step(exists: bool, elapsed: u128, timeout: Option<u128>) -> PollStep {
    if exists {
        PollStep::Appeared
    } else if timeout is Some && elapsed >= timeout->0 {
        PollStep::GaveUp
    } else {
        PollStep::Sleep
    }
}

/// What a wait does after a look at its marker.
pub fn poll_marker(exists: bool, elapsed: u128, timeout: Option<u128>) -> (r: PollStep)
    ensures
        r == poll_step(exists, elapsed, timeout),
        r == PollStep::Appeared <==> exists,
        r == PollStep::GaveUp <==> !exists && timeout is Some && timeout->0 <= elapsed,
{
    if exists {
        return PollStep::Appeared;
    }
    match timeout {
        Some(limit) => if elapsed >= limit {
            PollStep::GaveUp
        } else {
            PollStep::Sleep
        },
        None => PollStep::Sleep,
    }
}

/// A look at a marker file during a wait.
pub struct Poll {
    /// Whether the marker was there.
    pub exists: bool,
    /// How far into the wait the look was taken, in nanoseconds.
    pub elapsed: u128,
}

/// How a wait ends that takes these looks: whether the marker appeared, or
/// `None` while it goes on.
pub open spec fn wait_result(polls: Seq<Poll>, timeout: Option<u128>) -> Option<bool>
    decreases polls.len(),
{
    if polls.len() == 0 {
        None
    } else {
        match poll_step(polls[0].exists, polls[0].elapsed, timeout) {
            PollStep::Appeared => Some(true),
            PollStep::GaveUp => Some(false),
            PollStep::Sleep => wait_result(polls.skip(1), timeout),
        }
    }
}

/// A wait reports the marker exactly when some look found it and no look
/// before found the time to be up. It gives up exactly when a look found the
/// time to be up and neither that one nor one before found the marker. A wait
/// without a limit never gives up.
pub proof fn law_wait_outcome(polls: Seq<Poll>, timeout: Option<u128>)
    ensures
        wait_result(polls, timeout) == Some(true) <==> exists|n: int|
            #![trigger polls[n]]
            0 <= n < polls.len() && polls[n].exists && forall|i: int|
                0 <= i < n ==> !(#[trigger] polls[i]).exists && (timeout is Some
                    ==> polls[i].elapsed < timeout->0),
        wait_result(polls, timeout) == Some(false) <==> timeout is Some && exists|n: int|
            #![trigger polls[n]]
            0 <= n < polls.len() && polls[n].elapsed >= timeout->0 && forall|i: int|
                0 <= i <= n ==> !(#[trigger] polls[i]).exists,
    decreases polls.len(),
{
    if polls.len() > 0 {
        let rest = polls.skip(1);
        law_wait_outcome(rest, timeout);
        assert forall|i: int| 0 <= i < rest.len() implies #[trigger] rest[i] == polls[i + 1] by {}
        assert forall|i: int| 0 < i < polls.len() implies #[trigger] polls[i] == rest[i - 1] by {}
        let sleeps = poll_step(polls[0].exists, polls[0].elapsed, timeout) == PollStep::Sleep;
        if wait_result(rest, timeout) == Some(true) && sleeps {
            let n = choose|n: int|
                #![trigger rest[n]]
                0 <= n < rest.len() && rest[n].exists && forall|i: int|
                    0 <= i < n ==> !(#[trigger] rest[i]).exists && (timeout is Some
                        ==> rest[i].elapsed < timeout->0);
            assert(polls[n + 1].exists);
        }
        if wait_result(rest, timeout) == Some(false) && sleeps {
            let n = choose|n: int|
                #![trigger rest[n]]
                0 <= n < rest.len() && rest[n].elapsed >= timeout->0 && forall|i: int|
                    0 <= i <= n ==> !(#[trigger] rest[i]).exists;
            assert(polls[n + 1].elapsed >= timeout->0);
        }
    }
}

/// The exit code in a done marker with this content, `None` where it could not
/// be read.
pub open spec fn exit_code(contents: Option<Seq<char>>) -> i32 {
    match contents {
        Some(text) => match i32_value(trimmed(text)) {
            Some(code) => code,
            None => 0,
        },
        None => 0,
    }
}

/// The exit code in a done marker.
///
/// A marker that is missing, empty or malformed counts as success, so that a
/// truncated write can never turn a completed edit into a failure.
pub fn read_exit_code(contents: Option<&str>) -> (r: i32)
    ensures
        r == exit_code(
            match contents {
                Some(text) => Some(text@),
                None => None,
            },
        ),
{
    match contents {
        Some(text) => match parse_i32(trim(text)) {
            Some(code) => code,
            None => 0,
        },
        None => 0,
    }
}

/// A look at a marker ends the wait exactly if the marker is there, or the wait
/// has a limit and has reached it.
pub proof fn law_a_look_at_a_marker(exists: bool, elapsed: u128, timeout: Option<u128>)
    ensures
        poll_step(exists, elapsed, timeout) == PollStep::Appeared <==> exists,
        poll_step(exists, elapsed, timeout) == PollStep::GaveUp <==> !exists && timeout is Some
            && timeout->0 <= elapsed,
{
}

/// The files of an invocation are in the temporary directory, under a name that
/// holds the identifier whole.
pub proof fn law_names_of_the_files(temp_dir: Seq<u8>, id: UniqueId)
    ensures
        ack_marker(temp_dir, id) == path_join(
            temp_dir,
            encode_utf8("warp-edit-"@ + hyphenated(id.value) + ".ack"@),
        ),
        done_marker(temp_dir, id) == path_join(
            temp_dir,
            encode_utf8("warp-edit-"@ + hyphenated(id.value) + ".done"@),
        ),
        stdin_file(temp_dir, id) == path_join(
            temp_dir,
            encode_utf8("warp-stdin-"@ + hyphenated(id.value) + ".txt"@),
        ),
{
}

/// The exit code is the integer that the marker holds, with white space around
/// it or not. Anything else, and no content at all, is success.
pub proof fn law_the_marker_says_the_code(
    lead: Seq<char>,
    said: Seq<char>,
    trail: Seq<char>,
    code: i32,
)
    requires
        forall|i: int| 0 <= i < lead.len() ==> white_space(#[trigger] lead[i]),
        forall|i: int| 0 <= i < trail.len() ==> white_space(#[trigger] trail[i]),
        said.len() > 0 ==> !white_space(said[0]) && !white_space(said.last()),
    ensures
        signed_value(said) == Some(code as int) ==> exit_code(Some(lead + said + trail)) == code,
        signed_value(said) is None ==> exit_code(Some(lead + said + trail)) == 0,
        signed_value(said) matches Some(v) ==> (v < -0x8000_0000 || v > 0x7fff_ffff ==> exit_code(
            Some(lead + said + trail),
        ) == 0),
        exit_code(None) == 0,
{
    law_trimming_leaves_the_middle(lead, said, trail);
    law_what_is_an_integer(said, code);
}

} // verus!
