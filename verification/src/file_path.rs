//! File paths as byte strings whose segments a slash separates.
//!
//! A path need not be valid UTF-8. Two spellings name the same path when they
//! agree on whether they start at the root and on their segments, where empty
//! segments and `.` do not count (a leading `.` does).

use vstd::prelude::*;
use vstd::utf8::*;

verus! {

/// The byte that separates the segments of a path.
pub const SEPARATOR: u8 = 47;

/// The byte of which a segment that names its own directory is made.
pub const DOT: u8 = 46;

/// A file path.
#[derive(Debug)]
pub struct FilePath {
    pub bytes: Vec<u8>,
}

impl View for FilePath {
    type V = Seq<u8>;

    open spec fn view(&self) -> Seq<u8> {
        self.bytes@
    }
}

/// What two spellings of one path have in common.
#[verifier::ext_equal]
pub struct PathKey {
    pub rooted: bool,
    pub segments: Seq<Seq<u8>>,
}

/// Whether `path` starts at the root.
pub open spec fn rooted(path: Seq<u8>) -> bool {
    path.len() > 0 && path[0] == SEPARATOR
}

/// The number of bytes before the first separator in `path`.
pub open spec fn segment_len(path: Seq<u8>) -> nat
    decreases path.len(),
{
    if path.len() > 0 && path[0] != SEPARATOR {
        1 + segment_len(path.drop_first())
    } else {
        0
    }
}

/// What follows the first segment of `path` and its separator.
pub open spec fn after_segment(path: Seq<u8>) -> Seq<u8> {
    if segment_len(path) < path.len() {
        path.skip(segment_len(path) as int + 1)
    } else {
        Seq::empty()
    }
}

/// Whether a segment counts. The segment `.` does only where a path starts
/// with it.
pub open spec fn segment_counts(segment: Seq<u8>, leading: bool) -> bool {
    segment.len() > 0 && (leading || segment != seq![DOT])
}

/// The segments of `path` that count, in order. `leading` tells whether
/// nothing precedes `path`.
pub open spec fn segments(path: Seq<u8>, leading: bool) -> Seq<Seq<u8>>
    decreases path.len(),
    via segments_decreases
{
    if path.len() == 0 {
        Seq::empty()
    } else {
        let first = path.take(segment_len(path) as int);
        let rest = segments(after_segment(path), false);
        if segment_counts(first, leading) {
            seq![first] + rest
        } else {
            rest
        }
    }
}

#[via_fn]
proof fn segments_decreases(path: Seq<u8>, leading: bool) {
    lemma_segment_len(path);
}

/// The key of `path`: spellings with one key name one path.
pub open spec fn path_key(path: Seq<u8>) -> PathKey {
    PathKey { rooted: rooted(path), segments: segments(path, true) }
}

/// `tail` seen from the directory `base`.
pub open spec fn path_join(base: Seq<u8>, tail: Seq<u8>) -> Seq<u8> {
    if rooted(tail) {
        tail
    } else if base.len() == 0 || base.last() == SEPARATOR {
        base + tail
    } else {
        base.push(SEPARATOR) + tail
    }
}

proof fn lemma_segment_len(path: Seq<u8>)
    ensures
        segment_len(path) <= path.len(),
        forall|i: int| 0 <= i < segment_len(path) ==> #[trigger] path[i] != SEPARATOR,
        segment_len(path) < path.len() ==> path[segment_len(path) as int] == SEPARATOR,
    decreases path.len(),
{
    if path.len() > 0 && path[0] != SEPARATOR {
        let t = path.drop_first();
        lemma_segment_len(t);
        assert forall|i: int| 0 <= i < segment_len(path) implies #[trigger] path[i]
            != SEPARATOR by {
            if i > 0 {
                assert(t[i - 1] == path[i]);
            }
        }
        if segment_len(path) < path.len() {
            assert(t[segment_len(t) as int] == path[segment_len(path) as int]);
        }
    }
}

/// A segment of its own behind a directory counts, whatever the directory.
pub proof fn lemma_segments_of_join(base: Seq<u8>, name: Seq<u8>, leading: bool)
    requires
        name.len() > 0,
        name != seq![DOT],
        forall|i: int| 0 <= i < name.len() ==> #[trigger] name[i] != SEPARATOR,
        base.len() == 0 || base.last() == SEPARATOR,
    ensures
        segments(base + name, leading) == segments(base, leading) + seq![name],
    decreases base.len(),
{
    let whole = base + name;
    lemma_segment_len(whole);
    lemma_segment_len(base);
    if base.len() == 0 {
        assert(whole == name);
        if segment_len(name) < name.len() {
            assert(name[segment_len(name) as int] != SEPARATOR);
        }
        assert(name.take(name.len() as int) == name);
        assert(segments(after_segment(name), false) == Seq::<Seq<u8>>::empty());
        assert(segments(base, leading) == Seq::<Seq<u8>>::empty());
        assert(seq![name] + Seq::<Seq<u8>>::empty() == Seq::<Seq<u8>>::empty() + seq![name]);
    } else {
        let n = segment_len(base) as int;
        assert(n < base.len()) by {
            if n == base.len() {
                assert(base[n - 1] != SEPARATOR);
            }
        }
        assert(whole[n] == SEPARATOR);
        assert(segment_len(whole) == n) by {
            let m = segment_len(whole) as int;
            if m < n {
                assert(whole[m] == base[m]);
            }
            if m > n {
                assert(whole[n] != SEPARATOR);
            }
        }
        let rest = base.skip(n + 1);
        assert(whole.take(n) == base.take(n));
        assert(after_segment(whole) == rest + name);
        assert(after_segment(base) == rest);
        if rest.len() > 0 {
            assert(rest.last() == base.last());
        }
        lemma_segments_of_join(rest, name, false);
        let first = base.take(n);
        if segment_counts(first, leading) {
            assert(seq![first] + (segments(rest, false) + seq![name]) == seq![first] + segments(
                rest,
                false,
            ) + seq![name]);
        }
    }
}

/// The path of a file in a directory ends in the file's name.
pub proof fn lemma_joined_path_ends_in_name(base: Seq<u8>, name: Seq<u8>)
    requires
        name.len() > 0,
        name != seq![DOT],
        forall|i: int| 0 <= i < name.len() ==> #[trigger] name[i] != SEPARATOR,
    ensures
        path_key(path_join(base, name)).segments.len() > 0,
        path_key(path_join(base, name)).segments.last() == name,
{
    assert(name[0] != SEPARATOR);
    if base.len() == 0 || base.last() == SEPARATOR {
        lemma_segments_of_join(base, name, true);
    } else {
        lemma_segments_of_join(base.push(SEPARATOR), name, true);
    }
}

/// The name for what `String::from_utf8_lossy` makes of bytes.
pub uninterp spec fn lossy_text(bytes: Seq<u8>) -> Seq<char>;

/// `path` as text: what it encodes, or else a reading with replacement
/// characters.
pub open spec fn path_text(path: Seq<u8>) -> Seq<char> {
    if valid_utf8(path) {
        decode_utf8(path)
    } else {
        lossy_text(path)
    }
}

/// A path that was made from text has that text.
pub proof fn law_path_keeps_its_text(text: Seq<char>)
    ensures
        path_text(encode_utf8(text)) == text,
{
    encode_utf8_valid_utf8(text);
    encode_utf8_decode_utf8(text);
}

/// Calls `String::from_utf8_lossy`.
///
/// The claim is that its result depends on the bytes alone and that bytes
/// which are UTF-8 come out as the text they encode. Where the replacement
/// character goes in other bytes is not spelled out.
#[verifier::external_body]
fn decode_lossy(bytes: &[u8]) -> (r: String)
    ensures
        r@ == lossy_text(bytes@),
        valid_utf8(bytes@) ==> r@ == decode_utf8(bytes@),
{
    String::from_utf8_lossy(bytes).into_owned()
}

/// Whether `a` and `b` hold the same bytes.
fn equal_bytes(a: &Vec<u8>, b: &Vec<u8>) -> (r: bool)
    ensures
        r == (a@ == b@),
{
    if a.len() != b.len() {
        return false;
    }
    let mut i: usize = 0;
    while i < a.len()
        invariant
            i <= a.len(),
            a.len() == b.len(),
            forall|j: int| 0 <= j < i ==> #[trigger] a@[j] == b@[j],
        decreases a.len() - i,
    {
        if a[i] != b[i] {
            return false;
        }
        i = i + 1;
    }
    assert(a@ == b@);
    true
}

/// The byte strings in `v`.
spec fn byte_strings(v: Seq<Vec<u8>>) -> Seq<Seq<u8>> {
    Seq::new(v.len(), |i: int| v[i]@)
}

impl Clone for FilePath {
    fn clone(&self) -> (r: FilePath)
        ensures
            r@ == self@,
    {
        FilePath { bytes: self.bytes.clone() }
    }
}

impl FilePath {
    /// The path that `text` spells.
    pub fn from_text(text: &str) -> (r: FilePath)
        ensures
            r@ == encode_utf8(text@),
    {
        FilePath { bytes: text.as_bytes_vec() }
    }

    /// The path made of `bytes`.
    pub fn from_bytes(bytes: Vec<u8>) -> (r: FilePath)
        ensures
            r@ == bytes@,
    {
        FilePath { bytes }
    }

    /// Whether the path has no bytes.
    pub fn is_empty(&self) -> (r: bool)
        ensures
            r == (self@.len() == 0),
    {
        self.bytes.len() == 0
    }

    /// Whether this path and `other` are spelled alike.
    pub fn same_bytes(&self, other: &FilePath) -> (r: bool)
        ensures
            r == (self@ == other@),
    {
        equal_bytes(&self.bytes, &other.bytes)
    }

    /// Whether the path starts at the root.
    pub fn is_absolute(&self) -> (r: bool)
        ensures
            r == rooted(self@),
    {
        self.bytes.len() > 0 && self.bytes[0] == SEPARATOR
    }

    /// `tail` seen from this directory: `tail` itself if it is absolute, else
    /// this path and `tail` with one separator between them.
    pub fn join(&self, tail: &FilePath) -> (r: FilePath)
        ensures
            r@ == path_join(self@, tail@),
    {
        if tail.is_absolute() {
            return tail.clone();
        }
        let mut joined: Vec<u8> = self.bytes.clone();
        if joined.len() > 0 && joined[joined.len() - 1] != SEPARATOR {
            joined.push(SEPARATOR);
        }
        let mut rest: Vec<u8> = tail.bytes.clone();
        joined.append(&mut rest);
        FilePath { bytes: joined }
    }

    /// The path as text, with a replacement character for what is not UTF-8.
    pub fn to_text(&self) -> (r: String)
        ensures
            r@ == path_text(self@),
    {
        decode_lossy(self.bytes.as_slice())
    }

    /// The segments of the path that count.
    fn segments(&self) -> (r: Vec<Vec<u8>>)
        ensures
            byte_strings(r@) == segments(self@, true),
    {
        let mut found: Vec<Vec<u8>> = Vec::new();
        let mut at: usize = 0;
        assert(self@.skip(0) == self@);
        while at < self.bytes.len()
            invariant
                at <= self.bytes.len(),
                segments(self@, true) == byte_strings(found@) + segments(
                    self@.skip(at as int),
                    at == 0,
                ),
            decreases self.bytes.len() - at,
        {
            let ghost rest = self@.skip(at as int);
            let mut segment: Vec<u8> = Vec::new();
            let mut end: usize = at;
            while end < self.bytes.len() && self.bytes[end] != SEPARATOR
                invariant
                    at <= end <= self.bytes.len(),
                    segment@ == self@.subrange(at as int, end as int),
                    forall|i: int| at <= i < end ==> #[trigger] self@[i] != SEPARATOR,
                decreases self.bytes.len() - end,
            {
                segment.push(self.bytes[end]);
                end = end + 1;
                assert(segment@ == self@.subrange(at as int, end as int));
            }
            proof {
                lemma_segment_len(rest);
                let n = segment_len(rest) as int;
                assert(n == end - at) by {
                    if n < end - at {
                        assert(rest[n] == self@[at + n]);
                    }
                    if n > end - at {
                        assert(rest[end - at] == self@[end as int]);
                    }
                }
                assert(rest.take(n) == segment@);
                if end < self.bytes.len() {
                    assert(after_segment(rest) == self@.skip(end + 1));
                } else {
                    assert(after_segment(rest) == self@.skip(end as int));
                }
            }
            let counts: bool = segment.len() > 0 && (at == 0 || segment.len() != 1 || segment[0]
                != DOT);
            assert(counts == segment_counts(segment@, at == 0)) by {
                if segment@.len() == 1 && segment@[0] == DOT {
                    assert(segment@ == seq![DOT]);
                }
            }
            let ghost before = found@;
            let ghost first = segment@;
            if counts {
                found.push(segment);
                assert(byte_strings(found@) == byte_strings(before) + seq![first]);
            }
            assert(segments(self@, true) == byte_strings(found@) + segments(
                after_segment(rest),
                false,
            ));
            if end < self.bytes.len() {
                at = end + 1;
            } else {
                at = end;
            }
        }
        assert(byte_strings(found@) + Seq::<Seq<u8>>::empty() == byte_strings(found@));
        found
    }

    /// Whether this path and `other` name the same path.
    pub fn same_path(&self, other: &FilePath) -> (r: bool)
        ensures
            r == (path_key(self@) == path_key(other@)),
    {
        if self.is_absolute() != other.is_absolute() {
            return false;
        }
        let mine = self.segments();
        let theirs = other.segments();
        if mine.len() != theirs.len() {
            assert(byte_strings(mine@).len() != byte_strings(theirs@).len());
            return false;
        }
        let mut i: usize = 0;
        while i < mine.len()
            invariant
                i <= mine.len(),
                mine.len() == theirs.len(),
                byte_strings(mine@) == segments(self@, true),
                byte_strings(theirs@) == segments(other@, true),
                forall|j: int| 0 <= j < i ==> #[trigger] mine@[j]@ == theirs@[j]@,
            decreases mine.len() - i,
        {
            if !equal_bytes(&mine[i], &theirs[i]) {
                assert(byte_strings(mine@)[i as int] != byte_strings(theirs@)[i as int]);
                return false;
            }
            i = i + 1;
        }
        assert(byte_strings(mine@) == byte_strings(theirs@));
        true
    }
}

proof fn lemma_segments_of_one_name(name: Seq<u8>, leading: bool)
    requires
        forall|i: int| 0 <= i < name.len() ==> #[trigger] name[i] != SEPARATOR,
    ensures
        segments(name, leading) == if name.len() > 0 && (leading || name != seq![DOT]) {
            seq![name]
        } else {
            Seq::empty()
        },
{
    if name.len() > 0 {
        lemma_segment_len(name);
        let n = segment_len(name) as int;
        if n < name.len() {
            assert(name[n] != SEPARATOR);
        }
        assert(name.take(n) == name);
        assert(segments(after_segment(name), false) == Seq::<Seq<u8>>::empty());
        assert(seq![name] + Seq::<Seq<u8>>::empty() == seq![name]);
    }
}

proof fn lemma_segments_append(base: Seq<u8>, name: Seq<u8>, leading: bool)
    requires
        forall|i: int| 0 <= i < name.len() ==> #[trigger] name[i] != SEPARATOR,
    ensures
        segments(base + seq![SEPARATOR] + name, leading) == segments(base, leading) + segments(
            name,
            false,
        ),
    decreases base.len(),
{
    let whole = base + seq![SEPARATOR] + name;
    lemma_segment_len(base);
    lemma_segment_len(whole);
    let n = segment_len(base) as int;
    let m = segment_len(whole) as int;
    assert(m == n) by {
        if m < n {
            assert(whole[m] == base[m]);
        }
        if m > n {
            if n < base.len() {
                assert(whole[n] == base[n]);
            } else {
                assert(whole[n] == SEPARATOR);
            }
        }
    }
    let first = base.take(n);
    assert(whole.take(n) == first);
    if n < base.len() {
        let rest = base.skip(n + 1);
        assert(after_segment(base) == rest);
        assert(after_segment(whole) == rest + seq![SEPARATOR] + name);
        lemma_segments_append(rest, name, false);
        assert(seq![first] + (segments(rest, false) + segments(name, false)) == seq![first]
            + segments(rest, false) + segments(name, false));
    } else {
        assert(after_segment(whole) == name);
        assert(first == base);
        if base.len() == 0 {
            assert(segments(base, leading) + segments(name, false) == segments(name, false));
        } else {
            assert(after_segment(base) == Seq::<u8>::empty());
            assert(segments(Seq::<u8>::empty(), false) == Seq::<Seq<u8>>::empty());
            assert(seq![base] + Seq::<Seq<u8>>::empty() == seq![base]);
            assert(Seq::<Seq<u8>>::empty() + segments(name, false) == segments(name, false));
        }
    }
}

/// The key of a path without a slash is its name, if it has one.
pub proof fn law_key_of_one_name(name: Seq<u8>)
    requires
        forall|i: int| 0 <= i < name.len() ==> #[trigger] name[i] != 47,
    ensures
        !path_key(name).rooted,
        path_key(name).segments == if name.len() == 0 {
            Seq::empty()
        } else {
            seq![name]
        },
{
    lemma_segments_of_one_name(name, true);
}

/// A slash and a name behind a path add that name to the key, whatever the path
/// and however many names it has. Nothing, or a dot, behind the slash adds
/// nothing. A path is rooted exactly if its first byte is a slash.
pub proof fn law_key_of_one_more_name(base: Seq<u8>, name: Seq<u8>)
    requires
        forall|i: int| 0 <= i < name.len() ==> #[trigger] name[i] != 47,
    ensures
        ({
            let longer = path_key(base + seq![47u8] + name);
            &&& longer.rooted == (base.len() == 0 || base[0] == 47)
            &&& longer.segments == if name.len() == 0 || name == seq![46u8] {
                path_key(base).segments
            } else {
                path_key(base).segments.push(name)
            }
        }),
{
    lemma_segments_append(base, name, true);
    lemma_segments_of_one_name(name, false);
    let whole = base + seq![47u8] + name;
    if base.len() > 0 {
        assert(whole[0] == base[0]);
    }
    assert(path_key(base).segments + Seq::<Seq<u8>>::empty() == path_key(base).segments);
    assert(path_key(base).segments + seq![name] == path_key(base).segments.push(name));
}

/// Joining gives an absolute tail as it is, and else both paths, with a slash
/// between them unless the first has none or ends in one.
pub proof fn law_join_puts_one_slash_between(base: Seq<u8>, tail: Seq<u8>)
    ensures
        tail.len() > 0 && tail[0] == 47 ==> path_join(base, tail) == tail,
        !(tail.len() > 0 && tail[0] == 47) ==> {
            let joined = path_join(base, tail);
            let between = if base.len() > 0 && base[base.len() - 1] != 47 {
                1int
            } else {
                0int
            };
            &&& joined.len() == base.len() + between + tail.len()
            &&& joined.take(base.len() as int) == base
            &&& joined.skip(base.len() + between) == tail
            &&& between == 1 ==> joined[base.len() as int] == 47
        },
{
    if !(tail.len() > 0 && tail[0] == 47) {
        let joined = path_join(base, tail);
        assert(joined.take(base.len() as int) == base);
        if base.len() > 0 && base[base.len() - 1] != 47 {
            assert(joined.skip(base.len() as int + 1) == tail);
        } else {
            assert(joined.skip(base.len() as int) == tail);
        }
    }
}

/// The key of a file in a directory is the directory's with the file's name
/// behind it, so files of one name in different directories have different
/// keys.
pub proof fn law_directories_tell_files_apart(a: Seq<u8>, b: Seq<u8>, name: Seq<u8>)
    requires
        name.len() > 0,
        name != seq![46u8],
        forall|i: int| 0 <= i < name.len() ==> #[trigger] name[i] != 47,
    ensures
        path_key(path_join(a, name)).rooted == path_key(a).rooted,
        path_key(path_join(a, name)).segments == path_key(a).segments.push(name),
        path_key(path_join(a, name)) == path_key(path_join(b, name)) <==> path_key(a) == path_key(
            b,
        ),
{
    lemma_key_of_join(a, name);
    lemma_key_of_join(b, name);
    let x = path_key(a).segments;
    let y = path_key(b).segments;
    if x.push(name) == y.push(name) {
        assert(x == x.push(name).drop_last());
        assert(y == y.push(name).drop_last());
    }
    assert(path_key(path_join(a, name)) =~= PathKey {
        rooted: path_key(a).rooted,
        segments: x.push(name),
    });
    assert(path_key(path_join(b, name)) =~= PathKey {
        rooted: path_key(b).rooted,
        segments: y.push(name),
    });
    if path_key(path_join(a, name)) == path_key(path_join(b, name)) {
        assert(path_key(a) =~= path_key(b));
    }
}

proof fn lemma_key_of_join(base: Seq<u8>, name: Seq<u8>)
    requires
        name.len() > 0,
        name != seq![DOT],
        forall|i: int| 0 <= i < name.len() ==> #[trigger] name[i] != SEPARATOR,
    ensures
        path_key(path_join(base, name)).rooted == path_key(base).rooted,
        path_key(path_join(base, name)).segments == path_key(base).segments.push(name),
{
    assert(name[0] != SEPARATOR);
    let joined = path_join(base, name);
    if base.len() == 0 || base.last() == SEPARATOR {
        lemma_segments_of_join(base, name, true);
        assert(segments(base, true) + seq![name] == segments(base, true).push(name));
        if base.len() > 0 {
            assert(joined[0] == base[0]);
        } else {
            assert(joined[0] == name[0]);
        }
    } else {
        assert(joined == base + seq![SEPARATOR] + name);
        law_key_of_one_more_name(base, name);
    }
}

/// Two paths have one key exactly if both start at the root or neither does and
/// they have the same names, all of them, in the same order.
pub proof fn law_one_key_means_the_same_names(a: Seq<u8>, b: Seq<u8>)
    ensures
        path_key(a) == path_key(b) <==> {
            &&& (a.len() > 0 && a[0] == 47) == (b.len() > 0 && b[0] == 47)
            &&& segments(a, true) == segments(b, true)
        },
{
}

/// A path that is UTF-8 has the text it encodes, and any other the one that
/// decoding with replacement characters gives.
pub proof fn law_text_of_a_path(path: Seq<u8>)
    ensures
        valid_utf8(path) ==> encode_utf8(path_text(path)) == path,
        !valid_utf8(path) ==> path_text(path) == lossy_text(path),
{
    if valid_utf8(path) {
        decode_utf8_encode_utf8(path);
    }
}

/// A path is its bytes.
pub proof fn law_a_path_is_its_bytes(path: FilePath)
    ensures
        path@ == path.bytes@,
{
}

} // verus!
