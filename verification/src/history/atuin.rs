//! Reads [atuin](https://atuin.sh)'s history database so its commands can be
//! searched too.
//!
//! The database is only ever read. This module says where it is, what to ask of
//! it and what to make of the rows; opening it and running the query is up to
//! the caller.

use chrono::TimeZone;
use std::sync::Arc;

use vstd::prelude::*;
use vstd::utf8::{encode_utf8, is_ascii_chars_encode_utf8};

use crate::file_path::{path_join, path_text, FilePath};
use crate::hexadecimal::digit_value;
use crate::history::entry::{EntryView, ExitCode, HistoryEntry, LocalTimestamp};
use crate::text::chars_of;

verus! {

/// How many of the most recent entries to read.
///
/// A synced database can hold years of history across several machines, and
/// every entry read is held in memory and walked on each keystroke.
pub const MAX_ENTRIES: i64 = 20_000;

/// Seconds at the start of the year 3000, above which a value has to be a finer
/// unit than seconds to be a real timestamp.
pub const MAX_PLAUSIBLE_SECONDS: i64 = 32_503_680_000;

/// A row of atuin's `history` table.
#[derive(Debug)]
pub struct HistoryRow {
    pub command: String,
    pub cwd: String,
    /// Time the command was run, in one of the units that atuin has used.
    pub timestamp: i64,
    pub exit: i64,
}

/// What to ask of the database: the most recent rows first, without those that
/// are marked deleted, and no more of them than the one parameter says.
///
/// Rows in different units are mixed, so the order is by [`seconds_of`] and then
/// [`subsec_nanos_of`] the timestamp, not by the timestamp itself.
pub open spec fn history_query_text() -> Seq<char> {
    "SELECT command, cwd, timestamp, exit FROM history WHERE deleted_at IS NULL \
     ORDER BY CASE WHEN timestamp <= 32503680000 THEN timestamp \
     WHEN timestamp / 1000 <= 32503680000 THEN timestamp / 1000 \
     WHEN timestamp / 1000000 <= 32503680000 THEN timestamp / 1000000 \
     ELSE timestamp / 1000000000 END DESC, \
     CASE WHEN timestamp <= 32503680000 THEN 0 \
     WHEN timestamp / 1000 <= 32503680000 THEN timestamp % 1000 * 1000000 \
     WHEN timestamp / 1000000 <= 32503680000 THEN timestamp % 1000000 * 1000 \
     ELSE timestamp % 1000000000 END DESC \
     LIMIT ?"@
}

/// What to ask of the database. The parameter is [`MAX_ENTRIES`].
pub fn history_query() -> (r: &'static str)
    ensures
        r@ == history_query_text(),
{
    "SELECT command, cwd, timestamp, exit FROM history WHERE deleted_at IS NULL \
     ORDER BY CASE WHEN timestamp <= 32503680000 THEN timestamp \
     WHEN timestamp / 1000 <= 32503680000 THEN timestamp / 1000 \
     WHEN timestamp / 1000000 <= 32503680000 THEN timestamp / 1000000 \
     ELSE timestamp / 1000000000 END DESC, \
     CASE WHEN timestamp <= 32503680000 THEN 0 \
     WHEN timestamp / 1000 <= 32503680000 THEN timestamp % 1000 * 1000000 \
     WHEN timestamp / 1000000 <= 32503680000 THEN timestamp % 1000000 * 1000 \
     ELSE timestamp % 1000000000 END DESC \
     LIMIT ?"
}

/// How the character `c` of a file name is written in a location. A question
/// mark or a number sign would end the name there, and a percent sign starts an
/// escape.
pub open spec fn uri_char(c: char) -> Seq<char> {
    if c == '%' {
        seq!['%', '2', '5']
    } else if c == '?' {
        seq!['%', '3', 'f']
    } else if c == '#' {
        seq!['%', '2', '3']
    } else {
        seq![c]
    }
}

/// How the file name `s` is written in a location.
pub open spec fn uri_text(s: Seq<char>) -> Seq<char>
    decreases s.len(),
{
    if s.len() == 0 {
        Seq::empty()
    } else {
        uri_text(s.drop_last()) + uri_char(s.last())
    }
}

/// The text of which `s` is the escaped form: each percent sign and the two
/// hexadecimal digits behind it stand for one character.
pub open spec fn uri_unescaped(s: Seq<char>) -> Seq<char>
    decreases s.len(),
{
    if s.len() == 0 {
        Seq::empty()
    } else if s.len() >= 3 && s[0] == '%' {
        seq![(16 * digit_value(s[1]) + digit_value(s[2])) as char] + uri_unescaped(s.skip(3))
    } else {
        seq![s[0]] + uri_unescaped(s.skip(1))
    }
}

proof fn lemma_uri_text_step(s: Seq<char>)
    requires
        s.len() > 0,
    ensures
        uri_text(s) == uri_char(s[0]) + uri_text(s.drop_first()),
    decreases s.len(),
{
    if s.len() == 1 {
        assert(s.drop_last() == Seq::<char>::empty());
        assert(s.drop_first() == Seq::<char>::empty());
        assert(uri_text(Seq::empty()) == Seq::<char>::empty());
    } else {
        lemma_uri_text_step(s.drop_last());
        assert(s.drop_last().drop_first() == s.drop_first().drop_last());
        assert(s.drop_first().last() == s.last());
    }
}

/// Escaping keeps a file name whole: the escaped form holds no character that
/// ends a name, and unescaping gives the name back.
pub proof fn law_location_keeps_the_name(s: Seq<char>)
    ensures
        !uri_text(s).contains('?'),
        !uri_text(s).contains('#'),
        uri_unescaped(uri_text(s)) == s,
    decreases s.len(),
{
    if s.len() > 0 {
        let rest = s.drop_first();
        let first = uri_char(s[0]);
        let whole = uri_text(s);
        lemma_uri_text_step(s);
        law_location_keeps_the_name(rest);
        assert forall|i: int| 0 <= i < whole.len() implies #[trigger] whole[i] != '?' && whole[i]
            != '#' by {
            if i >= first.len() {
                assert(whole[i] == uri_text(rest)[i - first.len()]);
                assert(uri_text(rest).contains(whole[i]));
            }
        }
        assert(whole[0] == first[0]);
        if first.len() == 3 {
            assert(whole[1] == first[1] && whole[2] == first[2]);
        }
        assert(whole.skip(first.len() as int) == uri_text(rest));
        assert(seq![s[0]] + rest == s);
    }
}

/// `text` as a file name in a location.
fn uri_name(text: &str) -> (r: String)
    ensures
        r@ == uri_text(text@),
{
    let chars = chars_of(text);
    let mut name = String::new();
    let mut i: usize = 0;
    while i < chars.len()
        invariant
            i <= chars.len(),
            chars@ == text@,
            name@ == uri_text(text@.take(i as int)),
        decreases chars.len() - i,
    {
        proof {
            let next = text@.take(i + 1);
            assert(next.drop_last() == text@.take(i as int));
            reveal_strlit("%25");
            reveal_strlit("%3f");
            reveal_strlit("%23");
        }
        if chars[i] == '%' {
            name.append("%25");
        } else if chars[i] == '?' {
            name.append("%3f");
        } else if chars[i] == '#' {
            name.append("%23");
        } else {
            name.append(text.substring_char(i, i + 1));
        }
        assert(name@ == uri_text(text@.take(i as int)) + uri_char(text@[i as int]));
        i = i + 1;
    }
    assert(text@.take(text@.len() as int) == text@);
    name
}

/// The location under which to open the database at `path`, for reading only.
///
/// SQLite takes what follows two slashes at the start of a name for a host, and
/// refuses to open one other than the local one.
pub fn database_url(path: &FilePath) -> (r: String)
    ensures
        r@ == "file:"@ + uri_text(path_text(path@)) + "?mode=ro"@,
{
    let name = uri_name(path.to_text().as_str());
    "file:".to_owned().concat(name.as_str()).concat("?mode=ro")
}

/// What `value` says unless it is absent or empty.
pub open spec fn non_empty(value: Option<FilePath>) -> Option<Seq<u8>> {
    match value {
        Some(path) if path@.len() > 0 => Some(path@),
        _ => None,
    }
}

/// The database under the data directory `dir`.
pub open spec fn database_under(dir: Seq<u8>) -> Seq<u8> {
    path_join(dir, encode_utf8("atuin/history.db"@))
}

/// The default data directory of the user whose home is `home`.
pub open spec fn default_data_dir(home: Seq<u8>) -> Seq<u8> {
    path_join(path_join(home, encode_utf8(".local"@)), encode_utf8("share"@))
}

/// Path of atuin's database, or `None` if there is no telling.
///
/// An explicit database path wins, then the data directory that the environment
/// names, then the default one under the home directory. A variable that is set
/// but empty counts as unset.
pub fn resolve_db_path(
    db_path_env: Option<FilePath>,
    xdg_data_home: Option<FilePath>,
    home_dir: Option<FilePath>,
) -> (r: Option<FilePath>)
    ensures
        match (non_empty(db_path_env), non_empty(xdg_data_home), home_dir) {
            (Some(path), _, _) => r is Some && r->0@ == path,
            (None, Some(dir), _) => r is Some && r->0@ == database_under(dir),
            (None, None, Some(home)) => r is Some && r->0@ == database_under(
                default_data_dir(home@),
            ),
            (None, None, None) => r is None,
        },
{
    match db_path_env {
        Some(path) => if !path.is_empty() {
            return Some(path);
        },
        None => {},
    }
    let database = FilePath::from_text("atuin/history.db");
    match xdg_data_home {
        Some(dir) => if !dir.is_empty() {
            return Some(dir.join(&database));
        },
        None => {},
    }
    match home_dir {
        Some(home) => {
            let data_dir = home.join(&FilePath::from_text(".local")).join(
                &FilePath::from_text("share"),
            );
            Some(data_dir.join(&database))
        },
        None => None,
    }
}

/// How many of the units that `timestamp` counts make a second: the coarsest
/// unit in which it does not lie past the year 3000.
pub open spec fn units_per_second(timestamp: int) -> int {
    if timestamp <= MAX_PLAUSIBLE_SECONDS {
        1
    } else if timestamp / 1_000 <= MAX_PLAUSIBLE_SECONDS {
        1_000
    } else if timestamp / 1_000_000 <= MAX_PLAUSIBLE_SECONDS {
        1_000_000
    } else {
        1_000_000_000
    }
}

/// The whole seconds of `timestamp`.
pub open spec fn seconds_of(timestamp: int) -> int {
    timestamp / units_per_second(timestamp)
}

/// The nanoseconds of `timestamp` past the whole seconds.
pub open spec fn subsec_nanos_of(timestamp: int) -> int {
    let units = units_per_second(timestamp);
    if units == 1 {
        0
    } else if units == 1_000 {
        timestamp % 1_000 * 1_000_000
    } else if units == 1_000_000 {
        timestamp % 1_000_000 * 1_000
    } else {
        timestamp % 1_000_000_000
    }
}

/// Whether `time` is what `timestamp` means, in some time zone.
pub open spec fn is_time_of(time: Option<LocalTimestamp>, timestamp: int) -> bool {
    match time {
        Some(t) => {
            &&& timestamp > 0
            &&& t.seconds == seconds_of(timestamp)
            &&& t.subsec_nanos == subsec_nanos_of(timestamp)
            &&& -86_400 < t.utc_offset < 86_400
        },
        None => timestamp <= 0,
    }
}

/// Calls `chrono::Local.timestamp_opt`, and takes the result apart.
///
/// The claim is that every instant from 1970 to the start of the year 3000 has
/// a local time, that this is the same instant, and that local time is less
/// than a day away from UTC. Which offset it has depends on the time zone of
/// the machine, and nothing is said of it. On a machine whose zone rules cannot
/// be evaluated the call panics.
#[verifier::external_body]
fn local_timestamp(seconds: i64, subsec_nanos: u32) -> (r: Option<LocalTimestamp>)
    requires
        0 <= seconds <= MAX_PLAUSIBLE_SECONDS,
        subsec_nanos < 1_000_000_000,
    ensures
        r is Some,
        r->0.seconds == seconds,
        r->0.subsec_nanos == subsec_nanos,
        -86_400 < r->0.utc_offset < 86_400,
{
    let time = chrono::Local.timestamp_opt(seconds, subsec_nanos).single()?;
    Some(
        LocalTimestamp {
            seconds: time.timestamp(),
            subsec_nanos: time.timestamp_subsec_nanos(),
            utc_offset: time.offset().local_minus_utc(),
        },
    )
}

/// Converts one of atuin's timestamps to a local time.
///
/// atuin has stored these as seconds, and later as nanoseconds, and a synced
/// database can hold rows written by both. The unit that is wrong by a factor of
/// a billion puts the command either in 1970 or far in the future.
pub fn timestamp_to_local(timestamp: i64) -> (r: Option<LocalTimestamp>)
    ensures
        is_time_of(r, timestamp as int),
        r is Some <==> timestamp > 0,
        r matches Some(time) ==> {
            &&& time.seconds == seconds_of(timestamp as int)
            &&& time.subsec_nanos == subsec_nanos_of(timestamp as int)
        },
{
    if timestamp <= 0 {
        return None;
    }
    let (seconds, subsec_nanos): (i64, i64) = if timestamp <= MAX_PLAUSIBLE_SECONDS {
        (timestamp, 0)
    } else if timestamp / 1_000 <= MAX_PLAUSIBLE_SECONDS {
        (timestamp / 1_000, timestamp % 1_000 * 1_000_000)
    } else if timestamp / 1_000_000 <= MAX_PLAUSIBLE_SECONDS {
        (timestamp / 1_000_000, timestamp % 1_000_000 * 1_000)
    } else {
        (timestamp / 1_000_000_000, timestamp % 1_000_000_000)
    };
    local_timestamp(seconds, subsec_nanos as u32)
}

/// The number in the lower 32 bits of `n`, as a signed one.
pub open spec fn lower_32_bits(n: int) -> int {
    if n % 0x1_0000_0000 < 0x8000_0000 {
        n % 0x1_0000_0000
    } else {
        n % 0x1_0000_0000 - 0x1_0000_0000
    }
}

/// The exit code for the exit status `exit`. A negative status is none: atuin
/// records -1 for a command whose status it never saw.
pub open spec fn exit_code_of(exit: i64) -> Option<ExitCode> {
    if exit >= 0 {
        Some(ExitCode { value: lower_32_bits(exit as int) as i32 })
    } else {
        None
    }
}

/// Whether `entry` is what the row says.
pub open spec fn is_entry_of(entry: EntryView, row: HistoryRow) -> bool {
    &&& entry.command == row.command@
    &&& entry.pwd == (if row.cwd@.len() > 0 {
        Some(row.cwd@)
    } else {
        None
    })
    &&& is_time_of(entry.start_ts, row.timestamp as int)
    &&& entry.exit_code == exit_code_of(row.exit)
    &&& !entry.is_agent_executed
}

/// `exit` cut down to 32 bits.
fn truncate_exit(exit: i64) -> (r: i32)
    requires
        exit >= 0,
    ensures
        r == lower_32_bits(exit as int),
{
    let r = #[verifier::truncate] (exit as i32);
    proof {
        let low: u32 = #[verifier::truncate] (exit as u32);
        assert(low == exit % 0x1_0000_0000) by (bit_vector)
            requires
                exit >= 0,
                low == #[verifier::truncate] (exit as u32),
        ;
        assert(low < 0x8000_0000u32 ==> r == low) by (bit_vector)
            requires
                low == #[verifier::truncate] (exit as u32),
                r == #[verifier::truncate] (exit as i32),
        ;
        assert(low >= 0x8000_0000u32 ==> r == low - 0x1_0000_0000) by (bit_vector)
            requires
                low == #[verifier::truncate] (exit as u32),
                r == #[verifier::truncate] (exit as i32),
        ;
    }
    r
}

impl HistoryRow {
    /// The row as an entry of the history.
    pub fn into_entry(self) -> (r: HistoryEntry)
        ensures
            is_entry_of(r@, self),
            r.command@ == self.command@,
            r.pwd is Some <==> self.cwd@.len() > 0,
            r.pwd matches Some(pwd) ==> pwd@ == self.cwd@,
            r.start_ts is Some <==> self.timestamp > 0,
            r.start_ts matches Some(time) ==> {
                &&& time.seconds == seconds_of(self.timestamp as int)
                &&& time.subsec_nanos == subsec_nanos_of(self.timestamp as int)
            },
            r.exit_code is Some <==> self.exit >= 0,
            r.exit_code == exit_code_of(self.exit),
            !r.is_agent_executed,
    {
        let mut entry = HistoryEntry::command_only(self.command);
        if !self.cwd.as_str().is_empty() {
            entry.pwd = Some(self.cwd);
        }
        entry.start_ts = timestamp_to_local(self.timestamp);
        if self.exit >= 0 {
            entry.exit_code = Some(ExitCode { value: truncate_exit(self.exit) });
        }
        entry
    }
}

/// Whether no row was run before one that comes later, as the query asks.
pub open spec fn rows_most_recent_first(rows: Seq<HistoryRow>) -> bool {
    forall|i: int, j: int|
        #![trigger rows[i], rows[j]]
        0 <= i < j < rows.len() ==> {
            let a = rows[i].timestamp as int;
            let b = rows[j].timestamp as int;
            ||| seconds_of(a) > seconds_of(b)
            ||| seconds_of(a) == seconds_of(b) && subsec_nanos_of(a) >= subsec_nanos_of(b)
        }
}

/// Whether `a` is not before `b`, where an unknown time is before any other.
pub open spec fn not_before(a: Option<LocalTimestamp>, b: Option<LocalTimestamp>) -> bool {
    match (a, b) {
        (_, None) => true,
        (None, Some(_)) => false,
        (Some(a), Some(b)) => a.seconds > b.seconds || a.seconds == b.seconds && a.subsec_nanos
            >= b.subsec_nanos,
    }
}

/// Whether no entry was run before one that comes later, those of unknown time
/// last.
pub open spec fn entries_most_recent_first(entries: Seq<HistoryEntry>) -> bool {
    forall|i: int, j: int|
        #![trigger entries[i], entries[j]]
        0 <= i < j < entries.len() ==> not_before(entries[i].start_ts, entries[j].start_ts)
}

/// The rows as entries of the history, in the same order.
pub fn entries_from_rows(rows: Vec<HistoryRow>) -> (r: Vec<HistoryEntry>)
    ensures
        r@.len() == rows@.len(),
        forall|i: int| 0 <= i < r@.len() ==> is_entry_of((#[trigger] r@[i])@, rows@[i]),
        rows_most_recent_first(rows@) ==> entries_most_recent_first(r@),
{
    let mut entries: Vec<HistoryEntry> = Vec::new();
    for row in it: rows
        invariant
            entries@.len() == it.index(),
            it.seq() == rows@,
            forall|i: int|
                0 <= i < entries@.len() ==> is_entry_of((#[trigger] entries@[i])@, rows@[i]),
    {
        entries.push(row.into_entry());
    }
    proof {
        if rows_most_recent_first(rows@) {
            assert forall|i: int, j: int|
                #![trigger entries@[i], entries@[j]]
                0 <= i < j < entries@.len() implies not_before(
                entries@[i].start_ts,
                entries@[j].start_ts,
            ) by {
                assert(is_entry_of(entries@[i]@, rows@[i]));
                assert(is_entry_of(entries@[j]@, rows@[j]));
            }
        }
    }
    entries
}

/// The database to read: the one at `path`, if there is a file.
///
/// Without one atuin is not set up on this machine.
pub fn database_to_read(path: Option<FilePath>, is_file: bool) -> (r: Option<FilePath>)
    ensures
        r == (if is_file {
            path
        } else {
            None
        }),
{
    if is_file {
        path
    } else {
        None
    }
}

/// The entries to search, given the result of reading the database.
///
/// A database that exists but cannot be read is treated as absent: the other
/// history is still worth searching.
pub fn load_shared_entries<E>(loaded: Result<Vec<HistoryEntry>, E>) -> (r: Option<
    Arc<Vec<Arc<HistoryEntry>>>,
>)
    ensures
        r is Some <==> loaded is Ok,
        loaded matches Ok(entries) ==> r->0@ =~= entries@.map_values(
            |entry: HistoryEntry| Arc::new(entry),
        ),
{
    match loaded {
        Ok(entries) => Some(Arc::new(share_entries(entries))),
        Err(_) => None,
    }
}

/// Each of `entries` on its own, for sharing.
pub fn share_entries(entries: Vec<HistoryEntry>) -> (r: Vec<Arc<HistoryEntry>>)
    ensures
        r@ =~= entries@.map_values(|entry: HistoryEntry| Arc::new(entry)),
{
    let mut shared: Vec<Arc<HistoryEntry>> = Vec::new();
    for entry in it: entries
        invariant
            shared@.len() == it.index(),
            it.seq() == entries@,
            forall|i: int| 0 <= i < shared@.len() ==> *(#[trigger] shared@[i]) == entries@[i],
    {
        shared.push(Arc::new(entry));
    }
    shared
}

/// No part of a timestamp is lost: seconds and nanoseconds together are the
/// timestamp in its unit.
pub proof fn law_time_is_exact(timestamp: int)
    requires
        timestamp > 0,
    ensures
        0 <= subsec_nanos_of(timestamp) < 1_000_000_000,
        (seconds_of(timestamp) * 1_000_000_000 + subsec_nanos_of(timestamp)) * units_per_second(
            timestamp,
        ) == timestamp * 1_000_000_000,
{
    let u = units_per_second(timestamp);
    let total = seconds_of(timestamp) * 1_000_000_000 + subsec_nanos_of(timestamp);
    assert(total * u == (if u == 1 {
        total
    } else if u == 1_000 {
        total * 1_000
    } else if u == 1_000_000 {
        total * 1_000_000
    } else {
        total * 1_000_000_000
    })) by (nonlinear_arith)
        requires
            u == 1 || u == 1_000 || u == 1_000_000 || u == 1_000_000_000,
    ;
}

/// The same instant is understood in every unit that atuin has used: seconds,
/// milliseconds, microseconds and nanoseconds.
pub proof fn law_every_precision_is_understood(seconds: int, nanos: int)
    requires
        seconds <= MAX_PLAUSIBLE_SECONDS < 1_000 * seconds,
        0 <= nanos < 1_000_000_000,
    ensures
        seconds_of(seconds) == seconds,
        subsec_nanos_of(seconds) == 0,
        ({
            let millis = 1_000 * seconds + nanos / 1_000_000;
            &&& seconds_of(millis) == seconds
            &&& subsec_nanos_of(millis) == nanos / 1_000_000 * 1_000_000
        }),
        ({
            let micros = 1_000_000 * seconds + nanos / 1_000;
            &&& seconds_of(micros) == seconds
            &&& subsec_nanos_of(micros) == nanos / 1_000 * 1_000
        }),
        seconds_of(1_000_000_000 * seconds + nanos) == seconds,
        subsec_nanos_of(1_000_000_000 * seconds + nanos) == nanos,
{
}

/// No timestamp is taken to be past the start of the year 3000.
pub proof fn law_times_are_plausible(timestamp: i64)
    requires
        timestamp > 0,
    ensures
        0 <= seconds_of(timestamp as int) <= MAX_PLAUSIBLE_SECONDS,
{
}

/// A status that fits an exit code becomes that exit code.
pub proof fn law_exit_codes_are_kept(exit: i64)
    requires
        0 <= exit <= i32::MAX,
    ensures
        exit_code_of(exit) == Some(ExitCode { value: exit as i32 }),
{
}

/// What the query asks for: of every row that is not deleted, and of no other,
/// four columns; by whole seconds and then by nanoseconds, the latest first; and
/// no more than the parameter says. Nothing stands between `WHERE` and
/// `ORDER BY` but the one condition.
pub proof fn law_parts_of_the_query()
    ensures
        history_query_text() == "SELECT command, cwd, timestamp, exit"@ + " FROM history"@
            + " WHERE "@ + "deleted_at IS NULL"@ + " ORDER BY "@
            + "CASE WHEN timestamp <= 32503680000 THEN timestamp "@
            + "WHEN timestamp / 1000 <= 32503680000 THEN timestamp / 1000 "@
            + "WHEN timestamp / 1000000 <= 32503680000 THEN timestamp / 1000000 "@
            + "ELSE timestamp / 1000000000 END DESC, "@
            + "CASE WHEN timestamp <= 32503680000 THEN 0 "@
            + "WHEN timestamp / 1000 <= 32503680000 THEN timestamp % 1000 * 1000000 "@
            + "WHEN timestamp / 1000000 <= 32503680000 THEN timestamp % 1000000 * 1000 "@
            + "ELSE timestamp % 1000000000 END DESC"@ + " LIMIT ?"@,
{
    reveal_strlit("SELECT command, cwd, timestamp, exit FROM history WHERE deleted_at IS NULL \
     ORDER BY CASE WHEN timestamp <= 32503680000 THEN timestamp \
     WHEN timestamp / 1000 <= 32503680000 THEN timestamp / 1000 \
     WHEN timestamp / 1000000 <= 32503680000 THEN timestamp / 1000000 \
     ELSE timestamp / 1000000000 END DESC, \
     CASE WHEN timestamp <= 32503680000 THEN 0 \
     WHEN timestamp / 1000 <= 32503680000 THEN timestamp % 1000 * 1000000 \
     WHEN timestamp / 1000000 <= 32503680000 THEN timestamp % 1000000 * 1000 \
     ELSE timestamp % 1000000000 END DESC \
     LIMIT ?");
    reveal_strlit("SELECT command, cwd, timestamp, exit");
    reveal_strlit(" FROM history");
    reveal_strlit(" WHERE ");
    reveal_strlit("deleted_at IS NULL");
    reveal_strlit(" ORDER BY ");
    reveal_strlit("CASE WHEN timestamp <= 32503680000 THEN timestamp ");
    reveal_strlit("WHEN timestamp / 1000 <= 32503680000 THEN timestamp / 1000 ");
    reveal_strlit("WHEN timestamp / 1000000 <= 32503680000 THEN timestamp / 1000000 ");
    reveal_strlit("ELSE timestamp / 1000000000 END DESC, ");
    reveal_strlit("CASE WHEN timestamp <= 32503680000 THEN 0 ");
    reveal_strlit("WHEN timestamp / 1000 <= 32503680000 THEN timestamp % 1000 * 1000000 ");
    reveal_strlit("WHEN timestamp / 1000000 <= 32503680000 THEN timestamp % 1000000 * 1000 ");
    reveal_strlit("ELSE timestamp % 1000000000 END DESC");
    reveal_strlit(" LIMIT ?");
}

/// A timestamp is read in the coarsest of the four units in which it does not
/// lie past the start of the year 3000.
pub proof fn law_the_coarsest_plausible_unit(timestamp: i64)
    requires
        timestamp > 0,
    ensures
        ({
            let t = timestamp as int;
            let units = units_per_second(t);
            &&& units == 1 || units == 1_000 || units == 1_000_000 || units == 1_000_000_000
            &&& seconds_of(t) == t / units
            &&& t / units <= 32_503_680_000
            &&& units > 1 ==> t > 32_503_680_000
            &&& units > 1_000 ==> t / 1_000 > 32_503_680_000
            &&& units > 1_000_000 ==> t / 1_000_000 > 32_503_680_000
        }),
{
}

/// A status that is not negative becomes the exit code that agrees with it in
/// the lower 32 bits. A negative one becomes none.
pub proof fn law_exit_codes_agree_with_the_status(exit: i64)
    ensures
        exit_code_of(exit) is Some <==> exit >= 0,
        exit_code_of(exit) matches Some(code) ==> (exit - code.value) % 0x1_0000_0000 == 0,
{
    if exit >= 0 {
        let low = exit as int % 0x1_0000_0000;
        let code = exit_code_of(exit)->0.value as int;
        assert(code == low || code == low - 0x1_0000_0000);
    }
}

/// A value that is set and not empty counts, as it is, and no other does.
pub proof fn law_empty_counts_as_unset(value: Option<FilePath>, bytes: Seq<u8>)
    ensures
        non_empty(value) == Some(bytes) <==> value is Some && value->0@ == bytes && bytes.len() > 0,
        non_empty(value) is None <==> (value is Some ==> value->0@.len() == 0),
{
}

/// The database is `atuin/history.db` in the data directory, and the default
/// data directory is `.local/share` in the home directory.
pub proof fn law_where_the_database_is(dir: Seq<u8>)
    ensures
        database_under(dir) == path_join(dir, encode_utf8("atuin/history.db"@)),
        default_data_dir(dir) == path_join(path_join(dir, encode_utf8(".local"@)), encode_utf8("share"@)),
        dir.len() > 0 && dir[dir.len() - 1] != 47 ==> {
            &&& database_under(dir) == dir + encode_utf8("/atuin/history.db"@)
            &&& default_data_dir(dir) == dir + encode_utf8("/.local/share"@)
        },
{
    reveal_strlit("atuin/history.db");
    reveal_strlit(".local");
    reveal_strlit("share");
    reveal_strlit("/atuin/history.db");
    reveal_strlit("/.local/share");
    is_ascii_chars_encode_utf8("atuin/history.db"@);
    is_ascii_chars_encode_utf8(".local"@);
    is_ascii_chars_encode_utf8("share"@);
    is_ascii_chars_encode_utf8("/atuin/history.db"@);
    is_ascii_chars_encode_utf8("/.local/share"@);
    let db = encode_utf8("atuin/history.db"@);
    let local = encode_utf8(".local"@);
    let share = encode_utf8("share"@);
    assert(db[0] == 97 && local[0] == 46 && share[0] == 115 && local[5] == 108);
    if dir.len() > 0 && dir[dir.len() - 1] != 47 {
        assert(database_under(dir) =~= dir + encode_utf8("/atuin/history.db"@));
        let one = path_join(dir, local);
        assert(one.last() == 108);
        assert(default_data_dir(dir) =~= dir + encode_utf8("/.local/share"@));
    }
}

/// A character of a file name stands for itself in a location, but for the three
/// that mean something else there, each of which has its own escape.
pub proof fn law_how_a_name_is_escaped(s: Seq<char>, c: char)
    ensures
        uri_text(Seq::empty()) == Seq::<char>::empty(),
        c != '%' && c != '?' && c != '#' ==> uri_text(s.push(c)) == uri_text(s).push(c),
        uri_text(s.push('%')) == uri_text(s) + "%25"@,
        uri_text(s.push('?')) == uri_text(s) + "%3f"@,
        uri_text(s.push('#')) == uri_text(s) + "%23"@,
{
    reveal_strlit("%25");
    reveal_strlit("%3f");
    reveal_strlit("%23");
    assert(s.push(c).drop_last() == s);
    assert(s.push('%').drop_last() == s);
    assert(s.push('?').drop_last() == s);
    assert(s.push('#').drop_last() == s);
    assert("%25"@ == seq!['%', '2', '5']);
    assert("%3f"@ == seq!['%', '3', 'f']);
    assert("%23"@ == seq!['%', '2', '3']);
    assert(uri_text(s) + seq![c] == uri_text(s).push(c));
}

/// An entry says what its row says: the command, the directory if it is not
/// empty, the time and the exit status, and that no agent ran it.
pub proof fn law_what_an_entry_says(entry: HistoryEntry, row: HistoryRow)
    requires
        is_entry_of(entry@, row),
    ensures
        entry.command@ == row.command@,
        row.cwd@.len() == 0 ==> entry.pwd is None,
        row.cwd@.len() > 0 ==> entry.pwd is Some && entry.pwd->0@ == row.cwd@,
        row.timestamp <= 0 ==> entry.start_ts is None,
        row.timestamp > 0 ==> {
            &&& entry.start_ts is Some
            &&& entry.start_ts->0.seconds == seconds_of(row.timestamp as int)
            &&& entry.start_ts->0.subsec_nanos == subsec_nanos_of(row.timestamp as int)
        },
        row.exit < 0 ==> entry.exit_code is None,
        row.exit >= 0 ==> entry.exit_code is Some && (row.exit - entry.exit_code->0.value)
            % 0x1_0000_0000 == 0,
        !entry.is_agent_executed,
{
    law_exit_codes_agree_with_the_status(row.exit);
}

/// Where entries come the most recent first, none was run before one that comes
/// later, and those of unknown time come last.
pub proof fn law_most_recent_first(entries: Seq<HistoryEntry>, i: int, j: int)
    requires
        entries_most_recent_first(entries),
        0 <= i < j < entries.len(),
    ensures
        entries[j].start_ts is Some ==> {
            &&& entries[i].start_ts is Some
            &&& entries[i].start_ts->0.seconds > entries[j].start_ts->0.seconds
                || entries[i].start_ts->0.seconds == entries[j].start_ts->0.seconds
                && entries[i].start_ts->0.subsec_nanos >= entries[j].start_ts->0.subsec_nanos
        },
{
}

} // verus!
