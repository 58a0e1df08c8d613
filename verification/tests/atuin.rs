use std::path::{Path, PathBuf};

use diesel::deserialize::{self, QueryableByName};
use diesel::row::NamedRow;
use diesel::sql_types::{BigInt, Text};
use diesel::sqlite::Sqlite;
use diesel::{sql_query, Connection, RunQueryDsl, SqliteConnection};
use tempfile::TempDir;

use lx_term::file_path::FilePath;
use lx_term::history::atuin::{
    database_to_read, database_url, entries_from_rows, history_query, load_shared_entries,
    resolve_db_path, timestamp_to_local, HistoryRow, MAX_ENTRIES, MAX_PLAUSIBLE_SECONDS,
};
use lx_term::history::entry::HistoryEntry;

/// A row as the database hands it out.
struct Row(HistoryRow);

impl QueryableByName<Sqlite> for Row {
    fn build<'a>(row: &impl NamedRow<'a, Sqlite>) -> deserialize::Result<Self> {
        Ok(Row(HistoryRow {
            command: NamedRow::get::<Text, String>(row, "command")?,
            cwd: NamedRow::get::<Text, String>(row, "cwd")?,
            timestamp: NamedRow::get::<BigInt, i64>(row, "timestamp")?,
            exit: NamedRow::get::<BigInt, i64>(row, "exit")?,
        }))
    }
}

fn path(text: &str) -> FilePath {
    FilePath::from_text(text)
}

/// Builds a database with atuin's schema and the given rows, each
/// `(command, cwd, timestamp, exit, deleted_at)`.
fn atuin_db(rows: &[(&str, &str, i64, i64, Option<i64>)]) -> (TempDir, PathBuf) {
    atuin_db_in(TempDir::new().expect("temp dir"), rows)
}

/// Builds such a database in `dir`.
fn atuin_db_in(
    dir: TempDir,
    rows: &[(&str, &str, i64, i64, Option<i64>)],
) -> (TempDir, PathBuf) {
    let path = dir.path().join("history.db");
    let mut connection =
        SqliteConnection::establish(path.to_str().expect("utf-8 path")).expect("creates db");

    sql_query(
        "CREATE TABLE history (
            id TEXT PRIMARY KEY,
            timestamp INTEGER NOT NULL,
            duration INTEGER NOT NULL,
            exit INTEGER NOT NULL,
            command TEXT NOT NULL,
            cwd TEXT NOT NULL,
            session TEXT NOT NULL,
            hostname TEXT NOT NULL,
            deleted_at INTEGER
        )",
    )
    .execute(&mut connection)
    .expect("creates table");

    for (index, (command, cwd, timestamp, exit, deleted_at)) in rows.iter().enumerate() {
        sql_query(format!(
            "INSERT INTO history VALUES ('id-{index}', {timestamp}, 0, {exit}, '{command}', \
             '{cwd}', 'session', 'host', {})",
            deleted_at.map_or("NULL".to_owned(), |at| at.to_string())
        ))
        .execute(&mut connection)
        .expect("inserts row");
    }

    (dir, path)
}

/// Reads the database at `path` the way the library says to.
fn load_entries(path: &Path) -> Result<Vec<HistoryEntry>, String> {
    load_some_entries(path, MAX_ENTRIES)
}

/// Reads no more than `limit` entries of the database at `path`.
fn load_some_entries(path: &Path, limit: i64) -> Result<Vec<HistoryEntry>, String> {
    let url = database_url(&FilePath::from_text(path.to_str().expect("utf-8 path")));
    let mut connection = SqliteConnection::establish(&url).map_err(|err| err.to_string())?;
    let rows: Vec<Row> = sql_query(history_query())
        .bind::<BigInt, _>(limit)
        .load(&mut connection)
        .map_err(|err| err.to_string())?;
    Ok(entries_from_rows(rows.into_iter().map(|row| row.0).collect()))
}

fn row(timestamp: i64, exit: i64) -> HistoryRow {
    HistoryRow { command: "ls".to_owned(), cwd: String::new(), timestamp, exit }
}

#[test]
fn commands_are_read_most_recent_first() {
    let (_dir, path) = atuin_db(&[
        ("git status", "/repo", 1_700_000_001, 0, None),
        ("cargo test", "/repo", 1_700_000_003, 0, None),
        ("ls", "/", 1_700_000_002, 0, None),
    ]);

    let entries = load_entries(&path).expect("loads");

    let commands: Vec<&str> = entries.iter().map(|entry| entry.command.as_str()).collect();
    assert_eq!(commands, ["cargo test", "ls", "git status"]);
}

#[test]
fn the_directory_and_exit_code_come_along() {
    let (_dir, path) = atuin_db(&[("cargo test", "/repo", 1_700_000_000, 101, None)]);

    let entry = load_entries(&path).expect("loads").remove(0);

    assert_eq!(entry.pwd.as_deref(), Some("/repo"));
    assert_eq!(entry.exit_code.map(|code| code.value()), Some(101));
    assert!(entry.start_ts.is_some());
}

#[test]
fn an_unknown_exit_status_is_not_reported_as_an_exit_code() {
    // atuin records -1 when it never saw the command finish. Passed through it
    // would render as a command that failed.
    let (_dir, path) = atuin_db(&[("vim", "/repo", 1_700_000_000, -1, None)]);

    let entry = load_entries(&path).expect("loads").remove(0);

    assert_eq!(entry.exit_code, None);
}

#[test]
fn entries_deleted_in_atuin_are_left_out() {
    let (_dir, path) = atuin_db(&[
        ("kept", "/", 1_700_000_001, 0, None),
        ("deleted", "/", 1_700_000_002, 0, Some(1_700_000_500)),
    ]);

    let entries = load_entries(&path).expect("loads");

    let commands: Vec<&str> = entries.iter().map(|entry| entry.command.as_str()).collect();
    assert_eq!(commands, ["kept"]);
}

#[test]
fn timestamps_are_understood_in_every_precision_atuin_has_used() {
    // The same instant, as seconds / millis / micros / nanos.
    let seconds = 1_700_000_000_i64;
    let (_dir, path) = atuin_db(&[
        ("as-seconds", "/", seconds, 0, None),
        ("as-millis", "/", seconds * 1_000, 0, None),
        ("as-micros", "/", seconds * 1_000_000, 0, None),
        ("as-nanos", "/", seconds * 1_000_000_000, 0, None),
    ]);

    let entries = load_entries(&path).expect("loads");

    assert_eq!(entries.len(), 4);
    for entry in entries {
        assert_eq!(
            entry.start_ts.expect("has a timestamp").seconds,
            seconds,
            "{} was read at the wrong precision",
            entry.command
        );
    }
}

#[test]
fn a_missing_database_is_an_error_rather_than_an_empty_history() {
    let dir = TempDir::new().expect("temp dir");

    // Silently returning no entries would be indistinguishable from a user who
    // has atuin installed but has run nothing yet.
    assert!(load_entries(&dir.path().join("history.db")).is_err());
}

#[test]
fn an_explicit_database_path_wins_over_the_data_directory() {
    let resolved = resolve_db_path(
        Some(path("/somewhere/else/history.db")),
        Some(path("/xdg/data")),
        Some(path("/home/user")),
    );

    assert_eq!(resolved.expect("resolves").bytes, b"/somewhere/else/history.db".to_vec());
}

#[test]
fn the_database_path_falls_back_to_the_xdg_data_directory() {
    let resolved = resolve_db_path(None, Some(path("/xdg/data")), Some(path("/home/user")));

    assert_eq!(resolved.expect("resolves").bytes, b"/xdg/data/atuin/history.db".to_vec());
}

#[test]
fn the_database_path_falls_back_to_the_home_directory() {
    let resolved = resolve_db_path(None, None, Some(path("/home/user")));

    assert_eq!(
        resolved.expect("resolves").bytes,
        b"/home/user/.local/share/atuin/history.db".to_vec()
    );
}

#[test]
fn an_empty_environment_variable_is_treated_as_unset() {
    // An exported-but-empty $ATUIN_DB_PATH would otherwise resolve to "".
    let resolved = resolve_db_path(Some(path("")), Some(path("")), Some(path("/home/user")));

    assert_eq!(
        resolved.expect("resolves").bytes,
        b"/home/user/.local/share/atuin/history.db".to_vec()
    );
}

#[test]
fn without_a_home_there_may_be_no_database_path() {
    assert!(resolve_db_path(None, None, None).is_none());
    assert!(resolve_db_path(Some(path("")), None, None).is_none());
    assert_eq!(
        resolve_db_path(None, Some(path("/xdg")), None).expect("resolves").bytes,
        b"/xdg/atuin/history.db".to_vec()
    );
}

#[test]
fn the_database_is_opened_for_reading_only() {
    assert_eq!(database_url(&path("/a/history.db")), "file:/a/history.db?mode=ro");
    assert_eq!(
        database_url(&FilePath::from_bytes(vec![b'/', 0xfe])),
        "file:/\u{fffd}?mode=ro"
    );
}

#[test]
fn only_a_file_is_read() {
    assert!(database_to_read(Some(path("/a")), true).is_some());
    assert!(database_to_read(Some(path("/a")), false).is_none());
    assert!(database_to_read(None, true).is_none());
}

#[test]
fn no_more_than_the_most_recent_entries_are_read() {
    assert_eq!(MAX_ENTRIES, 20_000);
    assert!(history_query().ends_with(" DESC LIMIT ?"));
    let (_dir, path) = atuin_db(&[
        ("old", "/", 1_600_000_000_000_000_000, 0, None),
        ("new", "/", 1_700_000_000, 0, None),
        ("older", "/", 1_500_000_000_000, 0, None),
    ]);
    let entries = load_some_entries(&path, 2).expect("loads");
    assert_eq!(commands(&entries), ["new", "old"]);
}

fn commands(entries: &[HistoryEntry]) -> Vec<&str> {
    entries.iter().map(|entry| entry.command.as_str()).collect()
}

#[test]
fn commands_are_read_most_recent_first_whatever_their_precision() {
    let (_dir, path) = atuin_db(&[
        ("old", "/", 1_600_000_000_000_000_000, 0, None),
        ("new", "/", 1_700_000_000, 0, None),
    ]);
    assert_eq!(commands(&load_entries(&path).expect("loads")), ["new", "old"]);

    let seconds = 1_700_000_000_i64;
    let (_dir, path) = atuin_db(&[
        ("unknown", "/", 0, 0, None),
        ("whole", "/", seconds, 0, None),
        ("nanos", "/", seconds * 1_000_000_000 + 250_000_000, 0, None),
        ("next", "/", seconds + 1, 0, None),
        ("negative", "/", -5, 0, None),
        ("millis", "/", seconds * 1_000 + 500, 0, None),
        ("micros", "/", seconds * 1_000_000 + 125_000, 0, None),
    ]);
    let entries = load_entries(&path).expect("loads");
    assert_eq!(
        commands(&entries),
        ["next", "millis", "nanos", "micros", "whole", "unknown", "negative"]
    );
    for pair in entries.windows(2) {
        let time = |entry: &HistoryEntry| {
            entry.start_ts.map(|time| (time.seconds, time.subsec_nanos))
        };
        assert!(time(&pair[0]) >= time(&pair[1]));
    }
}

#[test]
fn a_path_cannot_change_how_the_database_is_opened() {
    assert_eq!(database_url(&path("/a?b#c%41")), "file:/a%3fb%23c%2541?mode=ro");
    assert_eq!(database_url(&path("/caf\u{e9} +&=")), "file:/caf\u{e9} +&=?mode=ro");

    let dir = tempfile::Builder::new().prefix("a?b#c%41&d ").tempdir().expect("temp dir");
    let (dir, path) = atuin_db_in(dir, &[("ls", "/", 1_700_000_000, 0, None)]);
    assert_eq!(commands(&load_entries(&path).expect("loads")), ["ls"]);

    // Nothing is created where there is no database, nor is anything written.
    let missing = dir.path().join("missing?.db");
    assert!(load_entries(&missing).is_err());
    assert!(!missing.exists());
    assert!(!dir.path().join("missing").exists());
    let url = database_url(&FilePath::from_text(path.to_str().expect("utf-8 path")));
    let mut connection = SqliteConnection::establish(&url).expect("opens");
    assert!(sql_query("DELETE FROM history").execute(&mut connection).is_err());
}

#[test]
fn timestamps_keep_their_fraction() {
    let seconds = 1_700_000_000_i64;
    let cases = [
        (seconds, 0),
        (seconds * 1_000 + 123, 123_000_000),
        (seconds * 1_000_000 + 123_456, 123_456_000),
        (seconds * 1_000_000_000 + 123_456_789, 123_456_789),
    ];
    for (timestamp, nanos) in cases {
        let time = timestamp_to_local(timestamp).expect("has a time");
        assert_eq!(time.seconds, seconds);
        assert_eq!(time.subsec_nanos, nanos);
        assert!(-86_400 < time.utc_offset && time.utc_offset < 86_400);
    }
}

#[test]
fn timestamps_at_the_edges() {
    assert_eq!(timestamp_to_local(0), None);
    assert_eq!(timestamp_to_local(-1), None);
    assert_eq!(timestamp_to_local(i64::MIN), None);
    assert_eq!(timestamp_to_local(1).expect("has a time").seconds, 1);
    let latest = timestamp_to_local(MAX_PLAUSIBLE_SECONDS).expect("has a time");
    assert_eq!((latest.seconds, latest.subsec_nanos), (MAX_PLAUSIBLE_SECONDS, 0));
    let past = timestamp_to_local(MAX_PLAUSIBLE_SECONDS + 1).expect("has a time");
    assert_eq!((past.seconds, past.subsec_nanos), (32_503_680, 1_000_000));
    let max = timestamp_to_local(i64::MAX).expect("has a time");
    assert_eq!((max.seconds, max.subsec_nanos), (9_223_372_036, 854_775_807));
}

#[test]
fn exit_statuses_become_exit_codes() {
    let code = |exit: i64| row(1, exit).into_entry().exit_code.map(|code| code.value());
    assert_eq!(code(0), Some(0));
    assert_eq!(code(130), Some(130));
    assert_eq!(code(i64::from(i32::MAX)), Some(i32::MAX));
    assert_eq!(code(i64::from(i32::MAX) + 1), Some(i32::MIN));
    assert_eq!(code(0x1_0000_0000 + 5), Some(5));
    assert_eq!(code(0xffff_ffff), Some(-1));
    assert_eq!(code(-1), None);
    assert_eq!(code(-2), None);
}

#[test]
fn an_empty_directory_is_no_directory() {
    let entry = row(0, 0).into_entry();
    assert_eq!(entry.command, "ls");
    assert_eq!(entry.pwd, None);
    assert_eq!(entry.start_ts, None);
    assert!(!entry.is_agent_executed);
}

#[test]
fn a_database_that_cannot_be_read_counts_as_absent() {
    let entries = vec![row(1, 0).into_entry(), HistoryEntry::command_only("cd".to_owned())];
    let shared = load_shared_entries::<String>(Ok(entries)).expect("has entries");
    let commands: Vec<&str> = shared.iter().map(|entry| entry.command.as_str()).collect();
    assert_eq!(commands, ["ls", "cd"]);
    assert!(load_shared_entries(Err("locked")).is_none());
}
