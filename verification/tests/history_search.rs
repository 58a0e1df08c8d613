use std::sync::Arc;

use lx_term::history::data_source::{
    history_data_source, history_data_source_for_session, history_data_source_from_shared,
    AtuinCache, HistoryDataSource, HistorySearch, HistorySearchItem, ATUIN_CACHE_TTL, CHUNK_LEN,
};
use lx_term::history::entry::HistoryEntry;

fn entry(command: &str) -> HistoryEntry {
    HistoryEntry::command_only(command.to_owned())
}

fn commands(source: &HistoryDataSource) -> Vec<&str> {
    source.commands.iter().map(|entry| entry.command.as_str()).collect()
}

/// Searches for commands that contain the query, and counts the chunks.
fn search(source: &HistoryDataSource, query: &str) -> (Vec<HistorySearchItem<usize>>, usize) {
    let mut search: HistorySearch<usize> = HistorySearch::new(source.snapshot(query));
    let mut chunks = 0;
    while search.match_chunk(&|command: &str, query: &str| command.find(query)) {
        chunks += 1;
    }
    (search.into_results(), chunks)
}

#[test]
fn a_source_holds_the_commands_in_order() {
    let source = history_data_source(vec![entry("a"), entry("b"), entry("a")]);
    assert_eq!(commands(&source), ["a", "b", "a"]);
    let snapshot = source.snapshot("query");
    assert_eq!(snapshot.query_text, "query");
    assert!(Arc::ptr_eq(&snapshot.commands, &source.commands));
}

#[test]
fn agent_commands_are_left_out_unless_asked_for() {
    let history = || {
        let mut agent = entry("by agent");
        agent.is_agent_executed = true;
        Some(vec![Arc::new(entry("one")), Arc::new(agent), Arc::new(entry("two"))])
    };
    assert_eq!(commands(&history_data_source_for_session(history(), false)), ["one", "two"]);
    assert_eq!(
        commands(&history_data_source_for_session(history(), true)),
        ["one", "by agent", "two"]
    );
    assert!(commands(&history_data_source_for_session(None, true)).is_empty());
}

#[test]
fn a_search_finds_what_matches_in_order() {
    let source = history_data_source(vec![
        entry("git status"),
        entry("ls"),
        entry("echo git"),
        entry("GIT"),
    ]);
    let (found, chunks) = search(&source, "git");
    let found: Vec<(&str, usize)> =
        found.iter().map(|item| (item.entry.command.as_str(), item.match_result)).collect();
    assert_eq!(found, [("git status", 0), ("echo git", 5)]);
    assert_eq!(chunks, 1);
    assert!(search(&source, "absent").0.is_empty());
}

#[test]
fn a_search_takes_the_outcomes_as_they_come() {
    let source = history_data_source(vec![entry("a"), entry("b"), entry("c")]);
    let mut search: HistorySearch<char> = HistorySearch::new(source.snapshot(""));
    assert_eq!(search.next_chunk(), Some((0, 3)));
    search.accept(vec![Some('x')]);
    assert_eq!(search.next_chunk(), Some((1, 3)));
    search.accept(vec![None, Some('y')]);
    assert_eq!(search.next_chunk(), None);
    let found: Vec<(String, char)> = search
        .into_results()
        .into_iter()
        .map(|item| (item.entry.command.clone(), item.match_result))
        .collect();
    assert_eq!(found, [("a".to_owned(), 'x'), ("c".to_owned(), 'y')]);
}

#[test]
fn a_search_of_nothing_takes_no_chunk() {
    let (found, chunks) = search(&history_data_source(Vec::new()), "git");
    assert!(found.is_empty());
    assert_eq!(chunks, 0);
}

#[test]
fn a_long_history_is_searched_in_chunks() {
    assert_eq!(CHUNK_LEN, 512);
    for (len, expected) in [(1, 1), (511, 1), (512, 1), (513, 2), (1024, 2), (1300, 3)] {
        let all: Vec<HistoryEntry> = (0..len).map(|n| entry(&format!("run {n}"))).collect();
        let (found, chunks) = search(&history_data_source(all), "run");
        assert_eq!(chunks, expected);
        assert_eq!(found.len(), len);
        for (n, item) in found.iter().enumerate() {
            assert_eq!(item.entry.command, format!("run {n}"));
        }
    }
}

#[test]
fn a_read_is_reused_until_the_cache_expires() {
    assert_eq!(ATUIN_CACHE_TTL, 30_000_000_000);
    let mut cache = AtuinCache::new();
    assert!(cache.is_stale(0));
    assert!(cache.atuin_history_data_source().is_none());

    let entries = history_data_source(vec![entry("ls")]).commands;
    cache.store(100, Some(entries));
    assert!(!cache.is_stale(100));
    assert!(!cache.is_stale(99));
    assert!(!cache.is_stale(100 + ATUIN_CACHE_TTL - 1));
    assert!(cache.is_stale(100 + ATUIN_CACHE_TTL));
    assert_eq!(commands(&cache.atuin_history_data_source().expect("has entries")), ["ls"]);
}

#[test]
fn an_absent_database_is_remembered_too() {
    let mut cache = AtuinCache::new();
    cache.store(5, None);
    assert!(!cache.is_stale(6));
    assert!(cache.atuin_history_data_source().is_none());
}

#[test]
fn shared_commands_are_not_copied() {
    let shared = Arc::new(vec![Arc::new(entry("ls"))]);
    let source = history_data_source_from_shared(shared.clone());
    assert!(Arc::ptr_eq(&source.commands, &shared));
}
