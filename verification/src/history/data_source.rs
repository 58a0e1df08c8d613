//! The sources of commands for a history search, and the search itself.

use std::sync::Arc;

use vstd::prelude::*;

use crate::history::atuin::share_entries;
use crate::history::entry::HistoryEntry;

verus! {

/// How long atuin's history is reused before it is read from disk again, in
/// nanoseconds.
///
/// Reading it is fast but not free, and command search is opened often.
pub const ATUIN_CACHE_TTL: u128 = 30_000_000_000;

/// How many commands a search matches before it lets others have a turn.
pub const CHUNK_LEN: usize = 512;

/// A source of commands to search.
#[derive(Debug)]
pub struct HistoryDataSource {
    pub commands: Arc<Vec<Arc<HistoryEntry>>>,
}

/// What a search works on: the commands and what is looked for.
#[derive(Debug)]
pub struct HistorySnapshot {
    pub commands: Arc<Vec<Arc<HistoryEntry>>>,
    pub query_text: String,
}

/// A command that matches, and how.
#[derive(Debug)]
pub struct HistorySearchItem<M> {
    pub entry: Arc<HistoryEntry>,
    pub match_result: M,
}

/// Creates a data source for shell history commands.
pub fn history_data_source(commands: Vec<HistoryEntry>) -> (r: HistoryDataSource)
    ensures
        r.commands@ =~= commands@.map_values(|entry: HistoryEntry| Arc::new(entry)),
{
    history_data_source_from_shared(Arc::new(share_entries(commands)))
}

/// Creates a data source for commands that are shared already.
pub fn history_data_source_from_shared(commands: Arc<Vec<Arc<HistoryEntry>>>) -> (r:
    HistoryDataSource)
    ensures
        r.commands == commands,
{
    HistoryDataSource { commands }
}

/// The commands of `entries` to search: all of them, or those that no agent
/// ran.
pub open spec fn searchable(
    entries: Seq<Arc<HistoryEntry>>,
    include_agent_commands: bool,
) -> Seq<Arc<HistoryEntry>> {
    entries.filter(
        |entry: Arc<HistoryEntry>| include_agent_commands || !entry.is_agent_executed,
    )
}

/// Creates a data source for the history of a session, which is empty for a
/// session that has none.
pub fn history_data_source_for_session(
    history: Option<Vec<Arc<HistoryEntry>>>,
    include_agent_commands: bool,
) -> (r: HistoryDataSource)
    ensures
        r.commands@ == searchable(
            match history {
                Some(entries) => entries@,
                None => Seq::empty(),
            },
            include_agent_commands,
        ),
        include_agent_commands ==> r.commands@ == (match history {
            Some(entries) => entries@,
            None => Seq::empty(),
        }),
{
    let entries: Vec<Arc<HistoryEntry>> = match history {
        Some(entries) => entries,
        None => Vec::new(),
    };
    let ghost all = entries@;
    let ghost keeps = |entry: Arc<HistoryEntry>|
        include_agent_commands || !entry.is_agent_executed;
    let mut kept: Vec<Arc<HistoryEntry>> = Vec::new();
    proof {
        reveal(Seq::filter);
    }
    for entry in it: entries
        invariant
            it.seq() == all,
            keeps == (|entry: Arc<HistoryEntry>|
                include_agent_commands || !entry.is_agent_executed),
            kept@ == all.take(it.index() as int).filter(keeps),
    {
        proof {
            reveal(Seq::filter);
            let n = it.index() as int;
            assert(all.take(n + 1).drop_last() == all.take(n));
            assert(all.take(n + 1).last() == entry);
        }
        if include_agent_commands || !entry.is_agent_executed {
            kept.push(entry);
        }
    }
    assert(all.take(all.len() as int) == all);
    proof {
        law_all_commands_are_searched_if_asked_for(all);
    }
    history_data_source_from_shared(Arc::new(kept))
}

impl HistoryDataSource {
    /// What a search for `query_text` works on.
    pub fn snapshot(&self, query_text: &str) -> (r: HistorySnapshot)
        ensures
            r.commands == self.commands,
            r.query_text@ == query_text@,
    {
        HistorySnapshot { commands: self.commands.clone(), query_text: query_text.to_owned() }
    }
}

/// A read of atuin's history.
#[derive(Debug)]
struct AtuinRead {
    /// When it was taken, in nanoseconds on a clock that does not go back.
    loaded_at: u128,
    /// What it gave, or `None` if atuin is not set up on this machine.
    entries: Option<Arc<Vec<Arc<HistoryEntry>>>>,
}

/// The result of the last read of atuin's history.
///
/// That atuin is not set up is kept like any other answer, so that a missing
/// database is not looked for on every keystroke.
#[derive(Debug)]
pub struct AtuinCache {
    last: Option<AtuinRead>,
}

/// The last read of atuin's history.
pub struct ReadView {
    pub loaded_at: u128,
    pub entries: Option<Arc<Vec<Arc<HistoryEntry>>>>,
}

/// Whether atuin's history is to be read at the time `now`.
pub open spec fn stale(last: Option<ReadView>, now: u128) -> bool {
    match last {
        Some(read) => now - read.loaded_at >= ATUIN_CACHE_TTL,
        None => true,
    }
}

impl View for AtuinCache {
    type V = Option<ReadView>;

    closed spec fn view(&self) -> Option<ReadView> {
        match self.last {
            Some(read) => Some(ReadView { loaded_at: read.loaded_at, entries: read.entries }),
            None => None,
        }
    }
}

impl AtuinCache {
    /// A cache before the first read.
    pub fn new() -> (r: AtuinCache)
        ensures
            r@ is None,
    {
        AtuinCache { last: None }
    }

    /// Whether atuin's history is to be read again.
    pub fn is_stale(&self, now: u128) -> (r: bool)
        ensures
            r == stale(self@, now),
    {
        match &self.last {
            Some(read) => now >= read.loaded_at && now - read.loaded_at >= ATUIN_CACHE_TTL,
            None => true,
        }
    }

    /// Keeps the result of a read that was begun at the time `now`.
    pub fn store(&mut self, now: u128, entries: Option<Arc<Vec<Arc<HistoryEntry>>>>)
        ensures
            final(self)@ == Some(ReadView { loaded_at: now, entries }),
    {
        self.last = Some(AtuinRead { loaded_at: now, entries });
    }

    /// The data source over atuin's history as it was last read, if atuin is
    /// set up on this machine.
    ///
    /// This is a second source rather than something merged into the session's
    /// history because the two answer different questions.
    pub fn atuin_history_data_source(&self) -> (r: Option<HistoryDataSource>)
        ensures
            match r {
                Some(source) => self@ is Some && self@->0.entries == Some(source.commands),
                None => self@ is None || self@->0.entries is None,
            },
    {
        match &self.last {
            Some(read) => match &read.entries {
                Some(entries) => Some(history_data_source_from_shared(entries.clone())),
                None => None,
            },
            None => None,
        }
    }
}

/// A read answers for as long as the cache lives, and no longer, also if it
/// found no database.
pub proof fn law_read_is_reused_until_the_cache_expires(read: ReadView, now: u128)
    requires
        read.loaded_at <= now,
    ensures
        stale(Some(read), now) <==> now >= read.loaded_at + ATUIN_CACHE_TTL,
        !stale(Some(read), read.loaded_at),
        stale(None, now),
{
}

/// The commands that match, in order, given how each of the first commands
/// fared.
pub open spec fn matched<M>(
    commands: Seq<Arc<HistoryEntry>>,
    outcomes: Seq<Option<M>>,
) -> Seq<HistorySearchItem<M>>
    decreases outcomes.len(),
{
    if outcomes.len() == 0 {
        Seq::empty()
    } else {
        let before = matched(commands, outcomes.drop_last());
        match outcomes.last() {
            Some(match_result) => before.push(
                HistorySearchItem { entry: commands[outcomes.len() - 1], match_result },
            ),
            None => before,
        }
    }
}

/// The places of the commands that match.
pub open spec fn hits<M>(outcomes: Seq<Option<M>>) -> Seq<int>
    decreases outcomes.len(),
{
    if outcomes.len() == 0 {
        Seq::empty()
    } else if outcomes.last() is Some {
        hits(outcomes.drop_last()).push(outcomes.len() - 1)
    } else {
        hits(outcomes.drop_last())
    }
}

/// A search finds exactly the commands that match, each once, in the order of
/// the history.
pub proof fn law_search_finds_what_matches<M>(
    commands: Seq<Arc<HistoryEntry>>,
    outcomes: Seq<Option<M>>,
)
    requires
        outcomes.len() <= commands.len(),
    ensures
        matched(commands, outcomes).len() == hits(outcomes).len(),
        forall|i: int|
            0 <= i < hits(outcomes).len() ==> {
                let at = #[trigger] hits(outcomes)[i];
                &&& 0 <= at < outcomes.len()
                &&& outcomes[at] is Some
                &&& matched(commands, outcomes)[i] == HistorySearchItem {
                    entry: commands[at],
                    match_result: outcomes[at]->0,
                }
            },
        forall|i: int, j: int|
            0 <= i < j < hits(outcomes).len() ==> #[trigger] hits(outcomes)[i] < #[trigger] hits(
                outcomes,
            )[j],
        forall|at: int|
            0 <= at < outcomes.len() && (#[trigger] outcomes[at]) is Some ==> hits(
                outcomes,
            ).contains(at),
    decreases outcomes.len(),
{
    if outcomes.len() > 0 {
        let before = outcomes.drop_last();
        law_search_finds_what_matches(commands, before);
        let n = hits(before).len() as int;
        assert forall|i: int| 0 <= i < n implies hits(outcomes)[i] == #[trigger] hits(
            before,
        )[i] by {}
        assert forall|at: int|
            0 <= at < outcomes.len() && (#[trigger] outcomes[at]) is Some implies hits(
            outcomes,
        ).contains(at) by {
            if at < before.len() {
                assert(before[at] == outcomes[at]);
                let i = choose|i: int| 0 <= i < n && hits(before)[i] == at;
                assert(hits(outcomes)[i] == at);
            } else {
                assert(hits(outcomes)[n] == at);
            }
        }
    }
}

/// A search under way.
///
/// It goes through the commands chunk by chunk. Whoever drives it may let others
/// have a turn before the next one.
pub struct HistorySearch<M> {
    snapshot: HistorySnapshot,
    position: usize,
    results: Vec<HistorySearchItem<M>>,
    outcomes: Ghost<Seq<Option<M>>>,
}

/// Whether `outcome` is what `matcher` can make of `command` and `query`, in
/// this order.
pub open spec fn is_outcome<M, F: Fn(&str, &str) -> Option<M>>(
    matcher: F,
    command: Seq<char>,
    query: Seq<char>,
    outcome: Option<M>,
) -> bool {
    exists|c: &str, q: &str|
        c@ == command && q@ == query && #[trigger] matcher.ensures((c, q), outcome)
}

/// The place behind the last command of the chunk that starts at `position`.
pub open spec fn chunk_end(position: int, len: int) -> int {
    if position + CHUNK_LEN <= len {
        position + CHUNK_LEN
    } else {
        len
    }
}

impl<M> HistorySearch<M> {
    /// The commands that are searched.
    pub closed spec fn commands(&self) -> Seq<Arc<HistoryEntry>> {
        self.snapshot.commands@
    }

    /// What is looked for.
    pub closed spec fn query(&self) -> Seq<char> {
        self.snapshot.query_text@
    }

    /// How the commands fared that have been matched so far.
    pub closed spec fn seen(&self) -> Seq<Option<M>> {
        self.outcomes@
    }

    /// Whether what was found so far is what matches so far.
    pub closed spec fn wf(&self) -> bool {
        &&& self.position == self.outcomes@.len()
        &&& self.position <= self.snapshot.commands@.len()
        &&& self.results@ == matched(self.snapshot.commands@, self.outcomes@)
    }

    /// Starts a search.
    pub fn new(snapshot: HistorySnapshot) -> (r: HistorySearch<M>)
        ensures
            r.wf(),
            r.commands() == snapshot.commands@,
            r.query() == snapshot.query_text@,
            r.seen() == Seq::<Option<M>>::empty(),
    {
        HistorySearch {
            snapshot,
            position: 0,
            results: Vec::new(),
            outcomes: Ghost(Seq::empty()),
        }
    }

    /// The places of the first and behind the last command to match next, or
    /// `None` if all have been matched.
    pub fn next_chunk(&self) -> (r: Option<(usize, usize)>)
        requires
            self.wf(),
        ensures
            match r {
                Some((start, end)) => {
                    &&& start == self.seen().len() < self.commands().len()
                    &&& end == chunk_end(start as int, self.commands().len() as int)
                },
                None => self.seen().len() == self.commands().len(),
            },
    {
        let len = self.snapshot.commands.len();
        if self.position == len {
            return None;
        }
        let end = if len - self.position >= CHUNK_LEN {
            self.position + CHUNK_LEN
        } else {
            len
        };
        Some((self.position, end))
    }

    /// Takes note of how the commands of the next chunk fared.
    pub fn accept(&mut self, outcomes: Vec<Option<M>>)
        requires
            old(self).wf(),
            old(self).seen().len() + outcomes@.len() <= old(self).commands().len(),
        ensures
            final(self).wf(),
            final(self).commands() == old(self).commands(),
            final(self).query() == old(self).query(),
            final(self).seen() == old(self).seen() + outcomes@,
    {
        let ghost before = self.outcomes@;
        let ghost new = outcomes@;
        let ghost query = self.query();
        let ghost commands = self.snapshot.commands@;
        let len = self.snapshot.commands.len();
        assert(before + new.take(0) == before);
        for outcome in it: outcomes
            invariant
                it.seq() == new,
                commands == self.snapshot.commands@,
                commands.len() == len,
                self.snapshot.query_text@ == query,
                self.outcomes@ == before + new.take(it.index() as int),
                before.len() + new.len() <= commands.len(),
                self.position == self.outcomes@.len(),
                self.results@ == matched(commands, self.outcomes@),
        {
            let ghost seen = self.outcomes@;
            proof {
                let n = it.index() as int;
                assert(before + new.take(n + 1) == seen.push(outcome));
                assert(seen.push(outcome).drop_last() == seen);
            }
            match outcome {
                Some(match_result) => {
                    let entry = self.snapshot.commands[self.position].clone();
                    self.results.push(HistorySearchItem { entry, match_result });
                },
                None => {},
            }
            self.position = self.position + 1;
            self.outcomes = Ghost(seen.push(outcome));
        }
        assert(new.take(new.len() as int) == new);
    }

    /// Matches the commands of the next chunk against the query, if there is
    /// one. The result tells whether there was.
    pub fn match_chunk<F: Fn(&str, &str) -> Option<M>>(&mut self, matcher: &F) -> (r: bool)
        requires
            old(self).wf(),
            forall|c: &str, q: &str| #[trigger] matcher.requires((c, q)),
        ensures
            final(self).wf(),
            final(self).commands() == old(self).commands(),
            final(self).query() == old(self).query(),
            r == (old(self).seen().len() < old(self).commands().len()),
            final(self).seen().len() == chunk_end(
                old(self).seen().len() as int,
                old(self).commands().len() as int,
            ),
            forall|i: int|
                0 <= i < old(self).seen().len() ==> #[trigger] final(self).seen()[i] == old(
                    self,
                ).seen()[i],
            forall|i: int|
                old(self).seen().len() <= i < final(self).seen().len() ==> is_outcome(
                    *matcher,
                    old(self).commands()[i].command@,
                    old(self).query(),
                    #[trigger] final(self).seen()[i],
                ),
    {
        let (start, end) = match self.next_chunk() {
            Some(chunk) => chunk,
            None => {
                return false;
            },
        };
        let mut outcomes: Vec<Option<M>> = Vec::new();
        let mut at: usize = start;
        while at < end
            invariant
                start <= at <= end <= self.commands().len(),
                outcomes@.len() == at - start,
                forall|c: &str, q: &str| #[trigger] matcher.requires((c, q)),
                forall|i: int|
                    0 <= i < outcomes@.len() ==> is_outcome(
                        *matcher,
                        self.commands()[start + i].command@,
                        self.query(),
                        #[trigger] outcomes@[i],
                    ),
            decreases end - at,
        {
            let command = self.snapshot.commands[at].command.as_str();
            let outcome = matcher(command, self.snapshot.query_text.as_str());
            assert(is_outcome(*matcher, command@, self.query(), outcome));
            outcomes.push(outcome);
            at = at + 1;
        }
        self.accept(outcomes);
        true
    }

    /// What the search found.
    pub fn into_results(self) -> (r: Vec<HistorySearchItem<M>>)
        requires
            self.wf(),
        ensures
            r@ == matched(self.commands(), self.seen()),
    {
        self.results
    }
}

/// How far a search of `len` commands has come after `chunks` chunks.
pub open spec fn position_after(chunks: nat, len: nat) -> int
    decreases chunks,
{
    if chunks == 0 {
        0
    } else {
        chunk_end(position_after((chunks - 1) as nat, len), len as int)
    }
}

/// The chunks of a search cover the commands without a gap: after so many
/// chunks, that many times the length of one has been matched, or everything.
pub proof fn law_chunks_cover_the_history(chunks: nat, len: nat)
    ensures
        position_after(chunks, len) == if chunks * CHUNK_LEN <= len {
            (chunks * CHUNK_LEN) as int
        } else {
            len as int
        },
    decreases chunks,
{
    if chunks > 0 {
        law_chunks_cover_the_history((chunks - 1) as nat, len);
    }
}

/// With the commands of agents, everything is searched, in order.
pub proof fn law_all_commands_are_searched_if_asked_for(entries: Seq<Arc<HistoryEntry>>)
    ensures
        searchable(entries, true) == entries,
    decreases entries.len(),
{
    reveal(Seq::filter);
    if entries.len() > 0 {
        law_all_commands_are_searched_if_asked_for(entries.drop_last());
        assert(entries.drop_last().push(entries.last()) == entries);
    } else {
        assert(entries == Seq::<Arc<HistoryEntry>>::empty());
    }
}

/// Without the commands of agents, each of the others is searched, in its place,
/// as often as it occurs, and nothing about a command plays a part but whether
/// an agent ran it.
pub proof fn law_only_agents_commands_are_left_out(
    entries: Seq<Arc<HistoryEntry>>,
    entry: Arc<HistoryEntry>,
)
    ensures
        searchable(Seq::empty(), false) == Seq::<Arc<HistoryEntry>>::empty(),
        !entry.is_agent_executed ==> searchable(entries.push(entry), false) == searchable(
            entries,
            false,
        ).push(entry),
        entry.is_agent_executed ==> searchable(entries.push(entry), false) == searchable(
            entries,
            false,
        ),
        searchable(entries, false).contains(entry) <==> entries.contains(entry)
            && !entry.is_agent_executed,
    decreases entries.len(),
{
    reveal(Seq::filter);
    assert(entries.push(entry).drop_last() == entries);
    if entries.len() > 0 {
        let before = entries.drop_last();
        let last = entries.last();
        law_only_agents_commands_are_left_out(before, entry);
        let found = searchable(before, false);
        assert(before.push(last) == entries);
        lemma_contains_push(before, last, entry);
        lemma_contains_push(found, last, entry);
    }
}

proof fn lemma_contains_push<A>(s: Seq<A>, last: A, x: A)
    ensures
        s.push(last).contains(x) <==> s.contains(x) || x == last,
{
    let t = s.push(last);
    if s.contains(x) {
        let k = choose|k: int| 0 <= k < s.len() && s[k] == x;
        assert(t[k] == x);
    }
    if x == last {
        assert(t[s.len() as int] == x);
    }
    if t.contains(x) {
        let k = choose|k: int| 0 <= k < t.len() && t[k] == x;
        if k < s.len() {
            assert(s[k] == x);
        }
    }
}

/// A chunk is as long as a chunk may be, or reaches to the end.
pub proof fn law_length_of_a_chunk(position: int, len: int)
    requires
        0 <= position <= len,
    ensures
        ({
            let end = chunk_end(position, len);
            &&& position <= end <= len
            &&& end - position <= 512
            &&& end == len || end - position == 512
        }),
{
}

/// What counts as an outcome is what the matcher gives for the command and the
/// query themselves, in this order.
pub proof fn law_the_matcher_is_asked_about_command_and_query<M, F: Fn(&str, &str) -> Option<M>>(
    matcher: F,
    command: Seq<char>,
    query: Seq<char>,
    outcome: Option<M>,
)
    ensures
        is_outcome(matcher, command, query, outcome) <==> exists|c: &str, q: &str|
            c@ == command && q@ == query && #[trigger] matcher.ensures((c, q), outcome),
{
}

/// Each outcome adds one command to what was found or none, and that command is
/// the one the outcome is about.
pub proof fn law_each_outcome_counts_for_its_command<M>(
    commands: Seq<Arc<HistoryEntry>>,
    outcomes: Seq<Option<M>>,
    match_result: M,
)
    requires
        outcomes.len() < commands.len(),
    ensures
        matched(commands, Seq::<Option<M>>::empty()).len() == 0,
        matched(commands, outcomes.push(None)) == matched(commands, outcomes),
        matched(commands, outcomes.push(Some(match_result))) == matched(commands, outcomes).push(
            HistorySearchItem { entry: commands[outcomes.len() as int], match_result },
        ),
{
    assert(outcomes.push(None).drop_last() == outcomes);
    assert(outcomes.push(Some(match_result)).drop_last() == outcomes);
}

/// A read is good for thirty seconds.
pub proof fn law_how_long_a_read_is_good(read: ReadView, now: u128)
    ensures
        stale(Some(read), now) <==> now >= read.loaded_at + 30_000_000_000,
        stale(None, now),
{
}

} // verus!
