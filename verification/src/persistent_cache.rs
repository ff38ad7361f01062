//! Durable store of directory sizes and of the recent folders, seen from the
//! foreground: what a stored size is still worth, the commands that the
//! writer receives over a bounded queue, and what each command does to the
//! two tables of the store.

use vstd::prelude::*;
use crate::channel::{try_send, write_channel, write_queue_limit, SendOutcome};
use crate::clock::{unix_seconds, wall_clock_now};
use crate::sorting::{insert_pos, lemma_insert_pos_take, lemma_sort_by, sort_by, sorted_by,
    total_preorder};
use crate::text::string_views;

verus! {

/// Default time, in seconds, for which a stored size is honored.
pub const DEFAULT_SIZE_TTL_SECS: u64 = 3600;

/// Number of commands that the write queue holds.
pub const WRITE_QUEUE_CAPACITY: usize = 64;

/// A stored size with the time at which it was written, in seconds since the
/// Unix epoch.
#[derive(Debug, Clone, Copy, PartialEq, Eq, Structural)]
pub struct SizeRecord {
    pub size: u64,
    pub timestamp: u64,
}

/// Seconds that have passed at `now` since `timestamp`; zero for a time
/// stamp that lies ahead.
pub open spec fn record_age(timestamp: u64, now: u64) -> nat {
    if now >= timestamp {
        (now - timestamp) as nat
    } else {
        0
    }
}

/// What a read of the size table is worth at `now`: the stored size, unless
/// nothing is stored or more than `ttl` seconds have passed since the write.
pub open spec fn size_if_fresh(record: Option<SizeRecord>, now: u64, ttl: u64) -> Option<u64> {
    match record {
        Some(r) => if record_age(r.timestamp, now) <= ttl {
            Some(r.size)
        } else {
            None
        },
        None => None,
    }
}

/// The stored size if it is still honored at `now`.
pub fn fresh_size(record: Option<SizeRecord>, now: u64, ttl_secs: u64) -> (size: Option<u64>)
    ensures
        size == size_if_fresh(record, now, ttl_secs),
{
    match record {
        Some(r) => {
            if now.saturating_sub(r.timestamp) > ttl_secs {
                None
            } else {
                Some(r.size)
            }
        },
        None => None,
    }
}

/// A write that the foreground hands to the writer.
#[derive(Debug)]
pub enum CacheWriteCommand {
    /// Store the size of a directory.
    WriteSize { path: String, size: u64, timestamp: u64 },
    /// Replace the stored recent folders, the newest first.
    WriteHistory { entries: Vec<String> },
}

/// What a `CacheWriteCommand` holds, as plain values.
pub enum CommandView {
    WriteSize { path: Seq<char>, size: u64, timestamp: u64 },
    WriteHistory { entries: Seq<Seq<char>> },
}

impl View for CacheWriteCommand {
    type V = CommandView;

    open spec fn view(&self) -> CommandView {
        match *self {
            CacheWriteCommand::WriteSize { path, size, timestamp } => CommandView::WriteSize {
                path: path@,
                size,
                timestamp,
            },
            CacheWriteCommand::WriteHistory { entries } => CommandView::WriteHistory {
                entries: string_views(entries@),
            },
        }
    }
}

/// The command that stores `size` for `path`. It is stamped with `now`, and
/// with zero where the clock gave no time.
pub fn size_command(path: &String, size: u64, now: Option<u64>) -> (command: CacheWriteCommand)
    ensures
        command@ == (CommandView::WriteSize {
            path: path@,
            size,
            timestamp: match now {
                Some(t) => t,
                None => 0,
            },
        }),
{
    let timestamp = match now {
        Some(t) => t,
        None => 0,
    };
    CacheWriteCommand::WriteSize { path: path.clone(), size, timestamp }
}

/// A copy of a list of strings.
pub fn clone_strings(list: &Vec<String>) -> (copy: Vec<String>)
    ensures
        string_views(copy@) == string_views(list@),
{
    let mut copy: Vec<String> = Vec::new();
    let mut i: usize = 0;
    while i < list.len()
        invariant
            i <= list.len(),
            copy.len() == i,
            forall|j: int| 0 <= j < i ==> copy@[j]@ == list@[j]@,
        decreases list.len() - i,
    {
        copy.push(list[i].clone());
        i = i + 1;
    }
    assert(string_views(copy@) =~= string_views(list@));
    copy
}

/// The command that replaces the stored recent folders by `entries`.
pub fn history_command(entries: &Vec<String>) -> (command: CacheWriteCommand)
    ensures
        command@ == (CommandView::WriteHistory { entries: string_views(entries@) }),
{
    CacheWriteCommand::WriteHistory { entries: clone_strings(entries) }
}

/// One change of the store.
#[derive(Debug)]
pub enum StoreOp {
    /// Set the size record of a path.
    PutSize { path: String, size: u64, timestamp: u64 },
    /// Remove the recent folder of a rank.
    RemoveHistory { rank: u64 },
    /// Set the recent folder of a rank.
    PutHistory { rank: u64, path: String },
}

/// What a `StoreOp` holds, as plain values.
pub enum StoreOpView {
    PutSize { path: Seq<char>, size: u64, timestamp: u64 },
    RemoveHistory { rank: u64 },
    PutHistory { rank: u64, path: Seq<char> },
}

impl View for StoreOp {
    type V = StoreOpView;

    open spec fn view(&self) -> StoreOpView {
        match *self {
            StoreOp::PutSize { path, size, timestamp } => StoreOpView::PutSize {
                path: path@,
                size,
                timestamp,
            },
            StoreOp::RemoveHistory { rank } => StoreOpView::RemoveHistory { rank },
            StoreOp::PutHistory { rank, path } => StoreOpView::PutHistory { rank, path: path@ },
        }
    }
}

/// What a list of changes holds, one by one.
pub open spec fn op_views(ops: Seq<StoreOp>) -> Seq<StoreOpView> {
    ops.map_values(|op: StoreOp| op@)
}

/// The two tables of the store as a mathematical value.
pub struct StoreModel {
    /// Size records by path.
    pub sizes: Map<Seq<char>, SizeRecord>,
    /// Recent folders by rank; rank 0 is the newest.
    pub history: Map<u64, Seq<char>>,
}

impl StoreModel {
    /// The store after one change.
    pub open spec fn apply(self, op: StoreOpView) -> StoreModel {
        match op {
            StoreOpView::PutSize { path, size, timestamp } => StoreModel {
                sizes: self.sizes.insert(path, SizeRecord { size, timestamp }),
                ..self
            },
            StoreOpView::RemoveHistory { rank } => StoreModel {
                history: self.history.remove(rank),
                ..self
            },
            StoreOpView::PutHistory { rank, path } => StoreModel {
                history: self.history.insert(rank, path),
                ..self
            },
        }
    }

    /// The store after a list of changes, made in order.
    pub open spec fn apply_all(self, ops: Seq<StoreOpView>) -> StoreModel
        decreases ops.len(),
    {
        if ops.len() == 0 {
            self
        } else {
            self.apply_all(ops.drop_last()).apply(ops.last())
        }
    }
}

/// The removals that empty a history table which holds the ranks `stored`.
pub open spec fn history_removals(stored: Seq<u64>) -> Seq<StoreOpView> {
    Seq::new(stored.len(), |i: int| StoreOpView::RemoveHistory { rank: stored[i] })
}

/// The insertions that store `entries` by rank, the first at rank 0.
pub open spec fn history_insertions(entries: Seq<Seq<char>>) -> Seq<StoreOpView> {
    Seq::new(entries.len(), |i: int| StoreOpView::PutHistory { rank: i as u64, path: entries[i] })
}

/// The changes that a command asks for, where the history table holds the
/// ranks `stored`: a size write sets one record; a history write removes
/// every stored rank and then stores the new entries by rank.
pub open spec fn planned_ops(command: CommandView, stored: Seq<u64>) -> Seq<StoreOpView> {
    match command {
        CommandView::WriteSize { path, size, timestamp } => seq![
            StoreOpView::PutSize { path, size, timestamp },
        ],
        CommandView::WriteHistory { entries } => history_removals(stored) + history_insertions(
            entries,
        ),
    }
}

/// The changes that the writer makes for `command`, in order, where
/// `stored_ranks` are the ranks that the history table holds.
pub fn plan_write(command: &CacheWriteCommand, stored_ranks: &Vec<u64>) -> (ops: Vec<StoreOp>)
    ensures
        op_views(ops@) == planned_ops(command@, stored_ranks@),
{
    let mut ops: Vec<StoreOp> = Vec::new();
    match command {
        CacheWriteCommand::WriteSize { path, size, timestamp } => {
            ops.push(StoreOp::PutSize { path: path.clone(), size: *size, timestamp: *timestamp });
            assert(op_views(ops@) =~= planned_ops(command@, stored_ranks@));
        },
        CacheWriteCommand::WriteHistory { entries } => {
            let mut i: usize = 0;
            while i < stored_ranks.len()
                invariant
                    i <= stored_ranks.len(),
                    ops.len() == i,
                    forall|j: int|
                        0 <= j < i ==> ops@[j]@ == (StoreOpView::RemoveHistory {
                            rank: stored_ranks@[j],
                        }),
                decreases stored_ranks.len() - i,
            {
                ops.push(StoreOp::RemoveHistory { rank: stored_ranks[i] });
                i = i + 1;
            }
            let mut k: usize = 0;
            while k < entries.len()
                invariant
                    k <= entries.len(),
                    ops.len() == stored_ranks.len() + k,
                    forall|j: int|
                        0 <= j < stored_ranks.len() ==> ops@[j]@ == (StoreOpView::RemoveHistory {
                            rank: stored_ranks@[j],
                        }),
                    forall|j: int|
                        0 <= j < k ==> ops@[stored_ranks.len() + j]@ == (StoreOpView::PutHistory {
                            rank: j as u64,
                            path: entries@[j]@,
                        }),
                decreases entries.len() - k,
            {
                ops.push(StoreOp::PutHistory { rank: k as u64, path: entries[k].clone() });
                k = k + 1;
            }
            assert(op_views(ops@) =~= planned_ops(command@, stored_ranks@));
        },
    }
    ops
}

/// One row of the history table.
#[derive(Debug)]
pub struct HistoryRow {
    pub rank: u64,
    pub path: String,
}

/// What a `HistoryRow` holds, as plain values.
pub struct HistoryRowView {
    pub rank: u64,
    pub path: Seq<char>,
}

impl View for HistoryRow {
    type V = HistoryRowView;

    open spec fn view(&self) -> HistoryRowView {
        HistoryRowView { rank: self.rank, path: self.path@ }
    }
}

impl Clone for HistoryRow {
    fn clone(&self) -> (copy: HistoryRow)
        ensures
            copy@ == self@,
    {
        HistoryRow { rank: self.rank, path: self.path.clone() }
    }
}

/// What a list of rows holds, one by one.
pub open spec fn row_views(rows: Seq<HistoryRow>) -> Seq<HistoryRowView> {
    rows.map_values(|r: HistoryRow| r@)
}

/// The order of the history: by rank, the lowest first.
pub open spec fn by_rank() -> spec_fn(HistoryRowView, HistoryRowView) -> bool {
    |a: HistoryRowView, b: HistoryRowView| a.rank <= b.rank
}

/// The recent folders that a list of rows gives: the paths of the rows in the
/// order of their ranks, rows of one rank in the order in which they came.
pub open spec fn history_of(rows: Seq<HistoryRowView>) -> Seq<Seq<char>> {
    sort_by(rows, by_rank()).map_values(|r: HistoryRowView| r.path)
}

/// The recent folders that the rows of the history table give, the newest
/// first.
pub fn order_history(rows: &Vec<HistoryRow>) -> (paths: Vec<String>)
    ensures
        string_views(paths@) == history_of(row_views(rows@)),
{
    let ghost all = row_views(rows@);
    let mut sorted: Vec<HistoryRow> = Vec::new();
    let mut i: usize = 0;
    assert(all.take(0) =~= Seq::<HistoryRowView>::empty());
    while i < rows.len()
        invariant
            i <= rows.len(),
            all == row_views(rows@),
            row_views(sorted@) == sort_by(all.take(i as int), by_rank()),
        decreases rows.len() - i,
    {
        let row = rows[i].clone();
        let ghost front = row_views(sorted@);
        let mut k: usize = sorted.len();
        while k > 0 && sorted[k - 1].rank > row.rank
            invariant
                k <= sorted.len(),
                front == row_views(sorted@),
                forall|j: int| k <= j < front.len() ==> !by_rank()(#[trigger] front[j], row@),
            decreases k,
        {
            k = k - 1;
        }
        proof {
            lemma_insert_pos_take(front, row@, by_rank(), k as int);
            let head = front.take(k as int);
            if k > 0 {
                assert(head.last() == front[k - 1]);
            }
            assert(insert_pos(head, row@, by_rank()) == k);
            assert(all.take(i + 1).drop_last() =~= all.take(i as int));
            assert(all.take(i + 1).last() == row@);
        }
        sorted.insert(k, row);
        proof {
            assert(row_views(sorted@) =~= front.insert(k as int, all[i as int]));
        }
        i = i + 1;
    }
    assert(all.take(rows.len() as int) =~= all);
    let mut paths: Vec<String> = Vec::new();
    let mut n: usize = 0;
    while n < sorted.len()
        invariant
            n <= sorted.len(),
            paths.len() == n,
            forall|j: int| 0 <= j < n ==> paths@[j]@ == sorted@[j]@.path,
        decreases sorted.len() - n,
    {
        paths.push(sorted[n].path.clone());
        n = n + 1;
    }
    assert(string_views(paths@) =~= history_of(all));
    paths
}

/// The foreground's handle on the durable store: the sending end of the
/// write queue and the time for which a stored size is honored.
pub struct PersistentCache {
    write_sender: crossbeam_channel::Sender<CacheWriteCommand>,
    size_ttl_secs: u64,
}

impl PersistentCache {
    /// The time, in seconds, for which a stored size is honored.
    pub closed spec fn ttl(&self) -> u64 {
        self.size_ttl_secs
    }

    /// The number of commands that the write queue was made to hold.
    pub closed spec fn queue_limit(&self) -> nat {
        write_queue_limit(self.write_sender)
    }

    /// A handle that honors stored sizes for `ttl_secs` seconds, together
    /// with the receiving end of its write queue, which is for the writer.
    /// The queue holds `WRITE_QUEUE_CAPACITY` commands.
    pub fn new(ttl_secs: u64) -> (pair: (
        PersistentCache,
        crossbeam_channel::Receiver<CacheWriteCommand>,
    ))
        ensures
            pair.0.ttl() == ttl_secs,
            pair.0.queue_limit() == WRITE_QUEUE_CAPACITY,
    {
        let (sender, receiver) = write_channel(WRITE_QUEUE_CAPACITY);
        (PersistentCache { write_sender: sender, size_ttl_secs: ttl_secs }, receiver)
    }

    /// The time, in seconds, for which a stored size is honored.
    pub fn size_ttl_secs(&self) -> (ttl: u64)
        ensures
            ttl == self.ttl(),
    {
        self.size_ttl_secs
    }

    /// What `record`, read from the size table, is worth now. Nothing where
    /// the clock gives no time.
    pub fn get_size(&self, record: Option<SizeRecord>) -> (size: Option<u64>)
        ensures
            size is None || exists|now: u64|
                size == #[trigger] size_if_fresh(record, now, self.ttl()),
    {
        let time = wall_clock_now();
        match unix_seconds(&time) {
            Some(now) => {
                let size = fresh_size(record, now, self.size_ttl_secs);
                assert(size == size_if_fresh(record, now, self.ttl()));
                size
            },
            None => None,
        }
    }

    /// Hands `command` to the writer if the queue has room for it. A command
    /// that finds the queue full is dropped: the call never waits.
    pub fn submit(&self, command: CacheWriteCommand) -> SendOutcome {
        try_send(&self.write_sender, command)
    }

    /// Queues the write of a size, stamped with the current time. The write
    /// is dropped if the queue is full.
    pub fn write_size(&self, path: &String, size: u64) {
        let time = wall_clock_now();
        let command = size_command(path, size, unix_seconds(&time));
        let _ = self.submit(command);
    }

    /// The recent folders that the rows of the history table give, the newest
    /// first.
    pub fn load_history(&self, rows: &Vec<HistoryRow>) -> (paths: Vec<String>)
        ensures
            string_views(paths@) == history_of(row_views(rows@)),
    {
        order_history(rows)
    }

    /// Queues the replacement of the stored recent folders by `entries`. The
    /// write is dropped if the queue is full.
    pub fn write_history(&self, entries: &Vec<String>) {
        let command = history_command(entries);
        let _ = self.submit(command);
    }
}

/// Changes made one list after another are the changes of the joined list.
pub proof fn lemma_apply_all_add(store: StoreModel, a: Seq<StoreOpView>, b: Seq<StoreOpView>)
    ensures
        store.apply_all(a + b) == store.apply_all(a).apply_all(b),
    decreases b.len(),
{
    if b.len() == 0 {
        assert(a + b =~= a);
    } else {
        assert((a + b).drop_last() =~= a + b.drop_last());
        assert((a + b).last() == b.last());
        lemma_apply_all_add(store, a, b.drop_last());
    }
}

/// The removals take the listed ranks out of the history table and leave
/// everything else as it was.
proof fn lemma_removals(store: StoreModel, stored: Seq<u64>)
    ensures
        store.apply_all(history_removals(stored)).sizes == store.sizes,
        forall|k: u64| #[trigger]
            store.apply_all(history_removals(stored)).history.contains_key(k) <==> (
            store.history.contains_key(k) && !stored.contains(k)),
        forall|k: u64| #[trigger]
            store.apply_all(history_removals(stored)).history.contains_key(k) ==> store.apply_all(
                history_removals(stored),
            ).history[k] == store.history[k],
    decreases stored.len(),
{
    if stored.len() > 0 {
        let front = stored.drop_last();
        lemma_removals(store, front);
        assert(history_removals(stored).drop_last() =~= history_removals(front));
        let before = store.apply_all(history_removals(front));
        let after = store.apply_all(history_removals(stored));
        assert(after == before.apply(StoreOpView::RemoveHistory { rank: stored.last() }));
        assert forall|k: u64| #[trigger]
            after.history.contains_key(k) <==> (store.history.contains_key(k) && !stored.contains(
                k,
            )) by {
            if store.history.contains_key(k) && !stored.contains(k) {
                assert(k != stored[stored.len() - 1]);
                if front.contains(k) {
                    let i = choose|i: int| 0 <= i < front.len() && front[i] == k;
                    assert(stored[i] == k);
                }
                assert(before.history.contains_key(k));
            }
            if after.history.contains_key(k) {
                assert(before.history.contains_key(k));
                if stored.contains(k) {
                    let i = choose|i: int| 0 <= i < stored.len() && stored[i] == k;
                    if i < front.len() {
                        assert(front[i] == k);
                    }
                }
            }
        }
    }
}

/// The insertions store each entry at its rank and leave everything else as
/// it was.
proof fn lemma_insertions(store: StoreModel, entries: Seq<Seq<char>>)
    requires
        entries.len() <= u64::MAX,
    ensures
        store.apply_all(history_insertions(entries)).sizes == store.sizes,
        forall|k: u64| #[trigger]
            store.apply_all(history_insertions(entries)).history.contains_key(k) <==> (
            store.history.contains_key(k) || k < entries.len()),
        forall|k: u64|
            k < entries.len() ==> #[trigger] store.apply_all(
                history_insertions(entries),
            ).history[k] == entries[k as int],
    decreases entries.len(),
{
    if entries.len() > 0 {
        let front = entries.drop_last();
        lemma_insertions(store, front);
        assert(history_insertions(entries).drop_last() =~= history_insertions(front));
        let before = store.apply_all(history_insertions(front));
        let after = store.apply_all(history_insertions(entries));
        let last = (entries.len() - 1) as u64;
        assert(after == before.apply(
            StoreOpView::PutHistory { rank: last, path: entries.last() },
        ));
        assert forall|k: u64| k < entries.len() implies #[trigger] after.history[k]
            == entries[k as int] by {
            if k < front.len() {
                assert(before.history[k] == front[k as int]);
            }
        }
    }
}

/// A history write replaces the history table: whatever it held, afterwards
/// it holds the new entries at the ranks 0, 1, 2 and so on without a gap, and
/// nothing else. The size table is untouched.
pub proof fn law_history_write_replaces_table(
    store: StoreModel,
    stored: Seq<u64>,
    entries: Seq<Seq<char>>,
)
    requires
        forall|k: u64| store.history.contains_key(k) ==> stored.contains(k),
        entries.len() <= u64::MAX,
    ensures
        store.apply_all(planned_ops(CommandView::WriteHistory { entries }, stored)).sizes
            == store.sizes,
        store.apply_all(planned_ops(CommandView::WriteHistory { entries }, stored)).history
            == Map::new(|k: u64| k < entries.len(), |k: u64| entries[k as int]),
{
    let removals = history_removals(stored);
    let insertions = history_insertions(entries);
    lemma_apply_all_add(store, removals, insertions);
    lemma_removals(store, stored);
    let emptied = store.apply_all(removals);
    lemma_insertions(emptied, entries);
    let after = emptied.apply_all(insertions);
    let wanted = Map::new(|k: u64| k < entries.len(), |k: u64| entries[k as int]);
    assert forall|k: u64| after.history.contains_key(k) <==> wanted.contains_key(k) by {
        assert(emptied.history.contains_key(k) ==> store.history.contains_key(k));
    }
    assert(after.history =~= wanted);
}

/// Size writes are applied as they come and the last one wins: after two
/// writes for a path the table holds the second, and it holds the same after
/// the second write is made again. No other path and no recent folder
/// changes.
pub proof fn law_size_write_last_wins(
    store: StoreModel,
    path: Seq<char>,
    first: SizeRecord,
    second: SizeRecord,
    stored: Seq<u64>,
)
    ensures
        store.apply_all(
            planned_ops(
                CommandView::WriteSize { path, size: first.size, timestamp: first.timestamp },
                stored,
            ),
        ).apply_all(
            planned_ops(
                CommandView::WriteSize { path, size: second.size, timestamp: second.timestamp },
                stored,
            ),
        ) == (StoreModel { sizes: store.sizes.insert(path, second), history: store.history }),
        (StoreModel { sizes: store.sizes.insert(path, second), history: store.history }).apply_all(
            planned_ops(
                CommandView::WriteSize { path, size: second.size, timestamp: second.timestamp },
                stored,
            ),
        ) == (StoreModel { sizes: store.sizes.insert(path, second), history: store.history }),
{
    let write_first = planned_ops(
        CommandView::WriteSize { path, size: first.size, timestamp: first.timestamp },
        stored,
    );
    let write_second = planned_ops(
        CommandView::WriteSize { path, size: second.size, timestamp: second.timestamp },
        stored,
    );
    let wanted = StoreModel { sizes: store.sizes.insert(path, second), history: store.history };
    lemma_apply_one(store, write_first[0]);
    assert(write_first =~= seq![write_first[0]]);
    let one = store.apply_all(write_first);
    lemma_apply_one(one, write_second[0]);
    lemma_apply_one(wanted, write_second[0]);
    assert(write_second =~= seq![write_second[0]]);
    let two = one.apply_all(write_second);
    assert(two.sizes =~= wanted.sizes);
    assert(wanted.apply_all(write_second).sizes =~= wanted.sizes);
}

/// A list of one change makes that change.
pub proof fn lemma_apply_one(store: StoreModel, op: StoreOpView)
    ensures
        store.apply_all(seq![op]) == store.apply(op),
{
    let ops = seq![op];
    assert(ops.drop_last() =~= Seq::<StoreOpView>::empty());
    assert(store.apply_all(ops.drop_last()) == store);
    assert(ops.last() == op);
}

/// A size that was written is read back as long as no more than the time to
/// live has passed since the write, and not after that.
pub proof fn law_size_read_after_write(
    store: StoreModel,
    path: Seq<char>,
    record: SizeRecord,
    stored: Seq<u64>,
    now: u64,
    ttl: u64,
)
    ensures
        store.apply_all(
            planned_ops(
                CommandView::WriteSize { path, size: record.size, timestamp: record.timestamp },
                stored,
            ),
        ).sizes[path] == record,
        record_age(record.timestamp, now) <= ttl ==> size_if_fresh(Some(record), now, ttl) == Some(
            record.size,
        ),
        record_age(record.timestamp, now) > ttl ==> size_if_fresh(Some(record), now, ttl) is None,
{
    let write = planned_ops(
        CommandView::WriteSize { path, size: record.size, timestamp: record.timestamp },
        stored,
    );
    assert(write.drop_last() =~= Seq::<StoreOpView>::empty());
}

/// Numbers that rise strictly and stay below their count are 0, 1, 2 and so
/// on.
proof fn lemma_rising_ranks(ranks: Seq<int>, i: int)
    requires
        0 <= i < ranks.len(),
        forall|a: int, b: int| 0 <= a < b < ranks.len() ==> ranks[a] < ranks[b],
        forall|a: int| 0 <= a < ranks.len() ==> 0 <= #[trigger] ranks[a] < ranks.len(),
    ensures
        ranks[i] == i,
{
    lemma_rising_from_below(ranks, i);
    lemma_rising_from_above(ranks, i);
}

proof fn lemma_rising_from_below(ranks: Seq<int>, i: int)
    requires
        0 <= i < ranks.len(),
        forall|a: int, b: int| 0 <= a < b < ranks.len() ==> ranks[a] < ranks[b],
        forall|a: int| 0 <= a < ranks.len() ==> 0 <= #[trigger] ranks[a] < ranks.len(),
    ensures
        ranks[i] >= i,
    decreases i,
{
    if i > 0 {
        lemma_rising_from_below(ranks, i - 1);
    }
}

proof fn lemma_rising_from_above(ranks: Seq<int>, i: int)
    requires
        0 <= i < ranks.len(),
        forall|a: int, b: int| 0 <= a < b < ranks.len() ==> ranks[a] < ranks[b],
        forall|a: int| 0 <= a < ranks.len() ==> 0 <= #[trigger] ranks[a] < ranks.len(),
    ensures
        ranks[i] <= i,
    decreases ranks.len() - i,
{
    if i < ranks.len() - 1 {
        lemma_rising_from_above(ranks, i + 1);
    }
}

/// The recent folders that were written are the recent folders that are
/// read: rows that list the ranks 0 to n-1 once each, in any order, each with
/// the entry of its rank, give back the entries in their order.
pub proof fn law_history_round_trip(entries: Seq<Seq<char>>, rows: Seq<HistoryRowView>)
    requires
        rows.len() == entries.len(),
        forall|i: int|
            0 <= i < rows.len() ==> (#[trigger] rows[i]).rank < entries.len() && rows[i].path
                == entries[rows[i].rank as int],
        forall|i: int, j: int| 0 <= i < j < rows.len() ==> rows[i].rank != rows[j].rank,
    ensures
        history_of(rows) == entries,
{
    let sorted = sort_by(rows, by_rank());
    lemma_sort_by(rows, by_rank());
    assert(total_preorder(by_rank()));
    assert(sorted_by(sorted, by_rank()));
    assert forall|i: int| 0 <= i < sorted.len() implies rows.contains(#[trigger] sorted[i]) by {
        vstd::seq_lib::to_multiset_contains(sorted, sorted[i]);
        vstd::seq_lib::to_multiset_contains(rows, sorted[i]);
        assert(sorted.contains(sorted[i]));
    }
    assert(rows.no_duplicates()) by {
        assert forall|i: int, j: int|
            0 <= i < rows.len() && 0 <= j < rows.len() && i != j implies rows[i] != rows[j] by {
            if i < j {
                assert(rows[i].rank != rows[j].rank);
            } else {
                assert(rows[j].rank != rows[i].rank);
            }
        }
    }
    rows.lemma_multiset_has_no_duplicates();
    sorted.lemma_multiset_has_no_duplicates_conv();
    let ranks = Seq::new(sorted.len(), |i: int| sorted[i].rank as int);
    assert forall|a: int, b: int| 0 <= a < b < ranks.len() implies ranks[a] < ranks[b] by {
        assert(by_rank()(sorted[a], sorted[b]));
        assert(sorted[a] != sorted[b]);
        let x = choose|x: int| 0 <= x < rows.len() && rows[x] == sorted[a];
        let y = choose|y: int| 0 <= y < rows.len() && rows[y] == sorted[b];
        if x < y {
            assert(rows[x].rank != rows[y].rank);
        } else if y < x {
            assert(rows[y].rank != rows[x].rank);
        }
    }
    assert forall|a: int| 0 <= a < ranks.len() implies 0 <= #[trigger] ranks[a] < ranks.len() by {
        let x = choose|x: int| 0 <= x < rows.len() && rows[x] == sorted[a];
        assert(rows[x].rank < entries.len());
    }
    assert forall|i: int| 0 <= i < sorted.len() implies sorted[i].path == entries[i] by {
        lemma_rising_ranks(ranks, i);
        assert(ranks[i] == sorted[i].rank);
        let x = choose|x: int| 0 <= x < rows.len() && rows[x] == sorted[i];
        assert(rows[x].path == entries[rows[x].rank as int]);
    }
    assert(history_of(rows) =~= entries);
}

} // verus!
