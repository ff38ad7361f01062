//! Directory size calculation: the strategies that measure a directory, the
//! bounded queue on which their results come back, and the bodies of the
//! scene that wait for a result.

use vstd::prelude::*;
use crate::channel::{
    clone_sender, result_channel, result_queue_limit, try_receive, try_send, SendOutcome,
};
use crate::filesystem::{file_bytes, raw_views, total_file_bytes, RawEntry};
use crate::persistent_cache::PersistentCache;
use crate::text::{
    chars_of, find_char, first_word, has_prefix, lemma_word_len_bound, parse_u64, parse_u64_at,
    position_of, saturate, skip_whitespace, starts_with_at, trim, trim_range, trim_start,
    word_end, word_len,
};

verus! {

/// Bytes in the unit that the summarizing utility reports.
pub const DU_UNIT_BYTES: u64 = 1024;

/// What the summarizing utility reports: the first word of its output, read
/// as a count of 1024-byte units. Output without such a number counts zero.
pub open spec fn du_bytes(output: Seq<char>) -> nat {
    match parse_u64(first_word(output)) {
        Some(units) => units as nat * 1024,
        None => 0,
    }
}

/// The attribute name in front of each size that the index query prints.
pub open spec fn size_attribute() -> Seq<char> {
    "kMDItemFSSize"@
}

/// The field between the first `sep` of `line` and the next one, if `line`
/// holds a `sep` at all.
pub open spec fn field_after(line: Seq<char>, sep: char) -> Option<Seq<char>> {
    let first = position_of(line, sep);
    if first < line.len() {
        let rest = line.skip(first as int + 1);
        Some(rest.take(position_of(rest, sep) as int))
    } else {
        None
    }
}

/// The size that one line of the index query's output contributes: the
/// number after `=` on a line that begins with the size attribute. A line of
/// another kind, a missing value and a value that is no number count zero.
pub open spec fn attribute_size(line: Seq<char>) -> nat {
    if has_prefix(line, size_attribute()) {
        match field_after(line, '=') {
            Some(field) => match parse_u64(trim(field)) {
                Some(n) => n as nat,
                None => 0,
            },
            None => 0,
        }
    } else {
        0
    }
}

/// Sum of what every line of the index query's output contributes. Lines end
/// at `\n`; a carriage return before it is whitespace like any other.
pub open spec fn mdfind_total(output: Seq<char>) -> nat
    decreases output.len(),
{
    if output.len() == 0 {
        0
    } else {
        let n = position_of(output, '\n');
        if n < output.len() {
            attribute_size(output.take(n as int)) + mdfind_total(output.skip(n as int + 1))
        } else {
            attribute_size(output)
        }
    }
}

/// Size in bytes from the output of the summarizing utility, which prints a
/// count of 1024-byte units and then the path. The result is clamped to
/// `u64::MAX`.
pub fn parse_du_output(output: &str) -> (bytes: u64)
    ensures
        bytes == saturate(du_bytes(output@)),
{
    let v = chars_of(output);
    let start = skip_whitespace(&v, 0, v.len());
    let end = word_end(&v, start, v.len());
    proof {
        assert(v@.subrange(0, v.len() as int) =~= output@);
        let t = trim_start(output@);
        lemma_word_len_bound(t);
        assert(v@.subrange(start as int, end as int) =~= t.take(word_len(t) as int));
    }
    match parse_u64_at(&v, start, end) {
        Some(units) => match units.checked_mul(DU_UNIT_BYTES) {
            Some(bytes) => bytes,
            None => u64::MAX,
        },
        None => 0,
    }
}

/// What the line `v[from..to]` contributes to the total.
fn attribute_size_at(v: &Vec<char>, from: usize, to: usize, key: &Vec<char>) -> (n: u64)
    requires
        from <= to <= v.len(),
        key@ == size_attribute(),
    ensures
        n == attribute_size(v@.subrange(from as int, to as int)),
{
    let ghost line = v@.subrange(from as int, to as int);
    if !starts_with_at(v, from, to, key) {
        return 0;
    }
    let first = find_char(v, from, to, '=');
    if first == to {
        return 0;
    }
    let next = find_char(v, first + 1, to, '=');
    let (a, b) = trim_range(v, first + 1, next);
    proof {
        let rest = line.skip(first - from + 1);
        assert(rest =~= v@.subrange(first as int + 1, to as int));
        assert(v@.subrange(first as int + 1, next as int) =~= rest.take(
            position_of(rest, '=') as int,
        ));
    }
    match parse_u64_at(v, a, b) {
        Some(n) => n,
        None => 0,
    }
}

/// Total size in bytes from the output of the index query, which prints for
/// each file its path on one line and `kMDItemFSSize = <bytes>` on the next.
/// A value of `(null)` counts zero. The result is clamped to `u64::MAX`.
pub fn parse_mdfind_output(output: &str) -> (total: u64)
    ensures
        total == saturate(mdfind_total(output@)),
{
    let v = chars_of(output);
    let key = chars_of("kMDItemFSSize");
    let len = v.len();
    let mut total: u64 = 0;
    let mut pos: usize = 0;
    let ghost mut acc: nat = 0;
    assert(v@.subrange(0, len as int) =~= v@);
    while pos < len
        invariant
            pos <= len == v.len(),
            key@ == size_attribute(),
            total == saturate(acc),
            acc + mdfind_total(v@.subrange(pos as int, len as int)) == mdfind_total(v@),
        decreases len - pos,
    {
        let ghost rest = v@.subrange(pos as int, len as int);
        let end = find_char(&v, pos, len, '\n');
        let n = attribute_size_at(&v, pos, end, &key);
        proof {
            assert(v@.subrange(pos as int, end as int) =~= rest.take(end - pos));
            acc = acc + n as nat;
        }
        total = total.saturating_add(n);
        if end < len {
            assert(rest.skip(end - pos + 1) =~= v@.subrange(end as int + 1, len as int));
            pos = end + 1;
        } else {
            assert(rest.take(end - pos) =~= rest);
            assert(v@.subrange(len as int, len as int).len() == 0);
            pos = len;
        }
    }
    total
}

/// What a run of an outside tool gave.
#[derive(Debug)]
pub struct ToolOutput {
    /// The tool ended with success.
    pub success: bool,
    /// What it printed.
    pub stdout: String,
}

/// How directory sizes are calculated.
#[derive(Debug, Clone, Copy, PartialEq, Eq, Structural)]
pub enum SizeStrategy {
    /// Ask the summarizing utility, and traverse where it fails.
    DiskUsage,
    /// Ask the content index, and traverse where it fails.
    IndexQuery,
    /// Walk the tree in parallel.
    ParallelWalk,
}

/// The platforms between which the choice of a strategy distinguishes.
#[derive(Debug, Clone, Copy, PartialEq, Eq, Structural)]
pub enum Platform {
    MacOs,
    Other,
}

/// The strategy for `platform`: the summarizing utility where the platform
/// ships it, the parallel walk elsewhere.
pub fn strategy_for(platform: Platform) -> (strategy: SizeStrategy)
    ensures
        strategy == match platform {
            Platform::MacOs => SizeStrategy::DiskUsage,
            Platform::Other => SizeStrategy::ParallelWalk,
        },
{
    match platform {
        Platform::MacOs => SizeStrategy::DiskUsage,
        Platform::Other => SizeStrategy::ParallelWalk,
    }
}

/// The size that a run of the summarizing utility gives. `None` where the
/// utility could not be run or failed: the caller then traverses the
/// directory.
pub fn calculate_with_du(run: &Option<ToolOutput>) -> (size: Option<u64>)
    ensures
        size == match *run {
            Some(output) => if output.success {
                Some(saturate(du_bytes(output.stdout@)))
            } else {
                None
            },
            None => None,
        },
{
    match run {
        Some(output) => {
            if output.success {
                Some(parse_du_output(output.stdout.as_str()))
            } else {
                None
            }
        },
        None => None,
    }
}

/// The size that a run of the index query gives. `None` where the query
/// could not be run or failed: the caller then traverses the directory.
pub fn calculate_with_spotlight(run: &Option<ToolOutput>) -> (size: Option<u64>)
    ensures
        size == match *run {
            Some(output) => if output.success {
                Some(saturate(mdfind_total(output.stdout@)))
            } else {
                None
            },
            None => None,
        },
{
    match run {
        Some(output) => {
            if output.success {
                Some(parse_mdfind_output(output.stdout.as_str()))
            } else {
                None
            }
        },
        None => None,
    }
}

/// The size that a parallel walk gives, from the entries that it listed:
/// the bytes of the regular files among them.
pub fn calculate_with_jwalk(entries: &Vec<RawEntry>) -> (size: u64)
    ensures
        size == saturate(file_bytes(raw_views(entries@))),
{
    total_file_bytes(entries)
}

/// The size that is reported for a path: what the calculation gave, and zero
/// where it failed, so that a result goes out for every path.
pub fn reported_size(calculated: Option<u64>) -> (size: u64)
    ensures
        size == match calculated {
            Some(n) => n,
            None => 0,
        },
{
    match calculated {
        Some(n) => n,
        None => 0,
    }
}

/// Result of a size calculation.
#[derive(Debug)]
pub struct SizeResult {
    pub path: String,
    pub size: u64,
}

/// What a `SizeResult` holds, as plain values.
pub struct SizeResultView {
    pub path: Seq<char>,
    pub size: u64,
}

impl View for SizeResult {
    type V = SizeResultView;

    open spec fn view(&self) -> SizeResultView {
        SizeResultView { path: self.path@, size: self.size }
    }
}

impl Clone for SizeResult {
    fn clone(&self) -> (copy: SizeResult)
        ensures
            copy@ == self@,
    {
        SizeResult { path: self.path.clone(), size: self.size }
    }
}

/// Number of results that the result queue holds.
pub const RESULT_CHANNEL_CAPACITY: usize = 100;

/// The queue on which size results come back to the foreground.
pub struct SizeCalculationChannel {
    pub sender: crossbeam_channel::Sender<SizeResult>,
    pub receiver: crossbeam_channel::Receiver<SizeResult>,
}

impl Default for SizeCalculationChannel {
    /// The queue of size results, made to hold `RESULT_CHANNEL_CAPACITY` of
    /// them.
    fn default() -> (channel: SizeCalculationChannel)
        ensures
            result_queue_limit(channel.sender) == RESULT_CHANNEL_CAPACITY,
    {
        let (sender, receiver) = result_channel(RESULT_CHANNEL_CAPACITY);
        SizeCalculationChannel { sender, receiver }
    }
}

/// A batch of paths to measure in the background, with the sending end of
/// the result queue.
pub struct SizeJob {
    pub paths: Vec<String>,
    pub sender: crossbeam_channel::Sender<SizeResult>,
}

/// The background work for `paths`: a job that a worker runs, with a handle
/// of its own on the queue of `sender`, or nothing where there is nothing to
/// measure.
pub fn spawn_size_calculations(
    paths: Vec<String>,
    sender: &crossbeam_channel::Sender<SizeResult>,
) -> (job: Option<SizeJob>)
    ensures
        match job {
            Some(j) => paths@.len() > 0 && j.paths@ == paths@ && result_queue_limit(j.sender)
                == result_queue_limit(*sender),
            None => paths@.len() == 0,
        },
{
    if paths.len() == 0 {
        return None;
    }
    Some(SizeJob { paths, sender: clone_sender(sender) })
}

impl SizeJob {
    /// Sends the size calculated for `path`, zero where the calculation
    /// failed. A result that finds the queue full is dropped: the call never
    /// waits.
    pub fn report(&self, path: String, calculated: Option<u64>) -> SendOutcome {
        try_send(&self.sender, SizeResult { path, size: reported_size(calculated) })
    }
}

/// A body of the scene, as far as size results are concerned.
#[derive(Debug)]
pub struct PendingBody {
    /// Identifier of the body in the scene.
    pub entity: u64,
    /// Path that the body stands for.
    pub path: String,
    /// Size shown for the body.
    pub size_bytes: u64,
    /// The body stands for a directory.
    pub is_directory: bool,
    /// The body waits for its size.
    pub pending: bool,
}

/// What a `PendingBody` holds, as plain values.
pub struct PendingBodyView {
    pub entity: u64,
    pub path: Seq<char>,
    pub size_bytes: u64,
    pub is_directory: bool,
    pub pending: bool,
}

impl View for PendingBody {
    type V = PendingBodyView;

    open spec fn view(&self) -> PendingBodyView {
        PendingBodyView {
            entity: self.entity,
            path: self.path@,
            size_bytes: self.size_bytes,
            is_directory: self.is_directory,
            pending: self.pending,
        }
    }
}

/// What a list of bodies holds, one by one.
pub open spec fn body_views(bodies: Seq<PendingBody>) -> Seq<PendingBodyView> {
    bodies.map_values(|b: PendingBody| b@)
}

/// A new size for a body of the scene.
#[derive(Debug, Clone, Copy, PartialEq, Eq, Structural)]
pub struct SizeUpdate {
    pub entity: u64,
    pub size: u64,
}

/// The body waits for the size of `path`.
pub open spec fn awaits(body: PendingBodyView, path: Seq<char>) -> bool {
    body.pending && body.is_directory && body.path == path
}

/// Index of the first body that waits for the size of `path`, or the number
/// of bodies if none does.
pub open spec fn first_waiting(bodies: Seq<PendingBodyView>, path: Seq<char>) -> nat
    decreases bodies.len(),
{
    if bodies.len() > 0 && !awaits(bodies[0], path) {
        1 + first_waiting(bodies.drop_first(), path)
    } else {
        0
    }
}

/// The bodies after a result has arrived: the first body that waits for the
/// size of the path has the size and waits no longer. With no such body the
/// result is dropped.
pub open spec fn after_result(
    bodies: Seq<PendingBodyView>,
    result: SizeResultView,
) -> Seq<PendingBodyView> {
    let at = first_waiting(bodies, result.path) as int;
    if at < bodies.len() {
        bodies.update(at, PendingBodyView { size_bytes: result.size, pending: false, ..bodies[at] })
    } else {
        bodies
    }
}

/// The update that a result brings to the scene, if a body waits for it.
pub open spec fn update_for(bodies: Seq<PendingBodyView>, result: SizeResultView) -> Option<
    SizeUpdate,
> {
    let at = first_waiting(bodies, result.path) as int;
    if at < bodies.len() {
        Some(SizeUpdate { entity: bodies[at].entity, size: result.size })
    } else {
        None
    }
}

/// The bodies after a series of results, taken in the order of arrival.
pub open spec fn after_results(
    bodies: Seq<PendingBodyView>,
    results: Seq<SizeResultView>,
) -> Seq<PendingBodyView>
    decreases results.len(),
{
    if results.len() == 0 {
        bodies
    } else {
        after_result(after_results(bodies, results.drop_last()), results.last())
    }
}

/// The updates that a series of results brings, in the order of arrival.
pub open spec fn updates_for(
    bodies: Seq<PendingBodyView>,
    results: Seq<SizeResultView>,
) -> Seq<SizeUpdate>
    decreases results.len(),
{
    if results.len() == 0 {
        Seq::empty()
    } else {
        let before = updates_for(bodies, results.drop_last());
        match update_for(after_results(bodies, results.drop_last()), results.last()) {
            Some(u) => before.push(u),
            None => before,
        }
    }
}

/// Hands a result to the body that waits for it: the first directory body
/// that is pending and stands for the path of the result takes the size and
/// is pending no longer. A result that no body waits for changes nothing.
pub fn apply_size_result(bodies: &mut Vec<PendingBody>, result: &SizeResult) -> (update: Option<
    SizeUpdate,
>)
    ensures
        body_views(final(bodies)@) == after_result(body_views(old(bodies)@), result@),
        update == update_for(body_views(old(bodies)@), result@),
{
    let ghost before = body_views(bodies@);
    let mut i: usize = 0;
    assert(before.subrange(0, before.len() as int) =~= before);
    while i < bodies.len()
        invariant
            i <= bodies.len(),
            before == body_views(bodies@),
            bodies@ == old(bodies)@,
            first_waiting(before, result@.path) == i + first_waiting(
                before.subrange(i as int, before.len() as int),
                result@.path,
            ),
        decreases bodies.len() - i,
    {
        if bodies[i].pending && bodies[i].is_directory && bodies[i].path == result.path {
            let entity = bodies[i].entity;
            let updated = PendingBody {
                entity,
                path: bodies[i].path.clone(),
                size_bytes: result.size,
                is_directory: true,
                pending: false,
            };
            assert(before.subrange(i as int, before.len() as int)[0] == before[i as int]);
            bodies.set(i, updated);
            assert(body_views(bodies@) =~= after_result(before, result@));
            return Some(SizeUpdate { entity, size: result.size });
        }
        assert(before.subrange(i as int, before.len() as int).drop_first() =~= before.subrange(
            i as int + 1,
            before.len() as int,
        ));
        assert(before.subrange(i as int, before.len() as int)[0] == before[i as int]);
        i = i + 1;
    }
    assert(before.subrange(i as int, before.len() as int).len() == 0);
    None
}

/// Takes every result that is waiting on the queue, in the order of
/// arrival, and hands each to the body that waits for it. A size that a body
/// took is also handed to the durable store, where there is one. The updates
/// made are returned for the scene. The call never waits.
pub fn update_celestial_sizes(
    channel: &SizeCalculationChannel,
    bodies: &mut Vec<PendingBody>,
    persistent: Option<&PersistentCache>,
) -> (updates: Vec<SizeUpdate>)
    ensures
        exists|results: Seq<SizeResultView>|
            {
                &&& body_views(final(bodies)@) == #[trigger] after_results(
                    body_views(old(bodies)@),
                    results,
                )
                &&& updates@ == updates_for(body_views(old(bodies)@), results)
            },
{
    let ghost start = body_views(bodies@);
    let ghost mut taken: Seq<SizeResultView> = Seq::empty();
    let mut updates: Vec<SizeUpdate> = Vec::new();
    let mut budget: usize = usize::MAX;
    while budget > 0
        invariant
            start == body_views(old(bodies)@),
            body_views(bodies@) == after_results(start, taken),
            updates@ == updates_for(start, taken),
        decreases budget,
    {
        let result = match try_receive(&channel.receiver) {
            Some(result) => result,
            None => {
                break ;
            },
        };
        let update = apply_size_result(bodies, &result);
        proof {
            assert(taken.push(result@).drop_last() =~= taken);
            taken = taken.push(result@);
        }
        match update {
            Some(u) => {
                updates.push(u);
                match persistent {
                    Some(cache) => {
                        cache.write_size(&result.path, result.size);
                    },
                    None => {},
                }
            },
            None => {},
        }
        budget = budget - 1;
    }
    assert(body_views(bodies@) == after_results(start, taken));
    updates
}

} // verus!
