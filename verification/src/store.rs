//! Cached entries and the rules of the two backends that hold them.
//!
//! The local backend belongs to one replica: what it holds may be replaced, and what turns out to
//! be unusable when it is read is removed. The gossip backend is shared by replicas: the first
//! writer of a response wins, and nothing is ever removed, for a removal could race a write of
//! another replica. The mark of a tool is refreshed by every write, in both.
//! The backends themselves are asked by the caller; what is decided here is what to make of a row
//! that was read, and how a row is to be written.

use vstd::prelude::*;

verus! {

// ---------------------------------------------------------------------------------------------
// Time
// ---------------------------------------------------------------------------------------------

/// A point in time, as the standard library holds it.
#[verifier::external_type_specification]
#[verifier::external_body]
pub struct ExSystemTime(std::time::SystemTime);

/// The time from the Unix epoch to a point in time, as `SystemTime::duration_since` gives it; none
/// for a point before the epoch.
pub uninterp spec fn elapsed_since_epoch(time: std::time::SystemTime) -> Option<
    std::time::Duration,
>;

/// The whole seconds of a duration, as `Duration::as_secs` gives them.
pub uninterp spec fn duration_secs(duration: std::time::Duration) -> u64;

/// `SystemTime::now` reads the clock. Nothing is claimed of what it returns.
pub assume_specification[ std::time::SystemTime::now ]() -> (time: std::time::SystemTime)
;

/// `Duration::as_secs` gives the whole seconds of the duration.
pub assume_specification[ std::time::Duration::as_secs ](
    duration: &std::time::Duration,
) -> (seconds: u64)
    ensures
        seconds == duration_secs(*duration),
;

/// `SystemTime::duration_since` the Unix epoch; it fails for a point before the epoch.
#[verifier::external_body]
fn since_epoch(time: std::time::SystemTime) -> (elapsed: Option<std::time::Duration>)
    ensures
        elapsed == elapsed_since_epoch(time),
{
    time.duration_since(std::time::UNIX_EPOCH).ok()
}

/// The seconds from the Unix epoch to a point in time; zero for a point before the epoch.
pub open spec fn epoch_seconds(time: std::time::SystemTime) -> u64 {
    match elapsed_since_epoch(time) {
        Some(elapsed) => duration_secs(elapsed),
        None => 0,
    }
}

/// The seconds from the Unix epoch to a point in time; zero for a point before the epoch.
pub fn seconds_at(time: std::time::SystemTime) -> (seconds: u64)
    ensures
        seconds == epoch_seconds(time),
{
    match since_epoch(time) {
        Some(elapsed) => elapsed.as_secs(),
        None => 0,
    }
}

/// The seconds since the Unix epoch, now. Which point in time the clock gives is left open.
pub fn now_secs() -> (seconds: u64)
    ensures
        exists|time: std::time::SystemTime| seconds == #[trigger] epoch_seconds(time),
{
    seconds_at(std::time::SystemTime::now())
}

// ---------------------------------------------------------------------------------------------
// Entries
// ---------------------------------------------------------------------------------------------

/// What a `CachedEntry` stands for.
pub struct EntryModel {
    pub written_at: int,
    pub valid_until: int,
    pub body: Seq<u8>,
}

/// The body of a cached response and the seconds between which it is valid.
#[derive(Debug, Clone, PartialEq, Eq)]
pub struct CachedEntry {
    pub written_at: u64,
    pub valid_until: u64,
    pub body: Vec<u8>,
}

impl View for CachedEntry {
    type V = EntryModel;

    open spec fn view(&self) -> EntryModel {
        EntryModel {
            written_at: self.written_at as int,
            valid_until: self.valid_until as int,
            body: self.body@,
        }
    }
}

impl CachedEntry {
    /// Whether the entry is still valid at `now`.
    pub fn is_fresh(&self, now: u64) -> (fresh: bool)
        ensures
            fresh == fresh_at(self@, now as int),
    {
        now < self.valid_until
    }
}

/// The entry is still valid at `now`.
pub open spec fn fresh_at(entry: EntryModel, now: int) -> bool {
    now < entry.valid_until
}

/// What an optional entry stands for.
pub open spec fn optional_entry(entry: Option<CachedEntry>) -> Option<EntryModel> {
    match entry {
        Some(e) => Some(e@),
        None => None,
    }
}

// ---------------------------------------------------------------------------------------------
// What a backend holds
// ---------------------------------------------------------------------------------------------

/// What stands under a key: an entry, or bytes that are none.
pub enum RowModel {
    Entry(EntryModel),
    Unreadable,
}

/// The row is an entry that is still valid.
pub open spec fn is_usable(row: RowModel, now: int) -> bool {
    row matches RowModel::Entry(entry) && fresh_at(entry, now)
}

/// The row that a backend holds under a key.
pub open spec fn row_at(contents: Map<Seq<char>, RowModel>, key: Seq<char>) -> Option<RowModel> {
    if contents.contains_key(key) {
        Some(contents[key])
    } else {
        None
    }
}

/// The entry that a row gives to a reader: only one that is still valid.
pub open spec fn usable_entry(row: Option<RowModel>, now: int) -> Option<EntryModel> {
    match row {
        Some(RowModel::Entry(entry)) => if fresh_at(entry, now) {
            Some(entry)
        } else {
            None
        },
        _ => None,
    }
}

/// The entry that a reader gets from a backend.
pub open spec fn entry_at(
    contents: Map<Seq<char>, RowModel>,
    key: Seq<char>,
    now: int,
) -> Option<EntryModel> {
    usable_entry(row_at(contents, key), now)
}

/// What a backend holds after a read. One that evicts removes a row that is not usable.
pub open spec fn after_get(
    contents: Map<Seq<char>, RowModel>,
    evicts: bool,
    key: Seq<char>,
    now: int,
) -> Map<Seq<char>, RowModel> {
    if evicts && contents.contains_key(key) && !is_usable(contents[key], now) {
        contents.remove(key)
    } else {
        contents
    }
}

/// What a backend holds after a write. One that does not overwrite keeps a row that is there.
pub open spec fn after_put(
    contents: Map<Seq<char>, RowModel>,
    overwrites: bool,
    key: Seq<char>,
    entry: EntryModel,
) -> Map<Seq<char>, RowModel> {
    if overwrites || !contents.contains_key(key) {
        contents.insert(key, RowModel::Entry(entry))
    } else {
        contents
    }
}

/// What a backend holds after several writes, one after the other.
pub open spec fn after_puts(
    contents: Map<Seq<char>, RowModel>,
    overwrites: bool,
    writes: Seq<(Seq<char>, EntryModel)>,
) -> Map<Seq<char>, RowModel>
    decreases writes.len(),
{
    if writes.len() == 0 {
        contents
    } else {
        after_put(
            after_puts(contents, overwrites, writes.drop_last()),
            overwrites,
            writes.last().0,
            writes.last().1,
        )
    }
}

// ---------------------------------------------------------------------------------------------
// The rules of the backends
// ---------------------------------------------------------------------------------------------

/// What was found under a key.
#[derive(Debug)]
pub enum Row {
    /// Nothing.
    Missing,
    /// Bytes that are no entry.
    Unreadable,
    /// An entry.
    Entry(CachedEntry),
    /// The backend failed to answer.
    Failed,
}

/// The row that was found, where the backend answered.
pub open spec fn row_model(row: Row) -> Option<RowModel> {
    match row {
        Row::Missing => None,
        Row::Unreadable => Some(RowModel::Unreadable),
        Row::Entry(entry) => Some(RowModel::Entry(entry@)),
        Row::Failed => None,
    }
}

/// What a read comes to.
#[derive(Debug)]
pub struct Reading {
    /// The entry for the reader.
    pub entry: Option<CachedEntry>,
    /// Whether the row is to be removed.
    pub evict: bool,
}

/// How a row is written.
#[derive(Clone, Copy, PartialEq, Eq, Debug, Structural)]
pub enum WriteMode {
    /// Whatever is there.
    Always,
    /// Only where nothing is there.
    Absent,
}

/// What an entry is written for.
#[derive(Clone, Copy, PartialEq, Eq, Debug, Structural)]
pub enum Written {
    /// A response that is kept.
    Response,
    /// The mark of a tool.
    Mark,
}

/// The rules of a backend.
pub trait CacheStore {
    /// Whether a row that is not usable is removed when it is read.
    spec fn evicts(&self) -> bool;

    /// Whether a write of this kind replaces what is there.
    spec fn overwrites(&self, kind: Written) -> bool;

    /// What a read comes to, given the row that was found: the reader gets an entry that is still
    /// valid, and a failure counts as a miss.
    fn get(&self, row: Row, now: u64) -> (reading: Reading)
        ensures
            optional_entry(reading.entry) == usable_entry(row_model(row), now as int),
            reading.evict == (self.evicts() && match row_model(row) {
                Some(found) => !is_usable(found, now as int),
                None => false,
            }),
            forall|contents: Map<Seq<char>, RowModel>, key: Seq<char>|
                row_at(contents, key) == row_model(row) ==> #[trigger] after_get(
                    contents,
                    self.evicts(),
                    key,
                    now as int,
                ) == if reading.evict {
                    contents.remove(key)
                } else {
                    contents
                },
    ;

    /// How an entry is written.
    fn put(&self, kind: Written) -> (mode: WriteMode)
        ensures
            mode == (if self.overwrites(kind) {
                WriteMode::Always
            } else {
                WriteMode::Absent
            }),
    ;
}

/// The backend of one replica.
pub struct LocalStore<C> {
    pub cache: C,
}

impl<C> LocalStore<C> {
    /// The backend over a cache.
    pub fn new(cache: C) -> (store: Self)
        ensures
            store.cache == cache,
    {
        LocalStore { cache }
    }
}

impl<C> CacheStore for LocalStore<C> {
    open spec fn evicts(&self) -> bool {
        true
    }

    open spec fn overwrites(&self, kind: Written) -> bool {
        true
    }

    fn get(&self, row: Row, now: u64) -> (reading: Reading) {
        match row {
            Row::Missing => Reading { entry: None, evict: false },
            Row::Failed => Reading { entry: None, evict: false },
            Row::Unreadable => Reading { entry: None, evict: true },
            Row::Entry(entry) => if entry.is_fresh(now) {
                Reading { entry: Some(entry), evict: false }
            } else {
                Reading { entry: None, evict: true }
            },
        }
    }

    fn put(&self, kind: Written) -> (mode: WriteMode) {
        WriteMode::Always
    }
}

/// The backend that replicas share.
pub struct GossipStore<S> {
    pub storage: S,
}

impl<S> GossipStore<S> {
    /// The backend over a storage.
    pub fn new(storage: S) -> (store: Self)
        ensures
            store.storage == storage,
    {
        GossipStore { storage }
    }
}

impl<S> CacheStore for GossipStore<S> {
    open spec fn evicts(&self) -> bool {
        false
    }

    open spec fn overwrites(&self, kind: Written) -> bool {
        kind == Written::Mark
    }

    fn get(&self, row: Row, now: u64) -> (reading: Reading) {
        match row {
            Row::Entry(entry) => if entry.is_fresh(now) {
                Reading { entry: Some(entry), evict: false }
            } else {
                Reading { entry: None, evict: false }
            },
            _ => Reading { entry: None, evict: false },
        }
    }

    fn put(&self, kind: Written) -> (mode: WriteMode) {
        match kind {
            Written::Response => WriteMode::Absent,
            Written::Mark => WriteMode::Always,
        }
    }
}

// ---------------------------------------------------------------------------------------------
// Laws
// ---------------------------------------------------------------------------------------------

/// A read gives back what was written, as long as it is valid: from a backend that overwrites
/// always, from any other where nothing was there before.
pub proof fn law_read_gives_back_what_was_written(
    contents: Map<Seq<char>, RowModel>,
    overwrites: bool,
    key: Seq<char>,
    entry: EntryModel,
    now: int,
)
    requires
        overwrites || !contents.contains_key(key),
    ensures
        entry_at(after_put(contents, overwrites, key, entry), key, now) == if now
            < entry.valid_until {
            Some(entry)
        } else {
            None
        },
{
}

/// Where a backend does not overwrite, the first writer wins: a second write changes nothing.
pub proof fn law_first_writer_wins(
    contents: Map<Seq<char>, RowModel>,
    key: Seq<char>,
    first: EntryModel,
    second: EntryModel,
)
    ensures
        after_put(after_put(contents, false, key, first), false, key, second) == after_put(
            contents,
            false,
            key,
            first,
        ),
{
}

/// Where a backend overwrites, the last writer wins.
pub proof fn law_last_writer_wins(
    contents: Map<Seq<char>, RowModel>,
    key: Seq<char>,
    first: EntryModel,
    second: EntryModel,
)
    ensures
        after_put(after_put(contents, true, key, first), true, key, second) == after_put(
            contents,
            true,
            key,
            second,
        ),
{
    assert(after_put(after_put(contents, true, key, first), true, key, second) =~= after_put(
        contents,
        true,
        key,
        second,
    ));
}

/// A read or a write under one key leaves what stands under every other.
pub proof fn law_other_keys_stay(
    contents: Map<Seq<char>, RowModel>,
    evicts: bool,
    overwrites: bool,
    key: Seq<char>,
    entry: EntryModel,
    now: int,
    other: Seq<char>,
)
    requires
        other != key,
    ensures
        row_at(after_put(contents, overwrites, key, entry), other) == row_at(contents, other),
        row_at(after_get(contents, evicts, key, now), other) == row_at(contents, other),
{
}

/// An entry that is no longer valid, and a row that is no entry, are a miss. A backend that evicts
/// removes the row, any other leaves it.
pub proof fn law_unusable_row_is_a_miss(
    contents: Map<Seq<char>, RowModel>,
    evicts: bool,
    key: Seq<char>,
    now: int,
)
    requires
        contents.contains_key(key),
        !is_usable(contents[key], now),
    ensures
        entry_at(contents, key, now) is None,
        row_at(after_get(contents, evicts, key, now), key) == if evicts {
            None
        } else {
            Some(contents[key])
        },
{
}

/// Where a backend does not evict, a read changes nothing.
pub proof fn law_gossip_never_removes(
    contents: Map<Seq<char>, RowModel>,
    key: Seq<char>,
    now: int,
)
    ensures
        after_get(contents, false, key, now) == contents,
{
}

/// A read changes nothing that a later read could see.
pub proof fn law_reads_do_not_disturb(
    contents: Map<Seq<char>, RowModel>,
    evicts: bool,
    key: Seq<char>,
    now: int,
    other: Seq<char>,
    later: int,
)
    requires
        now <= later,
    ensures
        entry_at(after_get(contents, evicts, key, now), other, later) == entry_at(
            contents,
            other,
            later,
        ),
{
}

/// Several writes leave what stands under a key that none of them names.
pub proof fn lemma_puts_elsewhere(
    contents: Map<Seq<char>, RowModel>,
    overwrites: bool,
    writes: Seq<(Seq<char>, EntryModel)>,
    key: Seq<char>,
)
    requires
        forall|i: int| 0 <= i < writes.len() ==> (#[trigger] writes[i]).0 != key,
    ensures
        row_at(after_puts(contents, overwrites, writes), key) == row_at(contents, key),
    decreases writes.len(),
{
    if writes.len() > 0 {
        let fewer = writes.drop_last();
        assert forall|i: int| 0 <= i < fewer.len() implies (#[trigger] fewer[i]).0 != key by {
            assert(fewer[i] == writes[i]);
        }
        lemma_puts_elsewhere(contents, overwrites, fewer, key);
        assert(writes[writes.len() - 1].0 != key);
    }
}

} // verus!
