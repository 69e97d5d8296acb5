use crate::blob::{
    layout_order, layout_reads, loaded_nodes, picked, trie_blob, WalkFailure, BLOB_HEADER_SIZE,
};
use crate::counters::Counters;
use crate::error::MarfError;
use crate::hash::{is_sentinel, sha512_256, MarfTrieId, TrieHash};
use crate::node::{
    spec_is_backptr, TrieNode, TrieNodeType, TriePtr, TRIE_NODE_ID_EMPTY, TRIE_NODE_ID_NODE256,
};
use crate::trie_ram::{NodeHashReader, TrieRAM, TrieRAMSpec};
use crate::trie_sql;
use crate::trie_sql::{is_store_failure, OpenMode};
use rusqlite::Connection;
use std::collections::HashMap;
use vstd::prelude::*;

verus! {

/// What is known of the path of a store before it is opened.
#[derive(Debug)]
pub enum PathStatus {
    /// There is a file at the path.
    Present,
    /// There is nothing at the path.
    Absent,
    /// The path could not be looked at; carries the cause.
    Unreadable(String),
}

/// Whether a path names the store that lives in memory only.
pub fn is_memory_path(db_path: &str) -> (r: bool)
    ensures
        r == (db_path@ == ":memory:"@),
{
    let given = db_path.to_owned();
    let memory = ":memory:".to_owned();
    given == memory
}

/// How to open the store at a path, and whether its tables have to be
/// made.
///
/// The store in memory is always made anew. A store on disk is made if
/// nothing is at its path and it is opened for writing; it cannot be
/// opened for reading only if nothing is there; and it cannot be opened
/// at all if its path could not be looked at.
pub open spec fn spec_open_mode(memory: bool, status: PathStatus, readonly: bool) -> Result<
    (OpenMode, bool),
    MarfError,
> {
    if memory {
        if readonly {
            Ok((OpenMode::ReadOnlyCreate, true))
        } else {
            Ok((OpenMode::ReadWriteCreate, true))
        }
    } else {
        match status {
            PathStatus::Absent => if readonly {
                Err(MarfError::NotFoundError)
            } else {
                Ok((OpenMode::ReadWriteCreate, true))
            },
            PathStatus::Unreadable(cause) => Err(MarfError::IOError(cause)),
            PathStatus::Present => if readonly {
                Ok((OpenMode::ReadOnly, false))
            } else {
                Ok((OpenMode::ReadWrite, false))
            },
        }
    }
}

/// How to open the store at a path, and whether its tables have to be
/// made.
pub fn open_mode(memory: bool, status: PathStatus, readonly: bool) -> (r: Result<
    (OpenMode, bool),
    MarfError,
>)
    ensures
        r == spec_open_mode(memory, status, readonly),
{
    if memory {
        if readonly {
            Ok((OpenMode::ReadOnlyCreate, true))
        } else {
            Ok((OpenMode::ReadWriteCreate, true))
        }
    } else {
        match status {
            PathStatus::Absent => if readonly {
                Err(MarfError::NotFoundError)
            } else {
                Ok((OpenMode::ReadWriteCreate, true))
            },
            PathStatus::Unreadable(cause) => Err(MarfError::IOError(cause)),
            PathStatus::Present => if readonly {
                Ok((OpenMode::ReadOnly, false))
            } else {
                Ok((OpenMode::ReadWrite, false))
            },
        }
    }
}

/// Most retries that the busy policy grants for one lock.
pub const BUSY_MAX_RETRIES: i32 = 16;

/// Longest pause of the busy policy, in milliseconds.
pub const BUSY_MAX_DELAY_MS: u64 = 5000;

/// Two to the power `n`.
pub open spec fn pow2(n: nat) -> nat
    decreases n,
{
    if n == 0 {
        1
    } else {
        2 * pow2((n - 1) as nat)
    }
}

/// What the busy policy says when the store is found locked and has been
/// found locked `run_count` times before for the same lock: how many
/// milliseconds to pause before the next try, or nothing when the tries
/// are used up.
///
/// The pause is 10 ms at first and then doubles from 2 ms on with each
/// try, up to 5 s; after 16 retries the policy gives up.
pub open spec fn spec_busy_delay(run_count: i32) -> Option<u64> {
    if run_count >= BUSY_MAX_RETRIES {
        None
    } else if run_count <= 0 {
        Some(10u64)
    } else if pow2(run_count as nat) > BUSY_MAX_DELAY_MS {
        Some(BUSY_MAX_DELAY_MS)
    } else {
        Some(pow2(run_count as nat) as u64)
    }
}

/// What the busy policy says when the store is found locked and has been
/// found locked `run_count` times before for the same lock.
pub fn tx_busy_delay(run_count: i32) -> (r: Option<u64>)
    ensures
        r == spec_busy_delay(run_count),
{
    if run_count >= BUSY_MAX_RETRIES {
        return None;
    }
    if run_count <= 0 {
        return Some(10);
    }
    let mut delay: u64 = 1;
    let mut i: i32 = 0;
    while i < run_count
        invariant
            0 <= i <= run_count < BUSY_MAX_RETRIES,
            delay == pow2(i as nat),
            delay <= 0x1_0000,
        decreases run_count - i,
    {
        delay = delay * 2;
        i += 1;
        proof {
            lemma_pow2_bound(i as nat);
        }
    }
    if delay > BUSY_MAX_DELAY_MS {
        Some(BUSY_MAX_DELAY_MS)
    } else {
        Some(delay)
    }
}

/// The pauses of the busy policy for the first `n` tries, added up, in
/// milliseconds.
pub open spec fn spec_busy_budget(n: nat) -> nat
    decreases n,
{
    if n == 0 {
        0
    } else {
        spec_busy_budget((n - 1) as nat) + (match spec_busy_delay((n - 1) as i32) {
            Some(delay) => delay as nat,
            None => 0,
        })
    }
}

/// The longest that the busy policy pauses for one lock before it gives
/// up: all its pauses added up, in milliseconds.
pub fn tx_busy_budget() -> (r: u32)
    ensures
        r == spec_busy_budget(BUSY_MAX_RETRIES as nat),
        r <= BUSY_MAX_RETRIES * BUSY_MAX_DELAY_MS,
{
    let mut total: u32 = 0;
    let mut i: i32 = 0;
    while i < BUSY_MAX_RETRIES
        invariant
            0 <= i <= BUSY_MAX_RETRIES,
            total == spec_busy_budget(i as nat),
            total <= i * BUSY_MAX_DELAY_MS,
        decreases BUSY_MAX_RETRIES - i,
    {
        let pause = match tx_busy_delay(i) {
            Some(delay) => delay as u32,
            None => 0,
        };
        total = total + pause;
        i += 1;
    }
    total
}

/// Powers of two up to the sixteenth.
proof fn lemma_pow2_bound(n: nat)
    requires
        n <= 16,
    ensures
        pow2(n) <= 0x1_0000,
    decreases 16 - n,
{
    if n == 16 {
        reveal_with_fuel(pow2, 17);
    } else {
        lemma_pow2_bound(n + 1);
    }
}

/// What a store holds in memory. What it holds on disk is not part of
/// this.
#[verifier::ext_equal]
pub struct StorageSpec<T> {
    /// The path the store was opened at.
    pub db_path: Seq<char>,
    /// The trie being extended, if any.
    pub extending: Option<TrieRAMSpec<T>>,
    /// The block selected for reads and writes.
    pub cur_block: T,
    /// The identifier of the selected block in the blob store, if known.
    pub cur_block_id: Option<u32>,
    /// Tallies of reads and writes.
    pub counters: Counters,
    /// Hashes of ancestors kept for a block, if any.
    pub ancestor_cache: Option<(T, Seq<TrieHash>)>,
    /// Block hashes by identifier, as far as they were looked up.
    pub block_hash_cache: Map<u32, T>,
    /// Whether writes are refused.
    pub readonly: bool,
    /// Whether the store works on unconfirmed tries.
    pub unconfirmed: bool,
}

impl<T: MarfTrieId> StorageSpec<T> {
    /// Whether the selected block is the one being extended.
    pub open spec fn extending_selected(self) -> bool {
        self.extending matches Some(t) && t.block_header == self.cur_block
    }

    /// Whether the selection is consistent: the block being extended has
    /// no identifier in the blob store yet, so while it is selected no
    /// identifier is held.
    pub open spec fn selector_consistent(self) -> bool {
        self.extending_selected() ==> self.cur_block_id is None
    }

    /// Whether the selection is known to the blob store: a selected block
    /// that is neither the one being extended nor the sentinel is held
    /// with its identifier.
    ///
    /// Opening a store, selecting a block, starting an extension and
    /// flushing to the tries of the chain keep this. Dropping a trie and
    /// flushing to the mined tries leave the block selected that they
    /// found selected, and hold no identifier for it where the blob store
    /// has none.
    pub open spec fn selection_known(self) -> bool {
        self.extending_selected() || is_sentinel(self.cur_block) || self.cur_block_id is Some
    }

    /// The same store after the trie being extended was serialized: each
    /// node read on the way is counted by the trie as a read.
    pub open spec fn serialized(self) -> StorageSpec<T> {
        match self.extending {
            Some(trie) => StorageSpec {
                extending: Some(
                    TrieRAMSpec {
                        counters: trie.counters.after_reads_through(layout_reads(trie.nodes)),
                        ..trie
                    },
                ),
                ..self
            },
            None => self,
        }
    }

    /// The same store without its ancestor hashes.
    pub open spec fn forget_ancestors(self) -> StorageSpec<T> {
        StorageSpec { ancestor_cache: None, ..self }
    }
}

/// Something that knows the hash of a block by the identifier under
/// which the blob store keeps the block's trie.
pub trait BlockMap {
    /// The kind of block identifier.
    type TrieId: MarfTrieId;

    /// The block hashes kept in memory, by identifier.
    spec fn cached_hashes(&self) -> Map<u32, Self::TrieId>;

    /// The hash of the block with the identifier `id`, from the blob
    /// store.
    fn get_block_hash(&self, id: u32) -> (r: Result<Self::TrieId, MarfError>)
        ensures
            r matches Err(e) ==> is_store_failure(e) || e is CorruptionError
                || e is NotFoundError,
    ;

    /// The hash of the block with the identifier `id`: the one kept in
    /// memory if there is one, else the one that the blob store gives,
    /// which is kept from then on.
    fn get_block_hash_caching(&mut self, id: u32) -> (r: Result<Self::TrieId, MarfError>)
        ensures
            old(self).cached_hashes().contains_key(id) ==> r == Ok::<Self::TrieId, MarfError>(
                old(self).cached_hashes()[id],
            ),
            r matches Ok(h) ==> final(self).cached_hashes() == old(self).cached_hashes().insert(
                id,
                h,
            ),
            r matches Err(e) ==> final(self).cached_hashes() == old(self).cached_hashes() && (
            is_store_failure(e) || e is CorruptionError || e is NotFoundError),
    ;
}

/// Reader of node hashes from the trie stored under one identifier.
pub struct TrieSqlCursor<'a> {
    db: &'a Connection,
    block_id: u32,
}

/// Block hashes by identifier: a blob store to ask, and the answers kept
/// in memory. The answers are handed over to the cursor while it works
/// and taken back afterwards.
pub struct TrieSqlHashMapCursor<'a, T: MarfTrieId> {
    db: &'a Connection,
    cache: HashMap<u32, T>,
}

impl NodeHashReader for TrieSqlCursor<'_> {
    open spec fn held_hash(&self, ptr: TriePtr) -> Option<Seq<u8>> {
        None
    }

    fn read_node_hash_bytes(&self, ptr: &TriePtr, w: &mut Vec<u8>) -> (r: Result<
        (),
        MarfError,
    >) {
        trie_sql::read_node_hash_bytes(self.db, w, self.block_id, ptr)
    }
}

/// Looks `id` up in `cache`, and in the blob store if it is not there.
fn cached_block_hash<T: MarfTrieId>(db: &Connection, cache: &mut HashMap<u32, T>, id: u32) -> (r:
    Result<T, MarfError>)
    ensures
        old(cache)@.contains_key(id) ==> r == Ok::<T, MarfError>(old(cache)@[id]),
        r matches Ok(h) ==> final(cache)@ == old(cache)@.insert(id, h),
        r matches Err(e) ==> final(cache)@ == old(cache)@ && (is_store_failure(e)
            || e is CorruptionError || e is NotFoundError),
{
    match cache.get(&id) {
        Some(h) => {
            let h = *h;
            assert(cache@ =~= old(cache)@.insert(id, h));
            Ok(h)
        },
        None => {
            let h = trie_sql::get_block_hash(db, id)?;
            cache.insert(id, h);
            Ok(h)
        },
    }
}

impl<T: MarfTrieId> BlockMap for TrieSqlHashMapCursor<'_, T> {
    type TrieId = T;

    closed spec fn cached_hashes(&self) -> Map<u32, T> {
        self.cache@
    }

    fn get_block_hash(&self, id: u32) -> (r: Result<T, MarfError>) {
        trie_sql::get_block_hash(self.db, id)
    }

    fn get_block_hash_caching(&mut self, id: u32) -> (r: Result<T, MarfError>) {
        cached_block_hash(self.db, &mut self.cache, id)
    }
}

/// Whether `chunk` is what stands for a child slot among the hashes of
/// a node's children.
///
/// For an empty slot it is the hash of the empty byte string. For a slot
/// that leads to a node of the same trie it is that node's hash; `held`
/// is that hash where the reader holds it in memory. For a back-pointer
/// it is the hash of the block that the pointer names, not the hash of
/// the node.
pub open spec fn child_hash_written<T: MarfTrieId>(
    ptr: TriePtr,
    chunk: Seq<u8>,
    held: Option<Seq<u8>>,
    block_hashes: Map<u32, T>,
) -> bool {
    if ptr.id == TRIE_NODE_ID_EMPTY {
        chunk == sha512_256(Seq::<u8>::empty())
    } else if !spec_is_backptr(ptr.id) {
        held matches Some(h) ==> chunk == h
    } else {
        block_hashes.contains_key(ptr.back_block) && chunk
            == block_hashes[ptr.back_block].id_bytes()
    }
}

/// Whether the hash for a child slot can be had without the blob store.
pub open spec fn child_hash_at_hand<T>(
    ptr: TriePtr,
    held: Option<Seq<u8>>,
    block_hashes: Map<u32, T>,
) -> bool {
    if ptr.id == TRIE_NODE_ID_EMPTY {
        true
    } else if !spec_is_backptr(ptr.id) {
        held is Some
    } else {
        block_hashes.contains_key(ptr.back_block)
    }
}

/// Whether every block hash that `before` holds is held by `after` too.
pub open spec fn hashes_kept<T>(before: Map<u32, T>, after: Map<u32, T>) -> bool {
    forall|id: u32| #[trigger] before.contains_key(id) ==> after.contains_key(id) && after[id]
        == before[id]
}

/// Number of hashes that `w` has grown by.
pub open spec fn hashes_written(before: Seq<u8>, after: Seq<u8>) -> int {
    (after.len() - before.len()) / 32
}

/// Appends to `w` the hashes that stand for the child slots of `node`,
/// 32 bytes for each slot in order: see `child_hash_written`.
///
/// Succeeds where every hash is at hand; otherwise it is up to the
/// reader and the block map. On failure `w` holds the hashes for the
/// slots before the one whose hash could not be had.
pub fn inner_write_children_hashes<H: NodeHashReader, M: BlockMap>(
    hash_reader: &H,
    map: &mut M,
    node: &TrieNodeType,
    w: &mut Vec<u8>,
) -> (r: Result<(), MarfError>)
    ensures
        hashes_kept(old(map).cached_hashes(), final(map).cached_hashes()),
        final(w)@.len() == old(w)@.len() + 32 * hashes_written(old(w)@, final(w)@),
        final(w)@.subrange(0, old(w)@.len() as int) == old(w)@,
        0 <= hashes_written(old(w)@, final(w)@) <= node@.ptrs.len(),
        r is Ok <==> hashes_written(old(w)@, final(w)@) == node@.ptrs.len(),
        forall|k: int|
            0 <= k < hashes_written(old(w)@, final(w)@) ==> child_hash_written(
                #[trigger] node@.ptrs[k],
                final(w)@.subrange(old(w)@.len() + 32 * k, old(w)@.len() + 32 * k + 32),
                hash_reader.held_hash(node@.ptrs[k]),
                final(map).cached_hashes(),
            ),
        r is Err ==> !child_hash_at_hand(
            node@.ptrs[hashes_written(old(w)@, final(w)@)],
            hash_reader.held_hash(node@.ptrs[hashes_written(old(w)@, final(w)@)]),
            final(map).cached_hashes(),
        ),
        (forall|k: int|
            0 <= k < node@.ptrs.len() ==> child_hash_at_hand(
                #[trigger] node@.ptrs[k],
                hash_reader.held_hash(node@.ptrs[k]),
                old(map).cached_hashes(),
            )) ==> r is Ok && final(map).cached_hashes() == old(map).cached_hashes(),
        r matches Err(e) ==> is_store_failure(e) || e is CorruptionError || e is NotFoundError,
{
    let ptrs = node.ptrs();
    let ghost start = w@.len() as int;
    let ghost cache0 = map.cached_hashes();
    let mut i: usize = 0;
    while i < ptrs.len()
        invariant
            i <= ptrs@.len(),
            ptrs@ == node@.ptrs,
            start == old(w)@.len(),
            cache0 == old(map).cached_hashes(),
            hashes_kept(cache0, map.cached_hashes()),
            w@.len() == start + 32 * i,
            w@.subrange(0, start) == old(w)@,
            forall|k: int|
                0 <= k < i ==> child_hash_written(
                    #[trigger] ptrs@[k],
                    w@.subrange(start + 32 * k, start + 32 * k + 32),
                    hash_reader.held_hash(ptrs@[k]),
                    map.cached_hashes(),
                ),
            (forall|k: int|
                0 <= k < i ==> child_hash_at_hand(
                    #[trigger] ptrs@[k],
                    hash_reader.held_hash(ptrs@[k]),
                    cache0,
                )) ==> map.cached_hashes() == cache0,
        decreases ptrs@.len() - i,
    {
        let ptr = ptrs[i];
        let ghost before = w@;
        let ghost cache_before = map.cached_hashes();
        if ptr.id() == TRIE_NODE_ID_EMPTY {
            let empty = TrieHash::from_empty_data();
            crate::hash::append_hash(w, empty.as_bytes());
            assert(w@.subrange(start + 32 * i, start + 32 * i + 32) =~= empty@);
        } else if !crate::node::is_backptr(ptr.id()) {
            match hash_reader.read_node_hash_bytes(&ptr, w) {
                Ok(()) => {},
                Err(e) => {
                    return Err(e);
                },
            }
        } else {
            let block_hash = match map.get_block_hash_caching(ptr.back_block()) {
                Ok(h) => h,
                Err(e) => {
                    return Err(e);
                },
            };
            crate::hash::append_hash(w, block_hash.as_bytes());
            assert(w@.subrange(start + 32 * i, start + 32 * i + 32) =~= block_hash.id_bytes());
            assert(map.cached_hashes() == cache_before.insert(ptr.back_block, block_hash));
            assert forall|id: u32| #[trigger] cache_before.contains_key(id) implies map
                .cached_hashes().contains_key(id) && map.cached_hashes()[id]
                == cache_before[id] by {}
        }
        proof {
            assert(w@.subrange(0, start) =~= old(w)@);
            assert(w@.subrange(0, before.len() as int) =~= before);
            assert forall|k: int| 0 <= k < i implies child_hash_written(
                #[trigger] ptrs@[k],
                w@.subrange(start + 32 * k, start + 32 * k + 32),
                hash_reader.held_hash(ptrs@[k]),
                map.cached_hashes(),
            ) by {
                assert(w@.subrange(start + 32 * k, start + 32 * k + 32) =~= before.subrange(
                    start + 32 * k,
                    start + 32 * k + 32,
                ));
                assert(child_hash_written(
                    ptrs@[k],
                    before.subrange(start + 32 * k, start + 32 * k + 32),
                    hash_reader.held_hash(ptrs@[k]),
                    cache_before,
                ));
            }
            let chunk = w@.subrange(start + 32 * i, start + 32 * i + 32);
            if ptr.id != TRIE_NODE_ID_EMPTY && !spec_is_backptr(ptr.id) {
                if let Some(h) = hash_reader.held_hash(ptr) {
                    assert(chunk =~= h);
                }
            }
        }
        i += 1;
    }
    Ok(())
}

/// Number of tries when the blob store holds `stored` confirmed ones: one
/// more where a trie is being extended, as far as the machine can say it.
pub open spec fn spec_block_count(stored: u32, extending: bool) -> int {
    if extending && stored < usize::MAX {
        stored + 1
    } else {
        stored as int
    }
}

/// Number of tries when the blob store holds `stored` confirmed ones.
pub fn block_count(stored: u32, extending: bool) -> (r: usize)
    ensures
        r == spec_block_count(stored, extending),
{
    let stored = stored as usize;
    if extending && stored < usize::MAX {
        stored + 1
    } else {
        stored
    }
}

/// Where a flush puts the trie that was being extended.
#[derive(Clone, Copy, Debug)]
pub enum FlushOptions<T> {
    /// Among the confirmed tries, under the block it was built for.
    CurrentHeader,
    /// Among the confirmed tries, under another block.
    NewHeader(T),
    /// Among the mined tries, under another block.
    MinedTable(T),
    /// Among the unconfirmed tries, under the block it was built for.
    UnconfirmedTable,
}

impl<T: MarfTrieId> FlushOptions<T> {
    /// Whether the destination fits the mode of the store: unconfirmed
    /// tries go to a store of unconfirmed tries, all others to a store of
    /// confirmed ones.
    pub open spec fn fits(self, unconfirmed: bool) -> bool {
        (self is UnconfirmedTable) == unconfirmed
    }

    /// The block under which a flush stores a trie built for `built_for`.
    pub open spec fn stored_under(self, built_for: T) -> T {
        match self {
            FlushOptions::NewHeader(target) => target,
            FlushOptions::MinedTable(target) => target,
            _ => built_for,
        }
    }

    /// Whether the block selected after a flush is the one that the flush
    /// has stored among the tries of the chain, so that the store knows
    /// its identifier from then on.
    pub open spec fn stores_selected(self, built_for: T, selected: T) -> bool {
        !(self is MinedTable) && self.selected_after(built_for, selected) == self.stored_under(
            built_for,
        )
    }

    /// The block selected after a flush: the block the trie is stored
    /// under where that is another block than the one it was built for,
    /// else the block that was selected.
    pub open spec fn selected_after(self, built_for: T, selected: T) -> T {
        match self {
            FlushOptions::NewHeader(target) => if target != built_for {
                target
            } else {
                selected
            },
            _ => selected,
        }
    }
}

/// The tables of the blob store that tries are kept in.
#[derive(Clone, Copy, Debug, PartialEq, Eq, Structural)]
pub enum BlobTable {
    /// Tries of confirmed blocks: kept for good.
    Confirmed,
    /// Tries of blocks mined but not yet confirmed.
    Mined,
    /// Tries of unconfirmed blocks: may be stored again and dropped.
    Unconfirmed,
}

/// Where a flush puts a trie built for the block `built_for`: the table,
/// and the block under which the trie is stored; or `UnconfirmedError`
/// where the destination does not fit the mode of the store.
pub open spec fn spec_flush_target<T: MarfTrieId>(
    flush_options: FlushOptions<T>,
    unconfirmed: bool,
    built_for: T,
) -> Result<(BlobTable, T), MarfError> {
    if !flush_options.fits(unconfirmed) {
        Err(MarfError::UnconfirmedError)
    } else {
        match flush_options {
            FlushOptions::CurrentHeader => Ok((BlobTable::Confirmed, built_for)),
            FlushOptions::NewHeader(target) => Ok((BlobTable::Confirmed, target)),
            FlushOptions::MinedTable(target) => Ok((BlobTable::Mined, target)),
            FlushOptions::UnconfirmedTable => Ok((BlobTable::Unconfirmed, built_for)),
        }
    }
}

/// Where a flush puts a trie built for the block `built_for`.
pub fn flush_target<T: MarfTrieId>(flush_options: FlushOptions<T>, unconfirmed: bool, built_for: T) -> (r:
    Result<(BlobTable, T), MarfError>)
    ensures
        r == spec_flush_target(flush_options, unconfirmed, built_for),
{
    match flush_options {
        FlushOptions::CurrentHeader => {
            if unconfirmed {
                Err(MarfError::UnconfirmedError)
            } else {
                Ok((BlobTable::Confirmed, built_for))
            }
        },
        FlushOptions::NewHeader(target) => {
            if unconfirmed {
                Err(MarfError::UnconfirmedError)
            } else {
                Ok((BlobTable::Confirmed, target))
            }
        },
        FlushOptions::MinedTable(target) => {
            if unconfirmed {
                Err(MarfError::UnconfirmedError)
            } else {
                Ok((BlobTable::Mined, target))
            }
        },
        FlushOptions::UnconfirmedTable => {
            if !unconfirmed {
                Err(MarfError::UnconfirmedError)
            } else {
                Ok((BlobTable::Unconfirmed, built_for))
            }
        },
    }
}

/// The block that a table of root hashes gives for a root hash: where
/// two pairs have the same root hash, the later one counts.
pub open spec fn spec_block_of_root<T>(table: Seq<(TrieHash, T)>, root: TrieHash) -> Option<T>
    decreases table.len(),
{
    if table.len() == 0 {
        None
    } else if table.last().0 == root {
        Some(table.last().1)
    } else {
        spec_block_of_root(table.drop_last(), root)
    }
}

/// The block that a table of root hashes gives for a root hash: where
/// two pairs have the same root hash, the later one counts.
pub fn block_of_root<T: MarfTrieId>(table: &Vec<(TrieHash, T)>, root: &TrieHash) -> (r: Option<T>)
    ensures
        r == spec_block_of_root(table@, *root),
{
    let mut i: usize = table.len();
    assert(table@.subrange(0, i as int) =~= table@);
    while i > 0
        invariant
            i <= table@.len(),
            spec_block_of_root(table@, *root) == spec_block_of_root(
                table@.subrange(0, i as int),
                *root,
            ),
        decreases i,
    {
        i -= 1;
        proof {
            let upto = table@.subrange(0, i + 1);
            assert(upto.drop_last() =~= table@.subrange(0, i as int));
            assert(upto.last() == table@[i as int]);
        }
        if table[i].0 == *root {
            return Some(table[i].1);
        }
    }
    None
}

/// Whether a confirmed block may be started, given whether the blob store
/// has a trie for it: a block that is stored is refused with
/// `ExistsError`.
pub fn stored_refusal(stored: bool) -> (r: Result<(), MarfError>)
    ensures
        r == (if stored {
            Err::<(), MarfError>(MarfError::ExistsError)
        } else {
            Ok::<(), MarfError>(())
        }),
{
    if stored {
        Err(MarfError::ExistsError)
    } else {
        Ok(())
    }
}

/// What comes of asking for the lock on a block: a lock that was not
/// taken, because another writer holds it or the block is stored, is
/// `ExistsError`.
pub fn lock_outcome(taken: bool) -> (r: Result<(), MarfError>)
    ensures
        r == (if taken {
            Ok::<(), MarfError>(())
        } else {
            Err::<(), MarfError>(MarfError::ExistsError)
        }),
{
    if taken {
        Ok(())
    } else {
        Err(MarfError::ExistsError)
    }
}

/// The trie with which an unconfirmed block `bhh` is started or taken
/// up, given the blob that the blob store has for it, if any, and whether
/// the trie is new.
///
/// Without a blob the trie is new and empty and follows `parent`. With a
/// blob the trie is the one read back from it, as `TrieRAM::load` reads
/// it; a blob that is no trie is `CorruptionError`.
pub fn unconfirmed_start<T: MarfTrieId>(
    found: Option<Vec<u8>>,
    bhh: &T,
    size_hint: usize,
    parent: &T,
) -> (r: Result<(TrieRAM<T>, bool), MarfError>)
    ensures
        match found {
            None => r is Ok && r->Ok_0.1 && r->Ok_0.0@ == (TrieRAMSpec {
                nodes: Seq::empty(),
                block_header: *bhh,
                parent: *parent,
                readonly: false,
                counters: Counters::spec_zero(),
            }),
            Some(blob) => match loaded_nodes(blob@) {
                Some(nodes) => {
                    &&& r is Ok
                    &&& !r->Ok_0.1
                    &&& r->Ok_0.0@.nodes == nodes
                    &&& r->Ok_0.0@.block_header == *bhh
                    &&& r->Ok_0.0@.parent.id_bytes() == blob@.subrange(0, 32)
                    &&& !r->Ok_0.0@.readonly
                    &&& r->Ok_0.0@.counters == Counters::spec_zero()
                    &&& nodes.len() > 0
                    &&& nodes[0].0.id == TRIE_NODE_ID_NODE256
                },
                None => r is Err && r->Err_0 is CorruptionError,
            },
        },
{
    match found {
        None => Ok((TrieRAM::new(bhh, size_hint, parent), true)),
        Some(blob) => {
            let trie = TrieRAM::load(blob.as_slice(), bhh)?;
            proof {
                crate::blob::lemma_loaded_root(blob@);
            }
            Ok((trie, false))
        },
    }
}

/// Store of the tries of a chain of blocks: the trie being extended in
/// memory, the others as blobs in a database.
pub struct TrieFileStorage<T: MarfTrieId> {
    db_path: String,
    last_extended: Option<TrieRAM<T>>,
    db: Connection,
    cur_block: T,
    cur_block_id: Option<u32>,
    counters: Counters,
    trie_ancestor_hash_bytes_cache: Option<(T, Vec<TrieHash>)>,
    block_hash_cache: HashMap<u32, T>,
    readonly: bool,
    unconfirmed: bool,
}

impl<T: MarfTrieId> View for TrieFileStorage<T> {
    type V = StorageSpec<T>;

    closed spec fn view(&self) -> StorageSpec<T> {
        StorageSpec {
            db_path: self.db_path@,
            extending: match self.last_extended {
                Some(t) => Some(t@),
                None => None,
            },
            cur_block: self.cur_block,
            cur_block_id: self.cur_block_id,
            counters: self.counters,
            ancestor_cache: match self.trie_ancestor_hash_bytes_cache {
                Some((bhh, hashes)) => Some((bhh, hashes@)),
                None => None,
            },
            block_hash_cache: self.block_hash_cache@,
            readonly: self.readonly,
            unconfirmed: self.unconfirmed,
        }
    }
}

impl<T: MarfTrieId> TrieFileStorage<T> {
    /// Whether `s` is what a store holds right after it was opened: no
    /// block selected, no trie being extended, nothing kept, nothing
    /// counted.
    pub open spec fn is_fresh(
        s: StorageSpec<T>,
        db_path: Seq<char>,
        readonly: bool,
        unconfirmed: bool,
    ) -> bool {
        &&& is_sentinel(s.cur_block)
        &&& s == (StorageSpec {
            db_path,
            extending: None,
            cur_block: s.cur_block,
            cur_block_id: None,
            counters: Counters::spec_zero(),
            ancestor_cache: None,
            block_hash_cache: Map::empty(),
            readonly,
            unconfirmed,
        })
    }

    /// Has SQLite, when it finds the database locked by another writer,
    /// try again for as long as the busy policy pauses in all, and then
    /// give up.
    fn install_busy_policy(db: &Connection) -> (r: Result<(), MarfError>)
        ensures
            r matches Err(e) ==> is_store_failure(e),
    {
        match trie_sql::set_busy_timeout(db, tx_busy_budget()) {
            Ok(()) => Ok(()),
            Err(e) => Err(trie_sql::db_error(e)),
        }
    }

    /// Opens the store at `db_path`, of which `status` says what is there.
    /// A store that is made anew gets its tables. No block is selected.
    fn open_opts(db_path: &str, readonly: bool, unconfirmed: bool, status: PathStatus) -> (r:
        Result<TrieFileStorage<T>, MarfError>)
        ensures
            r matches Ok(s) ==> Self::is_fresh(s@, db_path@, readonly, unconfirmed),
            spec_open_mode(db_path@ == ":memory:"@, status, readonly) matches Err(e) ==> r
                == Err::<TrieFileStorage<T>, MarfError>(e),
            spec_open_mode(db_path@ == ":memory:"@, status, readonly) is Ok ==> (r matches Err(
                e,
            ) ==> is_store_failure(e)),
    {
        let (mode, create_flag) = open_mode(is_memory_path(db_path), status, readonly)?;
        let mut db = match trie_sql::open_with_flags(db_path, mode) {
            Ok(db) => db,
            Err(e) => {
                return Err(trie_sql::db_error(e));
            },
        };
        Self::install_busy_policy(&db)?;
        if create_flag {
            trie_sql::create_tables_if_needed(&mut db)?;
        }
        let cur_block = T::sentinel();
        let ret = TrieFileStorage {
            db_path: db_path.to_owned(),
            db,
            last_extended: None,
            cur_block,
            cur_block_id: None,
            counters: Counters::zero(),
            trie_ancestor_hash_bytes_cache: None,
            block_hash_cache: HashMap::new(),
            readonly,
            unconfirmed,
        };
        assert(ret@.block_hash_cache =~= Map::empty());
        Ok(ret)
    }

    /// Opens the store at `db_path` for reading and writing confirmed
    /// tries. The store is made if nothing is there.
    pub fn open(db_path: &str, status: PathStatus) -> (r: Result<TrieFileStorage<T>, MarfError>)
        ensures
            r matches Ok(s) ==> Self::is_fresh(s@, db_path@, false, false),
            spec_open_mode(db_path@ == ":memory:"@, status, false) matches Err(e) ==> r
                == Err::<TrieFileStorage<T>, MarfError>(e),
            spec_open_mode(db_path@ == ":memory:"@, status, false) is Ok ==> (r matches Err(e)
                ==> is_store_failure(e)),
    {
        Self::open_opts(db_path, false, false, status)
    }

    /// Opens the store at `db_path` for reading. Fails with
    /// `NotFoundError` if nothing is there.
    pub fn open_readonly(db_path: &str, status: PathStatus) -> (r: Result<TrieFileStorage<T>, MarfError>)
        ensures
            r matches Ok(s) ==> Self::is_fresh(s@, db_path@, true, false),
            spec_open_mode(db_path@ == ":memory:"@, status, true) matches Err(e) ==> r
                == Err::<TrieFileStorage<T>, MarfError>(e),
            spec_open_mode(db_path@ == ":memory:"@, status, true) is Ok ==> (r matches Err(e)
                ==> is_store_failure(e)),
    {
        Self::open_opts(db_path, true, false, status)
    }

    /// Opens the store at `db_path` for reading and writing unconfirmed
    /// tries. The store is made if nothing is there.
    pub fn open_unconfirmed(db_path: &str, status: PathStatus) -> (r: Result<TrieFileStorage<T>, MarfError>)
        ensures
            r matches Ok(s) ==> Self::is_fresh(s@, db_path@, false, true),
            spec_open_mode(db_path@ == ":memory:"@, status, false) matches Err(e) ==> r
                == Err::<TrieFileStorage<T>, MarfError>(e),
            spec_open_mode(db_path@ == ":memory:"@, status, false) is Ok ==> (r matches Err(e)
                ==> is_store_failure(e)),
    {
        Self::open_opts(db_path, false, true, status)
    }

    /// Opens a store that lives in memory only, for reading and writing
    /// confirmed tries.
    pub fn new_memory() -> (r: Result<TrieFileStorage<T>, MarfError>)
        ensures
            r matches Ok(s) ==> Self::is_fresh(s@, ":memory:"@, false, false),
            r matches Err(e) ==> is_store_failure(e),
    {
        Self::open(":memory:", PathStatus::Absent)
    }

    /// Opens the same store once more, for reading only, with the same
    /// block selected. Refused with `InProgressError` while a trie is
    /// being extended.
    pub fn reopen_readonly(&self) -> (r: Result<TrieFileStorage<T>, MarfError>)
        ensures
            self@.extending is Some ==> r == Err::<TrieFileStorage<T>, MarfError>(
                MarfError::InProgressError,
            ),
            self@.extending is None ==> (r matches Err(e) ==> is_store_failure(e)),
            r matches Ok(s) ==> s@ == (StorageSpec {
                extending: None,
                counters: Counters::spec_zero(),
                ancestor_cache: None,
                readonly: true,
                unconfirmed: true,
                ..self@
            }),
    {
        if self.last_extended.is_some() {
            return Err(MarfError::InProgressError);
        }
        let db = match trie_sql::open_with_flags(self.db_path.as_str(), OpenMode::ReadOnly) {
            Ok(db) => db,
            Err(e) => {
                return Err(trie_sql::db_error(e));
            },
        };
        Self::install_busy_policy(&db)?;
        let ret = TrieFileStorage {
            db_path: self.db_path.clone(),
            db,
            last_extended: None,
            cur_block: self.cur_block,
            cur_block_id: self.cur_block_id,
            counters: Counters::zero(),
            trie_ancestor_hash_bytes_cache: None,
            block_hash_cache: self.block_hash_cache.clone(),
            readonly: true,
            unconfirmed: true,
        };
        Ok(ret)
    }

    /// Has SQLite ask `handler` what to do when it finds the database of
    /// this store locked by another connection: try again, or give up.
    /// This takes the place of the policy that the store was opened
    /// with. A handler that pauses as long as `tx_busy_delay` says before
    /// each new try makes the tries back off as that policy has it.
    pub fn set_busy_handler<F: FnMut(i32) -> bool + Send + 'static>(&mut self, handler: F) -> (r:
        Result<(), MarfError>)
        ensures
            final(self)@ == old(self)@,
            r matches Err(e) ==> is_store_failure(e),
    {
        match trie_sql::set_busy_handler(&mut self.db, handler) {
            Ok(()) => Ok(()),
            Err(e) => Err(trie_sql::db_error(e)),
        }
    }

    /// Gives up every lock in the store at `db_path`: the way out after a
    /// writer died while it was extending.
    pub fn recover(db_path: &String) -> (r: Result<(), MarfError>)
        ensures
            r matches Err(e) ==> is_store_failure(e),
    {
        let conn = match trie_sql::open_with_flags(db_path.as_str(), OpenMode::ReadWriteCreate) {
            Ok(db) => db,
            Err(e) => {
                return Err(trie_sql::db_error(e));
            },
        };
        Self::install_busy_policy(&conn)?;
        trie_sql::clear_lock_data(&conn)
    }

    /// Serializes the trie being extended and hands out what a flush
    /// stores for it: the block it was built for, and its blob. With no
    /// trie being extended there is nothing to hand out. The trie stays.
    ///
    /// The blob holds the hash of the parent block, four zero bytes, and
    /// the nodes in breadth-first order from the root, with offsets for
    /// pointers.
    pub fn serialize_extending(&mut self) -> (r: Result<Option<(T, Vec<u8>)>, MarfError>)
        ensures
            final(self)@ == old(self)@.serialized(),
            match old(self)@.extending {
                None => r == Ok::<Option<(T, Vec<u8>)>, MarfError>(None),
                Some(trie) => match layout_order(trie.nodes) {
                    Ok(order) => {
                        &&& r is Ok
                        &&& r->Ok_0 is Some
                        &&& r->Ok_0->Some_0.0 == trie.block_header
                        &&& r->Ok_0->Some_0.1@ == trie_blob(
                            trie.parent.id_bytes(),
                            picked(trie.nodes, order),
                        )
                    },
                    Err(WalkFailure::Dangling) => r is Err && r->Err_0 is NotFoundError,
                    Err(_) => r is Err && r->Err_0 is CorruptionError,
                },
            },
    {
        match &mut self.last_extended {
            Some(trie_ram) => {
                let bhh = trie_ram.block_header();
                let mut buffer: Vec<u8> = Vec::new();
                trie_ram.dump(&mut buffer, &bhh)?;
                proof {
                    let order = layout_order(trie_ram@.nodes)->Ok_0;
                    let blob = trie_blob(
                        trie_ram@.parent.id_bytes(),
                        picked(trie_ram@.nodes, order),
                    );
                    assert(crate::blob::overlay(Seq::<u8>::empty(), 0, blob) =~= blob);
                }
                Ok(Some((bhh, buffer)))
            },
            None => Ok(None),
        }
    }

    /// What a flush does, whatever the blob store answers.
    ///
    /// A read-only store refuses. With no trie being extended there is
    /// nothing to do. A destination that does not fit the mode of the
    /// store is refused before anything is done. A trie that cannot be
    /// laid out, or that the blob store does not take, stays the trie
    /// being extended, and so does the selection. Once the blob store has
    /// taken the trie, the trie is let go of; the block it was stored
    /// under is selected where that is another block than the one it was
    /// built for; and where the selected block is the one just stored
    /// among the tries of the chain, its identifier is held.
    pub open spec fn spec_flush(
        s: StorageSpec<T>,
        flush_options: FlushOptions<T>,
        r: Result<(), MarfError>,
        after: StorageSpec<T>,
    ) -> bool {
        if s.readonly {
            r == Err::<(), MarfError>(MarfError::ReadOnlyError) && after == s.forget_ancestors()
        } else {
            match s.extending {
                None => r is Ok && after == s.forget_ancestors(),
                Some(trie) => if !flush_options.fits(s.unconfirmed) {
                    r == Err::<(), MarfError>(MarfError::UnconfirmedError) && after
                        == s.forget_ancestors()
                } else {
                    match layout_order(trie.nodes) {
                        Err(why) => {
                            &&& after == s.serialized().forget_ancestors()
                            &&& r is Err
                            &&& if why is Dangling {
                                r->Err_0 is NotFoundError
                            } else {
                                r->Err_0 is CorruptionError
                            }
                        },
                        Ok(_) => match r {
                            Ok(()) => Self::spec_flushed(s, flush_options, after),
                            Err(e) => {
                                &&& after == s.serialized().forget_ancestors()
                                &&& is_store_failure(e) || e is CorruptionError
                                    || e is NotFoundError || e is ExistsError
                            },
                        },
                    }
                },
            }
        }
    }

    /// The store after the blob store has taken the trie being extended.
    pub open spec fn spec_flushed(
        s: StorageSpec<T>,
        flush_options: FlushOptions<T>,
        after: StorageSpec<T>,
    ) -> bool {
        match s.extending {
            None => after == s.forget_ancestors(),
            Some(trie) => {
                &&& after == (StorageSpec {
                    extending: None,
                    cur_block: flush_options.selected_after(trie.block_header, s.cur_block),
                    cur_block_id: after.cur_block_id,
                    ancestor_cache: None,
                    ..s
                })
                &&& if flush_options.stores_selected(trie.block_header, s.cur_block) {
                    after.cur_block_id is Some
                } else {
                    after.cur_block_id == s.cur_block_id
                }
            },
        }
    }

    /// Serializes the trie being extended, stores it where `flush_options`
    /// says, and gives up the lock on its block, all in one transaction;
    /// then lets go of the trie. See `spec_flush`.
    fn inner_flush(&mut self, flush_options: FlushOptions<T>) -> (r: Result<(), MarfError>)
        ensures
            Self::spec_flush(old(self)@, flush_options, r, final(self)@),
    {
        self.trie_ancestor_hash_bytes_cache = None;
        if self.readonly {
            return Err(MarfError::ReadOnlyError);
        }
        let built_for = match &self.last_extended {
            Some(trie) => trie.block_header(),
            None => {
                return Ok(());
            },
        };
        let (table, store_under) = flush_target(flush_options, self.unconfirmed, built_for)?;
        let blob = match self.serialize_extending()? {
            Some((_, blob)) => blob,
            None => {
                return Ok(());
            },
        };
        let block_id = self.store_blob(table, &store_under, &built_for, blob.as_slice())?;
        // the blob store has the trie: the extension is over
        self.last_extended = None;
        match flush_options {
            FlushOptions::NewHeader(_) => {
                if !store_under.same(&built_for) {
                    self.cur_block = store_under;
                }
            },
            _ => {},
        }
        match table {
            BlobTable::Mined => {},
            _ => {
                if self.cur_block.same(&store_under) {
                    self.cur_block_id = Some(block_id);
                }
            },
        }
        Ok(())
    }

    /// Stores the blob of a trie in `table` under the block `store_under`
    /// and gives up the lock on the block `locked`, in one transaction.
    /// Hands out the identifier under which the blob stands.
    fn store_blob(&mut self, table: BlobTable, store_under: &T, locked: &T, blob: &[u8]) -> (r:
        Result<u32, MarfError>)
        ensures
            final(self)@ == old(self)@,
            r matches Err(e) ==> is_store_failure(e) || e is CorruptionError || e is NotFoundError
                || e is ExistsError,
    {
        let tx = trie_sql::begin_immediate(&mut self.db)?;
        let conn = trie_sql::tx_connection(&tx);
        let block_id = match table {
            BlobTable::Confirmed => trie_sql::write_trie_blob(conn, store_under, blob)?,
            BlobTable::Mined => trie_sql::write_trie_blob_to_mined(conn, store_under, blob)?,
            BlobTable::Unconfirmed => trie_sql::write_trie_blob_to_unconfirmed(
                conn,
                store_under,
                blob,
            )?,
        };
        trie_sql::drop_lock(conn, locked)?;
        trie_sql::commit(tx)?;
        Ok(block_id)
    }

    /// The destination of `flush`: the unconfirmed tries in a store of
    /// unconfirmed tries, else the confirmed ones, under the block that
    /// the trie was built for.
    pub open spec fn spec_own_destination(unconfirmed: bool) -> FlushOptions<T> {
        if unconfirmed {
            FlushOptions::UnconfirmedTable
        } else {
            FlushOptions::CurrentHeader
        }
    }

    /// Stores the trie being extended under the block it was built for,
    /// among the confirmed tries or, in a store of unconfirmed tries,
    /// among those; gives up the lock on the block; and then lets go of
    /// the trie. With no trie being extended there is nothing to do.
    ///
    /// A trie that could not be stored stays the trie being extended.
    /// After a flush that succeeds the block stays selected if it was,
    /// from then on with the identifier that the blob store gave it.
    pub fn flush(&mut self) -> (r: Result<(), MarfError>)
        ensures
            Self::spec_flush(
                old(self)@,
                Self::spec_own_destination(old(self)@.unconfirmed),
                r,
                final(self)@,
            ),
            old(self)@.selector_consistent() ==> final(self)@.selector_consistent(),
            old(self)@.selection_known() ==> final(self)@.selection_known(),
            r is Ok && old(self)@.extending_selected() ==> final(self)@.cur_block_id is Some
                && final(self)@.cur_block == old(self)@.cur_block,
            r is Ok ==> final(self)@.extending is None,
            r is Err && !old(self)@.readonly ==> final(self)@
                == old(self)@.serialized().forget_ancestors(),
    {
        if self.unconfirmed {
            self.inner_flush(FlushOptions::UnconfirmedTable)
        } else {
            self.inner_flush(FlushOptions::CurrentHeader)
        }
    }

    /// Stores the trie being extended among the confirmed tries under the
    /// block `bhh`, which need not be the one it was built for: a block
    /// can be built under a placeholder and committed under its real
    /// hash. Where the two differ, `bhh` is selected from then on.
    ///
    /// Refused with `UnconfirmedError` in a store of unconfirmed tries,
    /// before anything is done. A trie that could not be stored stays the
    /// trie being extended. After a flush that succeeds, `bhh` is held
    /// with the identifier that the blob store gave it if it is selected.
    pub fn flush_to(&mut self, bhh: &T) -> (r: Result<(), MarfError>)
        ensures
            Self::spec_flush(old(self)@, FlushOptions::NewHeader(*bhh), r, final(self)@),
            old(self)@.selector_consistent() ==> final(self)@.selector_consistent(),
            old(self)@.selection_known() ==> final(self)@.selection_known(),
            !old(self)@.readonly && old(self)@.extending is Some && old(self)@.unconfirmed ==> r
                == Err::<(), MarfError>(MarfError::UnconfirmedError) && final(self)@
                    == old(self)@.forget_ancestors(),
            r is Ok && old(self)@.extending is Some && final(self)@.cur_block == *bhh
                ==> final(self)@.cur_block_id is Some,
            r is Ok && old(self)@.extending is Some
                && *bhh != old(self)@.extending->Some_0.block_header ==> final(self)@.cur_block
                == *bhh,
            r is Ok ==> final(self)@.extending is None,
    {
        self.inner_flush(FlushOptions::NewHeader(*bhh))
    }

    /// Stores the trie being extended among the mined tries under the
    /// block `bhh`. The selection stays as it is.
    ///
    /// Refused with `UnconfirmedError` in a store of unconfirmed tries,
    /// before anything is done. A trie that could not be stored stays the
    /// trie being extended.
    pub fn flush_mined(&mut self, bhh: &T) -> (r: Result<(), MarfError>)
        ensures
            Self::spec_flush(old(self)@, FlushOptions::MinedTable(*bhh), r, final(self)@),
            old(self)@.selector_consistent() ==> final(self)@.selector_consistent(),
            !old(self)@.readonly && old(self)@.extending is Some && old(self)@.unconfirmed ==> r
                == Err::<(), MarfError>(MarfError::UnconfirmedError) && final(self)@
                    == old(self)@.forget_ancestors(),
            r is Ok ==> final(self)@.extending is None && final(self)@.cur_block
                == old(self)@.cur_block && final(self)@.cur_block_id == old(self)@.cur_block_id,
    {
        self.inner_flush(FlushOptions::MinedTable(*bhh))
    }

    /// Makes `trie_buf` the trie being extended and selects its block.
    fn switch_trie(&mut self, bhh: &T, trie_buf: TrieRAM<T>)
        requires
            trie_buf@.block_header == *bhh,
        ensures
            final(self)@ == (StorageSpec {
                extending: Some(trie_buf@),
                cur_block: *bhh,
                cur_block_id: None,
                ancestor_cache: None,
                ..old(self)@
            }),
    {
        self.cur_block = *bhh;
        self.cur_block_id = None;
        self.clear_cached_ancestor_hashes_bytes();
        self.last_extended = Some(trie_buf);
    }

    /// Number of nodes to make room for in a new trie: twice the number of
    /// writes that the trie being extended has seen, as far as the
    /// machine can say it, and 1024 where no trie is being extended.
    pub open spec fn spec_next_size_hint(s: StorageSpec<T>) -> int {
        match s.extending {
            Some(trie) => {
                let hint = if trie.counters.write_count <= usize::MAX {
                    trie.counters.write_count as int
                } else {
                    usize::MAX as int
                };
                if hint > usize::MAX / 2 {
                    usize::MAX as int
                } else {
                    2 * hint
                }
            },
            None => 1024,
        }
    }

    /// Number of nodes to make room for in a new trie.
    fn next_size_hint(&self) -> (r: usize)
        ensures
            r == Self::spec_next_size_hint(self@),
    {
        match &self.last_extended {
            Some(trie_storage) => {
                let hint = trie_storage.size_hint();
                if hint > usize::MAX / 2 {
                    usize::MAX
                } else {
                    2 * hint
                }
            },
            None => 1024,
        }
    }

    /// Starts the trie of a new confirmed block `bhh`, which follows the
    /// selected block.
    ///
    /// Refused on a read-only store and on a store of unconfirmed tries.
    /// Fails with `ExistsError` if the blob store has a trie for `bhh`
    /// already, or if another writer holds the lock on `bhh`. The trie
    /// that was being extended is flushed first. On success the new trie
    /// is empty, is the one being extended, and its block is selected.
    ///
    /// A call that fails leaves the store as it was where `bhh` was
    /// refused before the flush, as a failed flush leaves it where the
    /// flush failed, and as the flush left it where the lock was refused.
    pub fn extend_to_block(&mut self, bhh: &T) -> (r: Result<(), MarfError>)
        ensures
            old(self)@.selector_consistent() ==> final(self)@.selector_consistent(),
            old(self)@.selection_known() ==> final(self)@.selection_known(),
            old(self)@.readonly ==> r == Err::<(), MarfError>(MarfError::ReadOnlyError)
                && final(self)@ == old(self)@.forget_ancestors(),
            !old(self)@.readonly && old(self)@.unconfirmed ==> r == Err::<(), MarfError>(
                MarfError::UnconfirmedError,
            ) && final(self)@ == old(self)@.forget_ancestors(),
            !old(self)@.readonly && !old(self)@.unconfirmed ==> (r matches Err(e) ==> e
                is ExistsError || is_store_failure(e) || e is CorruptionError
                || e is NotFoundError),
            r is Ok ==> final(self)@ == (StorageSpec {
                extending: Some(
                    TrieRAMSpec {
                        nodes: Seq::empty(),
                        block_header: *bhh,
                        parent: old(self)@.cur_block,
                        readonly: false,
                        counters: Counters::spec_zero(),
                    },
                ),
                cur_block: *bhh,
                cur_block_id: None,
                ancestor_cache: None,
                ..old(self)@
            }),
            r is Err ==> final(self)@ == old(self)@.forget_ancestors() || final(self)@
                == old(self)@.serialized().forget_ancestors() || Self::spec_flushed(
                old(self)@,
                FlushOptions::CurrentHeader,
                final(self)@,
            ),
            r is Err && old(self)@.extending is None ==> final(self)@
                == old(self)@.forget_ancestors(),
            r is Err ==> final(self)@.cur_block == old(self)@.cur_block,
            r is Err && !old(self)@.readonly && !old(self)@.unconfirmed
                && (old(self)@.extending matches Some(trie) && layout_order(trie.nodes) is Err)
                ==> final(self)@.extending is Some,
    {
        self.clear_cached_ancestor_hashes_bytes();
        if self.readonly {
            return Err(MarfError::ReadOnlyError);
        }
        if self.unconfirmed {
            return Err(MarfError::UnconfirmedError);
        }
        stored_refusal(trie_sql::get_block_identifier(&self.db, bhh).is_ok())?;
        let size_hint = self.next_size_hint();
        self.flush()?;
        let trie_buf = TrieRAM::new(bhh, size_hint, &self.cur_block);
        lock_outcome(trie_sql::lock_bhh_for_extension(&mut self.db, bhh, false)?)?;
        self.switch_trie(bhh, trie_buf);
        Ok(())
    }

    /// Starts or takes up the trie of the unconfirmed block `bhh`.
    ///
    /// Refused with `UnconfirmedError` on a store of confirmed tries. The
    /// trie that was being extended is flushed first. If the blob store
    /// has an unconfirmed trie for `bhh`, that trie is read back into
    /// memory and the result is `false`; else the trie starts empty,
    /// follows the selected block, and the result is `true`. Fails with
    /// `ExistsError` if another writer holds the lock on `bhh`. On success
    /// the trie is the one being extended and its block is selected.
    ///
    /// A call that fails leaves the store as a failed flush leaves it
    /// where the flush failed, and as the flush left it otherwise.
    pub fn extend_to_unconfirmed_block(&mut self, bhh: &T) -> (r: Result<
        bool,
        MarfError,
    >)
        ensures
            old(self)@.selector_consistent() ==> final(self)@.selector_consistent(),
            old(self)@.selection_known() ==> final(self)@.selection_known(),
            !old(self)@.unconfirmed ==> r == Err::<bool, MarfError>(MarfError::UnconfirmedError)
                && final(self)@ == old(self)@.forget_ancestors(),
            old(self)@.unconfirmed && old(self)@.readonly ==> r == Err::<bool, MarfError>(
                MarfError::ReadOnlyError,
            ) && final(self)@ == old(self)@.forget_ancestors(),
            old(self)@.unconfirmed && !old(self)@.readonly ==> (r matches Err(e) ==> e
                is ExistsError || is_store_failure(e) || e is CorruptionError
                || e is NotFoundError),
            r matches Ok(created) ==> ({
                &&& final(self)@.extending is Some
                &&& final(self)@ == (StorageSpec {
                    extending: final(self)@.extending,
                    cur_block: *bhh,
                    cur_block_id: None,
                    ancestor_cache: None,
                    ..old(self)@
                })
                &&& final(self)@.extending->Some_0.block_header == *bhh
                &&& !final(self)@.extending->Some_0.readonly
                &&& final(self)@.extending->Some_0.counters == Counters::spec_zero()
                &&& created ==> final(self)@.extending->Some_0.nodes == Seq::<
                    crate::trie_ram::TrieEntry,
                >::empty() && final(self)@.extending->Some_0.parent == old(self)@.cur_block
                &&& !created ==> final(self)@.extending->Some_0.nodes.len() > 0
                    && final(self)@.extending->Some_0.nodes[0].0.id == TRIE_NODE_ID_NODE256
            }),
            r is Err ==> final(self)@ == old(self)@.forget_ancestors() || final(self)@
                == old(self)@.serialized().forget_ancestors() || Self::spec_flushed(
                old(self)@,
                FlushOptions::UnconfirmedTable,
                final(self)@,
            ),
            r is Err && old(self)@.extending is None ==> final(self)@
                == old(self)@.forget_ancestors(),
            r is Err ==> final(self)@.cur_block == old(self)@.cur_block,
    {
        self.clear_cached_ancestor_hashes_bytes();
        if !self.unconfirmed {
            return Err(MarfError::UnconfirmedError);
        }
        let size_hint = self.next_size_hint();
        self.flush()?;
        let tx = trie_sql::begin_immediate(&mut self.db)?;
        let conn = trie_sql::tx_connection(&tx);
        let found = match trie_sql::get_unconfirmed_block_identifier(conn, bhh)? {
            Some(block_id) => Some(trie_sql::read_trie_blob(conn, block_id)?),
            None => None,
        };
        let (trie_buf, created) = unconfirmed_start(found, bhh, size_hint, &self.cur_block)?;
        lock_outcome(trie_sql::tx_lock_bhh_for_extension(conn, bhh, true)?)?;
        trie_sql::commit(tx)?;
        self.switch_trie(bhh, trie_buf);
        Ok(created)
    }

    /// Whether the blob store has a confirmed trie for `bhh`.
    pub fn has_confirmed_block(&self, bhh: &T) -> (r: Result<bool, MarfError>)
        ensures
            r matches Err(e) ==> is_store_failure(e) || e is CorruptionError,
    {
        match trie_sql::get_confirmed_block_identifier(&self.db, bhh) {
            Ok(Some(_)) => Ok(true),
            Ok(None) => Ok(false),
            Err(e) => Err(e),
        }
    }

    /// Whether the blob store has an unconfirmed trie for `bhh`.
    pub fn has_unconfirmed_block(&self, bhh: &T) -> (r: Result<bool, MarfError>)
        ensures
            r matches Err(e) ==> is_store_failure(e) || e is CorruptionError,
    {
        match trie_sql::get_unconfirmed_block_identifier(&self.db, bhh) {
            Ok(Some(_)) => Ok(true),
            Ok(None) => Ok(false),
            Err(e) => Err(e),
        }
    }

    /// Whether the blob store has a trie for `bhh`, confirmed or not.
    pub fn has_block(&self, bhh: &T) -> (r: Result<bool, MarfError>)
        ensures
            r matches Err(e) ==> is_store_failure(e) || e is CorruptionError,
    {
        if self.has_confirmed_block(bhh)? {
            return Ok(true);
        }
        self.has_unconfirmed_block(bhh)
    }

    /// Whether `bhh` is the block being extended.
    pub fn is_extending(&self, bhh: &T) -> (r: bool)
        ensures
            r == (self@.extending matches Some(t) && t.block_header == *bhh),
    {
        match &self.last_extended {
            Some(trie) => trie.block_header().same(bhh),
            None => false,
        }
    }

    /// Selects the block `bhh`, by the identifier `id` if there is one
    /// and by a lookup in the blob store if not.
    pub fn open_block_maybe_id(&mut self, bhh: &T, id: Option<u32>) -> (r: Result<
        (),
        MarfError,
    >)
        requires
            id is Some ==> Self::spec_already_open(old(self)@, *bhh) || !(
            old(self)@.extending matches Some(t) && t.block_header == *bhh),
        ensures
            old(self)@.selection_known() ==> final(self)@.selection_known(),
            id matches Some(known) ==> r is Ok && final(self)@ == Self::spec_open_known(
                old(self)@,
                *bhh,
                known,
            ),
            id is None ==> Self::spec_open_block(old(self)@, *bhh, r, final(self)@),
    {
        match id {
            Some(id) => self.open_block_known_id(bhh, id),
            None => self.open_block(bhh),
        }
    }

    /// Whether `bhh` is selected already, with its identifier known.
    pub open spec fn spec_already_open(s: StorageSpec<T>, bhh: T) -> bool {
        bhh == s.cur_block && s.cur_block_id is Some
    }

    /// The store after the block `bhh` was selected by its identifier.
    pub open spec fn spec_open_known(s: StorageSpec<T>, bhh: T, id: u32) -> StorageSpec<T> {
        if Self::spec_already_open(s, bhh) {
            s
        } else {
            StorageSpec { cur_block: bhh, cur_block_id: Some(id), ..s }
        }
    }

    /// Selects the block `bhh`, whose identifier in the blob store is
    /// `id`: the way to follow a back-pointer, which names its block by
    /// identifier. Nothing changes if `bhh` is selected already with its
    /// identifier known. The block being extended has no identifier and
    /// must not be selected this way.
    pub fn open_block_known_id(&mut self, bhh: &T, id: u32) -> (r: Result<
        (),
        MarfError,
    >)
        requires
            Self::spec_already_open(old(self)@, *bhh) || !(old(self)@.extending matches Some(t)
                && t.block_header == *bhh),
        ensures
            old(self)@.selector_consistent() ==> final(self)@.selector_consistent(),
            old(self)@.selection_known() ==> final(self)@.selection_known(),
            r is Ok,
            final(self)@ == Self::spec_open_known(old(self)@, *bhh, id),
    {
        if bhh.same(&self.cur_block) && self.cur_block_id.is_some() {
            return Ok(());
        }
        self.cur_block_id = Some(id);
        self.cur_block = *bhh;
        Ok(())
    }

    /// What `open_block` does, whatever the blob store answers.
    ///
    /// Nothing changes if `bhh` is selected already with its identifier
    /// known. The sentinel is always selected, with whatever identifier
    /// the blob store has for it. The block being extended is selected
    /// without an identifier. Any other block is selected with the
    /// identifier that the blob store has for it; if the lookup fails so
    /// does the call, and the selection stays as it was.
    pub open spec fn spec_open_block(
        s: StorageSpec<T>,
        bhh: T,
        r: Result<(), MarfError>,
        after: StorageSpec<T>,
    ) -> bool {
        if Self::spec_already_open(s, bhh) {
            r is Ok && after == s
        } else if is_sentinel(bhh) {
            r is Ok && after == (StorageSpec {
                cur_block: bhh,
                cur_block_id: after.cur_block_id,
                ..s
            })
        } else if s.extending matches Some(t) && t.block_header == bhh {
            r is Ok && after == (StorageSpec { cur_block: bhh, cur_block_id: None, ..s })
        } else {
            match r {
                Ok(()) => after.cur_block_id is Some && after == (StorageSpec {
                    cur_block: bhh,
                    cur_block_id: after.cur_block_id,
                    ..s
                }),
                Err(e) => after == s && (is_store_failure(e) || e is CorruptionError
                    || e is NotFoundError),
            }
        }
    }

    /// Selects the block `bhh` for reads: see `spec_open_block`.
    pub fn open_block(&mut self, bhh: &T) -> (r: Result<(), MarfError>)
        ensures
            old(self)@.selection_known() ==> final(self)@.selection_known(),
            old(self)@.selector_consistent() && !(old(self)@.extending matches Some(t)
                && is_sentinel(t.block_header)) ==> final(self)@.selector_consistent(),
            Self::spec_open_block(old(self)@, *bhh, r, final(self)@),
    {
        if bhh.same(&self.cur_block) && self.cur_block_id.is_some() {
            return Ok(());
        }
        let sentinel = Self::block_sentinel();
        if bhh.same(&sentinel) {
            proof {
                T::lemma_id_bytes(*bhh, sentinel);
            }
            self.cur_block = sentinel;
            self.cur_block_id = trie_sql::get_block_identifier(&self.db, bhh).ok();
            return Ok(());
        }
        proof {
            T::lemma_id_bytes(*bhh, sentinel);
        }
        if self.is_extending(bhh) {
            self.cur_block_id = None;
            self.cur_block = *bhh;
            return Ok(());
        }
        self.cur_block_id = Some(trie_sql::get_block_identifier(&self.db, bhh)?);
        self.cur_block = *bhh;
        Ok(())
    }

    /// The identifier of the block `bhh` in the blob store, if it has
    /// one. The block being extended has none.
    pub fn get_block_identifier(&self, bhh: &T) -> (r: Option<u32>)
        ensures
            (self@.extending matches Some(t) && t.block_header == *bhh) ==> r is None,
    {
        if self.is_extending(bhh) {
            return None;
        }
        trie_sql::get_block_identifier(&self.db, bhh).ok()
    }

    /// Empties the store: every table of the blob store, and what is held
    /// in memory but for the mode and the tallies. Refused on a read-only
    /// store; if the blob store fails nothing in memory changes.
    pub fn format(&mut self) -> (r: Result<(), MarfError>)
        ensures
            old(self)@.selector_consistent() ==> final(self)@.selector_consistent(),
            old(self)@.selection_known() ==> final(self)@.selection_known(),
            old(self)@.readonly ==> r == Err::<(), MarfError>(MarfError::ReadOnlyError),
            !old(self)@.readonly ==> (r matches Err(e) ==> is_store_failure(e)),
            r is Err ==> final(self)@ == old(self)@,
            r is Ok ==> is_sentinel(final(self)@.cur_block) && final(self)@ == (StorageSpec {
                extending: None,
                cur_block: final(self)@.cur_block,
                cur_block_id: None,
                ancestor_cache: None,
                ..old(self)@
            }),
    {
        if self.readonly {
            return Err(MarfError::ReadOnlyError);
        }
        trie_sql::clear_tables(&mut self.db)?;
        self.cur_block = Self::block_sentinel();
        self.cur_block_id = None;
        self.last_extended = None;
        self.clear_cached_ancestor_hashes_bytes();
        Ok(())
    }

    /// Lets go of the trie being extended without storing it, and gives
    /// up the lock on its block. Nothing happens on a read-only store.
    ///
    /// The selected block stays selected. If it is the block of the trie
    /// let go of, no identifier is held for it, as the blob store has
    /// none; another block keeps the identifier it is held with.
    ///
    /// A lock that cannot be given up would keep every writer from the
    /// block for good: that failure is reported as `CorruptionError`.
    pub fn drop_extending_trie(&mut self) -> (r: Result<(), MarfError>)
        ensures
            old(self)@.selector_consistent() ==> final(self)@.selector_consistent(),
            old(self)@.selection_known() && !old(self)@.extending_selected()
                ==> final(self)@.selection_known(),
            old(self)@.readonly ==> r is Ok && final(self)@ == old(self)@.forget_ancestors(),
            !old(self)@.readonly ==> final(self)@ == (StorageSpec {
                extending: None,
                cur_block_id: if old(self)@.extending_selected() {
                    None
                } else {
                    old(self)@.cur_block_id
                },
                ancestor_cache: None,
                ..old(self)@
            }),
            !old(self)@.readonly && old(self)@.extending is None ==> r is Ok,
            r matches Err(e) ==> e is CorruptionError,
    {
        self.clear_cached_ancestor_hashes_bytes();
        if self.readonly {
            return Ok(());
        }
        if self.is_extending_selected() {
            self.cur_block_id = None;
        }
        let dropped = self.last_extended.take();
        match dropped {
            Some(trie) => {
                let bhh = trie.block_header();
                match self.release_lock(&bhh, false) {
                    Ok(()) => Ok(()),
                    Err(_) => Err(
                        MarfError::CorruptionError(
                            "Failed to drop the extended trie lock".to_string(),
                        ),
                    ),
                }
            },
            None => Ok(()),
        }
    }

    /// Gives up the lock on `bhh` in a transaction of its own, after
    /// removing the unconfirmed trie of `bhh` if asked to.
    fn release_lock(&mut self, bhh: &T, with_trie: bool) -> (r: Result<
        (),
        MarfError,
    >)
        ensures
            final(self)@ == old(self)@,
            r matches Err(e) ==> is_store_failure(e),
    {
        let tx = trie_sql::begin_immediate(&mut self.db)?;
        let conn = trie_sql::tx_connection(&tx);
        if with_trie {
            trie_sql::drop_unconfirmed_trie(conn, bhh)?;
        }
        trie_sql::drop_lock(conn, bhh)?;
        trie_sql::commit(tx)
    }

    /// Removes the unconfirmed trie of `bhh` from the blob store, gives up
    /// the lock on `bhh`, and lets go of the trie being extended. Nothing
    /// happens but on a store of unconfirmed tries open for writing.
    ///
    /// The selected block stays selected. If it is `bhh` or the block of
    /// the trie let go of, no identifier is held for it any more; another
    /// block keeps the identifier it is held with.
    ///
    /// A failure of the blob store is reported as `CorruptionError`; what
    /// is held in memory is let go of all the same.
    pub fn drop_unconfirmed_trie(&mut self, bhh: &T) -> (r: Result<(), MarfError>)
        ensures
            old(self)@.selector_consistent() ==> final(self)@.selector_consistent(),
            old(self)@.selection_known() && !old(self)@.extending_selected()
                && old(self)@.cur_block != *bhh ==> final(self)@.selection_known(),
            old(self)@.readonly || !old(self)@.unconfirmed ==> r is Ok && final(self)@
                == old(self)@.forget_ancestors(),
            !old(self)@.readonly && old(self)@.unconfirmed ==> final(self)@ == (StorageSpec {
                extending: None,
                cur_block_id: if old(self)@.extending_selected() || old(self)@.cur_block
                    == *bhh {
                    None
                } else {
                    old(self)@.cur_block_id
                },
                ancestor_cache: None,
                ..old(self)@
            }),
            r matches Err(e) ==> e is CorruptionError,
    {
        self.clear_cached_ancestor_hashes_bytes();
        if self.readonly || !self.unconfirmed {
            return Ok(());
        }
        let released = self.release_lock(bhh, true);
        if self.is_extending_selected() || self.cur_block.same(bhh) {
            self.cur_block_id = None;
        }
        self.last_extended = None;
        match released {
            Ok(()) => Ok(()),
            Err(_) => Err(
                MarfError::CorruptionError("Failed to drop unconfirmed trie".to_string()),
            ),
        }
    }

    /// Number of tries: the confirmed ones in the blob store, and the one
    /// being extended if there is one.
    pub fn num_blocks(&self) -> (r: Result<usize, MarfError>)
        ensures
            r matches Ok(n) ==> self@.extending is Some ==> n >= 1,
            r matches Ok(n) ==> exists|stored: u32|
                n == #[trigger] spec_block_count(stored, self@.extending is Some),
            r matches Err(e) ==> is_store_failure(e) || e is CorruptionError,
    {
        let stored = trie_sql::count_blocks(&self.db)?;
        let n = block_count(stored, self.last_extended.is_some());
        assert(n == spec_block_count(stored, self@.extending is Some));
        Ok(n)
    }

    /// The hash of the block with the identifier `local_id`: the one kept
    /// in memory if there is one, else the one that the blob store gives,
    /// which is kept from then on.
    pub fn get_block_from_local_id(&mut self, local_id: u32) -> (r: Result<T, MarfError>)
        ensures
            old(self)@.block_hash_cache.contains_key(local_id) ==> r == Ok::<T, MarfError>(
                old(self)@.block_hash_cache[local_id],
            ),
            r matches Ok(h) ==> final(self)@ == (StorageSpec {
                block_hash_cache: old(self)@.block_hash_cache.insert(local_id, h),
                ..old(self)@
            }),
            r matches Err(e) ==> final(self)@ == old(self)@ && (is_store_failure(e)
                || e is CorruptionError || e is NotFoundError),
    {
        cached_block_hash(&self.db, &mut self.block_hash_cache, local_id)
    }

    /// The hash that a read through `ptr` gives where the selected trie
    /// is the one being extended and has a node at that index.
    pub open spec fn spec_held_hash(s: StorageSpec<T>, ptr: TriePtr) -> Option<Seq<u8>> {
        if s.extending_selected() && ptr.ptr < s.extending->Some_0.nodes.len() {
            Some(s.extending->Some_0.nodes[ptr.ptr as int].1)
        } else {
            None
        }
    }

    /// Appends to `w` the hashes that stand for the child slots of `node`,
    /// a node of the selected trie: 32 bytes for each slot in order.
    ///
    /// For an empty slot they are the hash of the empty byte string; for
    /// a slot that leads to a node of the same trie, that node's hash;
    /// for a back-pointer, the hash of the block that the pointer names.
    /// Block hashes that had to be looked up are kept in memory.
    ///
    /// Refused on a read-only store, and with `NotFoundError` where the
    /// selected block is neither the one being extended nor known by
    /// identifier. Succeeds where every hash is at hand in memory. On
    /// failure `w` holds the hashes for the slots before the one whose
    /// hash could not be had.
    pub fn write_children_hashes(&mut self, node: &TrieNodeType, w: &mut Vec<u8>) -> (r: Result<
        (),
        MarfError,
    >)
        ensures
            final(self)@ == (StorageSpec {
                block_hash_cache: final(self)@.block_hash_cache,
                ..old(self)@
            }),
            hashes_kept(old(self)@.block_hash_cache, final(self)@.block_hash_cache),
            final(w)@.len() == old(w)@.len() + 32 * hashes_written(old(w)@, final(w)@),
            final(w)@.subrange(0, old(w)@.len() as int) == old(w)@,
            0 <= hashes_written(old(w)@, final(w)@) <= node@.ptrs.len(),
            old(self)@.readonly ==> r == Err::<(), MarfError>(MarfError::ReadOnlyError) && final(w)@
                == old(w)@ && final(self)@ == old(self)@,
            !old(self)@.readonly && !old(self)@.extending_selected() && old(self)@.cur_block_id
                is None ==> r == Err::<(), MarfError>(MarfError::NotFoundError) && final(w)@
                == old(w)@ && final(self)@ == old(self)@,
            r is Ok ==> hashes_written(old(w)@, final(w)@) == node@.ptrs.len(),
            forall|k: int|
                0 <= k < hashes_written(old(w)@, final(w)@) ==> child_hash_written(
                    #[trigger] node@.ptrs[k],
                    final(w)@.subrange(old(w)@.len() + 32 * k, old(w)@.len() + 32 * k + 32),
                    Self::spec_held_hash(old(self)@, node@.ptrs[k]),
                    final(self)@.block_hash_cache,
                ),
            !old(self)@.readonly && (old(self)@.extending_selected() || old(self)@.cur_block_id
                is Some) ==> (r is Ok <==> hashes_written(old(w)@, final(w)@)
                == node@.ptrs.len()) && (r is Err ==> !child_hash_at_hand(
                node@.ptrs[hashes_written(old(w)@, final(w)@)],
                Self::spec_held_hash(old(self)@, node@.ptrs[hashes_written(old(w)@, final(w)@)]),
                final(self)@.block_hash_cache,
            )),
            !old(self)@.readonly && (old(self)@.extending_selected() || old(self)@.cur_block_id
                is Some) && (forall|k: int|
                0 <= k < node@.ptrs.len() ==> child_hash_at_hand(
                    #[trigger] node@.ptrs[k],
                    Self::spec_held_hash(old(self)@, node@.ptrs[k]),
                    old(self)@.block_hash_cache,
                )) ==> r is Ok && final(self)@ == old(self)@,
            r matches Err(e) ==> e is ReadOnlyError || is_store_failure(e) || e is CorruptionError
                || e is NotFoundError,
    {
        if self.readonly {
            return Err(MarfError::ReadOnlyError);
        }
        let block_id = self.cur_block_id;
        let extending_selected = self.is_extending_selected();
        if !extending_selected && block_id.is_none() {
            return Err(MarfError::NotFoundError);
        }
        let mut cache: HashMap<u32, T> = HashMap::new();
        std::mem::swap(&mut cache, &mut self.block_hash_cache);
        let mut map = TrieSqlHashMapCursor { db: &self.db, cache };
        let r = match (&self.last_extended, block_id) {
            (Some(last_extended_trie), _) if extending_selected => inner_write_children_hashes(
                last_extended_trie,
                &mut map,
                node,
                w,
            ),
            (_, Some(block_id)) => {
                let cursor = TrieSqlCursor { db: &self.db, block_id };
                inner_write_children_hashes(&cursor, &mut map, node, w)
            },
            (_, None) => Err(MarfError::NotFoundError),
        };
        self.block_hash_cache = map.cache;
        r
    }

    /// The hash of the node of the selected trie that `ptr` points to:
    /// from the trie being extended if that is the selected one, else
    /// from the blob of the selected block. Fails with `NotFoundError`
    /// where there is no such node, or no block selected by identifier.
    pub fn read_node_hash_bytes(&mut self, ptr: &TriePtr) -> (r: Result<TrieHash, MarfError>)
        ensures
            final(self)@ == old(self)@,
            old(self)@.extending_selected()
                ==> (if ptr.ptr < old(self)@.extending->Some_0.nodes.len() {
                r is Ok && r->Ok_0@ == old(self)@.extending->Some_0.nodes[ptr.ptr as int].1
            } else {
                r == Err::<TrieHash, MarfError>(MarfError::NotFoundError)
            }),
            !old(self)@.extending_selected() && old(self)@.cur_block_id is None ==> r == Err::<
                TrieHash,
                MarfError,
            >(MarfError::NotFoundError),
            r matches Err(e) ==> is_store_failure(e) || e is CorruptionError || e is NotFoundError,
    {
        if self.is_extending_selected() {
            match &self.last_extended {
                Some(trie_ram) => {
                    return trie_ram.read_node_hash(ptr);
                },
                None => {},
            }
        }
        match self.cur_block_id {
            Some(block_id) => trie_sql::get_node_hash_bytes(&self.db, block_id, ptr),
            None => Err(MarfError::NotFoundError),
        }
    }

    /// The node of the selected trie that `ptr` points to, with its hash:
    /// from the trie being extended if that is the selected one, else
    /// from the blob of the selected block.
    ///
    /// The pointer is followed within the selected trie whether or not it
    /// has the back-pointer mark. The read is counted by the kind tag of
    /// `ptr`, and counted once more, by the tag without the mark, by the
    /// trie being extended if it serves the read. Fails with
    /// `NotFoundError` where there is no such node, or no block selected
    /// by identifier.
    pub fn read_nodetype(&mut self, ptr: &TriePtr) -> (r: Result<
        (TrieNodeType, TrieHash),
        MarfError,
    >)
        ensures
            old(self)@.selector_consistent() ==> final(self)@.selector_consistent(),
            old(self)@.extending_selected() ==> ({
                let trie = old(self)@.extending->Some_0;
                &&& final(self)@ == (StorageSpec {
                    counters: old(self)@.counters.after_read(ptr.id),
                    extending: Some(
                        TrieRAMSpec {
                            counters: trie.counters.after_read(ptr.spec_from_backptr().id),
                            ..trie
                        },
                    ),
                    ..old(self)@
                })
                &&& if ptr.ptr < trie.nodes.len() {
                    r is Ok && (r->Ok_0.0@, r->Ok_0.1@) == trie.nodes[ptr.ptr as int]
                } else {
                    r == Err::<(TrieNodeType, TrieHash), MarfError>(MarfError::NotFoundError)
                }
            }),
            !old(self)@.extending_selected() ==> final(self)@ == (StorageSpec {
                counters: old(self)@.counters.after_read(ptr.id),
                ..old(self)@
            }),
            !old(self)@.extending_selected() && old(self)@.cur_block_id is None ==> r == Err::<
                (TrieNodeType, TrieHash),
                MarfError,
            >(MarfError::NotFoundError),
            r matches Err(e) ==> is_store_failure(e) || e is CorruptionError || e is NotFoundError,
    {
        self.counters.count_read(ptr.id());
        let clear_ptr = ptr.from_backptr();
        if self.is_extending_selected() {
            match &mut self.last_extended {
                Some(trie_storage) => {
                    return trie_storage.read_nodetype(&clear_ptr);
                },
                None => {},
            }
        }
        match self.cur_block_id {
            Some(id) => trie_sql::read_node_type(&self.db, id, &clear_ptr),
            None => Err(MarfError::NotFoundError),
        }
    }

    /// Stores a node and its hash in the trie being extended, at index
    /// `disk_ptr`: in place of the node that is there, or as a new last
    /// node if the index is the number of nodes. A greater index fails
    /// with `NotFoundError`. Refused on a read-only store.
    ///
    /// Writes go to the trie being extended only, so unless the store is
    /// read-only that trie must be the selected one.
    pub fn write_nodetype(&mut self, disk_ptr: u32, node: &TrieNodeType, hash: TrieHash) -> (r:
        Result<(), MarfError>)
        requires
            old(self)@.readonly || old(self)@.extending_selected(),
        ensures
            old(self)@.selector_consistent() ==> final(self)@.selector_consistent(),
            old(self)@.readonly ==> r == Err::<(), MarfError>(MarfError::ReadOnlyError)
                && final(self)@ == old(self)@,
            !old(self)@.readonly ==> ({
                let trie = old(self)@.extending->Some_0;
                let counted = old(self)@.counters.after_write(node@.is_leaf());
                let trie_counted = trie.counters.after_write(node@.is_leaf());
                if trie.readonly {
                    r == Err::<(), MarfError>(MarfError::ReadOnlyError) && final(self)@ == (
                    StorageSpec { counters: counted, ..old(self)@ })
                } else if disk_ptr < trie.nodes.len() {
                    r is Ok && final(self)@ == (StorageSpec {
                        counters: counted,
                        extending: Some(
                            TrieRAMSpec {
                                nodes: trie.nodes.update(disk_ptr as int, (node@, hash@)),
                                counters: trie_counted,
                                ..trie
                            },
                        ),
                        ..old(self)@
                    })
                } else if disk_ptr == trie.nodes.len() {
                    r is Ok && final(self)@ == (StorageSpec {
                        counters: counted,
                        extending: Some(
                            TrieRAMSpec {
                                nodes: trie.nodes.push((node@, hash@)),
                                counters: trie_counted,
                                ..trie
                            },
                        ),
                        ..old(self)@
                    })
                } else {
                    r == Err::<(), MarfError>(MarfError::NotFoundError) && final(self)@ == (
                    StorageSpec {
                        counters: counted,
                        extending: Some(TrieRAMSpec { counters: trie_counted, ..trie }),
                        ..old(self)@
                    })
                }
            }),
    {
        if self.readonly {
            return Err(MarfError::ReadOnlyError);
        }
        self.counters.count_write(node.is_leaf());
        match &mut self.last_extended {
            Some(trie_storage) => trie_storage.write_nodetype(disk_ptr, node, hash),
            None => Err(MarfError::NotFoundError),
        }
    }

    /// Stores a node of one kind and its hash in the trie being extended:
    /// see `write_nodetype`.
    pub fn write_node<N: TrieNode>(&mut self, ptr: u32, node: &N, hash: TrieHash) -> (r: Result<
        (),
        MarfError,
    >)
        requires
            old(self)@.readonly || old(self)@.extending_selected(),
        ensures
            old(self)@.readonly ==> r == Err::<(), MarfError>(MarfError::ReadOnlyError)
                && final(self)@ == old(self)@,
            !old(self)@.readonly ==> ({
                let trie = old(self)@.extending->Some_0;
                let seen = node.node_spec();
                let counted = old(self)@.counters.after_write(seen.is_leaf());
                let trie_counted = trie.counters.after_write(seen.is_leaf());
                if trie.readonly {
                    r == Err::<(), MarfError>(MarfError::ReadOnlyError) && final(self)@ == (
                    StorageSpec { counters: counted, ..old(self)@ })
                } else if ptr < trie.nodes.len() {
                    r is Ok && final(self)@ == (StorageSpec {
                        counters: counted,
                        extending: Some(
                            TrieRAMSpec {
                                nodes: trie.nodes.update(ptr as int, (seen, hash@)),
                                counters: trie_counted,
                                ..trie
                            },
                        ),
                        ..old(self)@
                    })
                } else if ptr == trie.nodes.len() {
                    r is Ok && final(self)@ == (StorageSpec {
                        counters: counted,
                        extending: Some(
                            TrieRAMSpec {
                                nodes: trie.nodes.push((seen, hash@)),
                                counters: trie_counted,
                                ..trie
                            },
                        ),
                        ..old(self)@
                    })
                } else {
                    r == Err::<(), MarfError>(MarfError::NotFoundError) && final(self)@ == (
                    StorageSpec {
                        counters: counted,
                        extending: Some(TrieRAMSpec { counters: trie_counted, ..trie }),
                        ..old(self)@
                    })
                }
            }),
    {
        if self.readonly {
            return Err(MarfError::ReadOnlyError);
        }
        let node_type = node.as_trie_node_type();
        self.write_nodetype(ptr, &node_type, hash)
    }

    /// The hash of the root of the trie stored for `bhh`.
    pub fn read_block_root_hash(&self, bhh: &T) -> (r: Result<TrieHash, MarfError>)
        ensures
            r matches Err(e) ==> is_store_failure(e) || e is CorruptionError || e is NotFoundError,
    {
        let root_hash_ptr = TriePtr::new(
            TRIE_NODE_ID_NODE256,
            0,
            Self::root_ptr_disk(),
        );
        trie_sql::get_node_hash_bytes_by_bhh(&self.db, bhh, &root_hash_ptr)
    }

    /// The hash of the root of each trie, with the hash of the trie's
    /// block: first the tries in the blob store, then the trie being
    /// extended if there is one.
    ///
    /// The table is read with `block_of_root`: where two tries have the
    /// same root hash, the later pair counts. So the root hash of the
    /// trie being extended leads to its block, whatever the blob store
    /// holds.
    pub fn read_root_to_block_table(&mut self) -> (r: Result<
        Vec<(TrieHash, T)>,
        MarfError,
    >)
        ensures
            final(self)@ == old(self)@,
            r matches Ok(table) ==> (old(self)@.extending matches Some(trie) ==> table@.len() > 0
                && trie.nodes.len() > 0 && table@.last().0@ == trie.nodes[0].1 && table@.last().1
                == trie.block_header && spec_block_of_root(table@, table@.last().0) == Some(
                trie.block_header,
            )),
            old(self)@.extending matches Some(trie) && trie.nodes.len() == 0 ==> r is Err,
            r matches Err(e) ==> is_store_failure(e) || e is CorruptionError || e is NotFoundError,
    {
        let mut ret = trie_sql::read_all_block_hashes_and_roots(&self.db)?;
        match &self.last_extended {
            Some(trie_ram) => {
                let ptr = TriePtr::new(crate::node::set_backptr(TRIE_NODE_ID_NODE256), 0, 0);
                let root_hash = trie_ram.read_node_hash(&ptr)?;
                ret.push((root_hash, trie_ram.block_header()));
            },
            None => {},
        }
        Ok(ret)
    }

    /// A copy of the trie being extended, if there is one.
    pub fn last_extended(&self) -> (r: Option<TrieRAM<T>>)
        ensures
            match r {
                Some(trie) => self@.extending == Some(trie@),
                None => self@.extending is None,
            },
    {
        match &self.last_extended {
            Some(trie) => Some(trie.clone()),
            None => None,
        }
    }

    /// The path the store was opened at.
    pub fn db_path(&self) -> (r: &String)
        ensures
            r@ == self@.db_path,
    {
        &self.db_path
    }

    /// Whether writes are refused.
    pub fn readonly(&self) -> (r: bool)
        ensures
            r == self@.readonly,
    {
        self.readonly
    }

    /// Whether the store works on unconfirmed tries.
    pub fn unconfirmed(&self) -> (r: bool)
        ensures
            r == self@.unconfirmed,
    {
        self.unconfirmed
    }

    /// Keeps the hashes of the ancestors of `bhh`, in place of what was
    /// kept.
    pub fn set_cached_ancestor_hashes_bytes(&mut self, bhh: &T, bytes: Vec<TrieHash>)
        ensures
            final(self)@ == (StorageSpec {
                ancestor_cache: Some((*bhh, bytes@)),
                ..old(self)@
            }),
    {
        self.trie_ancestor_hash_bytes_cache = Some((*bhh, bytes));
    }

    /// Forgets the hashes of ancestors.
    pub fn clear_cached_ancestor_hashes_bytes(&mut self)
        ensures
            final(self)@ == old(self)@.forget_ancestors(),
    {
        self.trie_ancestor_hash_bytes_cache = None;
    }

    /// The hashes of the ancestors of `bhh`, if they are the ones kept.
    pub fn check_cached_ancestor_hashes_bytes(&mut self, bhh: &T) -> (r: Option<
        Vec<TrieHash>,
    >)
        ensures
            final(self)@ == old(self)@,
            match old(self)@.ancestor_cache {
                Some((cached_bhh, hashes)) => if cached_bhh == *bhh {
                    r is Some && r->Some_0@ == hashes
                } else {
                    r is None
                },
                None => r is None,
            },
    {
        match &self.trie_ancestor_hash_bytes_cache {
            Some((cached_bhh, cached_bytes)) => {
                if cached_bhh.same(bhh) {
                    let mut out: Vec<TrieHash> = Vec::with_capacity(cached_bytes.len());
                    let mut i: usize = 0;
                    while i < cached_bytes.len()
                        invariant
                            i <= cached_bytes@.len(),
                            out@ == cached_bytes@.subrange(0, i as int),
                        decreases cached_bytes@.len() - i,
                    {
                        out.push(cached_bytes[i]);
                        i += 1;
                    }
                    assert(cached_bytes@.subrange(0, cached_bytes@.len() as int)
                        =~= cached_bytes@);
                    Some(out)
                } else {
                    None
                }
            },
            None => None,
        }
    }

    /// The hash that stands for the parent of the first block, and for
    /// "no block selected": all bits set.
    pub fn block_sentinel() -> (r: T)
        ensures
            is_sentinel(r),
    {
        T::sentinel()
    }

    /// Hands out the totals of reads and writes, and sets both to 0.
    pub fn stats(&mut self) -> (r: (u64, u64))
        ensures
            r == (old(self)@.counters.read_count, old(self)@.counters.write_count),
            final(self)@ == (StorageSpec {
                counters: Counters { read_count: 0, write_count: 0, ..old(self)@.counters },
                ..old(self)@
            }),
    {
        self.counters.stats()
    }

    /// Hands out the tallies of node reads, back-pointer reads and node
    /// writes, and sets the three to 0.
    pub fn node_stats(&mut self) -> (r: (u64, u64, u64))
        ensures
            r == (
                old(self)@.counters.read_node_count,
                old(self)@.counters.read_backptr_count,
                old(self)@.counters.write_node_count,
            ),
            final(self)@ == (StorageSpec {
                counters: Counters {
                    read_node_count: 0,
                    read_backptr_count: 0,
                    write_node_count: 0,
                    ..old(self)@.counters
                },
                ..old(self)@
            }),
    {
        self.counters.node_stats()
    }

    /// Hands out the tallies of leaf reads and leaf writes, and sets both
    /// to 0.
    pub fn leaf_stats(&mut self) -> (r: (u64, u64))
        ensures
            r == (old(self)@.counters.read_leaf_count, old(self)@.counters.write_leaf_count),
            final(self)@ == (StorageSpec {
                counters: Counters {
                    read_leaf_count: 0,
                    write_leaf_count: 0,
                    ..old(self)@.counters
                },
                ..old(self)@
            }),
    {
        self.counters.leaf_stats()
    }

    /// The selected block.
    pub fn get_cur_block(&self) -> (r: T)
        ensures
            r == self@.cur_block,
    {
        self.cur_block
    }

    /// The selected block and, if known, its identifier in the blob
    /// store.
    pub fn get_cur_block_and_id(&self) -> (r: (T, Option<u32>))
        ensures
            r == (self@.cur_block, self@.cur_block_id),
    {
        (self.cur_block, self.cur_block_id)
    }

    /// Whether the selected block is the one being extended.
    pub fn is_extending_selected(&self) -> (r: bool)
        ensures
            r == self@.extending_selected(),
    {
        match &self.last_extended {
            Some(trie) => self.cur_block.same(&trie.block_header()),
            None => false,
        }
    }

    /// Where the root of the selected trie stands: at index 0 if the trie
    /// is the one being extended, behind the header of its blob otherwise.
    pub fn root_ptr(&self) -> (r: u32)
        ensures
            r == (if self@.extending_selected() {
                0
            } else {
                BLOB_HEADER_SIZE
            }),
    {
        if self.is_extending_selected() {
            0
        } else {
            Self::root_ptr_disk()
        }
    }

    /// The pointer to the root of the selected trie.
    pub fn root_trieptr(&self) -> (r: TriePtr)
        ensures
            r == (TriePtr {
                id: TRIE_NODE_ID_NODE256,
                chr: 0,
                ptr: if self@.extending_selected() {
                    0
                } else {
                    BLOB_HEADER_SIZE
                },
                back_block: 0,
            }),
    {
        TriePtr::new(TRIE_NODE_ID_NODE256, 0, self.root_ptr())
    }

    /// Where the root of a serialized trie stands: behind the hash of the
    /// parent block and the four reserved bytes.
    pub fn root_ptr_disk() -> (r: u32)
        ensures
            r == BLOB_HEADER_SIZE,
    {
        BLOB_HEADER_SIZE
    }

    /// The identifier of the selected block in the blob store.
    ///
    /// The block being extended has none yet: asking for it fails with
    /// `RequestedIdentifierForExtensionTrie`. Where no identifier is
    /// known the call fails with `NotOpenedError`.
    pub fn get_cur_block_identifier(&mut self) -> (r: Result<u32, MarfError>)
        ensures
            final(self)@ == old(self)@,
            r == (if old(self)@.extending_selected() {
                Err::<u32, MarfError>(MarfError::RequestedIdentifierForExtensionTrie)
            } else {
                match old(self)@.cur_block_id {
                    Some(id) => Ok::<u32, MarfError>(id),
                    None => Err::<u32, MarfError>(MarfError::NotOpenedError),
                }
            }),
    {
        if self.is_extending_selected() {
            return Err(MarfError::RequestedIdentifierForExtensionTrie);
        }
        match self.cur_block_id {
            Some(id) => Ok(id),
            None => Err(MarfError::NotOpenedError),
        }
    }

    /// The index at which the next new node of the trie being extended is
    /// to be stored.
    pub fn last_ptr(&mut self) -> (r: Result<u32, MarfError>)
        requires
            old(self)@.extending is Some,
        ensures
            final(self)@ == old(self)@,
            old(self)@.extending->Some_0.nodes.len() <= u32::MAX ==> r == Ok::<u32, MarfError>(
                old(self)@.extending->Some_0.nodes.len() as u32,
            ),
            old(self)@.extending->Some_0.nodes.len() > u32::MAX ==> r == Err::<u32, MarfError>(
                MarfError::NotFoundError,
            ),
    {
        match &mut self.last_extended {
            Some(trie_ram) => trie_ram.last_ptr(),
            None => Err(MarfError::NotFoundError),
        }
    }
}

impl<T: MarfTrieId> BlockMap for TrieFileStorage<T> {
    type TrieId = T;

    closed spec fn cached_hashes(&self) -> Map<u32, T> {
        self.block_hash_cache@
    }

    fn get_block_hash(&self, id: u32) -> (r: Result<T, MarfError>) {
        trie_sql::get_block_hash(&self.db, id)
    }

    fn get_block_hash_caching(&mut self, id: u32) -> (r: Result<T, MarfError>) {
        cached_block_hash(&self.db, &mut self.block_hash_cache, id)
    }
}

} // verus!
