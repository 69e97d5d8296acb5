use crate::bits::{
    get_node_byte_len, node_at, node_byte_len, node_starts_at, read_hash_bytes, read_nodetype,
    write_nodetype_bytes,
};
use crate::blob::{
    child_reads, disk_root_ptr, end_offsets, flat_live, identity_targets, laid_out,
    layout_order, layout_reads, lemma_dangling_from, lemma_flat_live_concat,
    lemma_live_ptrs_prefix, lemma_live_ptrs_step, lemma_overlay_trie_is_blob,
    lemma_retarget_nodes_keeps, lemma_total_len_concat, lemma_total_len_prefix,
    lemma_walk_found, live_ptrs, load_after, load_walk, loaded_nodes, node_limit, overlay,
    overlay_nodes,
    overlay_trie, paths_fit, picked, ram_root_ptr, retarget, retarget_nodes, retarget_upto,
    targets_in_range, total_len, trie_blob, walk, walk_after, walk_reads, write_at,
    write_start, writes_fit, WalkFailure, BLOB_HEADER_SIZE,
};
use crate::counters::Counters;
use crate::error::MarfError;
use crate::hash::{MarfTrieId, TrieHash};
use crate::node::{NodeSpec, TrieNodeType, TriePtr, TRIEPATH_MAX_LEN, TRIE_NODE_ID_NODE256};
use crate::trie_sql::is_store_failure;
use std::collections::VecDeque;
use vstd::prelude::*;

verus! {

/// A node and its hash, as mathematical values.
pub type TrieEntry = (NodeSpec, Seq<u8>);

/// What a trie in memory holds.
#[verifier::ext_equal]
pub struct TrieRAMSpec<T> {
    /// The nodes with their hashes, by index. Child pointers that lead to
    /// nodes of this trie hold indices into this sequence.
    pub nodes: Seq<TrieEntry>,
    /// The block the trie is built for.
    pub block_header: T,
    /// The block the trie's block follows.
    pub parent: T,
    /// Whether writes are refused.
    pub readonly: bool,
    /// Tallies of reads and writes.
    pub counters: Counters,
}

/// The nodes with their hashes, as mathematical values.
pub open spec fn entries_view(data: Seq<(TrieNodeType, TrieHash)>) -> Seq<TrieEntry> {
    Seq::new(data.len(), |i: int| (data[i].0@, data[i].1@))
}

/// Whether the trie has a root and the root is a node with 256 slots.
pub open spec fn has_node256_root(nodes: Seq<TrieEntry>) -> bool {
    nodes.len() > 0 && nodes[0].0.id == TRIE_NODE_ID_NODE256
}

/// The nodes after a write at `ptr`, which is no greater than their
/// number: the entry stands in place of the node that was there, or
/// behind the last node.
pub open spec fn nodes_after_write(nodes: Seq<TrieEntry>, ptr: u32, entry: TrieEntry) -> Seq<
    TrieEntry,
> {
    if ptr < nodes.len() {
        nodes.update(ptr as int, entry)
    } else {
        nodes.push(entry)
    }
}

/// A write adds one node if it goes behind the last node and none if it
/// goes below; and it leaves the root a node with 256 slots unless it puts
/// a node of another kind in the root's place.
pub proof fn lemma_write_grows_by_one_at_most(nodes: Seq<TrieEntry>, ptr: u32, entry: TrieEntry)
    requires
        ptr <= nodes.len(),
    ensures
        ptr == nodes.len() ==> nodes_after_write(nodes, ptr, entry).len() == nodes.len() + 1,
        ptr < nodes.len() ==> nodes_after_write(nodes, ptr, entry).len() == nodes.len(),
        has_node256_root(nodes) && (ptr != 0 || entry.0.id == TRIE_NODE_ID_NODE256)
            ==> has_node256_root(nodes_after_write(nodes, ptr, entry)),
        nodes.len() == 0 && entry.0.id == TRIE_NODE_ID_NODE256 ==> has_node256_root(
            nodes_after_write(nodes, ptr, entry),
        ),
{
}

/// Gives the pointers of `node` that lead to nodes of the same trie new
/// targets, taken from `targets` in slot order, starting with
/// `targets[first]`. Hands out the index of the first target not used.
fn retarget_node(node: &mut TrieNodeType, targets: &Vec<u32>, first: usize) -> (next: usize)
    requires
        first + live_ptrs(old(node)@.ptrs).len() <= targets@.len(),
    ensures
        final(node)@ == old(node)@.with_ptrs(retarget(old(node)@.ptrs, targets@, first as int)),
        next == first + live_ptrs(old(node)@.ptrs).len(),
{
    let ghost orig = node@;
    let n = node.num_ptrs();
    let limit = targets.len();
    let mut i: usize = first;
    let mut k: usize = 0;
    proof {
        assert(orig.ptrs.subrange(0, 0) =~= Seq::<TriePtr>::empty());
        assert(node@ =~= orig.with_ptrs(retarget_upto(orig.ptrs, targets@, first as int, 0)));
    }
    while k < n
        invariant
            k <= n,
            n == orig.ptrs.len(),
            orig == old(node)@,
            limit == targets@.len(),
            first + live_ptrs(orig.ptrs).len() <= targets@.len(),
            i == first + live_ptrs(orig.ptrs.subrange(0, k as int)).len(),
            node@ == orig.with_ptrs(retarget_upto(orig.ptrs, targets@, first as int, k as int)),
        decreases n - k,
    {
        let p = node.ptrs()[k];
        proof {
            lemma_live_ptrs_step(orig.ptrs, k as int);
            lemma_live_ptrs_prefix(orig.ptrs, k as int);
        }
        if p.live() {
            node.set_ptr(k, targets[i]);
            i += 1;
        }
        proof {
            assert(node@ =~= orig.with_ptrs(
                retarget_upto(orig.ptrs, targets@, first as int, k + 1),
            ));
        }
        k += 1;
    }
    proof {
        assert(orig.ptrs.subrange(0, n as int) =~= orig.ptrs);
    }
    i
}

/// Gives the pointers of the nodes that lead to nodes of the same trie
/// new targets, taken from `targets` node after node and, within a node,
/// in slot order.
fn retarget_all(node_data: &mut Vec<(TrieNodeType, TrieHash)>, targets: &Vec<u32>)
    requires
        flat_live(entries_view(old(node_data)@)).len() <= targets@.len(),
    ensures
        entries_view(final(node_data)@) == retarget_nodes(
            entries_view(old(node_data)@),
            targets@,
            0,
        ),
{
    let ghost orig = entries_view(node_data@);
    let n = node_data.len();
    let mut i: usize = 0;
    let mut j: usize = 0;
    proof {
        assert(orig.subrange(0, 0) =~= Seq::<TrieEntry>::empty());
    }
    while j < n
        invariant
            j <= n,
            n == orig.len(),
            node_data@.len() == n,
            orig == entries_view(old(node_data)@),
            flat_live(orig).len() <= targets@.len(),
            i == flat_live(orig.subrange(0, j as int)).len(),
            forall|m: int|
                0 <= m < j ==> (#[trigger] entries_view(node_data@)[m]) == retarget_nodes(
                    orig,
                    targets@,
                    0,
                )[m],
            forall|m: int| j <= m < n ==> (#[trigger] entries_view(node_data@)[m]) == orig[m],
        decreases n - j,
    {
        proof {
            let upto = orig.subrange(0, j + 1);
            assert(upto.drop_last() =~= orig.subrange(0, j as int));
            assert(upto.last() == orig[j as int]);
            lemma_flat_live_concat(upto, orig.subrange(j + 1, n as int));
            assert(upto + orig.subrange(j + 1, n as int) =~= orig);
            assert(entries_view(node_data@)[j as int] == orig[j as int]);
        }
        let ghost before = entries_view(node_data@);
        i = retarget_node(&mut node_data[j].0, targets, i);
        proof {
            let now = entries_view(node_data@);
            assert forall|m: int| 0 <= m < n && m != j implies now[m] == before[m] by {}
            assert(now[j as int] == retarget_nodes(orig, targets@, 0)[j as int]);
        }
        j += 1;
    }
    proof {
        assert(entries_view(node_data@) =~= retarget_nodes(orig, targets@, 0));
    }
}

/// Puts the pointers of `node` that lead to nodes of the same trie at the
/// back of `frontier`, in slot order and as they are, and then gives each
/// of them in `node` the index at which the node it leads to will stand:
/// `next_index` for the first, and so on. Hands out the index not yet
/// given, or nothing if the indices would go beyond `limit`.
fn enqueue_and_renumber(
    node: &mut TrieNodeType,
    frontier: &mut VecDeque<TriePtr>,
    next_index: u32,
    limit: u32,
) -> (r: Option<u32>)
    requires
        1 <= next_index <= limit,
    ensures
        r is Some <==> next_index + live_ptrs(old(node)@.ptrs).len() <= limit,
        r matches Some(next) ==> {
            &&& next == next_index + live_ptrs(old(node)@.ptrs).len()
            &&& final(node)@ == old(node)@.with_ptrs(
                retarget(old(node)@.ptrs, identity_targets(), next_index as int),
            )
            &&& final(frontier)@ == old(frontier)@ + live_ptrs(old(node)@.ptrs)
        },
{
    let ghost orig = node@;
    let n = node.num_ptrs();
    let mut next: u32 = next_index;
    let mut k: usize = 0;
    proof {
        assert(orig.ptrs.subrange(0, 0) =~= Seq::<TriePtr>::empty());
        assert(node@ =~= orig.with_ptrs(
            retarget_upto(orig.ptrs, identity_targets(), next_index as int, 0),
        ));
        assert(frontier@ =~= old(frontier)@ + live_ptrs(orig.ptrs.subrange(0, 0)));
    }
    while k < n
        invariant
            k <= n,
            n == orig.ptrs.len(),
            orig == old(node)@,
            next <= limit,
            next == next_index + live_ptrs(orig.ptrs.subrange(0, k as int)).len(),
            node@ == orig.with_ptrs(
                retarget_upto(orig.ptrs, identity_targets(), next_index as int, k as int),
            ),
            frontier@ == old(frontier)@ + live_ptrs(orig.ptrs.subrange(0, k as int)),
        decreases n - k,
    {
        let p = node.ptrs()[k];
        proof {
            lemma_live_ptrs_step(orig.ptrs, k as int);
            lemma_live_ptrs_prefix(orig.ptrs, k as int);
            lemma_live_ptrs_prefix(orig.ptrs, k + 1);
        }
        if p.live() {
            if next == limit {
                return None;
            }
            frontier.push_back(p);
            node.set_ptr(k, next);
            next += 1;
        }
        proof {
            assert(node@ =~= orig.with_ptrs(
                retarget_upto(orig.ptrs, identity_targets(), next_index as int, k + 1),
            ));
            assert(frontier@ =~= old(frontier)@ + live_ptrs(orig.ptrs.subrange(0, k + 1)));
        }
        k += 1;
    }
    proof {
        assert(orig.ptrs.subrange(0, n as int) =~= orig.ptrs);
    }
    Some(next)
}

/// Trie held in memory: the buffer in which the next trie is built.
pub struct TrieRAM<T: MarfTrieId> {
    data: Vec<(TrieNodeType, TrieHash)>,
    block_header: T,
    readonly: bool,
    counters: Counters,
    parent: T,
}

impl<T: MarfTrieId> View for TrieRAM<T> {
    type V = TrieRAMSpec<T>;

    closed spec fn view(&self) -> TrieRAMSpec<T> {
        TrieRAMSpec {
            nodes: entries_view(self.data@),
            block_header: self.block_header,
            parent: self.parent,
            readonly: self.readonly,
            counters: self.counters,
        }
    }
}

impl<T: MarfTrieId> Clone for TrieRAM<T> {
    fn clone(&self) -> (r: Self)
        ensures
            r@ == self@,
    {
        let mut data: Vec<(TrieNodeType, TrieHash)> = Vec::with_capacity(self.data.len());
        let mut i: usize = 0;
        while i < self.data.len()
            invariant
                i <= self.data@.len(),
                data@.len() == i,
                forall|k: int| 0 <= k < i ==> data@[k].0@ == self.data@[k].0@ && data@[k].1
                    == self.data@[k].1,
            decreases self.data@.len() - i,
        {
            data.push((self.data[i].0.clone(), self.data[i].1));
            i += 1;
        }
        let r = TrieRAM {
            data,
            block_header: self.block_header,
            readonly: self.readonly,
            counters: self.counters,
            parent: self.parent,
        };
        assert(r@.nodes =~= self@.nodes);
        r
    }
}

impl<T: MarfTrieId> TrieRAM<T> {
    /// Every node held has a known kind, the slots of its kind, and a
    /// payload exactly if it is a leaf; every hash held has 32 bytes.
    pub proof fn lemma_nodes_shaped(&self)
        ensures
            forall|i: int|
                0 <= i < self@.nodes.len() ==> (#[trigger] self@.nodes[i]).0.shaped()
                    && self@.nodes[i].1.len() == 32,
    {
        assert forall|i: int| 0 <= i < self@.nodes.len() implies (#[trigger] self@.nodes[i]).0.shaped()
            && self@.nodes[i].1.len() == 32 by {
            self.data@[i].0.lemma_shaped();
        }
    }

    /// An empty trie for the block `block_header`, which follows `parent`.
    /// `capacity_hint` is the number of nodes to make room for.
    pub fn new(block_header: &T, capacity_hint: usize, parent: &T) -> (r:
        TrieRAM<T>)
        ensures
            r@ == (TrieRAMSpec {
                nodes: Seq::empty(),
                block_header: *block_header,
                parent: *parent,
                readonly: false,
                counters: Counters::spec_zero(),
            }),
    {
        let r = TrieRAM {
            data: Vec::with_capacity(capacity_hint),
            block_header: *block_header,
            readonly: false,
            counters: Counters::zero(),
            parent: *parent,
        };
        assert(r@.nodes =~= Seq::empty());
        r
    }

    /// A trie made of the given nodes.
    pub(crate) fn from_data(
        block_header: T,
        data: Vec<(TrieNodeType, TrieHash)>,
        parent: T,
    ) -> (r: TrieRAM<T>)
        ensures
            r@ == (TrieRAMSpec {
                nodes: entries_view(data@),
                block_header,
                parent,
                readonly: false,
                counters: Counters::spec_zero(),
            }),
    {
        TrieRAM { data, block_header, readonly: false, counters: Counters::zero(), parent }
    }

    /// Hands out the totals of reads and writes, and sets both to 0.
    pub fn stats(&mut self) -> (r: (u64, u64))
        ensures
            r == (old(self)@.counters.read_count, old(self)@.counters.write_count),
            final(self)@ == (TrieRAMSpec {
                counters: Counters { read_count: 0, write_count: 0, ..old(self)@.counters },
                ..old(self)@
            }),
    {
        self.counters.stats()
    }

    /// Hands out the tallies of node reads, back-pointer reads and node
    /// writes, and sets the three to 0.
    pub fn node_stats(&mut self) -> (r: (u64, u64, u64))
        ensures
            r == (
                old(self)@.counters.read_node_count,
                old(self)@.counters.read_backptr_count,
                old(self)@.counters.write_node_count,
            ),
            final(self)@ == (TrieRAMSpec {
                counters: Counters {
                    read_node_count: 0,
                    read_backptr_count: 0,
                    write_node_count: 0,
                    ..old(self)@.counters
                },
                ..old(self)@
            }),
    {
        self.counters.node_stats()
    }

    /// Hands out the tallies of leaf reads and leaf writes, and sets both
    /// to 0.
    pub fn leaf_stats(&mut self) -> (r: (u64, u64))
        ensures
            r == (old(self)@.counters.read_leaf_count, old(self)@.counters.write_leaf_count),
            final(self)@ == (TrieRAMSpec {
                counters: Counters {
                    read_leaf_count: 0,
                    write_leaf_count: 0,
                    ..old(self)@.counters
                },
                ..old(self)@
            }),
    {
        self.counters.leaf_stats()
    }

    /// The block the trie is built for.
    pub fn block_header(&self) -> (r: T)
        ensures
            r == self@.block_header,
    {
        self.block_header
    }

    /// The block the trie's block follows.
    pub fn parent(&self) -> (r: T)
        ensures
            r == self@.parent,
    {
        self.parent
    }

    /// Writes a trie into `f`: the hash of the parent block at offset 0,
    /// four zero bytes at offset 32, the first node behind them, and each
    /// other node at the offset that `offsets` gives for the node before
    /// it.
    ///
    /// Nothing is written if a node's path is too long to be serialized,
    /// or if a node would end behind the last offset that the machine can
    /// address.
    pub fn write_trie(
        f: &mut Vec<u8>,
        node_data: &[(TrieNodeType, TrieHash)],
        offsets: &[u32],
        parent_hash: &T,
    ) -> (r: Result<(), MarfError>)
        requires
            node_data@.len() == offsets@.len(),
        ensures
            r is Ok <==> paths_fit(entries_view(node_data@)) && writes_fit(
                entries_view(node_data@),
                offsets@,
            ),
            r is Ok ==> final(f)@ == overlay_trie(
                old(f)@,
                parent_hash.id_bytes(),
                entries_view(node_data@),
                offsets@,
            ),
            r is Err ==> final(f)@ == old(f)@,
            !paths_fit(entries_view(node_data@)) ==> r is Err && r->Err_0 is CorruptionError,
            paths_fit(entries_view(node_data@)) && !writes_fit(entries_view(node_data@), offsets@)
                ==> r is Err && r->Err_0 is IOError,
    {
        let ghost nodes = entries_view(node_data@);
        let n = node_data.len();
        let mut j: usize = 0;
        while j < n
            invariant
                j <= n,
                n == node_data@.len(),
                nodes == entries_view(node_data@),
                forall|k: int| 0 <= k < j ==> (#[trigger] nodes[k]).0.path.len() <= TRIEPATH_MAX_LEN,
            decreases n - j,
        {
            if node_data[j].0.path().len() > TRIEPATH_MAX_LEN {
                assert(nodes[j as int].0.path.len() > TRIEPATH_MAX_LEN);
                return Err(MarfError::CorruptionError("node path is too long".to_string()));
            }
            j += 1;
        }
        assert(paths_fit(nodes));
        let mut j: usize = 0;
        let mut at: usize = 36;
        while j < n
            invariant
                j <= n,
                n == node_data@.len(),
                n == offsets@.len(),
                nodes == entries_view(node_data@),
                paths_fit(nodes),
                at == write_start(offsets@, j as int),
                forall|k: int|
                    0 <= k < j ==> write_start(offsets@, k) + node_byte_len((#[trigger] nodes[k]).0)
                        <= usize::MAX,
            decreases n - j,
        {
            proof {
                node_data@[j as int].0.lemma_shaped();
                assert(nodes[j as int].0 == node_data@[j as int].0@);
            }
            let len = get_node_byte_len(&node_data[j].0);
            if len > usize::MAX - at {
                assert(write_start(offsets@, j as int) + node_byte_len(nodes[j as int].0)
                    > usize::MAX);
                return Err(MarfError::IOError("offset is out of range".to_string()));
            }
            at = offsets[j] as usize;
            j += 1;
        }
        assert(writes_fit(nodes, offsets@));
        write_at(f, 0, parent_hash.as_bytes().as_slice());
        let zero: [u8; 4] = [0u8; 4];
        write_at(f, 32, zero.as_slice());
        assert(zero@ =~= seq![0u8, 0u8, 0u8, 0u8]);
        let ghost base = f@;
        assert(nodes.subrange(0, n as int) =~= nodes);
        assert(offsets@.subrange(0, n as int) =~= offsets@);
        let mut i: usize = 0;
        let mut at: usize = 36;
        while i < n
            invariant
                i <= n,
                n == node_data@.len(),
                n == offsets@.len(),
                nodes == entries_view(node_data@),
                paths_fit(nodes),
                writes_fit(nodes, offsets@),
                at == write_start(offsets@, i as int),
                overlay_nodes(base, BLOB_HEADER_SIZE as int, nodes, offsets@) == overlay_nodes(
                    f@,
                    at as int,
                    nodes.subrange(i as int, n as int),
                    offsets@.subrange(i as int, n as int),
                ),
            decreases n - i,
        {
            let mut scratch: Vec<u8> = Vec::new();
            assert(nodes[i as int].0 == node_data@[i as int].0@);
            let res = write_nodetype_bytes(&mut scratch, &node_data[i].0, node_data[i].1);
            match res {
                Ok(()) => {},
                Err(e) => {
                    proof {
                        assert(false);
                    }
                    return Err(e);
                },
            }
            proof {
                node_data@[i as int].0.lemma_shaped();
                crate::bits::lemma_node_bytes_len(nodes[i as int].0, nodes[i as int].1);
                assert(scratch@ =~= crate::bits::node_bytes(nodes[i as int].0, nodes[i as int].1));
                let rest_n = nodes.subrange(i as int, n as int);
                let rest_o = offsets@.subrange(i as int, n as int);
                assert(rest_n[0] == nodes[i as int]);
                assert(rest_o[0] == offsets@[i as int]);
                assert(rest_n.drop_first() =~= nodes.subrange(i + 1, n as int));
                assert(rest_o.drop_first() =~= offsets@.subrange(i + 1, n as int));
            }
            write_at(f, at, scratch.as_slice());
            at = offsets[i] as usize;
            i += 1;
        }
        assert(nodes.subrange(n as int, n as int).len() == 0);
        Ok(())
    }

    /// Reads the nodes that the pointers of `node` lead to, in slot order,
    /// and puts a copy of each at the back of `frontier`. Stops at the
    /// first pointer that leads to no node of the trie.
    fn enqueue_children(
        &mut self,
        node: &TrieNodeType,
        frontier: &mut VecDeque<(TrieNodeType, TrieHash)>,
    ) -> (r: Result<(), MarfError>)
        ensures
            final(self)@ == (TrieRAMSpec { counters: final(self)@.counters, ..old(self)@ }),
            r is Ok <==> targets_in_range(node@.ptrs, old(self)@.nodes.len()),
            r is Ok ==> ({
                let live = live_ptrs(node@.ptrs);
                &&& final(frontier)@.len() == old(frontier)@.len() + live.len()
                &&& forall|k: int|
                    0 <= k < old(frontier)@.len() ==> final(frontier)@[k] == old(frontier)@[k]
                &&& forall|k: int|
                    0 <= k < live.len() ==> (#[trigger] live[k]).ptr < old(self)@.nodes.len() && (
                        final(frontier)@[old(frontier)@.len() + k].0@,
                        final(frontier)@[old(frontier)@.len() + k].1@,
                    ) == old(self)@.nodes[live[k].ptr as int]
                &&& final(self)@.counters == old(self)@.counters.after_reads_through(live)
            }),
            final(self)@.counters == old(self)@.counters.after_reads_through(
                child_reads(node@.ptrs, old(self)@.nodes.len()),
            ),
            r is Err ==> r->Err_0 is NotFoundError,
    {
        let ghost data = self@.nodes;
        let ghost c0 = self@.counters;
        let ptrs = node.ptrs();
        let mut i: usize = 0;
        proof {
            assert(ptrs@.subrange(0, 0) =~= Seq::<TriePtr>::empty());
        }
        while i < ptrs.len()
            invariant
                i <= ptrs@.len(),
                ptrs@ == node@.ptrs,
                data == old(self)@.nodes,
                c0 == old(self)@.counters,
                self@ == (TrieRAMSpec { counters: self@.counters, ..old(self)@ }),
                self@.counters == c0.after_reads_through(live_ptrs(ptrs@.subrange(0, i as int))),
                frontier@.len() == old(frontier)@.len() + live_ptrs(
                    ptrs@.subrange(0, i as int),
                ).len(),
                forall|k: int|
                    0 <= k < old(frontier)@.len() ==> frontier@[k] == old(frontier)@[k],
                forall|k: int|
                    0 <= k < live_ptrs(ptrs@.subrange(0, i as int)).len() ==> (#[trigger] live_ptrs(
                        ptrs@.subrange(0, i as int),
                    )[k]).ptr < data.len() && (
                        frontier@[old(frontier)@.len() + k].0@,
                        frontier@[old(frontier)@.len() + k].1@,
                    ) == data[live_ptrs(ptrs@.subrange(0, i as int))[k].ptr as int],
                forall|k: int|
                    0 <= k < i && (#[trigger] ptrs@[k]).is_live() ==> ptrs@[k].ptr < data.len(),
            decreases ptrs@.len() - i,
        {
            let p = ptrs[i];
            proof {
                lemma_live_ptrs_step(ptrs@, i as int);
            }
            if p.live() {
                match self.read_nodetype(&p) {
                    Ok((child, child_hash)) => {
                        frontier.push_back((child, child_hash));
                        proof {
                            let before = live_ptrs(ptrs@.subrange(0, i as int));
                            let after = live_ptrs(ptrs@.subrange(0, i + 1));
                            assert(after.drop_last() =~= before);
                        }
                    },
                    Err(e) => {
                        proof {
                            lemma_dangling_from(ptrs@, data.len(), i as int);
                            let before = live_ptrs(ptrs@.subrange(0, i as int));
                            let after = live_ptrs(ptrs@.subrange(0, i + 1));
                            assert(after.drop_last() =~= before);
                        }
                        return Err(e);
                    },
                }
            }
            i += 1;
        }
        proof {
            assert(ptrs@.subrange(0, ptrs@.len() as int) =~= ptrs@);
            lemma_dangling_from(ptrs@, data.len(), ptrs@.len() as int);
        }
        Ok(())
    }

    /// Walks the trie breadth-first from its root and lays the nodes out
    /// one behind the other from the end of the header on. Hands out a
    /// copy of each node in the order of the layout, the offset at which
    /// each ends, and the offset at which the last one ends.
    fn layout(&mut self, root: &TrieNodeType, hash: &TrieHash) -> (r: Result<
        (Vec<(TrieNodeType, TrieHash)>, Vec<u32>, u64),
        MarfError,
    >)
        requires
            old(self)@.nodes.len() > 0,
            (root@, hash@) == old(self)@.nodes[0],
        ensures
            final(self)@ == (TrieRAMSpec { counters: final(self)@.counters, ..old(self)@ }),
            final(self)@.counters == old(self)@.counters.after_reads_through(
                walk_reads(old(self)@.nodes, seq![ram_root_ptr()], BLOB_HEADER_SIZE as int),
            ),
            match layout_order(old(self)@.nodes) {
                Ok(order) => {
                    &&& r is Ok
                    &&& entries_view(r->Ok_0.0@) == picked(old(self)@.nodes, order)
                    &&& r->Ok_0.1@ == end_offsets(picked(old(self)@.nodes, order))
                    &&& r->Ok_0.2 == BLOB_HEADER_SIZE + total_len(picked(old(self)@.nodes, order))
                    &&& final(self)@.counters == old(self)@.counters.after_reads_through(
                        order.drop_first(),
                    )
                },
                Err(WalkFailure::Dangling) => r is Err && r->Err_0 is NotFoundError,
                Err(_) => r is Err && r->Err_0 is CorruptionError,
            },
    {
        let ghost data = self@.nodes;
        let ghost c0 = self@.counters;
        let mut frontier: VecDeque<(TrieNodeType, TrieHash)> = VecDeque::new();
        let mut node_data: Vec<(TrieNodeType, TrieHash)> = Vec::new();
        let mut offsets: Vec<u32> = Vec::new();
        frontier.push_back((root.clone(), *hash));
        let ghost mut queue: Seq<TriePtr> = seq![ram_root_ptr()];
        let ghost mut order: Seq<TriePtr> = Seq::empty();
        let mut ptr: u64 = 36;
        let ghost reads = walk_reads(data, queue, 36);
        proof {
            assert((order + queue).drop_first() =~= Seq::<TriePtr>::empty());
            assert(entries_view(node_data@) =~= picked(data, order));
            assert(offsets@ =~= end_offsets(picked(data, order)));
            assert(order + walk(data, queue, 36)->Ok_0 =~= walk(data, queue, 36)->Ok_0);
            assert((order + queue).drop_first() + reads =~= reads);
        }
        while frontier.len() > 0
            invariant
                data == old(self)@.nodes,
                c0 == old(self)@.counters,
                reads == walk_reads(data, seq![ram_root_ptr()], BLOB_HEADER_SIZE as int),
                reads == (order + queue).drop_first() + walk_reads(data, queue, ptr as int),
                self@ == (TrieRAMSpec { counters: self@.counters, ..old(self)@ }),
                self@.counters == c0.after_reads_through((order + queue).drop_first()),
                (order + queue).len() > 0,
                frontier@.len() == queue.len(),
                forall|k: int|
                    0 <= k < queue.len() ==> (#[trigger] queue[k]).ptr < data.len() && (
                        frontier@[k].0@,
                        frontier@[k].1@,
                    ) == data[queue[k].ptr as int],
                entries_view(node_data@) == picked(data, order),
                offsets@ == end_offsets(picked(data, order)),
                ptr == BLOB_HEADER_SIZE + total_len(picked(data, order)),
                ptr <= u32::MAX,
                walk(data, seq![ram_root_ptr()], BLOB_HEADER_SIZE as int) == walk_after(
                    order,
                    walk(data, queue, ptr as int),
                ),
            decreases u32::MAX - ptr,
        {
            let ghost q0 = queue[0];
            let ghost queue0 = queue;
            let ghost frontier0 = frontier@;
            let (node, node_hash) = match frontier.pop_front() {
                Some(e) => e,
                None => {
                    proof {
                        assert(false);
                    }
                    return Err(MarfError::NotFoundError);
                },
            };
            proof {
                node.lemma_shaped();
                assert(node@ == data[q0.ptr as int].0);
                assert(frontier@ =~= frontier0.drop_first());
            }
            if node.path().len() > TRIEPATH_MAX_LEN {
                return Err(MarfError::CorruptionError("node path is too long".to_string()));
            }
            let num_written = get_node_byte_len(&node);
            if ptr + num_written as u64 > u32::MAX as u64 {
                return Err(MarfError::CorruptionError("trie is too large".to_string()));
            }
            let ghost frontier1 = frontier@;
            match self.enqueue_children(&node, &mut frontier) {
                Ok(()) => {},
                Err(e) => {
                    proof {
                        c0.lemma_reads_through_concat(
                            (order + queue0).drop_first(),
                            child_reads(node@.ptrs, data.len()),
                        );
                    }
                    return Err(e);
                },
            }
            ptr += num_written as u64;
            proof {
                let live = live_ptrs(node@.ptrs);
                queue = queue0.drop_first() + live;
                assert forall|k: int| 0 <= k < queue.len() implies (#[trigger] queue[k]).ptr
                    < data.len() && (frontier@[k].0@, frontier@[k].1@)
                    == data[queue[k].ptr as int] by {
                    if k < frontier1.len() {
                        assert(frontier@[k] == frontier1[k]);
                        assert(frontier1[k] == frontier0[k + 1]);
                        assert(queue[k] == queue0[k + 1]);
                    } else {
                        assert(queue[k] == live[k - frontier1.len()]);
                    }
                }
                let done = picked(data, order);
                let next_order = order.push(q0);
                let next_done = picked(data, next_order);
                let one = seq![data[q0.ptr as int]];
                assert(next_done =~= done + one);
                lemma_total_len_concat(done, one);
                assert(one.drop_last() =~= Seq::<TrieEntry>::empty());
                assert(total_len(Seq::<TrieEntry>::empty()) == 0);
                assert(total_len(one) == node_byte_len(node@));
                assert forall|j: int| 0 <= j < done.len() implies end_offsets(next_done)[j]
                    == end_offsets(done)[j] by {
                    assert(next_done.subrange(0, j + 1) =~= done.subrange(0, j + 1));
                }
                assert(next_done.subrange(0, next_done.len() as int) =~= next_done);
                assert((next_order + queue).drop_first() =~= (order + queue0).drop_first() + live);
                c0.lemma_reads_through_concat((order + queue0).drop_first(), live);
                assert(reads =~= (next_order + queue).drop_first() + walk_reads(
                    data,
                    queue,
                    ptr as int,
                ));
                assert(walk(data, queue0, ptr - num_written) == walk_after(
                    seq![q0],
                    walk(data, queue, ptr as int),
                ));
                match walk(data, queue, ptr as int) {
                    Ok(rest) => {
                        assert(order + (seq![q0] + rest) =~= next_order + rest);
                    },
                    Err(_) => {},
                }
                order = next_order;
            }
            node_data.push((node, node_hash));
            offsets.push(ptr as u32);
            proof {
                assert(entries_view(node_data@) =~= picked(data, order));
                assert(offsets@ =~= end_offsets(picked(data, order)));
            }
        }
        proof {
            assert(order + Seq::<TriePtr>::empty() =~= order);
            assert(order + queue =~= order);
            assert(reads =~= order.drop_first());
        }
        Ok((node_data, offsets, ptr))
    }

    /// Lays the trie out from `root`, which is its first node, and writes
    /// the serialized trie into `f`.
    fn dump_traverse(&mut self, f: &mut Vec<u8>, root: &TrieNodeType, hash: &TrieHash) -> (r:
        Result<u64, MarfError>)
        requires
            old(self)@.nodes.len() > 0,
            (root@, hash@) == old(self)@.nodes[0],
        ensures
            final(self)@ == (TrieRAMSpec { counters: final(self)@.counters, ..old(self)@ }),
            final(self)@.counters == old(self)@.counters.after_reads_through(
                walk_reads(old(self)@.nodes, seq![ram_root_ptr()], BLOB_HEADER_SIZE as int),
            ),
            match layout_order(old(self)@.nodes) {
                Ok(order) => {
                    &&& r is Ok
                    &&& r->Ok_0 == BLOB_HEADER_SIZE + total_len(picked(old(self)@.nodes, order))
                    &&& final(f)@ == overlay(
                        old(f)@,
                        0,
                        trie_blob(old(self)@.parent.id_bytes(), picked(old(self)@.nodes, order)),
                    )
                    &&& final(self)@.counters == old(self)@.counters.after_reads_through(
                        order.drop_first(),
                    )
                },
                Err(WalkFailure::Dangling) => r is Err && r->Err_0 is NotFoundError && final(f)@
                    == old(f)@,
                Err(_) => r is Err && r->Err_0 is CorruptionError && final(f)@ == old(f)@,
            },
    {
        let ghost data = self@.nodes;
        let (mut node_data, offsets, end) = match self.layout(root, hash) {
            Ok(found) => found,
            Err(e) => {
                return Err(e);
            },
        };
        let ghost order = layout_order(data)->Ok_0;
        let ghost nodes = picked(data, order);
        proof {
            self.lemma_nodes_shaped();
            lemma_walk_found(data, seq![ram_root_ptr()], BLOB_HEADER_SIZE as int);
            assert(flat_live(nodes).len() + 1 == order.len());
        }
        retarget_all(&mut node_data, &offsets);
        let ghost fixed = entries_view(node_data@);
        proof {
            assert(fixed == laid_out(nodes));
            assert forall|j: int| 0 <= j < fixed.len() implies (#[trigger] fixed[j]).0.shaped()
                && fixed[j].1.len() == 32 && fixed[j].0.path.len() <= TRIEPATH_MAX_LEN by {
                node_data@[j].0.lemma_shaped();
                assert(nodes[j].0.path.len() <= TRIEPATH_MAX_LEN);
            }
            assert forall|j: int| 0 <= j < fixed.len() implies (#[trigger] offsets@[j])
                == BLOB_HEADER_SIZE + total_len(fixed.subrange(0, j + 1)) by {
                lemma_retarget_nodes_keeps(nodes, offsets@, 0, j + 1);
                lemma_total_len_prefix(nodes, j + 1);
            }
            assert forall|j: int| 0 <= j < fixed.len() implies write_start(offsets@, j)
                + node_byte_len((#[trigger] fixed[j]).0) <= usize::MAX by {
                assert(fixed.subrange(0, j + 1).drop_last() =~= fixed.subrange(0, j));
                if j > 0 {
                    assert(offsets@[j - 1] == BLOB_HEADER_SIZE + total_len(fixed.subrange(0, j)));
                } else {
                    assert(fixed.subrange(0, 0) =~= Seq::<TrieEntry>::empty());
                }
                assert(offsets@[j] == BLOB_HEADER_SIZE + total_len(fixed.subrange(0, j + 1)));
            }
            assert(paths_fit(fixed));
            assert(writes_fit(fixed, offsets@));
            T::lemma_id_bytes(self.parent, self.parent);
            lemma_overlay_trie_is_blob(f@, self@.parent.id_bytes(), fixed, offsets@);
        }
        match TrieRAM::write_trie(f, node_data.as_slice(), offsets.as_slice(), &self.parent) {
            Ok(()) => {},
            Err(e) => {
                proof {
                    assert(false);
                }
                return Err(e);
            },
        }
        Ok(end)
    }

    /// Serializes the trie into `f`, from offset 0 on: the hash of the
    /// parent block, four zero bytes, then the nodes in breadth-first
    /// order from the root, each pointer that leads to a node of the trie
    /// holding the offset at which that node starts. Hands out the length
    /// of the serialized trie.
    ///
    /// Into an empty buffer that is the serialized trie and nothing else,
    /// as long as the result says; what holds of its pointers is
    /// `lemma_dumped_pointers`.
    ///
    /// Fails, and leaves `f` as it was, if `bhh` is not the block the trie
    /// is built for, if the trie has no node, if a pointer leads to no
    /// node of the trie, if a node's path is too long to be serialized, or
    /// if the serialized trie would be longer than an offset can say.
    /// Every node read on the way is counted as a read, a read that fails
    /// too.
    pub fn dump(&mut self, f: &mut Vec<u8>, bhh: &T) -> (r: Result<u64, MarfError>)
        ensures
            final(self)@ == (TrieRAMSpec { counters: final(self)@.counters, ..old(self)@ }),
            *bhh == old(self)@.block_header ==> final(self)@.counters
                == old(self)@.counters.after_reads_through(layout_reads(old(self)@.nodes)),
            *bhh != old(self)@.block_header ==> r is Err && r->Err_0 is NotFoundError && final(f)@
                == old(f)@ && final(self)@ == old(self)@,
            *bhh == old(self)@.block_header ==> match layout_order(old(self)@.nodes) {
                Ok(order) => {
                    &&& r is Ok
                    &&& r->Ok_0 == BLOB_HEADER_SIZE + total_len(picked(old(self)@.nodes, order))
                    &&& final(f)@ == overlay(
                        old(f)@,
                        0,
                        trie_blob(old(self)@.parent.id_bytes(), picked(old(self)@.nodes, order)),
                    )
                    &&& final(self)@.counters == old(self)@.counters.after_reads_through(order)
                    &&& old(f)@.len() == 0 ==> r->Ok_0 == final(f)@.len() && final(f)@
                        == trie_blob(
                        old(self)@.parent.id_bytes(),
                        picked(old(self)@.nodes, order),
                    )
                },
                Err(WalkFailure::Dangling) => r is Err && r->Err_0 is NotFoundError && final(f)@
                    == old(f)@,
                Err(_) => r is Err && r->Err_0 is CorruptionError && final(f)@ == old(f)@,
            },
    {
        if self.block_header.same(bhh) {
            let root_ptr = TriePtr::new(TRIE_NODE_ID_NODE256, 0, 0);
            let (root, hash) = match self.read_nodetype(&root_ptr) {
                Ok(found) => found,
                Err(e) => {
                    proof {
                        old(self)@.counters.lemma_reads_through_one(root_ptr);
                    }
                    return Err(e);
                },
            };
            let r = self.dump_traverse(f, &root, &hash);
            proof {
                let c = old(self)@.counters;
                c.lemma_reads_through_one(root_ptr);
                c.lemma_reads_through_concat(
                    seq![root_ptr],
                    walk_reads(old(self)@.nodes, seq![ram_root_ptr()], BLOB_HEADER_SIZE as int),
                );
            }
            proof {
                if let Ok(order) = layout_order(old(self)@.nodes) {
                    lemma_walk_found(
                        old(self)@.nodes,
                        seq![ram_root_ptr()],
                        BLOB_HEADER_SIZE as int,
                    );
                    let c = old(self)@.counters;
                    c.lemma_reads_through_one(root_ptr);
                    c.lemma_reads_through_concat(seq![root_ptr], order.drop_first());
                    assert(seq![root_ptr] + order.drop_first() =~= order);
                    if old(f)@.len() == 0 {
                        let nodes = picked(old(self)@.nodes, order);
                        let blob = trie_blob(old(self)@.parent.id_bytes(), nodes);
                        self.lemma_nodes_shaped();
                        T::lemma_id_bytes(self.parent, self.parent);
                        crate::round_trip::lemma_picked_shaped(old(self)@.nodes);
                        crate::round_trip::lemma_trie_blob_len(
                            old(self)@.parent.id_bytes(),
                            nodes,
                        );
                        assert(overlay(old(f)@, 0, blob) =~= blob);
                    }
                }
            }
            r
        } else {
            Err(MarfError::NotFoundError)
        }
    }

    /// Reads a serialized trie into memory, as the trie of the block `bhh`.
    ///
    /// The nodes are read breadth-first from the root and stand in the
    /// trie in the order in which they stand in the blob. Each pointer
    /// that leads to a node of the trie gets the index of that node in
    /// place of its offset; back-pointers and empty slots stay as they
    /// are. The parent block is the one whose hash starts the blob.
    ///
    /// Fails if the blob is shorter than the hash of the parent block, if
    /// the root is not a node with 256 slots, if no node starts where a
    /// pointer leads, or if more nodes are found than the blob has bytes
    /// or than an index can say.
    pub fn load(f: &[u8], bhh: &T) -> (r: Result<TrieRAM<T>, MarfError>)
        ensures
            r matches Ok(trie) ==> has_node256_root(trie@.nodes),
            node_starts_at(f@, BLOB_HEADER_SIZE as int) && f@[BLOB_HEADER_SIZE as int]
                != TRIE_NODE_ID_NODE256 ==> r is Err && r->Err_0 is CorruptionError,
            match loaded_nodes(f@) {
                Some(nodes) => {
                    &&& r is Ok
                    &&& r->Ok_0@.nodes == nodes
                    &&& r->Ok_0@.block_header == *bhh
                    &&& r->Ok_0@.parent.id_bytes() == f@.subrange(0, 32)
                    &&& !r->Ok_0@.readonly
                    &&& r->Ok_0@.counters == Counters::spec_zero()
                },
                None => r is Err && r->Err_0 is CorruptionError,
            },
    {
        proof {
            crate::blob::lemma_loaded_root(f@);
        }
        let mut data: Vec<(TrieNodeType, TrieHash)> = Vec::new();
        let mut frontier: VecDeque<TriePtr> = VecDeque::new();
        let parent_hash = match read_hash_bytes(f, 0) {
            Ok(bytes) => T::from_bytes(bytes),
            Err(e) => {
                return Err(e);
            },
        };
        let root_ptr = TriePtr::new(TRIE_NODE_ID_NODE256, 0, BLOB_HEADER_SIZE);
        let (mut root_node, root_hash) = match read_nodetype(f, &root_ptr) {
            Ok(found) => found,
            Err(e) => {
                return Err(e);
            },
        };
        if !root_node.is_node256() {
            return Err(MarfError::CorruptionError("First TrieRAM node is not a Node256".to_string()));
        }
        let ghost whole = load_walk(f@, seq![disk_root_ptr()], 1);
        let limit: u32 = if f.len() < u32::MAX as usize {
            f.len() as u32
        } else {
            u32::MAX
        };
        let mut next_index: u32 = match enqueue_and_renumber(
            &mut root_node,
            &mut frontier,
            1,
            limit,
        ) {
            Some(next) => next,
            None => {
                return Err(MarfError::CorruptionError("too many nodes".to_string()));
            },
        };
        data.push((root_node, root_hash));
        proof {
            let live = live_ptrs(node_at(f@, 36).ptrs);
            assert(seq![disk_root_ptr()].drop_first() + live =~= frontier@);
            assert(entries_view(data@) =~= seq![entries_view(data@)[0]]);
        }
        while frontier.len() > 0
            invariant
                1 <= next_index <= limit,
                limit == node_limit(f@),
                loaded_nodes(f@) == whole,
                parent_hash.id_bytes() == f@.subrange(0, 32),
                whole == load_after(
                    entries_view(data@),
                    load_walk(f@, frontier@, next_index as int),
                ),
            decreases (limit - next_index) + frontier@.len(),
        {
            let ghost queue = frontier@;
            let ghost done = entries_view(data@);
            let next_ptr = match frontier.pop_front() {
                Some(p) => p,
                None => {
                    proof {
                        assert(false);
                    }
                    return Err(MarfError::NotFoundError);
                },
            };
            let (mut next_node, next_hash) = match read_nodetype(f, &next_ptr) {
                Ok(found) => found,
                Err(e) => {
                    return Err(e);
                },
            };
            let ghost first_index = next_index;
            let ghost node = next_node@;
            proof {
                assert(frontier@ =~= queue.drop_first());
            }
            next_index = match enqueue_and_renumber(
                &mut next_node,
                &mut frontier,
                next_index,
                limit,
            ) {
                Some(next) => next,
                None => {
                    return Err(MarfError::CorruptionError("too many nodes".to_string()));
                },
            };
            data.push((next_node, next_hash));
            proof {
                let entry = (
                    node.with_ptrs(retarget(node.ptrs, identity_targets(), first_index as int)),
                    next_hash@,
                );
                assert(entries_view(data@) =~= done.push(entry));
                match load_walk(f@, frontier@, next_index as int) {
                    Some(rest) => {
                        assert(done + (seq![entry] + rest) =~= done.push(entry) + rest);
                    },
                    None => {},
                }
            }
        }
        proof {
            assert(entries_view(data@) + Seq::<TrieEntry>::empty() =~= entries_view(data@));
        }
        let r = TrieRAM::from_data(*bhh, data, parent_hash);
        Ok(r)
    }

    /// Number of nodes to make room for in the trie that comes after this
    /// one: the number of writes this one has seen, as far as the machine
    /// can say it.
    pub fn size_hint(&self) -> (r: usize)
        ensures
            r == (if self@.counters.write_count <= usize::MAX {
                self@.counters.write_count as int
            } else {
                usize::MAX as int
            }),
    {
        let writes = self.counters.write_count;
        if writes > usize::MAX as u64 {
            usize::MAX
        } else {
            writes as usize
        }
    }

    /// Empties the trie. Refused on a read-only trie.
    pub fn format(&mut self) -> (r: Result<(), MarfError>)
        ensures
            old(self)@.readonly ==> r == Err::<(), MarfError>(MarfError::ReadOnlyError) && final(self)@
                == old(self)@,
            !old(self)@.readonly ==> r is Ok && final(self)@ == (TrieRAMSpec {
                nodes: Seq::empty(),
                ..old(self)@
            }),
    {
        if self.readonly {
            return Err(MarfError::ReadOnlyError);
        }
        self.data.clear();
        assert(self@.nodes =~= Seq::empty());
        Ok(())
    }

    /// The hash of the node at index `ptr.ptr`.
    pub fn read_node_hash(&self, ptr: &TriePtr) -> (r: Result<TrieHash, MarfError>)
        ensures
            ptr.ptr < self@.nodes.len() ==> r is Ok && r->Ok_0@ == self@.nodes[ptr.ptr as int].1,
            ptr.ptr >= self@.nodes.len() ==> r == Err::<TrieHash, MarfError>(MarfError::NotFoundError),
    {
        if ptr.ptr as u64 >= self.data.len() as u64 {
            return Err(MarfError::NotFoundError);
        }
        Ok(self.data[ptr.ptr as usize].1)
    }

    /// A copy of the node at index `ptr.ptr`, with its hash. The read is
    /// counted, whether or not there is such a node.
    pub fn read_nodetype(&mut self, ptr: &TriePtr) -> (r: Result<(TrieNodeType, TrieHash), MarfError>)
        ensures
            final(self)@ == (TrieRAMSpec {
                counters: old(self)@.counters.after_read(ptr.id),
                ..old(self)@
            }),
            ptr.ptr < old(self)@.nodes.len() ==> r is Ok && (r->Ok_0.0@, r->Ok_0.1@)
                == old(self)@.nodes[ptr.ptr as int],
            ptr.ptr >= old(self)@.nodes.len() ==> r == Err::<(TrieNodeType, TrieHash), MarfError>(
                MarfError::NotFoundError,
            ),
    {
        self.counters.count_read(ptr.id);
        if ptr.ptr as u64 >= self.data.len() as u64 {
            Err(MarfError::NotFoundError)
        } else {
            let entry = &self.data[ptr.ptr as usize];
            Ok((entry.0.clone(), entry.1))
        }
    }

    /// Stores a node and its hash at index `node_array_ptr`: in place of
    /// the node that is there, or as a new last node if the index is the
    /// number of nodes. A greater index is refused. The write is counted
    /// unless the trie is read-only.
    pub fn write_nodetype(&mut self, node_array_ptr: u32, node: &TrieNodeType, hash: TrieHash) -> (r:
        Result<(), MarfError>)
        ensures
            old(self)@.readonly ==> r == Err::<(), MarfError>(MarfError::ReadOnlyError) && final(self)@
                == old(self)@,
            !old(self)@.readonly && node_array_ptr < old(self)@.nodes.len() ==> r is Ok
                && final(self)@ == (TrieRAMSpec {
                nodes: old(self)@.nodes.update(node_array_ptr as int, (node@, hash@)),
                counters: old(self)@.counters.after_write(node@.is_leaf()),
                ..old(self)@
            }),
            !old(self)@.readonly && node_array_ptr == old(self)@.nodes.len() ==> r is Ok
                && final(self)@ == (TrieRAMSpec {
                nodes: old(self)@.nodes.push((node@, hash@)),
                counters: old(self)@.counters.after_write(node@.is_leaf()),
                ..old(self)@
            }),
            !old(self)@.readonly && node_array_ptr > old(self)@.nodes.len() ==> r == Err::<
                (),
                MarfError,
            >(MarfError::NotFoundError) && final(self)@ == (TrieRAMSpec {
                counters: old(self)@.counters.after_write(node@.is_leaf()),
                ..old(self)@
            }),
    {
        if self.readonly {
            return Err(MarfError::ReadOnlyError);
        }
        self.counters.count_write(node.is_leaf());
        let len = self.data.len();
        if (node_array_ptr as u64) < (len as u64) {
            self.data[node_array_ptr as usize] = (node.clone(), hash);
            assert(self@.nodes =~= old(self)@.nodes.update(node_array_ptr as int, (node@, hash@)));
            Ok(())
        } else if node_array_ptr as u64 == len as u64 {
            self.data.push((node.clone(), hash));
            assert(self@.nodes =~= old(self)@.nodes.push((node@, hash@)));
            Ok(())
        } else {
            assert(self@.nodes =~= old(self)@.nodes);
            Err(MarfError::NotFoundError)
        }
    }

    /// The index at which the next new node is to be stored: the number of
    /// nodes. Fails when that number no longer fits an index.
    pub fn last_ptr(&mut self) -> (r: Result<u32, MarfError>)
        ensures
            final(self)@ == old(self)@,
            old(self)@.nodes.len() <= u32::MAX ==> r is Ok && r->Ok_0 == old(self)@.nodes.len(),
            old(self)@.nodes.len() > u32::MAX ==> r == Err::<u32, MarfError>(MarfError::NotFoundError),
    {
        let len = self.data.len();
        if len as u64 > u32::MAX as u64 {
            Err(MarfError::NotFoundError)
        } else {
            Ok(len as u32)
        }
    }

}

/// Something that can be asked for the hash of the node that a pointer
/// leads to.
pub trait NodeHashReader {
    /// The hash that a read through `ptr` gives, where what the reader
    /// holds in memory settles it.
    spec fn held_hash(&self, ptr: TriePtr) -> Option<Seq<u8>>;

    /// Appends to `w` the 32 bytes of the hash of the node that `ptr`
    /// leads to. On failure `w` is as it was.
    fn read_node_hash_bytes(&self, ptr: &TriePtr, w: &mut Vec<u8>) -> (r: Result<
        (),
        MarfError,
    >)
        ensures
            self.held_hash(*ptr) matches Some(h) ==> r is Ok && final(w)@ == old(w)@ + h,
            r is Ok ==> final(w)@.len() == old(w)@.len() + 32 && final(w)@.subrange(
                0,
                old(w)@.len() as int,
            ) == old(w)@,
            r matches Err(e) ==> final(w)@ == old(w)@ && (is_store_failure(e)
                || e is CorruptionError || e is NotFoundError),
    ;
}

impl<T: MarfTrieId> NodeHashReader for TrieRAM<T> {
    open spec fn held_hash(&self, ptr: TriePtr) -> Option<Seq<u8>> {
        if ptr.ptr < self@.nodes.len() {
            Some(self@.nodes[ptr.ptr as int].1)
        } else {
            None
        }
    }

    fn read_node_hash_bytes(&self, ptr: &TriePtr, w: &mut Vec<u8>) -> (r: Result<
        (),
        MarfError,
    >)
        ensures
            ptr.ptr >= self@.nodes.len() ==> r == Err::<(), MarfError>(MarfError::NotFoundError),
    {
        let hash = self.read_node_hash(ptr)?;
        crate::hash::append_hash(w, &hash.0);
        proof {
            self.lemma_nodes_shaped();
            assert(w@.subrange(0, old(w)@.len() as int) =~= old(w)@);
        }
        Ok(())
    }
}

} // verus!
