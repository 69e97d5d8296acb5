use crate::bits::{node_byte_len, node_bytes, node_starts_at};
use crate::node::{TriePtr, TRIEPATH_MAX_LEN, TRIE_NODE_ID_NODE256};
use crate::trie_ram::TrieEntry;
use vstd::prelude::*;

verus! {

/// Number of bytes before the first node of a serialized trie: the hash of
/// the parent block, then four reserved bytes.
pub const BLOB_HEADER_SIZE: u32 = 36;

/// The pointers that lead to nodes of the same trie, in slot order.
pub open spec fn live_ptrs(ptrs: Seq<TriePtr>) -> Seq<TriePtr> {
    ptrs.filter(|p: TriePtr| p.is_live())
}

/// Whether every pointer that leads to a node of the same trie leads to
/// one of its `n` nodes.
pub open spec fn targets_in_range(ptrs: Seq<TriePtr>, n: nat) -> bool {
    forall|k: int| 0 <= k < ptrs.len() && (#[trigger] ptrs[k]).is_live() ==> ptrs[k].ptr < n
}

/// The pointers of all the nodes that lead to nodes of the same trie,
/// node after node, each node's in slot order.
pub open spec fn flat_live(nodes: Seq<TrieEntry>) -> Seq<TriePtr>
    decreases nodes.len(),
{
    if nodes.len() == 0 {
        Seq::empty()
    } else {
        flat_live(nodes.drop_last()) + live_ptrs(nodes.last().0.ptrs)
    }
}

/// The pointers with new targets for those among the first `upto` that
/// lead to nodes of the same trie: the first such pointer gets
/// `targets[first]`, the next one `targets[first + 1]`, and so on.
pub open spec fn retarget_upto(ptrs: Seq<TriePtr>, targets: Seq<u32>, first: int, upto: int) -> Seq<
    TriePtr,
> {
    Seq::new(
        ptrs.len(),
        |s: int|
            if s < upto && ptrs[s].is_live() {
                ptrs[s].with_ptr(targets[first + live_ptrs(ptrs.subrange(0, s)).len()])
            } else {
                ptrs[s]
            },
    )
}

/// The pointers with new targets for those that lead to nodes of the same
/// trie, taken from `targets` in slot order, starting with `targets[first]`.
pub open spec fn retarget(ptrs: Seq<TriePtr>, targets: Seq<u32>, first: int) -> Seq<TriePtr> {
    retarget_upto(ptrs, targets, first, ptrs.len() as int)
}

/// The nodes with new targets for their pointers that lead to nodes of the
/// same trie, taken from `targets` node after node and, within a node, in
/// slot order, starting with `targets[first]`.
pub open spec fn retarget_nodes(nodes: Seq<TrieEntry>, targets: Seq<u32>, first: int) -> Seq<
    TrieEntry,
> {
    Seq::new(
        nodes.len(),
        |j: int|
            (
                nodes[j].0.with_ptrs(
                    retarget(
                        nodes[j].0.ptrs,
                        targets,
                        first + flat_live(nodes.subrange(0, j)).len(),
                    ),
                ),
                nodes[j].1,
            ),
    )
}

/// Number of bytes the nodes take when serialized one after the other.
pub open spec fn total_len(nodes: Seq<TrieEntry>) -> nat
    decreases nodes.len(),
{
    if nodes.len() == 0 {
        0
    } else {
        total_len(nodes.drop_last()) + node_byte_len(nodes.last().0)
    }
}

/// The offset at which each node ends when the nodes are serialized one
/// after the other behind the header.
pub open spec fn node_ends(nodes: Seq<TrieEntry>) -> Seq<int> {
    Seq::new(nodes.len(), |j: int| BLOB_HEADER_SIZE + total_len(nodes.subrange(0, j + 1)))
}

/// The offset at which node `j` starts when the nodes are serialized one
/// after the other behind the header.
pub open spec fn node_start(nodes: Seq<TrieEntry>, j: int) -> int {
    BLOB_HEADER_SIZE + total_len(nodes.subrange(0, j))
}

/// The nodes serialized one after the other.
pub open spec fn nodes_bytes(nodes: Seq<TrieEntry>) -> Seq<u8>
    decreases nodes.len(),
{
    if nodes.len() == 0 {
        Seq::empty()
    } else {
        nodes_bytes(nodes.drop_last()) + node_bytes(nodes.last().0, nodes.last().1)
    }
}

/// The header of a serialized trie: the hash of the parent block, then
/// four reserved bytes, all zero.
pub open spec fn blob_header(parent: Seq<u8>) -> Seq<u8> {
    parent + seq![0u8, 0u8, 0u8, 0u8]
}

/// `buf` after `bytes` were written at offset `at`: the bytes that were
/// there are replaced, and a gap between the end of `buf` and `at` is
/// filled with zero bytes.
pub open spec fn overlay(buf: Seq<u8>, at: int, bytes: Seq<u8>) -> Seq<u8> {
    let end = at + bytes.len();
    let len = if buf.len() > end {
        buf.len() as int
    } else {
        end
    };
    Seq::new(
        len as nat,
        |i: int|
            if at <= i < end {
                bytes[i - at]
            } else if i < buf.len() {
                buf[i]
            } else {
                0u8
            },
    )
}

/// Writes `bytes` into `buf` at offset `at`, over what is there and
/// beyond the end of `buf` where they reach further; a gap before `at` is
/// filled with zero bytes.
pub fn write_at(buf: &mut Vec<u8>, at: usize, bytes: &[u8])
    requires
        at + bytes@.len() <= usize::MAX,
    ensures
        final(buf)@ == overlay(old(buf)@, at as int, bytes@),
{
    while buf.len() < at
        invariant
            old(buf)@.len() <= buf@.len(),
            buf@.len() <= at || buf@.len() == old(buf)@.len(),
            forall|i: int| 0 <= i < old(buf)@.len() ==> buf@[i] == old(buf)@[i],
            forall|i: int| old(buf)@.len() <= i < buf@.len() ==> buf@[i] == 0,
        decreases at - buf@.len(),
    {
        buf.push(0);
    }
    let n = bytes.len();
    let mut i: usize = 0;
    while i < n
        invariant
            i <= n,
            n == bytes@.len(),
            at + n <= usize::MAX,
            buf@.len() >= at + i,
            buf@.len() == (if old(buf)@.len() > at + i {
                old(buf)@.len() as int
            } else {
                at + i
            }),
            forall|x: int|
                0 <= x < buf@.len() ==> buf@[x] == (if at <= x < at + i {
                    bytes@[x - at]
                } else if x < old(buf)@.len() {
                    old(buf)@[x]
                } else {
                    0u8
                }),
        decreases n - i,
    {
        if at + i < buf.len() {
            buf[at + i] = bytes[i];
        } else {
            buf.push(bytes[i]);
        }
        i += 1;
    }
    assert(buf@ =~= overlay(old(buf)@, at as int, bytes@));
}

/// Writing one string behind another is writing the two as one.
pub proof fn lemma_overlay_append(buf: Seq<u8>, at: int, a: Seq<u8>, b: Seq<u8>)
    requires
        0 <= at,
        a.len() > 0 || at <= buf.len(),
    ensures
        overlay(overlay(buf, at, a), at + a.len(), b) == overlay(buf, at, a + b),
{
    assert(overlay(overlay(buf, at, a), at + a.len(), b) =~= overlay(buf, at, a + b));
}

/// The offset at which node `j` is written: behind the header for the
/// first node, and where `offsets` says that the node before it ends for
/// each other node.
pub open spec fn write_start(offsets: Seq<u32>, j: int) -> int {
    if j == 0 {
        BLOB_HEADER_SIZE as int
    } else {
        offsets[j - 1] as int
    }
}

/// Whether every node's path is short enough to be serialized.
pub open spec fn paths_fit(nodes: Seq<TrieEntry>) -> bool {
    forall|j: int| 0 <= j < nodes.len() ==> (#[trigger] nodes[j]).0.path.len() <= TRIEPATH_MAX_LEN
}

/// Whether every node ends at an offset that the machine can address when
/// written where `offsets` says.
pub open spec fn writes_fit(nodes: Seq<TrieEntry>, offsets: Seq<u32>) -> bool {
    forall|j: int|
        0 <= j < nodes.len() ==> write_start(offsets, j) + node_byte_len((#[trigger] nodes[j]).0)
            <= usize::MAX
}

/// `buf` after the nodes were written, the first one at `at` and each
/// other one at the offset that `offsets` gives for the node before it.
pub open spec fn overlay_nodes(buf: Seq<u8>, at: int, nodes: Seq<TrieEntry>, offsets: Seq<u32>) -> Seq<
    u8,
>
    decreases nodes.len(),
{
    if nodes.len() == 0 {
        buf
    } else {
        overlay_nodes(
            overlay(buf, at, node_bytes(nodes[0].0, nodes[0].1)),
            offsets[0] as int,
            nodes.drop_first(),
            offsets.drop_first(),
        )
    }
}

/// `buf` after a trie was written into it: the header at offset 0, the
/// first node behind the header, and each other node at the offset that
/// `offsets` gives for the node before it.
pub open spec fn overlay_trie(
    buf: Seq<u8>,
    parent: Seq<u8>,
    nodes: Seq<TrieEntry>,
    offsets: Seq<u32>,
) -> Seq<u8> {
    overlay_nodes(
        overlay(overlay(buf, 0, parent), 32, seq![0u8, 0u8, 0u8, 0u8]),
        BLOB_HEADER_SIZE as int,
        nodes,
        offsets,
    )
}

/// Why a trie in memory cannot be laid out.
pub enum WalkFailure {
    /// A pointer leads to no node of the trie.
    Dangling,
    /// A node's path is longer than the trie is deep.
    PathTooLong,
    /// The serialized trie would be longer than an offset can say.
    TooLarge,
}

/// The breadth-first walk from the state in which the nodes that the
/// pointers of `queue` lead to are waiting, in that order, and the next
/// node is to start at offset `at`.
///
/// The result lists the pointers followed, in the order in which their
/// nodes are laid out. For each node in turn the walk fails if the node's
/// path is too long, if the node would end behind the last offset that 32
/// bits can say, or if one of its pointers dangles, in that order.
pub open spec fn walk(data: Seq<TrieEntry>, queue: Seq<TriePtr>, at: int) -> Result<
    Seq<TriePtr>,
    WalkFailure,
>
    decreases u32::MAX - at,
{
    if queue.len() == 0 {
        Ok(Seq::empty())
    } else {
        let node = data[queue[0].ptr as int].0;
        let end = at + node_byte_len(node);
        if node.path.len() > TRIEPATH_MAX_LEN {
            Err(WalkFailure::PathTooLong)
        } else if end > u32::MAX {
            Err(WalkFailure::TooLarge)
        } else if !targets_in_range(node.ptrs, data.len()) {
            Err(WalkFailure::Dangling)
        } else {
            match walk(data, queue.drop_first() + live_ptrs(node.ptrs), end) {
                Ok(rest) => Ok(seq![queue[0]] + rest),
                Err(e) => Err(e),
            }
        }
    }
}

/// The first slot from `k` on whose pointer dangles: it leads to a node of
/// the same trie but to none of its `n` nodes. Where there is none, the
/// number of slots.
pub open spec fn dangling_from(ptrs: Seq<TriePtr>, n: nat, k: int) -> int
    decreases ptrs.len() - k,
{
    if k >= ptrs.len() {
        ptrs.len() as int
    } else if ptrs[k].is_live() && ptrs[k].ptr >= n {
        k
    } else {
        dangling_from(ptrs, n, k + 1)
    }
}

/// The pointers through which the children of a node are read, in slot
/// order: those that lead to nodes of the same trie, up to the first that
/// dangles.
pub open spec fn child_reads(ptrs: Seq<TriePtr>, n: nat) -> Seq<TriePtr> {
    let first = dangling_from(ptrs, n, 0);
    if first < ptrs.len() {
        live_ptrs(ptrs.subrange(0, first + 1))
    } else {
        live_ptrs(ptrs)
    }
}

/// The pointers through which nodes are read during a walk, in order:
/// for each node laid out, those through which its children are read. A
/// walk that fails reads nothing more.
pub open spec fn walk_reads(data: Seq<TrieEntry>, queue: Seq<TriePtr>, at: int) -> Seq<TriePtr>
    decreases u32::MAX - at,
{
    if queue.len() == 0 {
        Seq::empty()
    } else {
        let node = data[queue[0].ptr as int].0;
        let end = at + node_byte_len(node);
        if node.path.len() > TRIEPATH_MAX_LEN || end > u32::MAX {
            Seq::empty()
        } else if !targets_in_range(node.ptrs, data.len()) {
            child_reads(node.ptrs, data.len())
        } else {
            live_ptrs(node.ptrs) + walk_reads(
                data,
                queue.drop_first() + live_ptrs(node.ptrs),
                end,
            )
        }
    }
}

/// The pointers through which nodes are read when a trie is laid out: the
/// root pointer, then those of the walk from the root.
pub open spec fn layout_reads(data: Seq<TrieEntry>) -> Seq<TriePtr> {
    if data.len() == 0 {
        seq![ram_root_ptr()]
    } else {
        seq![ram_root_ptr()] + walk_reads(data, seq![ram_root_ptr()], BLOB_HEADER_SIZE as int)
    }
}

/// Where no pointer dangles before slot `k`, the first that dangles is
/// the first that does from `k` on.
pub proof fn lemma_dangling_from(ptrs: Seq<TriePtr>, n: nat, k: int)
    requires
        0 <= k <= ptrs.len(),
        forall|j: int| 0 <= j < k && (#[trigger] ptrs[j]).is_live() ==> ptrs[j].ptr < n,
    ensures
        dangling_from(ptrs, n, 0) == dangling_from(ptrs, n, k),
        targets_in_range(ptrs, n) ==> dangling_from(ptrs, n, k) == ptrs.len(),
        dangling_from(ptrs, n, k) == ptrs.len() ==> targets_in_range(ptrs, n),
    decreases k,
{
    if k > 0 {
        lemma_dangling_from(ptrs, n, k - 1);
    }
    lemma_dangling_tail(ptrs, n, k);
}

/// The first slot from `k` on whose pointer dangles is no slot before
/// `k`, and no pointer dangles between `k` and it.
pub proof fn lemma_dangling_tail(ptrs: Seq<TriePtr>, n: nat, k: int)
    requires
        0 <= k <= ptrs.len(),
    ensures
        k <= dangling_from(ptrs, n, k) <= ptrs.len(),
        forall|j: int|
            k <= j < dangling_from(ptrs, n, k) && (#[trigger] ptrs[j]).is_live() ==> ptrs[j].ptr
                < n,
        dangling_from(ptrs, n, k) < ptrs.len() ==> ptrs[dangling_from(ptrs, n, k)].is_live()
            && ptrs[dangling_from(ptrs, n, k)].ptr >= n,
    decreases ptrs.len() - k,
{
    if k < ptrs.len() && !(ptrs[k].is_live() && ptrs[k].ptr >= n) {
        lemma_dangling_tail(ptrs, n, k + 1);
    }
}

/// In a walk that succeeds, the pointers through which nodes are read are
/// those followed behind the ones that were waiting.
pub proof fn lemma_walk_reads_found(data: Seq<TrieEntry>, queue: Seq<TriePtr>, at: int)
    requires
        walk(data, queue, at) is Ok,
    ensures
        queue + walk_reads(data, queue, at) == walk(data, queue, at)->Ok_0,
    decreases u32::MAX - at,
{
    if queue.len() == 0 {
        assert(queue + walk_reads(data, queue, at) =~= walk(data, queue, at)->Ok_0);
    } else {
        let node = data[queue[0].ptr as int].0;
        let end = at + node_byte_len(node);
        let next = queue.drop_first() + live_ptrs(node.ptrs);
        lemma_walk_reads_found(data, next, end);
        assert(queue + (live_ptrs(node.ptrs) + walk_reads(data, next, end)) =~= seq![queue[0]] + (
        next + walk_reads(data, next, end)));
    }
}

/// The result of a walk behind the pointers already followed.
pub open spec fn walk_after(done: Seq<TriePtr>, rest: Result<Seq<TriePtr>, WalkFailure>) -> Result<
    Seq<TriePtr>,
    WalkFailure,
> {
    match rest {
        Ok(s) => Ok(done + s),
        Err(e) => Err(e),
    }
}

/// The pointers of a longer prefix that lead to nodes of the same trie
/// are those of the prefix, and the next pointer if it is one of them.
pub proof fn lemma_live_ptrs_step(ptrs: Seq<TriePtr>, k: int)
    requires
        0 <= k < ptrs.len(),
    ensures
        live_ptrs(ptrs.subrange(0, k + 1)) == (if ptrs[k].is_live() {
            live_ptrs(ptrs.subrange(0, k)).push(ptrs[k])
        } else {
            live_ptrs(ptrs.subrange(0, k))
        }),
{
    let s = ptrs.subrange(0, k + 1);
    assert(s.drop_last() =~= ptrs.subrange(0, k));
    assert(s.last() == ptrs[k]);
    reveal(Seq::filter);
}

/// A prefix has no more pointers that lead to nodes of the same trie
/// than the whole, and fewer if the pointer behind it is one of them.
pub proof fn lemma_live_ptrs_prefix(ptrs: Seq<TriePtr>, k: int)
    requires
        0 <= k <= ptrs.len(),
    ensures
        live_ptrs(ptrs.subrange(0, k)).len() <= live_ptrs(ptrs).len(),
        k < ptrs.len() && ptrs[k].is_live() ==> live_ptrs(ptrs.subrange(0, k)).len() < live_ptrs(
            ptrs,
        ).len(),
    decreases ptrs.len() - k,
{
    if k == ptrs.len() {
        assert(ptrs.subrange(0, k) =~= ptrs);
    } else {
        lemma_live_ptrs_step(ptrs, k);
        lemma_live_ptrs_prefix(ptrs, k + 1);
    }
}

/// Retargeting keeps which pointers lead to nodes of the same trie.
pub proof fn lemma_retarget_live(ptrs: Seq<TriePtr>, targets: Seq<u32>, first: int, upto: int)
    ensures
        retarget_upto(ptrs, targets, first, upto).len() == ptrs.len(),
        forall|k: int|
            0 <= k <= ptrs.len() ==> live_ptrs(
                #[trigger] retarget_upto(ptrs, targets, first, upto).subrange(0, k),
            ).len() == live_ptrs(ptrs.subrange(0, k)).len(),
{
    let r = retarget_upto(ptrs, targets, first, upto);
    assert forall|k: int| 0 <= k <= ptrs.len() implies live_ptrs(#[trigger] r.subrange(0, k)).len()
        == live_ptrs(ptrs.subrange(0, k)).len() by {
        lemma_retarget_live_upto(ptrs, r, k);
    }
}

/// Two rows of pointers of which the same ones lead to nodes of the same
/// trie have as many such pointers in each prefix.
pub proof fn lemma_retarget_live_upto(a: Seq<TriePtr>, b: Seq<TriePtr>, k: int)
    requires
        a.len() == b.len(),
        0 <= k <= a.len(),
        forall|s: int| 0 <= s < a.len() ==> a[s].is_live() == b[s].is_live(),
    ensures
        live_ptrs(b.subrange(0, k)).len() == live_ptrs(a.subrange(0, k)).len(),
    decreases k,
{
    if k == 0 {
        assert(a.subrange(0, 0) =~= Seq::<TriePtr>::empty());
        assert(b.subrange(0, 0) =~= Seq::<TriePtr>::empty());
    } else {
        lemma_retarget_live_upto(a, b, k - 1);
        lemma_live_ptrs_step(a, k - 1);
        lemma_live_ptrs_step(b, k - 1);
    }
}

/// The pointers of two rows of nodes put together are those of the one,
/// then those of the other.
pub proof fn lemma_flat_live_concat(a: Seq<TrieEntry>, b: Seq<TrieEntry>)
    ensures
        flat_live(a + b) == flat_live(a) + flat_live(b),
    decreases b.len(),
{
    if b.len() == 0 {
        assert(a + b =~= a);
        assert(flat_live(a) + flat_live(b) =~= flat_live(a));
    } else {
        lemma_flat_live_concat(a, b.drop_last());
        assert((a + b).drop_last() =~= a + b.drop_last());
        assert((a + b).last() == b.last());
        assert(flat_live(a + b) =~= flat_live(a) + flat_live(b));
    }
}

/// The length of two rows of nodes put together is the sum of theirs.
pub proof fn lemma_total_len_concat(a: Seq<TrieEntry>, b: Seq<TrieEntry>)
    ensures
        total_len(a + b) == total_len(a) + total_len(b),
    decreases b.len(),
{
    if b.len() == 0 {
        assert(a + b =~= a);
    } else {
        lemma_total_len_concat(a, b.drop_last());
        assert((a + b).drop_last() =~= a + b.drop_last());
        assert((a + b).last() == b.last());
    }
}

/// Two rows of nodes put together serialize to the bytes of the one, then
/// those of the other.
pub proof fn lemma_nodes_bytes_concat(a: Seq<TrieEntry>, b: Seq<TrieEntry>)
    ensures
        nodes_bytes(a + b) == nodes_bytes(a) + nodes_bytes(b),
    decreases b.len(),
{
    if b.len() == 0 {
        assert(a + b =~= a);
        assert(nodes_bytes(a) + nodes_bytes(b) =~= nodes_bytes(a));
    } else {
        lemma_nodes_bytes_concat(a, b.drop_last());
        assert((a + b).drop_last() =~= a + b.drop_last());
        assert((a + b).last() == b.last());
        assert(nodes_bytes(a + b) =~= nodes_bytes(a) + nodes_bytes(b));
    }
}

/// A prefix of a row of nodes is no longer, serialized, than the row.
pub proof fn lemma_total_len_prefix(nodes: Seq<TrieEntry>, k: int)
    requires
        0 <= k <= nodes.len(),
    ensures
        total_len(nodes.subrange(0, k)) <= total_len(nodes),
{
    lemma_total_len_concat(nodes.subrange(0, k), nodes.subrange(k, nodes.len() as int));
    assert(nodes.subrange(0, k) + nodes.subrange(k, nodes.len() as int) =~= nodes);
}

/// A prefix of a row of nodes has no more pointers that lead to nodes of
/// the same trie than the row.
pub proof fn lemma_flat_live_prefix(nodes: Seq<TrieEntry>, k: int)
    requires
        0 <= k <= nodes.len(),
    ensures
        flat_live(nodes.subrange(0, k)).len() <= flat_live(nodes).len(),
        k < nodes.len() ==> flat_live(nodes.subrange(0, k)).len() + live_ptrs(
            nodes[k].0.ptrs,
        ).len() <= flat_live(nodes).len(),
{
    lemma_flat_live_concat(nodes.subrange(0, k), nodes.subrange(k, nodes.len() as int));
    assert(nodes.subrange(0, k) + nodes.subrange(k, nodes.len() as int) =~= nodes);
    if k < nodes.len() {
        let upto = nodes.subrange(0, k + 1);
        assert(upto.drop_last() =~= nodes.subrange(0, k));
        assert(upto.last() == nodes[k]);
        lemma_flat_live_concat(upto, nodes.subrange(k + 1, nodes.len() as int));
        assert(upto + nodes.subrange(k + 1, nodes.len() as int) =~= nodes);
    }
}

/// Retargeting changes no node's kind, path, payload or hash, nor which
/// of its pointers lead to nodes of the same trie; so it changes neither
/// the length of the serialized nodes nor the row of those pointers but
/// for their targets.
pub proof fn lemma_retarget_nodes_keeps(nodes: Seq<TrieEntry>, targets: Seq<u32>, first: int, k: int)
    requires
        0 <= k <= nodes.len(),
    ensures
        total_len(retarget_nodes(nodes, targets, first).subrange(0, k)) == total_len(
            nodes.subrange(0, k),
        ),
        flat_live(retarget_nodes(nodes, targets, first).subrange(0, k)).len() == flat_live(
            nodes.subrange(0, k),
        ).len(),
    decreases k,
{
    let fixed = retarget_nodes(nodes, targets, first);
    if k == 0 {
        assert(fixed.subrange(0, 0) =~= Seq::<TrieEntry>::empty());
        assert(nodes.subrange(0, 0) =~= Seq::<TrieEntry>::empty());
    } else {
        lemma_retarget_nodes_keeps(nodes, targets, first, k - 1);
        assert(fixed.subrange(0, k).drop_last() =~= fixed.subrange(0, k - 1));
        assert(nodes.subrange(0, k).drop_last() =~= nodes.subrange(0, k - 1));
        let ptrs = nodes[k - 1].0.ptrs;
        let at = first + flat_live(nodes.subrange(0, k - 1)).len();
        lemma_retarget_live(ptrs, targets, at, ptrs.len() as int);
        assert(retarget(ptrs, targets, at).subrange(0, ptrs.len() as int) =~= retarget(
            ptrs,
            targets,
            at,
        ));
        assert(ptrs.subrange(0, ptrs.len() as int) =~= ptrs);
    }
}

/// Writing nodes one behind the other, each where the one before it
/// ends, is writing their bytes as one string.
pub proof fn lemma_overlay_nodes_in_a_row(
    buf: Seq<u8>,
    pre: Seq<u8>,
    nodes: Seq<TrieEntry>,
    offsets: Seq<u32>,
)
    requires
        pre.len() > 0,
        offsets.len() == nodes.len(),
        forall|j: int|
            0 <= j < nodes.len() ==> (#[trigger] nodes[j]).0.shaped() && nodes[j].1.len() == 32,
        forall|j: int|
            0 <= j < nodes.len() ==> (#[trigger] offsets[j]) == pre.len() + total_len(
                nodes.subrange(0, j + 1),
            ),
    ensures
        overlay_nodes(overlay(buf, 0, pre), pre.len() as int, nodes, offsets) == overlay(
            buf,
            0,
            pre + nodes_bytes(nodes),
        ),
    decreases nodes.len(),
{
    if nodes.len() == 0 {
        assert(pre + nodes_bytes(nodes) =~= pre);
    } else {
        let first = nodes[0];
        let enc = node_bytes(first.0, first.1);
        let rest = nodes.drop_first();
        let rest_off = offsets.drop_first();
        let one = seq![first];
        crate::bits::lemma_node_bytes_len(first.0, first.1);
        lemma_overlay_append(buf, 0, pre, enc);
        assert(one.drop_last() =~= Seq::<TrieEntry>::empty());
        assert(total_len(Seq::<TrieEntry>::empty()) == 0);
        assert(nodes_bytes(Seq::<TrieEntry>::empty()) =~= Seq::<u8>::empty());
        assert(nodes_bytes(one) =~= enc);
        assert(nodes.subrange(0, 1) =~= one);
        assert(offsets[0] == pre.len() + enc.len());
        assert forall|j: int| 0 <= j < rest.len() implies (#[trigger] rest_off[j]) == (pre
            + enc).len() + total_len(rest.subrange(0, j + 1)) by {
            assert(rest_off[j] == offsets[j + 1]);
            lemma_total_len_concat(one, rest.subrange(0, j + 1));
            assert(one + rest.subrange(0, j + 1) =~= nodes.subrange(0, j + 2));
        }
        assert forall|j: int| 0 <= j < rest.len() implies (#[trigger] rest[j]).0.shaped()
            && rest[j].1.len() == 32 by {
            assert(rest[j] == nodes[j + 1]);
        }
        lemma_overlay_nodes_in_a_row(buf, pre + enc, rest, rest_off);
        lemma_nodes_bytes_concat(one, rest);
        assert(one + rest =~= nodes);
        assert((pre + enc) + nodes_bytes(rest) =~= pre + nodes_bytes(nodes));
    }
}

/// Writing a trie whose offsets say where each node ends is writing its
/// blob at offset 0.
pub proof fn lemma_overlay_trie_is_blob(
    buf: Seq<u8>,
    parent: Seq<u8>,
    nodes: Seq<TrieEntry>,
    offsets: Seq<u32>,
)
    requires
        parent.len() == 32,
        offsets.len() == nodes.len(),
        forall|j: int|
            0 <= j < nodes.len() ==> (#[trigger] nodes[j]).0.shaped() && nodes[j].1.len() == 32,
        forall|j: int|
            0 <= j < nodes.len() ==> (#[trigger] offsets[j]) == BLOB_HEADER_SIZE + total_len(
                nodes.subrange(0, j + 1),
            ),
    ensures
        overlay_trie(buf, parent, nodes, offsets) == overlay(
            buf,
            0,
            blob_header(parent) + nodes_bytes(nodes),
        ),
{
    let zeros = seq![0u8, 0u8, 0u8, 0u8];
    lemma_overlay_append(buf, 0, parent, zeros);
    lemma_overlay_nodes_in_a_row(buf, blob_header(parent), nodes, offsets);
}

/// What a walk that succeeds has found: the pointers followed are those
/// that were waiting, then the pointers of the nodes reached that lead to
/// nodes of the same trie, node after node; every node reached has a path
/// that can be serialized; and the nodes end at an offset that 32 bits can
/// say.
pub proof fn lemma_walk_found(data: Seq<TrieEntry>, queue: Seq<TriePtr>, at: int)
    requires
        walk(data, queue, at) is Ok,
        at <= u32::MAX,
    ensures
        ({
            let order = walk(data, queue, at)->Ok_0;
            let nodes = picked(data, order);
            &&& order == queue + flat_live(nodes)
            &&& paths_fit(nodes)
            &&& at + total_len(nodes) <= u32::MAX
            &&& forall|j: int|
                0 <= j < nodes.len() ==> targets_in_range((#[trigger] nodes[j]).0.ptrs, data.len())
        }),
    decreases u32::MAX - at,
{
    let order = walk(data, queue, at)->Ok_0;
    let nodes = picked(data, order);
    if queue.len() == 0 {
        assert(order =~= queue + flat_live(nodes));
    } else {
        let q0 = queue[0];
        let node = data[q0.ptr as int].0;
        let end = at + node_byte_len(node);
        let next = queue.drop_first() + live_ptrs(node.ptrs);
        lemma_walk_found(data, next, end);
        let rest = walk(data, next, end)->Ok_0;
        let rest_nodes = picked(data, rest);
        let one = seq![data[q0.ptr as int]];
        assert(order == seq![q0] + rest);
        assert(nodes =~= one + rest_nodes);
        lemma_flat_live_concat(one, rest_nodes);
        lemma_total_len_concat(one, rest_nodes);
        assert(one.drop_last() =~= Seq::<TrieEntry>::empty());
        assert(total_len(Seq::<TrieEntry>::empty()) == 0);
        assert(flat_live(Seq::<TrieEntry>::empty()) =~= Seq::<TriePtr>::empty());
        assert(flat_live(one) =~= live_ptrs(node.ptrs));
        assert(order =~= queue + flat_live(nodes));
        assert forall|j: int| 0 <= j < nodes.len() implies (#[trigger] nodes[j]).0.path.len()
            <= TRIEPATH_MAX_LEN && targets_in_range(nodes[j].0.ptrs, data.len()) by {
            if j > 0 {
                assert(nodes[j] == rest_nodes[j - 1]);
            }
        }
    }
}

/// The pointer through which the root of a trie in memory is read.
pub open spec fn ram_root_ptr() -> TriePtr {
    TriePtr { id: TRIE_NODE_ID_NODE256, chr: 0, ptr: 0, back_block: 0 }
}

/// The pointers followed when the trie is laid out breadth-first from its
/// root, in the order in which their nodes are laid out; or why the trie
/// cannot be laid out.
pub open spec fn layout_order(data: Seq<TrieEntry>) -> Result<Seq<TriePtr>, WalkFailure> {
    if data.len() == 0 {
        Err(WalkFailure::Dangling)
    } else {
        walk(data, seq![ram_root_ptr()], BLOB_HEADER_SIZE as int)
    }
}

/// The nodes that the pointers lead to.
pub open spec fn picked(data: Seq<TrieEntry>, order: Seq<TriePtr>) -> Seq<TrieEntry> {
    Seq::new(order.len(), |j: int| data[order[j].ptr as int])
}

/// The offset at which each node ends, as the 32-bit numbers that child
/// pointers hold.
pub open spec fn end_offsets(nodes: Seq<TrieEntry>) -> Seq<u32> {
    Seq::new(nodes.len(), |j: int| node_ends(nodes)[j] as u32)
}

/// The nodes as they are serialized: in the order of the layout, each
/// pointer that leads to a node of the same trie holding the offset at
/// which that node starts.
pub open spec fn laid_out(nodes: Seq<TrieEntry>) -> Seq<TrieEntry> {
    retarget_nodes(nodes, end_offsets(nodes), 0)
}

/// A serialized trie: the header, then the nodes in the order of the
/// layout, with offsets for pointers.
pub open spec fn trie_blob(parent: Seq<u8>, nodes: Seq<TrieEntry>) -> Seq<u8> {
    blob_header(parent) + nodes_bytes(laid_out(nodes))
}

/// The targets that renumber pointers: target `k` is the number `k`.
pub open spec fn identity_targets() -> Seq<u32> {
    Seq::new(0x1_0000_0000, |k: int| k as u32)
}

/// The pointer through which the root of a serialized trie is read.
pub open spec fn disk_root_ptr() -> TriePtr {
    TriePtr { id: TRIE_NODE_ID_NODE256, chr: 0, ptr: BLOB_HEADER_SIZE, back_block: 0 }
}

/// Most nodes that a blob can hold: no more than it has bytes, and no
/// more than an index can say.
pub open spec fn node_limit(blob: Seq<u8>) -> int {
    if blob.len() < u32::MAX {
        blob.len() as int
    } else {
        u32::MAX as int
    }
}

/// The breadth-first reading of a blob from the state in which the nodes
/// that the pointers of `queue` lead to are waiting, in that order, and
/// `next` is the index that the next node found will get.
///
/// The result lists the nodes read, in the order in which they were
/// waiting or found; each pointer of theirs that leads to a node of the
/// same trie holds the index at which that node stands in the whole row.
/// There is no result if no node starts where a pointer leads, or if
/// more nodes are found than the blob can hold.
pub open spec fn load_walk(blob: Seq<u8>, queue: Seq<TriePtr>, next: int) -> Option<
    Seq<TrieEntry>,
>
    decreases (node_limit(blob) - next) + queue.len(),
{
    if queue.len() == 0 {
        Some(Seq::empty())
    } else {
        let at = queue[0].ptr as int;
        if !node_starts_at(blob, at) {
            None
        } else {
            let node = crate::bits::node_at(blob, at);
            let live = live_ptrs(node.ptrs);
            if next + live.len() > node_limit(blob) {
                None
            } else {
                match load_walk(blob, queue.drop_first() + live, next + live.len()) {
                    Some(rest) => Some(
                        seq![
                            (
                                node.with_ptrs(retarget(node.ptrs, identity_targets(), next)),
                                crate::bits::hash_at(blob, at),
                            ),
                        ] + rest,
                    ),
                    None => None,
                }
            }
        }
    }
}

/// The result of a reading behind the nodes already read.
pub open spec fn load_after(done: Seq<TrieEntry>, rest: Option<Seq<TrieEntry>>) -> Option<
    Seq<TrieEntry>,
> {
    match rest {
        Some(s) => Some(done + s),
        None => None,
    }
}

/// The nodes of the trie serialized in `blob`, read breadth-first from
/// the root, which stands behind the header and must have 256 slots.
/// There is no result if the blob is shorter than the hash of the parent
/// block, if the root is not there or is of another kind, or if the
/// reading from the root on has none.
pub open spec fn loaded_nodes(blob: Seq<u8>) -> Option<Seq<TrieEntry>> {
    if blob.len() < 32 {
        None
    } else if !node_starts_at(blob, BLOB_HEADER_SIZE as int) || blob[BLOB_HEADER_SIZE as int]
        != TRIE_NODE_ID_NODE256 {
        None
    } else {
        load_walk(blob, seq![disk_root_ptr()], 1)
    }
}

/// The first node of a trie read from a blob is its root, a node with
/// 256 slots; a blob whose root is of another kind gives no trie.
pub proof fn lemma_loaded_root(blob: Seq<u8>)
    ensures
        loaded_nodes(blob) matches Some(nodes) ==> nodes.len() > 0 && nodes[0].0.id
            == TRIE_NODE_ID_NODE256,
        node_starts_at(blob, BLOB_HEADER_SIZE as int) && blob[BLOB_HEADER_SIZE as int]
            != TRIE_NODE_ID_NODE256 ==> loaded_nodes(blob) is None,
{
}

} // verus!
