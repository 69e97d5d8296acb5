use crate::bits::{
    decode_node, hash_at, lemma_node_bytes_len, lemma_node_round_trip, node_at, node_byte_len,
    node_bytes,
};
use crate::blob::{
    blob_header, disk_root_ptr, end_offsets, flat_live, identity_targets, laid_out,
    layout_order, lemma_flat_live_concat, lemma_flat_live_prefix, lemma_live_ptrs_prefix,
    lemma_live_ptrs_step, lemma_nodes_bytes_concat, lemma_retarget_live,
    lemma_retarget_nodes_keeps, lemma_total_len_prefix, lemma_walk_found, live_ptrs,
    load_walk, loaded_nodes, node_start, nodes_bytes, paths_fit, picked, ram_root_ptr,
    retarget, retarget_nodes, targets_in_range, total_len, trie_blob, walk,
    BLOB_HEADER_SIZE,
};
use crate::node::{TriePtr, TRIE_NODE_ID_NODE256};
use crate::trie_ram::TrieEntry;
use vstd::prelude::*;

verus! {

/// Whether every node has the parts of its kind and every hash 32 bytes.
pub open spec fn entries_shaped(nodes: Seq<TrieEntry>) -> bool {
    forall|j: int|
        0 <= j < nodes.len() ==> (#[trigger] nodes[j]).0.shaped() && nodes[j].1.len() == 32
}

/// Number of pointers, among those of the first `j` nodes, that lead to
/// nodes of the same trie.
pub open spec fn live_before(nodes: Seq<TrieEntry>, j: int) -> int {
    flat_live(nodes.subrange(0, j)).len() as int
}

/// Serialized nodes are as long as `total_len` says.
pub proof fn lemma_nodes_bytes_len(nodes: Seq<TrieEntry>)
    requires
        entries_shaped(nodes),
    ensures
        nodes_bytes(nodes).len() == total_len(nodes),
    decreases nodes.len(),
{
    if nodes.len() > 0 {
        let init = nodes.drop_last();
        assert forall|j: int| 0 <= j < init.len() implies (#[trigger] init[j]).0.shaped()
            && init[j].1.len() == 32 by {
            assert(init[j] == nodes[j]);
        }
        lemma_nodes_bytes_len(init);
        lemma_node_bytes_len(nodes.last().0, nodes.last().1);
    }
}

/// The pointers of a node that lead to nodes of the same trie stand in
/// the row of all such pointers behind those of the nodes before it.
pub proof fn lemma_flat_live_index(nodes: Seq<TrieEntry>, j: int, t: int)
    requires
        0 <= j < nodes.len(),
        0 <= t < live_ptrs(nodes[j].0.ptrs).len(),
    ensures
        live_before(nodes, j) + t < flat_live(nodes).len(),
        flat_live(nodes)[live_before(nodes, j) + t] == live_ptrs(nodes[j].0.ptrs)[t],
        live_before(nodes, j + 1) == live_before(nodes, j) + live_ptrs(nodes[j].0.ptrs).len(),
{
    let upto = nodes.subrange(0, j + 1);
    let rest = nodes.subrange(j + 1, nodes.len() as int);
    assert(upto.drop_last() =~= nodes.subrange(0, j));
    assert(upto.last() == nodes[j]);
    lemma_flat_live_concat(upto, rest);
    assert(upto + rest =~= nodes);
}

/// A pointer that leads to a node of the same trie stands among such
/// pointers behind those of the slots before it.
pub proof fn lemma_live_ptrs_index(ptrs: Seq<TriePtr>, s: int)
    requires
        0 <= s < ptrs.len(),
        ptrs[s].is_live(),
    ensures
        live_ptrs(ptrs.subrange(0, s)).len() < live_ptrs(ptrs).len(),
        live_ptrs(ptrs)[live_ptrs(ptrs.subrange(0, s)).len() as int] == ptrs[s],
{
    lemma_live_ptrs_step(ptrs, s);
    lemma_live_ptrs_prefix(ptrs, s);
    let upto = ptrs.subrange(0, s + 1);
    let rest = ptrs.subrange(s + 1, ptrs.len() as int);
    assert(upto + rest =~= ptrs);
    Seq::filter_distributes_over_add(upto, rest, |p: TriePtr| p.is_live());
}

/// Among the retargeted pointers, those that lead to nodes of the same
/// trie are the ones that did before, each with its new target.
pub proof fn lemma_retarget_live_ptrs(ptrs: Seq<TriePtr>, targets: Seq<u32>, first: int, k: int)
    requires
        0 <= k <= ptrs.len(),
    ensures
        live_ptrs(retarget(ptrs, targets, first).subrange(0, k)).len() == live_ptrs(
            ptrs.subrange(0, k),
        ).len(),
        forall|u: int|
            0 <= u < live_ptrs(ptrs.subrange(0, k)).len() ==> (#[trigger] live_ptrs(
                retarget(ptrs, targets, first).subrange(0, k),
            )[u]) == live_ptrs(ptrs.subrange(0, k))[u].with_ptr(targets[first + u]),
    decreases k,
{
    let fixed = retarget(ptrs, targets, first);
    if k == 0 {
        assert(fixed.subrange(0, 0) =~= Seq::<TriePtr>::empty());
        assert(ptrs.subrange(0, 0) =~= Seq::<TriePtr>::empty());
    } else {
        lemma_retarget_live_ptrs(ptrs, targets, first, k - 1);
        lemma_live_ptrs_step(ptrs, k - 1);
        lemma_live_ptrs_step(fixed, k - 1);
    }
}

/// Retargeting twice is retargeting with the later targets.
pub proof fn lemma_retarget_twice(
    ptrs: Seq<TriePtr>,
    targets: Seq<u32>,
    first: int,
    later: Seq<u32>,
    later_first: int,
)
    ensures
        retarget(retarget(ptrs, targets, first), later, later_first) == retarget(
            ptrs,
            later,
            later_first,
        ),
{
    let once = retarget(ptrs, targets, first);
    lemma_retarget_live(ptrs, targets, first, ptrs.len() as int);
    assert(retarget(once, later, later_first) =~= retarget(ptrs, later, later_first));
}

/// Laying nodes out keeps their shapes, paths and hashes.
pub proof fn lemma_laid_out_shaped(nodes: Seq<TrieEntry>)
    requires
        entries_shaped(nodes),
        paths_fit(nodes),
    ensures
        laid_out(nodes).len() == nodes.len(),
        entries_shaped(laid_out(nodes)),
        paths_fit(laid_out(nodes)),
        forall|j: int|
            0 <= j < nodes.len() ==> (#[trigger] laid_out(nodes)[j]).0.encodable() && node_byte_len(
                laid_out(nodes)[j].0,
            ) == node_byte_len(nodes[j].0),
{
    let fixed = laid_out(nodes);
    assert forall|j: int| 0 <= j < nodes.len() implies (#[trigger] fixed[j]).0.shaped()
        && fixed[j].1.len() == 32 && fixed[j].0.path.len() == nodes[j].0.path.len() by {
        assert(nodes[j].0.shaped());
    }
}

/// The length of a serialized trie: the header and the nodes.
pub proof fn lemma_trie_blob_len(parent: Seq<u8>, nodes: Seq<TrieEntry>)
    requires
        parent.len() == 32,
        entries_shaped(nodes),
        paths_fit(nodes),
    ensures
        trie_blob(parent, nodes).len() == BLOB_HEADER_SIZE + total_len(nodes),
        trie_blob(parent, nodes).subrange(0, 32) == parent,
{
    lemma_laid_out_shaped(nodes);
    lemma_nodes_bytes_len(laid_out(nodes));
    lemma_retarget_nodes_keeps(nodes, end_offsets(nodes), 0, nodes.len() as int);
    assert(laid_out(nodes).subrange(0, nodes.len() as int) =~= laid_out(nodes));
    assert(nodes.subrange(0, nodes.len() as int) =~= nodes);
    assert(trie_blob(parent, nodes).subrange(0, 32) =~= parent);
}

/// In a serialized trie each node starts where the nodes before it end,
/// and reads back there as it was laid out.
pub proof fn lemma_node_decodes_at_start(parent: Seq<u8>, nodes: Seq<TrieEntry>, j: int)
    requires
        parent.len() == 32,
        entries_shaped(nodes),
        paths_fit(nodes),
        0 <= j < nodes.len(),
    ensures
        decode_node(trie_blob(parent, nodes), node_start(nodes, j)) == Some(laid_out(nodes)[j]),
        BLOB_HEADER_SIZE <= node_start(nodes, j),
        node_start(nodes, j) + node_byte_len(nodes[j].0) <= trie_blob(parent, nodes).len(),
        node_start(nodes, j + 1) == node_start(nodes, j) + node_byte_len(nodes[j].0),
{
    let fixed = laid_out(nodes);
    let n = nodes.len() as int;
    lemma_laid_out_shaped(nodes);
    lemma_trie_blob_len(parent, nodes);
    let before = fixed.subrange(0, j);
    let one = seq![fixed[j]];
    let after = fixed.subrange(j + 1, n);
    assert((before + one) + after =~= fixed);
    lemma_nodes_bytes_concat(before + one, after);
    lemma_nodes_bytes_concat(before, one);
    assert(one.drop_last() =~= Seq::<TrieEntry>::empty());
    assert(nodes_bytes(Seq::<TrieEntry>::empty()) =~= Seq::<u8>::empty());
    assert(nodes_bytes(one) =~= node_bytes(fixed[j].0, fixed[j].1));
    assert forall|m: int| 0 <= m < before.len() implies (#[trigger] before[m]).0.shaped()
        && before[m].1.len() == 32 by {
        assert(before[m] == fixed[m]);
    }
    lemma_nodes_bytes_len(before);
    lemma_retarget_nodes_keeps(nodes, end_offsets(nodes), 0, j);
    let pre = blob_header(parent) + nodes_bytes(before);
    let post = nodes_bytes(after);
    assert(pre.len() == node_start(nodes, j));
    assert(trie_blob(parent, nodes) =~= pre + node_bytes(fixed[j].0, fixed[j].1) + post);
    lemma_node_round_trip(pre, fixed[j].0, fixed[j].1, post);
    lemma_node_bytes_len(fixed[j].0, fixed[j].1);
    lemma_total_len_prefix(nodes, j + 1);
    assert(nodes.subrange(0, j + 1).drop_last() =~= nodes.subrange(0, j));
}

/// In a trie laid out within the reach of an offset, the offset at which
/// a node ends is the one at which the next node starts, as a 32-bit
/// number too.
pub proof fn lemma_end_offset_is_next_start(nodes: Seq<TrieEntry>, c: int)
    requires
        0 <= c < nodes.len(),
        BLOB_HEADER_SIZE + total_len(nodes) <= u32::MAX,
    ensures
        end_offsets(nodes)[c] == node_start(nodes, c + 1),
{
    lemma_total_len_prefix(nodes, c + 1);
}

/// In a walk that succeeds each node is found before its turn comes:
/// before the node at place `i` is reached, more than `i` pointers have
/// been waiting or found. At the end, as many pointers have been followed
/// as were waiting or found.
pub proof fn lemma_walk_discipline(data: Seq<TrieEntry>, queue: Seq<TriePtr>, at: int, i: int)
    requires
        walk(data, queue, at) is Ok,
        0 <= i <= walk(data, queue, at)->Ok_0.len(),
    ensures
        ({
            let order = walk(data, queue, at)->Ok_0;
            let nodes = picked(data, order);
            &&& i < order.len() ==> queue.len() + live_before(nodes, i) > i
            &&& i == order.len() ==> queue.len() + live_before(nodes, i) == i
        }),
    decreases u32::MAX - at,
{
    let order = walk(data, queue, at)->Ok_0;
    let nodes = picked(data, order);
    if queue.len() == 0 {
        assert(nodes.subrange(0, 0) =~= Seq::<TrieEntry>::empty());
    } else if i == 0 {
        assert(nodes.subrange(0, 0) =~= Seq::<TrieEntry>::empty());
    } else {
        let q0 = queue[0];
        let node = data[q0.ptr as int].0;
        let end = at + node_byte_len(node);
        let next = queue.drop_first() + live_ptrs(node.ptrs);
        let rest = walk(data, next, end)->Ok_0;
        let rest_nodes = picked(data, rest);
        assert(order == seq![q0] + rest);
        lemma_walk_discipline(data, next, end, i - 1);
        let one = seq![data[q0.ptr as int]];
        assert(nodes.subrange(0, i) =~= one + rest_nodes.subrange(0, i - 1));
        lemma_flat_live_concat(one, rest_nodes.subrange(0, i - 1));
        assert(one.drop_last() =~= Seq::<TrieEntry>::empty());
        assert(flat_live(Seq::<TrieEntry>::empty()) =~= Seq::<TriePtr>::empty());
        assert(flat_live(one) =~= live_ptrs(node.ptrs));
    }
}

/// What a trie that can be laid out looks like once serialized.
///
/// Take any pointer of a laid-out node that leads to a node of the same
/// trie. The offset it holds lies behind the header and before the end
/// of the blob, and a node starts there: the laid-out form of the node
/// that the pointer led to in memory. The root starts right behind the
/// header.
pub proof fn lemma_dumped_pointers_lead_to_children(
    data: Seq<TrieEntry>,
    parent: Seq<u8>,
    j: int,
    s: int,
)
    requires
        entries_shaped(data),
        parent.len() == 32,
        layout_order(data) is Ok,
        0 <= j < layout_order(data)->Ok_0.len(),
        0 <= s < picked(data, layout_order(data)->Ok_0)[j].0.ptrs.len(),
        picked(data, layout_order(data)->Ok_0)[j].0.ptrs[s].is_live(),
    ensures
        ({
            let order = layout_order(data)->Ok_0;
            let nodes = picked(data, order);
            let blob = trie_blob(parent, nodes);
            let in_memory = nodes[j].0.ptrs[s];
            let on_disk = laid_out(nodes)[j].0.ptrs[s];
            let place = 1 + live_before(nodes, j) + live_ptrs(nodes[j].0.ptrs.subrange(0, s)).len();
            &&& on_disk == in_memory.with_ptr(on_disk.ptr)
            &&& BLOB_HEADER_SIZE < on_disk.ptr < blob.len()
            &&& place < nodes.len()
            &&& in_memory.ptr < data.len()
            &&& nodes[place] == data[in_memory.ptr as int]
            &&& decode_node(blob, on_disk.ptr as int) == Some(laid_out(nodes)[place])
            &&& decode_node(blob, BLOB_HEADER_SIZE as int) == Some(laid_out(nodes)[0])
            &&& nodes[0] == data[0]
        }),
{
    let order = layout_order(data)->Ok_0;
    let nodes = picked(data, order);
    let blob = trie_blob(parent, nodes);
    let queue = seq![ram_root_ptr()];
    lemma_walk_found(data, queue, BLOB_HEADER_SIZE as int);
    assert(entries_shaped(nodes)) by {
        assert forall|m: int| 0 <= m < nodes.len() implies (#[trigger] nodes[m]).0.shaped()
            && nodes[m].1.len() == 32 by {
            lemma_order_in_range(data, m);
        }
    }
    let ptrs = nodes[j].0.ptrs;
    let t = live_ptrs(ptrs.subrange(0, s)).len() as int;
    let c = live_before(nodes, j) + t;
    lemma_live_ptrs_index(ptrs, s);
    lemma_flat_live_index(nodes, j, t);
    assert(order[c + 1] == flat_live(nodes)[c]);
    assert(order.len() == 1 + flat_live(nodes).len());
    lemma_end_offset_is_next_start(nodes, c);
    lemma_node_decodes_at_start(parent, nodes, c + 1);
    lemma_node_decodes_at_start(parent, nodes, 0);
    lemma_node_decodes_at_start(parent, nodes, c);
    lemma_total_len_prefix(nodes, c);
    assert(nodes.subrange(0, 0) =~= Seq::<TrieEntry>::empty());
    assert(order[0] == ram_root_ptr());
}

/// In a layout that succeeds every pointer followed leads to a node of
/// the trie.
pub proof fn lemma_order_in_range(data: Seq<TrieEntry>, m: int)
    requires
        layout_order(data) is Ok,
        0 <= m < layout_order(data)->Ok_0.len(),
    ensures
        layout_order(data)->Ok_0[m].ptr < data.len(),
        m == 0 ==> layout_order(data)->Ok_0[m] == ram_root_ptr(),
{
    let order = layout_order(data)->Ok_0;
    let nodes = picked(data, order);
    let queue = seq![ram_root_ptr()];
    lemma_walk_found(data, queue, BLOB_HEADER_SIZE as int);
    if m > 0 {
        let p = flat_live(nodes)[m - 1];
        assert(order[m] == p);
        lemma_flat_live_member(nodes, m - 1);
        let (j, s) = choose|j: int, s: int|
            0 <= j < nodes.len() && 0 <= s < nodes[j].0.ptrs.len() && nodes[j].0.ptrs[s] == p
                && nodes[j].0.ptrs[s].is_live();
        assert(targets_in_range(nodes[j].0.ptrs, data.len()));
    }
}

/// Each pointer in the row of those that lead to nodes of the same trie
/// is such a pointer of one of the nodes.
pub proof fn lemma_flat_live_member(nodes: Seq<TrieEntry>, c: int)
    requires
        0 <= c < flat_live(nodes).len(),
    ensures
        exists|j: int, s: int|
            0 <= j < nodes.len() && 0 <= s < nodes[j].0.ptrs.len() && nodes[j].0.ptrs[s]
                == flat_live(nodes)[c] && nodes[j].0.ptrs[s].is_live(),
    decreases nodes.len(),
{
    let init = nodes.drop_last();
    let last = nodes.last();
    if c < flat_live(init).len() {
        lemma_flat_live_member(init, c);
        let (j, s) = choose|j: int, s: int|
            0 <= j < init.len() && 0 <= s < init[j].0.ptrs.len() && init[j].0.ptrs[s] == flat_live(
                init,
            )[c] && init[j].0.ptrs[s].is_live();
        assert(nodes[j] == init[j]);
    } else {
        let p = live_ptrs(last.0.ptrs)[c - flat_live(init).len()];
        let pred = |p: TriePtr| p.is_live();
        last.0.ptrs.lemma_filter_pred(pred, c - flat_live(init).len());
        last.0.ptrs.lemma_filter_contains_rev(pred, p);
        let s = choose|s: int| 0 <= s < last.0.ptrs.len() && last.0.ptrs[s] == p;
        assert(nodes[nodes.len() - 1].0.ptrs[s] == p);
    }
}

/// The nodes with each pointer that leads to a node of the same trie
/// holding the place of that node in the row: the form in which a trie
/// comes back from its blob.
pub open spec fn renumbered(nodes: Seq<TrieEntry>) -> Seq<TrieEntry> {
    retarget_nodes(nodes, identity_targets(), 1)
}

/// Reading the blob of a laid-out trie from the node at place `j` on,
/// with the nodes found so far waiting, gives the nodes from place `j`
/// on, renumbered.
proof fn lemma_load_walk_of_blob(
    data: Seq<TrieEntry>,
    parent: Seq<u8>,
    j: int,
    queue: Seq<TriePtr>,
)
    requires
        entries_shaped(data),
        parent.len() == 32,
        layout_order(data) is Ok,
        0 <= j <= layout_order(data)->Ok_0.len(),
        queue.len() == 1 + live_before(picked(data, layout_order(data)->Ok_0), j) - j,
        forall|t: int|
            0 <= t < queue.len() ==> (#[trigger] queue[t]).ptr == node_start(
                picked(data, layout_order(data)->Ok_0),
                j + t,
            ),
    ensures
        load_walk(
            trie_blob(parent, picked(data, layout_order(data)->Ok_0)),
            queue,
            1 + live_before(picked(data, layout_order(data)->Ok_0), j),
        ) == Some(
            renumbered(picked(data, layout_order(data)->Ok_0)).subrange(
                j,
                layout_order(data)->Ok_0.len() as int,
            ),
        ),
    decreases layout_order(data)->Ok_0.len() - j,
{
    let order = layout_order(data)->Ok_0;
    let nodes = picked(data, order);
    let n = order.len() as int;
    let blob = trie_blob(parent, nodes);
    let canon = renumbered(nodes);
    let root_queue = seq![ram_root_ptr()];
    lemma_walk_found(data, root_queue, BLOB_HEADER_SIZE as int);
    lemma_walk_discipline(data, root_queue, BLOB_HEADER_SIZE as int, j);
    assert(entries_shaped(nodes)) by {
        assert forall|m: int| 0 <= m < nodes.len() implies (#[trigger] nodes[m]).0.shaped()
            && nodes[m].1.len() == 32 by {
            lemma_order_in_range(data, m);
        }
    }
    if j == n {
        assert(canon.subrange(n, n) =~= Seq::<TrieEntry>::empty());
    } else {
        let next = 1 + live_before(nodes, j);
        let fixed = laid_out(nodes);
        let at = queue[0].ptr as int;
        assert(at == node_start(nodes, j));
        lemma_node_decodes_at_start(parent, nodes, j);
        let node = node_at(blob, at);
        assert(node == fixed[j].0);
        assert(hash_at(blob, at) == fixed[j].1);
        let ptrs = nodes[j].0.ptrs;
        let offs = end_offsets(nodes);
        let first = live_before(nodes, j);
        assert(node.ptrs == retarget(ptrs, offs, first));
        let live = live_ptrs(node.ptrs);
        lemma_retarget_live_ptrs(ptrs, offs, first, ptrs.len() as int);
        assert(ptrs.subrange(0, ptrs.len() as int) =~= ptrs);
        assert(node.ptrs.subrange(0, ptrs.len() as int) =~= node.ptrs);
        assert(live.len() == live_ptrs(ptrs).len());
        if live_ptrs(ptrs).len() > 0 {
            lemma_flat_live_index(nodes, j, 0);
        } else {
            let upto = nodes.subrange(0, j + 1);
            assert(upto.drop_last() =~= nodes.subrange(0, j));
            assert(upto.last() == nodes[j]);
        }
        assert(live_before(nodes, j + 1) == first + live.len());
        lemma_flat_live_prefix(nodes, j + 1);
        lemma_trie_blob_len(parent, nodes);
        assert(n <= total_len(nodes)) by {
            lemma_total_len_at_least(nodes);
        }
        assert(next + live.len() <= crate::blob::node_limit(blob));
        let later = queue.drop_first() + live;
        assert forall|t: int| 0 <= t < later.len() implies (#[trigger] later[t]).ptr
            == node_start(nodes, j + 1 + t) by {
            if t < queue.len() - 1 {
                assert(later[t] == queue[t + 1]);
            } else {
                let u = t - (queue.len() - 1);
                assert(later[t] == live[u]);
                assert(live[u] == live_ptrs(ptrs)[u].with_ptr(offs[first + u]));
                lemma_flat_live_index(nodes, j, u);
                lemma_end_offset_is_next_start(nodes, first + u);
            }
        }
        lemma_load_walk_of_blob(data, parent, j + 1, later);
        lemma_retarget_twice(ptrs, offs, first, identity_targets(), next);
        let entry = (node.with_ptrs(retarget(node.ptrs, identity_targets(), next)), fixed[j].1);
        assert(entry.0 =~= canon[j].0);
        assert(entry == canon[j]);
        assert(seq![entry] + canon.subrange(j + 1, n) =~= canon.subrange(j, n));
    }
}

/// Serialized nodes take at least a byte each.
pub proof fn lemma_total_len_at_least(nodes: Seq<TrieEntry>)
    ensures
        nodes.len() <= total_len(nodes),
    decreases nodes.len(),
{
    if nodes.len() > 0 {
        lemma_total_len_at_least(nodes.drop_last());
    }
}

/// A trie that was serialized comes back from its blob.
///
/// Take a trie that can be laid out and whose root has 256 slots. Reading
/// its blob gives the nodes in the order of the layout, each as it was in
/// memory but for the targets of the pointers that lead to nodes of the
/// trie: those hold the place of the node in that order. The hash of the
/// parent block comes back as it was.
pub proof fn lemma_load_of_dump(data: Seq<TrieEntry>, parent: Seq<u8>)
    requires
        entries_shaped(data),
        parent.len() == 32,
        layout_order(data) is Ok,
        data[0].0.id == TRIE_NODE_ID_NODE256,
    ensures
        loaded_nodes(trie_blob(parent, picked(data, layout_order(data)->Ok_0))) == Some(
            renumbered(picked(data, layout_order(data)->Ok_0)),
        ),
        trie_blob(parent, picked(data, layout_order(data)->Ok_0)).subrange(0, 32) == parent,
{
    let order = layout_order(data)->Ok_0;
    let nodes = picked(data, order);
    let blob = trie_blob(parent, nodes);
    let root_queue = seq![ram_root_ptr()];
    lemma_walk_found(data, root_queue, BLOB_HEADER_SIZE as int);
    assert(entries_shaped(nodes)) by {
        assert forall|m: int| 0 <= m < nodes.len() implies (#[trigger] nodes[m]).0.shaped()
            && nodes[m].1.len() == 32 by {
            lemma_order_in_range(data, m);
        }
    }
    lemma_trie_blob_len(parent, nodes);
    assert(order[0] == ram_root_ptr());
    lemma_node_decodes_at_start(parent, nodes, 0);
    assert(nodes.subrange(0, 0) =~= Seq::<TrieEntry>::empty());
    assert(node_start(nodes, 0) == BLOB_HEADER_SIZE);
    assert(blob[BLOB_HEADER_SIZE as int] == node_at(blob, BLOB_HEADER_SIZE as int).id);
    let queue = seq![disk_root_ptr()];
    lemma_load_walk_of_blob(data, parent, 0, queue);
    assert(renumbered(nodes).subrange(0, order.len() as int) =~= renumbered(nodes));
}

/// What renumbering keeps.
///
/// A renumbered node has the kind, path, payload and hash it had, and in
/// each slot the kind tag, branch character and block identifier it had.
/// A pointer that led to a node of the trie still does, and holds the
/// place at which that node stands in the order of the layout.
pub proof fn lemma_renumbered_structure(data: Seq<TrieEntry>, j: int, s: int)
    requires
        layout_order(data) is Ok,
        0 <= j < layout_order(data)->Ok_0.len(),
        0 <= s < picked(data, layout_order(data)->Ok_0)[j].0.ptrs.len(),
    ensures
        ({
            let nodes = picked(data, layout_order(data)->Ok_0);
            let was = nodes[j];
            let now = renumbered(nodes)[j];
            &&& renumbered(nodes).len() == nodes.len()
            &&& now.1 == was.1
            &&& now.0.id == was.0.id
            &&& now.0.path == was.0.path
            &&& now.0.data == was.0.data
            &&& now.0.ptrs.len() == was.0.ptrs.len()
            &&& now.0.ptrs[s] == was.0.ptrs[s].with_ptr(now.0.ptrs[s].ptr)
            &&& was.0.ptrs[s].is_live() ==> {
                &&& now.0.ptrs[s].ptr < nodes.len()
                &&& was.0.ptrs[s].ptr < data.len()
                &&& nodes[now.0.ptrs[s].ptr as int] == data[was.0.ptrs[s].ptr as int]
            }
        }),
{
    let order = layout_order(data)->Ok_0;
    let nodes = picked(data, order);
    let root_queue = seq![ram_root_ptr()];
    lemma_walk_found(data, root_queue, BLOB_HEADER_SIZE as int);
    let ptrs = nodes[j].0.ptrs;
    if ptrs[s].is_live() {
        let t = live_ptrs(ptrs.subrange(0, s)).len() as int;
        let c = live_before(nodes, j) + t;
        lemma_live_ptrs_index(ptrs, s);
        lemma_flat_live_index(nodes, j, t);
        assert(order[c + 1] == flat_live(nodes)[c]);
        lemma_order_in_range(data, c + 1);
        lemma_total_len_at_least(nodes);
    }
}

/// The pointers followed when a renumbered trie is laid out: the root
/// pointer, then the pointers of the nodes that lead to nodes of the
/// trie, node after node. The pointer at place `m` leads to the node at
/// index `m`.
pub open spec fn renumbered_order(nodes: Seq<TrieEntry>) -> Seq<TriePtr> {
    seq![ram_root_ptr()] + flat_live(renumbered(nodes))
}

/// The pointer at each place of the order of a renumbered trie leads to
/// the node at that index.
proof fn lemma_renumbered_order_targets(data: Seq<TrieEntry>, m: int)
    requires
        layout_order(data) is Ok,
        0 <= m < layout_order(data)->Ok_0.len(),
    ensures
        renumbered_order(picked(data, layout_order(data)->Ok_0)).len() == layout_order(
            data,
        )->Ok_0.len(),
        renumbered_order(picked(data, layout_order(data)->Ok_0))[m].ptr == m,
{
    let order = layout_order(data)->Ok_0;
    let nodes = picked(data, order);
    let back = renumbered(nodes);
    let n = order.len() as int;
    lemma_walk_found(data, seq![ram_root_ptr()], BLOB_HEADER_SIZE as int);
    lemma_retarget_nodes_keeps(nodes, identity_targets(), 1, n);
    assert(back.subrange(0, n) =~= back);
    assert(nodes.subrange(0, n) =~= nodes);
    lemma_total_len_at_least(nodes);
    if m > 0 {
        let c = m - 1;
        lemma_flat_live_member_at(back, c);
        let (j, t) = choose|j: int, t: int|
            0 <= j < back.len() && 0 <= t < live_ptrs(back[j].0.ptrs).len() && live_before(back, j)
                + t == c && flat_live(back)[c] == live_ptrs(back[j].0.ptrs)[t];
        let ptrs = nodes[j].0.ptrs;
        lemma_retarget_nodes_keeps(nodes, identity_targets(), 1, j);
        lemma_retarget_live_ptrs(ptrs, identity_targets(), 1 + live_before(nodes, j), ptrs.len() as int);
        assert(ptrs.subrange(0, ptrs.len() as int) =~= ptrs);
        assert(back[j].0.ptrs.subrange(0, ptrs.len() as int) =~= back[j].0.ptrs);
    }
}

/// Each place in the row of the pointers that lead to nodes of the same
/// trie belongs to one node, and is counted from the places of the nodes
/// before it.
pub proof fn lemma_flat_live_member_at(nodes: Seq<TrieEntry>, c: int)
    requires
        0 <= c < flat_live(nodes).len(),
    ensures
        exists|j: int, t: int|
            0 <= j < nodes.len() && 0 <= t < live_ptrs(nodes[j].0.ptrs).len() && live_before(
                nodes,
                j,
            ) + t == c && flat_live(nodes)[c] == live_ptrs(nodes[j].0.ptrs)[t],
    decreases nodes.len(),
{
    let init = nodes.drop_last();
    let last = nodes.len() - 1;
    assert(nodes.subrange(0, last) =~= init);
    if c < flat_live(init).len() {
        lemma_flat_live_member_at(init, c);
        let (j, t) = choose|j: int, t: int|
            0 <= j < init.len() && 0 <= t < live_ptrs(init[j].0.ptrs).len() && live_before(init, j)
                + t == c && flat_live(init)[c] == live_ptrs(init[j].0.ptrs)[t];
        assert(init.subrange(0, j) =~= nodes.subrange(0, j));
        assert(nodes[j] == init[j]);
        assert(live_before(nodes, j) + t == c && flat_live(nodes)[c] == live_ptrs(
            nodes[j].0.ptrs,
        )[t]);
    } else {
        let t = c - flat_live(init).len();
        assert(live_before(nodes, last) + t == c && flat_live(nodes)[c] == live_ptrs(
            nodes[last].0.ptrs,
        )[t]);
    }
}

/// What the layout of a renumbered trie meets at the node at place `j`:
/// the node is waiting, it can be serialized, it ends where the next
/// node starts, its pointers lead to nodes of the trie, and they are the
/// next to wait behind those found before.
proof fn lemma_renumbered_step(data: Seq<TrieEntry>, j: int)
    requires
        entries_shaped(data),
        layout_order(data) is Ok,
        0 <= j < layout_order(data)->Ok_0.len(),
    ensures
        ({
            let nodes = picked(data, layout_order(data)->Ok_0);
            let back = renumbered(nodes);
            let all = renumbered_order(nodes);
            let n = nodes.len() as int;
            let found = 1 + live_before(nodes, j);
            let found_next = 1 + live_before(nodes, j + 1);
            &&& back.len() == n
            &&& all.len() == n
            &&& j < found <= found_next <= n
            &&& all[j].ptr == j
            &&& back[j].0.path.len() <= crate::node::TRIEPATH_MAX_LEN
            &&& node_start(nodes, j) + node_byte_len(back[j].0) == node_start(nodes, j + 1)
            &&& node_start(nodes, j + 1) <= u32::MAX
            &&& targets_in_range(back[j].0.ptrs, back.len())
            &&& all.subrange(j, found).drop_first() + live_ptrs(back[j].0.ptrs) == all.subrange(
                j + 1,
                found_next,
            )
        }),
{
    let order = layout_order(data)->Ok_0;
    let nodes = picked(data, order);
    let back = renumbered(nodes);
    let n = order.len() as int;
    let all = renumbered_order(nodes);
    let root_queue = seq![ram_root_ptr()];
    let first = live_before(nodes, j);
    let ptrs = nodes[j].0.ptrs;
    let node = back[j].0;
    lemma_walk_found(data, root_queue, BLOB_HEADER_SIZE as int);
    lemma_walk_discipline(data, root_queue, BLOB_HEADER_SIZE as int, j);
    lemma_retarget_nodes_keeps(nodes, identity_targets(), 1, n);
    lemma_retarget_nodes_keeps(nodes, identity_targets(), 1, j);
    lemma_retarget_nodes_keeps(nodes, identity_targets(), 1, j + 1);
    assert(back.subrange(0, n) =~= back);
    assert(nodes.subrange(0, n) =~= nodes);
    lemma_renumbered_order_targets(data, j);
    lemma_flat_live_prefix(nodes, j + 1);
    lemma_total_len_prefix(nodes, j + 1);
    assert(nodes.subrange(0, j + 1).drop_last() =~= nodes.subrange(0, j));
    assert(nodes[j].0.path.len() <= crate::node::TRIEPATH_MAX_LEN);
    lemma_retarget_live_ptrs(ptrs, identity_targets(), 1 + first, ptrs.len() as int);
    assert(ptrs.subrange(0, ptrs.len() as int) =~= ptrs);
    assert(node.ptrs.subrange(0, ptrs.len() as int) =~= node.ptrs);
    let live = live_ptrs(node.ptrs);
    let upto = back.subrange(0, j + 1);
    assert(upto.drop_last() =~= back.subrange(0, j));
    assert(upto.last() == back[j]);
    lemma_flat_live_concat(upto, back.subrange(j + 1, n));
    assert(upto + back.subrange(j + 1, n) =~= back);
    assert(live_before(nodes, j + 1) == first + live.len());
    assert forall|k: int| 0 <= k < node.ptrs.len() && (#[trigger] node.ptrs[k]).is_live()
        implies node.ptrs[k].ptr < back.len() by {
        lemma_live_ptrs_index(ptrs, k);
        lemma_live_ptrs_prefix(ptrs, k);
    }
    assert(all.subrange(j, 1 + first).drop_first() + live =~= all.subrange(
        j + 1,
        1 + live_before(nodes, j + 1),
    ));
}

/// Laying a renumbered trie out from the node at place `j` on, with the
/// nodes found so far waiting, follows the pointers from place `j` on.
proof fn lemma_walk_of_renumbered(data: Seq<TrieEntry>, j: int)
    requires
        entries_shaped(data),
        layout_order(data) is Ok,
        0 <= j <= layout_order(data)->Ok_0.len(),
    ensures
        ({
            let nodes = picked(data, layout_order(data)->Ok_0);
            let n = nodes.len() as int;
            walk(
                renumbered(nodes),
                renumbered_order(nodes).subrange(j, 1 + live_before(nodes, j)),
                node_start(nodes, j),
            ) == Ok::<Seq<TriePtr>, crate::blob::WalkFailure>(renumbered_order(nodes).subrange(j, n))
        }),
    decreases layout_order(data)->Ok_0.len() - j,
{
    let order = layout_order(data)->Ok_0;
    let nodes = picked(data, order);
    let n = order.len() as int;
    let all = renumbered_order(nodes);
    if j == n {
        lemma_walk_discipline(data, seq![ram_root_ptr()], BLOB_HEADER_SIZE as int, n);
        lemma_walk_found(data, seq![ram_root_ptr()], BLOB_HEADER_SIZE as int);
        lemma_retarget_nodes_keeps(nodes, identity_targets(), 1, n);
        assert(renumbered(nodes).subrange(0, n) =~= renumbered(nodes));
        assert(nodes.subrange(0, n) =~= nodes);
        assert(all.subrange(n, n) =~= Seq::<TriePtr>::empty());
    } else {
        lemma_renumbered_step(data, j);
        lemma_walk_of_renumbered(data, j + 1);
        let queue = all.subrange(j, 1 + live_before(nodes, j));
        assert(queue[0] == all[j]);
        assert(seq![all[j]] + all.subrange(j + 1, n) =~= all.subrange(j, n));
    }
}

/// A trie that came back from its blob serializes to that blob.
///
/// Take a trie that can be laid out. Renumbered, it can be laid out too;
/// the layout takes its nodes in the order in which they stand; and its
/// blob is the blob of the trie it was renumbered from.
pub proof fn lemma_dump_of_load(data: Seq<TrieEntry>, parent: Seq<u8>)
    requires
        entries_shaped(data),
        layout_order(data) is Ok,
    ensures
        ({
            let nodes = picked(data, layout_order(data)->Ok_0);
            let back = renumbered(nodes);
            &&& layout_order(back) == Ok::<Seq<TriePtr>, crate::blob::WalkFailure>(
                renumbered_order(nodes),
            )
            &&& picked(back, renumbered_order(nodes)) == back
            &&& trie_blob(parent, back) == trie_blob(parent, nodes)
        }),
{
    let order = layout_order(data)->Ok_0;
    let nodes = picked(data, order);
    let back = renumbered(nodes);
    let n = order.len() as int;
    let all = renumbered_order(nodes);
    lemma_walk_found(data, seq![ram_root_ptr()], BLOB_HEADER_SIZE as int);
    lemma_retarget_nodes_keeps(nodes, identity_targets(), 1, n);
    assert(back.subrange(0, n) =~= back);
    assert(nodes.subrange(0, n) =~= nodes);
    lemma_walk_of_renumbered(data, 0);
    assert(nodes.subrange(0, 0) =~= Seq::<TrieEntry>::empty());
    assert(all.subrange(0, 1) =~= seq![ram_root_ptr()]);
    assert(all.subrange(0, n) =~= all);
    assert forall|m: int| 0 <= m < n implies picked(back, all)[m] == back[m] by {
        lemma_renumbered_order_targets(data, m);
    }
    assert(picked(back, all) =~= back);
    assert forall|j: int| 0 <= j < n implies (#[trigger] laid_out(back)[j]) == laid_out(nodes)[j] by {
        lemma_retarget_nodes_keeps(nodes, identity_targets(), 1, j);
        lemma_retarget_nodes_keeps(nodes, identity_targets(), 1, j + 1);
        assert forall|k: int| 0 <= k < n implies end_offsets(back)[k] == end_offsets(nodes)[k] by {
            lemma_retarget_nodes_keeps(nodes, identity_targets(), 1, k + 1);
        }
        assert(end_offsets(back) =~= end_offsets(nodes));
        lemma_retarget_twice(
            nodes[j].0.ptrs,
            identity_targets(),
            1 + live_before(nodes, j),
            end_offsets(nodes),
            live_before(nodes, j),
        );
        assert(laid_out(back)[j].0 =~= laid_out(nodes)[j].0);
    }
    assert(laid_out(back) =~= laid_out(nodes));
}

/// The nodes that a layout takes have the parts of their kinds and paths
/// that can be serialized.
pub proof fn lemma_picked_shaped(data: Seq<TrieEntry>)
    requires
        entries_shaped(data),
        layout_order(data) is Ok,
    ensures
        entries_shaped(picked(data, layout_order(data)->Ok_0)),
        paths_fit(picked(data, layout_order(data)->Ok_0)),
        layout_order(data)->Ok_0.len() > 0,
        picked(data, layout_order(data)->Ok_0)[0] == data[0],
{
    let order = layout_order(data)->Ok_0;
    let nodes = picked(data, order);
    lemma_walk_found(data, seq![ram_root_ptr()], BLOB_HEADER_SIZE as int);
    assert forall|m: int| 0 <= m < nodes.len() implies (#[trigger] nodes[m]).0.shaped()
        && nodes[m].1.len() == 32 by {
        lemma_order_in_range(data, m);
    }
    assert(order[0] == ram_root_ptr());
}

impl<T: crate::hash::MarfTrieId> crate::trie_ram::TrieRAM<T> {
    /// What `dump` writes for this trie into an empty buffer, where the
    /// trie can be laid out: the blob, as long as `dump` says.
    ///
    /// Take any pointer of a node of the blob that leads to a node of
    /// the trie. The offset it holds lies behind the header and before
    /// the end of the blob, and the node that starts there is the one
    /// that the pointer led to in memory, as it was laid out. The root
    /// starts right behind the header.
    pub proof fn lemma_dumped_pointers(&self, j: int, s: int)
        requires
            layout_order(self@.nodes) is Ok,
            0 <= j < layout_order(self@.nodes)->Ok_0.len(),
            0 <= s < picked(self@.nodes, layout_order(self@.nodes)->Ok_0)[j].0.ptrs.len(),
            picked(self@.nodes, layout_order(self@.nodes)->Ok_0)[j].0.ptrs[s].is_live(),
        ensures
            ({
                let data = self@.nodes;
                let nodes = picked(data, layout_order(data)->Ok_0);
                let blob = trie_blob(self@.parent.id_bytes(), nodes);
                let in_memory = nodes[j].0.ptrs[s];
                let on_disk = laid_out(nodes)[j].0.ptrs[s];
                let place = 1 + live_before(nodes, j) + live_ptrs(
                    nodes[j].0.ptrs.subrange(0, s),
                ).len();
                &&& blob.len() == BLOB_HEADER_SIZE + total_len(nodes)
                &&& on_disk == in_memory.with_ptr(on_disk.ptr)
                &&& BLOB_HEADER_SIZE < on_disk.ptr < blob.len()
                &&& place < nodes.len()
                &&& in_memory.ptr < data.len()
                &&& nodes[place] == data[in_memory.ptr as int]
                &&& decode_node(blob, on_disk.ptr as int) == Some(laid_out(nodes)[place])
                &&& decode_node(blob, BLOB_HEADER_SIZE as int) == Some(laid_out(nodes)[0])
                &&& laid_out(nodes)[place].0.id == data[in_memory.ptr as int].0.id
                &&& laid_out(nodes)[place].1 == data[in_memory.ptr as int].1
            }),
    {
        self.lemma_nodes_shaped();
        T::lemma_id_bytes(self@.parent, self@.parent);
        lemma_picked_shaped(self@.nodes);
        let nodes = picked(self@.nodes, layout_order(self@.nodes)->Ok_0);
        lemma_trie_blob_len(self@.parent.id_bytes(), nodes);
        lemma_dumped_pointers_lead_to_children(self@.nodes, self@.parent.id_bytes(), j, s);
    }

    /// What `load` makes of what `dump` wrote for this trie, where the
    /// trie can be laid out and its root has 256 slots: the nodes in the
    /// order of the layout, each as it is in memory but for the targets of
    /// the pointers that lead to nodes of the trie, which hold the place
    /// of the node in that order; and the same parent block.
    pub proof fn lemma_reloaded(&self)
        requires
            layout_order(self@.nodes) is Ok,
            self@.nodes[0].0.id == TRIE_NODE_ID_NODE256,
        ensures
            ({
                let nodes = picked(self@.nodes, layout_order(self@.nodes)->Ok_0);
                let blob = trie_blob(self@.parent.id_bytes(), nodes);
                &&& loaded_nodes(blob) == Some(renumbered(nodes))
                &&& blob.subrange(0, 32) == self@.parent.id_bytes()
                &&& renumbered(nodes).len() == nodes.len()
                &&& trie_blob(self@.parent.id_bytes(), renumbered(nodes)) == blob
            }),
    {
        self.lemma_nodes_shaped();
        T::lemma_id_bytes(self@.parent, self@.parent);
        lemma_load_of_dump(self@.nodes, self@.parent.id_bytes());
        lemma_dump_of_load(self@.nodes, self@.parent.id_bytes());
    }
}

} // verus!
