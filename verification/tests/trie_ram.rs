use marf_storage::bits::{read_nodetype, write_nodetype_bytes};
use marf_storage::blob::write_at;
use marf_storage::error::MarfError;
use marf_storage::hash::{BlockHeaderHash, TrieHash};

use marf_storage::node::{
    TrieLeaf, TrieNode16, TrieNode256, TrieNode4, TrieNodeType, TriePtr,
};
use marf_storage::trie_ram::{NodeHashReader, TrieRAM};

const LEAF: u8 = 1;
const NODE4: u8 = 2;
const NODE16: u8 = 3;
const NODE256: u8 = 5;

fn bhh(b: u8) -> BlockHeaderHash {
    BlockHeaderHash([b; 32])
}

fn hash(b: u8) -> TrieHash {
    TrieHash([b; 32])
}

fn leaf(path: &[u8], fill: u8) -> TrieNodeType {
    TrieNodeType::Leaf(TrieLeaf::new(&path.to_vec(), &vec![fill; 40]))
}

fn root_with(children: &[(u8, u8, u32)]) -> TrieNodeType {
    let mut root = TrieNode256::new(&vec![]);
    for (chr, id, ptr) in children {
        root.ptrs[usize::from(*chr)] = TriePtr::new(*id, *chr, *ptr);
    }
    TrieNodeType::Node256(root)
}

/// root -> { 0x0a: leaf A, 0x0b: node4 -> { 1: leaf B, 3: leaf C }, 0x0c: back-pointer }
/// stored out of breadth-first order on purpose.
fn sample() -> TrieRAM<BlockHeaderHash> {
    let mut trie = TrieRAM::new(&bhh(2), 8, &bhh(1));
    let mut root = TrieNode256::new(&vec![]);
    root.ptrs[0x0a] = TriePtr::new(LEAF, 0x0a, 4);
    root.ptrs[0x0b] = TriePtr::new(NODE4, 0x0b, 1);
    root.ptrs[0x0c] = TriePtr { id: 0x80 | LEAF, chr: 0x0c, ptr: 777, back_block: 9 };
    let mut inner = TrieNode4::new(&vec![7, 7]);
    inner.ptrs[1] = TriePtr::new(LEAF, 1, 3);
    inner.ptrs[3] = TriePtr::new(LEAF, 3, 2);
    trie.write_nodetype(0, &TrieNodeType::Node256(root), hash(0x10)).unwrap();
    trie.write_nodetype(1, &TrieNodeType::Node4(inner), hash(0x11)).unwrap();
    trie.write_nodetype(2, &leaf(&[3, 3], 0xcc), hash(0x12)).unwrap();
    trie.write_nodetype(3, &leaf(&[1], 0xbb), hash(0x13)).unwrap();
    trie.write_nodetype(4, &leaf(&[], 0xaa), hash(0x14)).unwrap();
    trie
}

fn node_at(trie: &mut TrieRAM<BlockHeaderHash>, i: u32) -> (TrieNodeType, TrieHash) {
    trie.read_nodetype(&TriePtr::new(NODE256, 0, i)).unwrap()
}

#[test]
fn a_new_trie_is_empty_and_counts_nothing() {
    let mut trie = TrieRAM::new(&bhh(2), 100, &bhh(1));
    assert_eq!(trie.last_ptr().unwrap(), 0);
    assert_eq!(trie.block_header(), bhh(2));
    assert_eq!(trie.parent(), bhh(1));
    assert_eq!(trie.stats(), (0, 0));
    assert_eq!(trie.node_stats(), (0, 0, 0));
    assert_eq!(trie.leaf_stats(), (0, 0));
    assert_eq!(trie.size_hint(), 0);
}

#[test]
fn writing_at_the_end_appends_one_node() {
    let mut trie = TrieRAM::new(&bhh(2), 0, &bhh(1));
    for i in 0..5u32 {
        assert_eq!(trie.last_ptr().unwrap(), i);
        trie.write_nodetype(i, &leaf(&[], 1), hash(1)).unwrap();
        assert_eq!(trie.last_ptr().unwrap(), i + 1);
    }
}

#[test]
fn writing_below_the_end_overwrites_in_place() {
    let mut trie = sample();
    assert_eq!(trie.last_ptr().unwrap(), 5);
    trie.write_nodetype(2, &leaf(&[9], 0xee), hash(0x99)).unwrap();
    assert_eq!(trie.last_ptr().unwrap(), 5);
    let (node, h) = node_at(&mut trie, 2);
    assert_eq!(h, hash(0x99));
    assert_eq!(node.path(), &vec![9u8]);
    let (other, other_hash) = node_at(&mut trie, 3);
    assert_eq!(other_hash, hash(0x13));
    assert_eq!(other.path(), &vec![1u8]);
}

#[test]
fn writing_beyond_the_end_is_not_found() {
    let mut trie = sample();
    let r = trie.write_nodetype(6, &leaf(&[], 1), hash(1));
    assert_eq!(r, Err(MarfError::NotFoundError));
    assert_eq!(trie.last_ptr().unwrap(), 5);
    let r = trie.write_nodetype(u32::MAX, &leaf(&[], 1), hash(1));
    assert_eq!(r, Err(MarfError::NotFoundError));
}

#[test]
fn reads_and_writes_are_counted_by_kind() {
    let mut trie = sample();
    assert_eq!(trie.stats(), (0, 5));
    assert_eq!(trie.stats(), (0, 0));
    assert_eq!(trie.leaf_stats(), (0, 3));
    assert_eq!(trie.node_stats(), (0, 0, 2));
    trie.read_nodetype(&TriePtr::new(LEAF, 0, 4)).unwrap();
    trie.read_nodetype(&TriePtr::new(NODE4, 0, 1)).unwrap();
    trie.read_nodetype(&TriePtr::new(0x80 | NODE4, 0, 1)).unwrap();
    assert_eq!(trie.read_nodetype(&TriePtr::new(LEAF, 0, 5)).err(), Some(MarfError::NotFoundError));
    assert_eq!(trie.stats(), (4, 0));
    assert_eq!(trie.leaf_stats(), (2, 0));
    assert_eq!(trie.node_stats(), (1, 1, 0));
    let _ = trie.write_nodetype(9, &leaf(&[], 1), hash(1));
    assert_eq!(trie.size_hint(), 1);
    assert_eq!(trie.stats(), (0, 1));
}

#[test]
fn node_hash_is_found_by_index() {
    let mut trie = sample();
    assert_eq!(trie.read_node_hash(&TriePtr::new(LEAF, 0, 3)), Ok(hash(0x13)));
    assert_eq!(trie.read_node_hash(&TriePtr::new(LEAF, 0, 5)), Err(MarfError::NotFoundError));
    let mut w = vec![1u8];
    trie.read_node_hash_bytes(&TriePtr::new(LEAF, 0, 1), &mut w).unwrap();
    assert_eq!(w.len(), 33);
    assert_eq!(&w[1..], &[0x11u8; 32]);
    let before = w.clone();
    assert_eq!(
        trie.read_node_hash_bytes(&TriePtr::new(LEAF, 0, 5), &mut w),
        Err(MarfError::NotFoundError)
    );
    assert_eq!(w, before);
    assert_eq!(trie.stats().0, 0);
}

#[test]
fn format_empties_the_trie() {
    let mut trie = sample();
    trie.format().unwrap();
    assert_eq!(trie.last_ptr().unwrap(), 0);
    assert_eq!(trie.block_header(), bhh(2));
}

#[test]
fn a_clone_holds_the_same_nodes() {
    let mut trie = sample();
    let mut copy = trie.clone();
    assert_eq!(copy.last_ptr().unwrap(), 5);
    for i in 0..5 {
        let (a, ha) = node_at(&mut trie, i);
        let (b, hb) = node_at(&mut copy, i);
        assert_eq!(ha, hb);
        assert_eq!(a.id(), b.id());
        assert_eq!(a.path(), b.path());
        assert_eq!(a.ptrs(), b.ptrs());
    }
}

#[test]
fn dump_is_refused_for_another_block() {
    let mut trie = sample();
    let mut f = vec![1u8, 2, 3];
    assert_eq!(trie.dump(&mut f, &bhh(3)), Err(MarfError::NotFoundError));
    assert_eq!(f, vec![1u8, 2, 3]);
    assert_eq!(trie.stats().0, 0);
}

#[test]
fn dump_of_an_empty_trie_is_not_found() {
    let mut trie = TrieRAM::new(&bhh(2), 0, &bhh(1));
    let mut f = Vec::new();
    assert_eq!(trie.dump(&mut f, &bhh(2)), Err(MarfError::NotFoundError));
    assert!(f.is_empty());
    assert_eq!(trie.node_stats(), (1, 0, 0));
}

#[test]
fn dump_lays_the_nodes_out_breadth_first() {
    let mut trie = sample();
    let mut f = Vec::new();
    let len = trie.dump(&mut f, &bhh(2)).unwrap();
    let root_len = 34 + 2560;
    let inner_len = 34 + 2 + 40;
    let leaf_a = 34 + 40;
    let leaf_b = 34 + 1 + 40;
    let leaf_c = 34 + 2 + 40;
    assert_eq!(len, 36 + root_len + leaf_a + inner_len + leaf_b + leaf_c);
    assert_eq!(f.len() as u64, len);
    assert_eq!(&f[..32], &[1u8; 32]);
    assert_eq!(&f[32..36], &[0u8; 4]);

    // the order is root, leaf A, node4, leaf B, leaf C
    let off_a = 36 + root_len as u32;
    let off_inner = off_a + leaf_a as u32;
    let off_b = off_inner + inner_len as u32;
    let off_c = off_b + leaf_b as u32;

    let (root, root_hash) = read_nodetype(&f, &TriePtr::new(NODE256, 0, 36)).unwrap();
    assert_eq!(root_hash, hash(0x10));
    assert_eq!(root.ptrs()[0x0a], TriePtr::new(LEAF, 0x0a, off_a));
    assert_eq!(root.ptrs()[0x0b], TriePtr::new(NODE4, 0x0b, off_inner));
    assert_eq!(
        root.ptrs()[0x0c],
        TriePtr { id: 0x80 | LEAF, chr: 0x0c, ptr: 777, back_block: 9 }
    );
    assert_eq!(root.ptrs()[0], TriePtr::default());

    let (a, a_hash) = read_nodetype(&f, &root.ptrs()[0x0a]).unwrap();
    assert_eq!(a_hash, hash(0x14));
    assert!(a.is_leaf());
    assert_eq!(a.path(), &Vec::<u8>::new());

    let (inner, inner_hash) = read_nodetype(&f, &root.ptrs()[0x0b]).unwrap();
    assert_eq!(inner_hash, hash(0x11));
    assert_eq!(inner.path(), &vec![7u8, 7]);
    assert_eq!(inner.ptrs()[1], TriePtr::new(LEAF, 1, off_b));
    assert_eq!(inner.ptrs()[3], TriePtr::new(LEAF, 3, off_c));

    let (b, b_hash) = read_nodetype(&f, &inner.ptrs()[1]).unwrap();
    assert_eq!(b_hash, hash(0x13));
    assert_eq!(b.path(), &vec![1u8]);
    let (c, c_hash) = read_nodetype(&f, &inner.ptrs()[3]).unwrap();
    assert_eq!(c_hash, hash(0x12));
    assert_eq!(c.path(), &vec![3u8, 3]);

    // one read for the root and one for each child followed
    assert_eq!(trie.stats(), (5, 5));
    assert_eq!(trie.leaf_stats().0, 3);
    assert_eq!(trie.node_stats().0, 2);
}

#[test]
fn dump_leaves_the_trie_as_it_was() {
    let mut trie = sample();
    let mut f = Vec::new();
    trie.dump(&mut f, &bhh(2)).unwrap();
    let mut again = Vec::new();
    trie.dump(&mut again, &bhh(2)).unwrap();
    assert_eq!(f, again);
    let (root, _) = node_at(&mut trie, 0);
    assert_eq!(root.ptrs()[0x0a].ptr(), 4);
}

#[test]
fn dump_writes_over_what_the_buffer_held() {
    let mut trie = TrieRAM::new(&bhh(2), 0, &bhh(1));
    trie.write_nodetype(0, &root_with(&[]), hash(1)).unwrap();
    let mut clean = Vec::new();
    let len = trie.dump(&mut clean, &bhh(2)).unwrap();
    let mut dirty = vec![0x55u8; clean.len() + 10];
    assert_eq!(trie.dump(&mut dirty, &bhh(2)).unwrap(), len);
    assert_eq!(&dirty[..clean.len()], &clean[..]);
    assert_eq!(&dirty[clean.len()..], &[0x55u8; 10]);
}

#[test]
fn dump_fails_on_a_dangling_pointer() {
    let mut trie = TrieRAM::new(&bhh(2), 0, &bhh(1));
    trie.write_nodetype(0, &root_with(&[(5, LEAF, 1)]), hash(1)).unwrap();
    let mut f = vec![9u8];
    assert_eq!(trie.dump(&mut f, &bhh(2)), Err(MarfError::NotFoundError));
    assert_eq!(f, vec![9u8]);
    // the read of the root and the read that failed
    assert_eq!(trie.stats().0, 2);
    assert_eq!(trie.leaf_stats().0, 1);
}

#[test]
fn dump_fails_on_a_path_that_is_too_long() {
    let mut trie = TrieRAM::new(&bhh(2), 0, &bhh(1));
    trie.write_nodetype(0, &root_with(&[(5, LEAF, 1)]), hash(1)).unwrap();
    trie.write_nodetype(1, &leaf(&[0u8; 33], 1), hash(2)).unwrap();
    let mut f = Vec::new();
    assert!(matches!(trie.dump(&mut f, &bhh(2)), Err(MarfError::CorruptionError(_))));
    assert!(f.is_empty());
    // the root and its child were read before the child's path was looked at
    assert_eq!(trie.stats().0, 2);
}

#[test]
fn load_brings_back_what_dump_wrote() {
    let mut trie = sample();
    let mut f = Vec::new();
    trie.dump(&mut f, &bhh(2)).unwrap();
    let mut back = TrieRAM::load(&f, &bhh(7)).unwrap();
    assert_eq!(back.block_header(), bhh(7));
    assert_eq!(back.parent(), bhh(1));
    assert_eq!(back.stats(), (0, 0));
    assert_eq!(back.last_ptr().unwrap(), 5);

    // breadth-first order: root, leaf A, node4, leaf B, leaf C
    let (root, root_hash) = node_at(&mut back, 0);
    assert_eq!(root_hash, hash(0x10));
    assert_eq!(root.ptrs()[0x0a], TriePtr::new(LEAF, 0x0a, 1));
    assert_eq!(root.ptrs()[0x0b], TriePtr::new(NODE4, 0x0b, 2));
    assert_eq!(
        root.ptrs()[0x0c],
        TriePtr { id: 0x80 | LEAF, chr: 0x0c, ptr: 777, back_block: 9 }
    );
    let (a, a_hash) = node_at(&mut back, 1);
    assert_eq!((a.is_leaf(), a_hash), (true, hash(0x14)));
    let (inner, inner_hash) = node_at(&mut back, 2);
    assert_eq!(inner_hash, hash(0x11));
    assert_eq!(inner.ptrs()[1], TriePtr::new(LEAF, 1, 3));
    assert_eq!(inner.ptrs()[3], TriePtr::new(LEAF, 3, 4));
    let (b, b_hash) = node_at(&mut back, 3);
    assert_eq!((b.path().clone(), b_hash), (vec![1u8], hash(0x13)));
    let (c, c_hash) = node_at(&mut back, 4);
    assert_eq!((c.path().clone(), c_hash), (vec![3u8, 3], hash(0x12)));

    // a loaded trie dumps to the same bytes
    let mut again = Vec::new();
    back.dump(&mut again, &bhh(7)).unwrap();
    assert_eq!(again, f);
}

#[test]
fn load_rejects_a_root_that_is_not_a_node256() {
    let mut blob = vec![1u8; 32];
    blob.extend_from_slice(&[0u8; 4]);
    let mut n = TrieNode16::new(&vec![]);
    n.ptrs[0] = TriePtr::new(LEAF, 0, 0);
    write_nodetype_bytes(&mut blob, &TrieNodeType::Node16(n), hash(1)).unwrap();
    let err = TrieRAM::load(&blob, &bhh(2)).err();
    assert!(matches!(err, Some(MarfError::CorruptionError(_))));
    let mut leaf_root = vec![1u8; 36];
    write_nodetype_bytes(&mut leaf_root, &leaf(&[], 1), hash(1)).unwrap();
    assert!(matches!(
        TrieRAM::load(&leaf_root, &bhh(2)).err(),
        Some(MarfError::CorruptionError(_))
    ));
}

#[test]
fn load_rejects_a_truncated_blob() {
    let mut trie = sample();
    let mut f = Vec::new();
    trie.dump(&mut f, &bhh(2)).unwrap();
    for cut in [0usize, 31, 36, 100, f.len() - 1] {
        assert!(matches!(
            TrieRAM::load(&f[..cut], &bhh(2)).err(),
            Some(MarfError::CorruptionError(_))
        ));
    }
    assert!(TrieRAM::load(&f, &bhh(2)).is_ok());
}

#[test]
fn load_rejects_a_pointer_that_leads_nowhere() {
    let mut blob = vec![1u8; 32];
    blob.extend_from_slice(&[0u8; 4]);
    let root = root_with(&[(1, LEAF, 5000)]);
    write_nodetype_bytes(&mut blob, &root, hash(1)).unwrap();
    assert!(matches!(
        TrieRAM::load(&blob, &bhh(2)).err(),
        Some(MarfError::CorruptionError(_))
    ));
}

#[test]
fn load_rejects_a_blob_that_loops() {
    // the root points to itself: there would be no end of nodes
    let mut blob = vec![1u8; 32];
    blob.extend_from_slice(&[0u8; 4]);
    let root = root_with(&[(1, NODE256, 36)]);
    write_nodetype_bytes(&mut blob, &root, hash(1)).unwrap();
    assert!(matches!(
        TrieRAM::load(&blob, &bhh(2)).err(),
        Some(MarfError::CorruptionError(_))
    ));
}

#[test]
fn write_trie_puts_each_node_where_the_offsets_say() {
    let nodes = vec![(leaf(&[], 0x11), hash(1)), (leaf(&[], 0x22), hash(2))];
    let mut f = vec![0xffu8; 3];
    // the second node is written at 200, beyond the end of the first
    TrieRAM::write_trie(&mut f, &nodes, &[200, 300], &bhh(6)).unwrap();
    assert_eq!(f.len(), 200 + 74);
    assert_eq!(&f[..32], &[6u8; 32]);
    assert_eq!(&f[32..36], &[0u8; 4]);
    let (a, ha) = read_nodetype(&f, &TriePtr::new(LEAF, 0, 36)).unwrap();
    assert_eq!((a.is_leaf(), ha), (true, hash(1)));
    assert!(f[36 + 74..200].iter().all(|b| *b == 0));
    let (_, hb) = read_nodetype(&f, &TriePtr::new(LEAF, 0, 200)).unwrap();
    assert_eq!(hb, hash(2));
}

#[test]
fn write_trie_writes_nothing_if_a_node_cannot_be_serialized() {
    let nodes = vec![(leaf(&[], 0x11), hash(1)), (leaf(&[0u8; 40], 0x22), hash(2))];
    let mut f = vec![0xffu8; 3];
    let r = TrieRAM::write_trie(&mut f, &nodes, &[110, 224], &bhh(6));
    assert!(matches!(r, Err(MarfError::CorruptionError(_))));
    assert_eq!(f, vec![0xffu8; 3]);
}

#[test]
fn write_at_overwrites_extends_and_pads() {
    let mut buf = vec![1u8, 2, 3, 4];
    write_at(&mut buf, 1, &[9, 9]);
    assert_eq!(buf, vec![1, 9, 9, 4]);
    write_at(&mut buf, 3, &[7, 7]);
    assert_eq!(buf, vec![1, 9, 9, 7, 7]);
    write_at(&mut buf, 7, &[5]);
    assert_eq!(buf, vec![1, 9, 9, 7, 7, 0, 0, 5]);
}

#[test]
fn a_shared_child_is_written_once_for_each_pointer() {
    let mut trie = TrieRAM::new(&bhh(2), 0, &bhh(1));
    trie.write_nodetype(0, &root_with(&[(1, LEAF, 1), (2, LEAF, 1)]), hash(1)).unwrap();
    trie.write_nodetype(1, &leaf(&[], 3), hash(2)).unwrap();
    let mut f = Vec::new();
    let len = trie.dump(&mut f, &bhh(2)).unwrap();
    assert_eq!(len, 36 + 2594 + 74 + 74);
    let mut back = TrieRAM::load(&f, &bhh(2)).unwrap();
    assert_eq!(back.last_ptr().unwrap(), 3);
    let (root, _) = node_at(&mut back, 0);
    assert_eq!(root.ptrs()[1].ptr(), 1);
    assert_eq!(root.ptrs()[2].ptr(), 2);
    assert_eq!(NODE16, 3);
}
