use marf_storage::hash::{StacksBlockId, TrieHash};
use marf_storage::node::{
    TrieLeaf, TrieNode16, TrieNode256, TrieNode4, TrieNode48, TrieNodeType, TriePtr,
};
use marf_storage::storage::{PathStatus, TrieFileStorage};
use marf_storage::trie_ram::TrieRAM;
use std::collections::VecDeque;

type Store = TrieFileStorage<StacksBlockId>;

const EMPTY: u8 = 0;
const LEAF: u8 = 1;
const NODE256: u8 = 5;
const BACK: u8 = 0x80;

/// What stands at the end of a path: a value to store in the trie being
/// built, or a leaf of an earlier trie to point back to.
#[derive(Clone)]
enum Entry {
    Value(Vec<u8>),
    Back(TriePtr),
}

fn is_live(ptr: &TriePtr) -> bool {
    ptr.id != EMPTY && ptr.id < BACK
}

fn ptrs_cmp(p1: &[TriePtr], p2: &[TriePtr]) -> bool {
    if p1.len() != p2.len() {
        return false;
    }
    for (ptr1, ptr2) in p1.iter().zip(p2.iter()) {
        if ptr1.chr != ptr2.chr || ptr1.id != ptr2.id {
            return false;
        }
    }
    true
}

fn node_cmp(n1: &TrieNodeType, n2: &TrieNodeType) -> bool {
    match (n1, n2) {
        (TrieNodeType::Leaf(data1), TrieNodeType::Leaf(data2)) => {
            data1.path == data2.path && data1.data.0 == data2.data.0
        }
        (TrieNodeType::Node4(data1), TrieNodeType::Node4(data2)) => {
            data1.path == data2.path && ptrs_cmp(&data1.ptrs, &data2.ptrs)
        }
        (TrieNodeType::Node16(data1), TrieNodeType::Node16(data2)) => {
            data1.path == data2.path && ptrs_cmp(&data1.ptrs, &data2.ptrs)
        }
        (TrieNodeType::Node48(data1), TrieNodeType::Node48(data2)) => {
            data1.path == data2.path && ptrs_cmp(&data1.ptrs, &data2.ptrs)
        }
        (TrieNodeType::Node256(data1), TrieNodeType::Node256(data2)) => {
            data1.path == data2.path && ptrs_cmp(&data1.ptrs, &data2.ptrs)
        }
        (_, _) => false,
    }
}

fn trie_cmp(t1: &mut TrieRAM<StacksBlockId>, t2: &mut TrieRAM<StacksBlockId>) -> bool {
    let mut frontier_1 = VecDeque::new();
    let mut frontier_2 = VecDeque::new();

    assert!(t1.last_ptr().unwrap() > 0);
    assert!(t2.last_ptr().unwrap() > 0);

    let root_ptr = TriePtr::new(NODE256, 0, 0);
    let (n1_data, n1_hash) = t1.read_nodetype(&root_ptr).unwrap();
    let (n2_data, n2_hash) = t2.read_nodetype(&root_ptr).unwrap();

    assert!(n1_data.is_node256());
    assert!(n2_data.is_node256());

    frontier_1.push_back((n1_data, n1_hash));
    frontier_2.push_back((n2_data, n2_hash));

    while frontier_1.len() > 0 && frontier_2.len() > 0 {
        if frontier_1.len() != frontier_2.len() {
            return false;
        }

        let (n1_data, n1_hash) = frontier_1.pop_front().unwrap();
        let (n2_data, n2_hash) = frontier_2.pop_front().unwrap();

        if n1_hash != n2_hash {
            return false;
        }

        if !node_cmp(&n1_data, &n2_data) {
            return false;
        }

        for ptr in n1_data.ptrs() {
            if is_live(ptr) {
                frontier_1.push_back(t1.read_nodetype(ptr).unwrap());
            }
        }
        for ptr in n2_data.ptrs() {
            if is_live(ptr) {
                frontier_2.push_back(t2.read_nodetype(ptr).unwrap());
            }
        }
    }

    true
}

fn inner_node(path: &[u8], ptrs: &[TriePtr]) -> TrieNodeType {
    let path = path.to_vec();
    if ptrs.len() <= 4 {
        let mut n = TrieNode4::new(&path);
        n.ptrs[..ptrs.len()].copy_from_slice(ptrs);
        TrieNodeType::Node4(n)
    } else if ptrs.len() <= 16 {
        let mut n = TrieNode16::new(&path);
        n.ptrs[..ptrs.len()].copy_from_slice(ptrs);
        TrieNodeType::Node16(n)
    } else if ptrs.len() <= 48 {
        let mut n = TrieNode48::new(&path);
        n.ptrs[..ptrs.len()].copy_from_slice(ptrs);
        TrieNodeType::Node48(n)
    } else {
        let mut n = TrieNode256::new(&path);
        for ptr in ptrs {
            n.ptrs[usize::from(ptr.chr)] = *ptr;
        }
        TrieNodeType::Node256(n)
    }
}

/// The hash given to a node: of its path, then of its value or of the
/// hashes that stand for its children.
fn node_hash(store: &mut Store, node: &TrieNodeType) -> TrieHash {
    let mut bytes = node.path().clone();
    match node {
        TrieNodeType::Leaf(leaf) => bytes.extend_from_slice(&leaf.data.0),
        _ => store.write_children_hashes(node, &mut bytes).unwrap(),
    }
    TrieHash::from_data(&bytes)
}

/// Stores the subtrie for `entries`, which agree on their first `depth`
/// bytes and are sorted by path, and hands out the pointer to it.
fn build(store: &mut Store, entries: &[(Vec<u8>, Entry)], depth: usize, chr: u8) -> TriePtr {
    if entries.len() == 1 {
        let (path, entry) = &entries[0];
        return match entry {
            Entry::Back(ptr) => TriePtr { chr, ..*ptr },
            Entry::Value(value) => {
                let leaf = TrieNodeType::Leaf(TrieLeaf::new(&path[depth..].to_vec(), value));
                let at = store.last_ptr().unwrap();
                let hash = node_hash(store, &leaf);
                store.write_nodetype(at, &leaf, hash).unwrap();
                TriePtr::new(LEAF, chr, at)
            }
        };
    }
    let first = &entries[0].0;
    let mut branch = depth;
    while entries.iter().all(|(path, _)| path[branch] == first[branch]) {
        branch += 1;
    }
    // take the node's place before the children take theirs
    let at = store.last_ptr().unwrap();
    store.write_nodetype(at, &inner_node(&[], &[]), TrieHash([0; 32])).unwrap();
    let mut ptrs = Vec::new();
    let mut start = 0;
    while start < entries.len() {
        let byte = entries[start].0[branch];
        let mut end = start;
        while end < entries.len() && entries[end].0[branch] == byte {
            end += 1;
        }
        ptrs.push(build(store, &entries[start..end], branch + 1, byte));
        start = end;
    }
    let node = inner_node(&first[depth..branch], &ptrs);
    let hash = node_hash(store, &node);
    store.write_nodetype(at, &node, hash).unwrap();
    TriePtr::new(node.id(), chr, at)
}

/// Stores the trie for `entries` in the trie being extended, from the
/// root on, over what is there.
fn build_trie(store: &mut Store, entries: &[(Vec<u8>, Entry)]) {
    let mut sorted = entries.to_vec();
    sorted.sort_by(|a, b| a.0.cmp(&b.0));
    store.write_nodetype(0, &TrieNodeType::Node256(TrieNode256::new(&vec![])), TrieHash([0; 32])).unwrap();
    let mut root = TrieNode256::new(&vec![]);
    let mut start = 0;
    while start < sorted.len() {
        let byte = sorted[start].0[0];
        let mut end = start;
        while end < sorted.len() && sorted[end].0[0] == byte {
            end += 1;
        }
        root.ptrs[usize::from(byte)] = build(store, &sorted[start..end], 1, byte);
        start = end;
    }
    let root = TrieNodeType::Node256(root);
    let hash = node_hash(store, &root);
    store.write_nodetype(0, &root, hash).unwrap();
}

/// Follows `path` from the root of the block `tip`, through back-pointers
/// into earlier blocks, to the leaf at its end and the pointer that led
/// there.
fn find_leaf(store: &mut Store, tip: &StacksBlockId, path: &[u8]) -> Option<(TrieLeaf, TriePtr, StacksBlockId)> {
    store.open_block(tip).ok()?;
    let mut block = *tip;
    let mut ptr = store.root_trieptr();
    let mut depth = 0;
    loop {
        let (node, _) = store.read_nodetype(&ptr).ok()?;
        let node_path = node.path().clone();
        if path.len() < depth + node_path.len() || path[depth..depth + node_path.len()] != node_path[..] {
            return None;
        }
        depth += node_path.len();
        if let TrieNodeType::Leaf(leaf) = node {
            return if depth == path.len() { Some((leaf, ptr, block)) } else { None };
        }
        let next = *node.ptrs().iter().find(|p| p.id != EMPTY && p.chr == path[depth])?;
        depth += 1;
        if next.id >= BACK {
            block = store.get_block_from_local_id(next.back_block).ok()?;
            store.open_block_known_id(&block, next.back_block).ok()?;
            ptr = next.from_backptr();
        } else {
            ptr = next;
        }
    }
}

fn get_path(store: &mut Store, tip: &StacksBlockId, path: &[u8]) -> Option<Vec<u8>> {
    find_leaf(store, tip, path).map(|(leaf, _, _)| leaf.data.0.to_vec())
}

fn path_for(i: u64, j: Option<u64>) -> Vec<u8> {
    let mut path_bytes: Vec<u8> = (0..32).collect();
    path_bytes[24..32].copy_from_slice(&i.to_be_bytes());
    if let Some(j) = j {
        path_bytes[16..24].copy_from_slice(&j.to_be_bytes());
    }
    path_bytes
}

fn fill(i: u64) -> Vec<u8> {
    vec![u8::try_from(i % 256).unwrap(); 40]
}

fn load_store_trie_m_n_same(m: u64, n: u64, same: bool) {
    let test_name = format!(
        "/tmp/load_store_trie_{}_{}_{}",
        m,
        n,
        if same { "same" } else { "unique" }
    );
    let mut confirmed = match Store::open(&test_name, PathStatus::Present) {
        Ok(store) => store,
        Err(_) => Store::open(&test_name, PathStatus::Absent).unwrap(),
    };
    Store::recover(&test_name).unwrap();
    confirmed.format().unwrap();

    confirmed.extend_to_block(&StacksBlockId([0x02; 32])).unwrap();

    // pre-populate
    let mut prepopulated = Vec::new();
    for i in 0..n {
        prepopulated.push((path_for(i, None), Entry::Value(fill(i))));
    }
    build_trie(&mut confirmed, &prepopulated);

    let confirmed_tip = StacksBlockId([0x01; 32]);
    confirmed.flush_to(&confirmed_tip).unwrap();
    let confirmed_id = confirmed.get_block_identifier(&confirmed_tip).unwrap();

    let mut store = Store::open_unconfirmed(&test_name, PathStatus::Present).unwrap();
    let unconfirmed_tip = StacksBlockId([0xfe; 32]);

    // what the unconfirmed trie holds: at first the confirmed leaves, by back-pointer
    let mut held: Vec<(Vec<u8>, Entry)> = Vec::new();
    for (path, _) in prepopulated.iter() {
        let (_, ptr, _) = find_leaf(&mut store, &confirmed_tip, path).unwrap();
        let back = TriePtr { id: BACK + LEAF, chr: 0, ptr: ptr.ptr, back_block: confirmed_id };
        held.push((path.clone(), Entry::Back(back)));
    }

    let mut last_trie: Option<TrieRAM<StacksBlockId>> = None;
    let mut all_new_paths = vec![];

    // instantiate unconfirmed m times
    for j in 0..m {
        store.open_block(&confirmed_tip).unwrap();
        let created = store.extend_to_unconfirmed_block(&unconfirmed_tip).unwrap();
        assert_eq!(created, j == 0);
        let mut new_inserted = vec![];

        if let Some(mut trie) = last_trie.take() {
            let mut loaded_trie = store.last_extended().unwrap();
            assert!(trie_cmp(&mut loaded_trie, &mut trie));
        }
        if created {
            build_trie(&mut store, &held);
        }

        // pre-populated keys are present
        for i in 0..n {
            let path = path_for(i, None);
            // NOTE: may have been overwritten; just check for presence
            assert!(get_path(&mut store, &unconfirmed_tip, &path).is_some());
        }

        // insert new keys
        for i in 0..n {
            // NOTE: may overwrite prepopulated values
            let path = path_for(i, if same { None } else { Some(j) });
            let value = fill(i + 128);

            new_inserted.push((path.clone(), value.clone()));

            if get_path(&mut confirmed, &confirmed_tip, &path).is_none() {
                all_new_paths.push(path.clone());
            }

            held.retain(|(p, _)| *p != path);
            held.push((path, Entry::Value(value)));
        }
        store.open_block(&unconfirmed_tip).unwrap();
        build_trie(&mut store, &held);

        // verify that all new keys are there, off the unconfirmed tip
        for (path, expected_value) in new_inserted.iter() {
            let value = get_path(&mut store, &unconfirmed_tip, path).unwrap();
            assert_eq!(*expected_value, value);
        }

        store.open_block(&unconfirmed_tip).unwrap();
        last_trie = Some(store.last_extended().unwrap());
        store.flush().unwrap();
    }

    // test rollback
    for path in all_new_paths.iter() {
        assert!(get_path(&mut store, &unconfirmed_tip, path).is_some());
    }
    assert_eq!(all_new_paths.is_empty(), same);

    store.drop_unconfirmed_trie(&unconfirmed_tip).unwrap();

    for path in all_new_paths.iter() {
        assert!(get_path(&mut store, &confirmed_tip, path).is_none());
    }
    for i in 0..n {
        assert_eq!(get_path(&mut store, &confirmed_tip, &path_for(i, None)), Some(fill(i)));
    }
    assert!(get_path(&mut store, &unconfirmed_tip, &path_for(0, None)).is_none());
}

#[test]
fn load_store_trie_4_4_same() {
    load_store_trie_m_n_same(4, 4, true);
}

#[test]
fn load_store_trie_4_4_unique() {
    load_store_trie_m_n_same(4, 4, false);
}

#[test]
fn load_store_trie_4_16_same() {
    load_store_trie_m_n_same(4, 16, true);
}

#[test]
fn load_store_trie_4_16_unique() {
    load_store_trie_m_n_same(4, 16, false);
}

#[test]
fn load_store_trie_4_48_same() {
    load_store_trie_m_n_same(4, 48, true);
}

#[test]
fn load_store_trie_4_48_unique() {
    load_store_trie_m_n_same(4, 48, false);
}

#[test]
fn load_store_trie_4_256_same() {
    load_store_trie_m_n_same(4, 256, true);
}

#[test]
fn load_store_trie_4_256_unique() {
    load_store_trie_m_n_same(4, 256, false);
}
