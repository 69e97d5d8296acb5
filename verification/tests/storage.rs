use marf_storage::error::MarfError;
use marf_storage::hash::{BlockHeaderHash, MarfTrieId, TrieHash};
use marf_storage::node::{TrieLeaf, TrieNode256, TrieNode4, TrieNodeType, TriePtr};
use marf_storage::storage::{
    block_count, block_of_root, flush_target, lock_outcome, open_mode, stored_refusal,
    tx_busy_budget, tx_busy_delay, unconfirmed_start, BlobTable, BlockMap, FlushOptions, PathStatus,
    TrieFileStorage,
};

type Store = TrieFileStorage<BlockHeaderHash>;
use marf_storage::trie_sql::OpenMode;

const LEAF: u8 = 1;
const NODE256: u8 = 5;

fn bhh(b: u8) -> BlockHeaderHash {
    BlockHeaderHash([b; 32])
}

fn hash(b: u8) -> TrieHash {
    TrieHash([b; 32])
}

fn leaf(path: &[u8], data: &[u8]) -> TrieNodeType {
    TrieNodeType::Leaf(TrieLeaf::new(&path.to_vec(), &data.to_vec()))
}

/// A store at a path of its own, emptied of what an earlier run left.
fn clean_store(name: &str) -> (String, Store) {
    let path = format!("/tmp/marf_storage_test_{}.sqlite", name);
    let mut store = match Store::open(&path, PathStatus::Present) {
        Ok(store) => store,
        Err(_) => Store::open(&path, PathStatus::Absent).unwrap(),
    };
    Store::recover(&path).unwrap();
    store.format().unwrap();
    (path, store)
}

/// The bytes stored under a block identifier, read past the library.
fn raw_blob(path: &str, block_id: u32) -> Vec<u8> {
    let conn = rusqlite::Connection::open(path).unwrap();
    conn.query_row("SELECT data FROM marf_data WHERE block_id = ?1", [block_id], |row| row.get(0))
        .unwrap()
}

fn write_root_and_leaf(store: &mut Store) {
    let mut root = TrieNode256::new(&vec![]);
    root.ptrs[0x0a] = TriePtr::new(LEAF, 0x0a, 1);
    let payload: Vec<u8> = (0..40).collect();
    assert_eq!(store.last_ptr().unwrap(), 0);
    store.write_nodetype(0, &TrieNodeType::Node256(root), hash(0x51)).unwrap();
    assert_eq!(store.last_ptr().unwrap(), 1);
    store.write_nodetype(1, &leaf(&[1, 2, 3], &payload), hash(0x52)).unwrap();
}

#[test]
fn open_mode_follows_the_state_of_the_path() {
    assert_eq!(
        open_mode(true, PathStatus::Present, false).unwrap(),
        (OpenMode::ReadWriteCreate, true)
    );
    assert_eq!(
        open_mode(true, PathStatus::Absent, true).unwrap(),
        (OpenMode::ReadOnlyCreate, true)
    );
    assert_eq!(
        open_mode(false, PathStatus::Absent, false).unwrap(),
        (OpenMode::ReadWriteCreate, true)
    );
    assert_eq!(open_mode(false, PathStatus::Absent, true), Err(MarfError::NotFoundError));
    assert_eq!(open_mode(false, PathStatus::Present, false).unwrap(), (OpenMode::ReadWrite, false));
    assert_eq!(open_mode(false, PathStatus::Present, true).unwrap(), (OpenMode::ReadOnly, false));
    assert_eq!(
        open_mode(false, PathStatus::Unreadable("denied".to_string()), false),
        Err(MarfError::IOError("denied".to_string()))
    );
}

#[test]
fn busy_policy_backs_off_and_gives_up() {
    assert_eq!(tx_busy_delay(-1), Some(10));
    assert_eq!(tx_busy_delay(0), Some(10));
    assert_eq!(tx_busy_delay(1), Some(2));
    assert_eq!(tx_busy_delay(2), Some(4));
    assert_eq!(tx_busy_delay(10), Some(1024));
    assert_eq!(tx_busy_delay(12), Some(4096));
    assert_eq!(tx_busy_delay(13), Some(5000));
    assert_eq!(tx_busy_delay(15), Some(5000));
    assert_eq!(tx_busy_delay(16), None);
    assert_eq!(tx_busy_delay(i32::MAX), None);
    assert_eq!(tx_busy_budget(), 10 + 8190 + 3 * 5000);
}

#[test]
fn a_new_store_has_nothing_selected() {
    let mut store = Store::new_memory().unwrap();
    assert_eq!(store.get_cur_block(), Store::block_sentinel());
    assert_eq!(store.get_cur_block_and_id(), (bhh(0xff), None));
    assert_eq!(store.get_cur_block_identifier(), Err(MarfError::NotOpenedError));
    assert_eq!(store.num_blocks().unwrap(), 0);
    assert_eq!(store.root_ptr(), 36);
    assert_eq!(Store::root_ptr_disk(), 36);
    assert_eq!(store.root_trieptr(), TriePtr::new(NODE256, 0, 36));
    assert!(!store.readonly());
    assert!(!store.unconfirmed());
    assert_eq!(store.db_path(), ":memory:");
    assert_eq!(store.stats(), (0, 0));
    assert_eq!(store.read_nodetype(&TriePtr::new(NODE256, 0, 36)).err(), Some(MarfError::NotFoundError));
    assert_eq!(store.read_node_hash_bytes(&TriePtr::new(NODE256, 0, 36)), Err(MarfError::NotFoundError));
}

#[test]
fn opening_for_reading_needs_a_store() {
    let r = Store::open_readonly("/tmp/marf_storage_test_absent.sqlite", PathStatus::Absent);
    assert_eq!(r.err(), Some(MarfError::NotFoundError));
}

#[test]
fn single_block_persist() {
    let (path, mut store) = clean_store("single_block_persist");
    store.extend_to_block(&bhh(2)).unwrap();
    assert_eq!(store.get_cur_block(), bhh(2));
    assert_eq!(store.root_ptr(), 0);
    assert_eq!(store.get_cur_block_identifier(), Err(MarfError::RequestedIdentifierForExtensionTrie));
    write_root_and_leaf(&mut store);
    assert_eq!(store.has_confirmed_block(&bhh(2)), Ok(false));
    assert_eq!(store.num_blocks().unwrap(), 1);
    store.flush().unwrap();
    assert_eq!(store.has_confirmed_block(&bhh(2)), Ok(true));
    assert_eq!(store.has_unconfirmed_block(&bhh(2)), Ok(false));
    assert_eq!(store.has_block(&bhh(2)), Ok(true));
    assert_eq!(store.num_blocks().unwrap(), 1);

    let mut reader = Store::open_readonly(&path, PathStatus::Present).unwrap();
    assert!(reader.readonly());
    reader.open_block(&bhh(2)).unwrap();
    assert_eq!(reader.root_ptr(), 36);
    let (root, root_hash) = reader.read_nodetype(&reader.root_trieptr()).unwrap();
    assert_eq!(root_hash, hash(0x51));
    assert_eq!(root.id(), NODE256);
    let child = root.ptrs()[0x0a];
    assert_eq!((child.id(), child.chr()), (LEAF, 0x0a));
    assert_eq!(child.ptr(), 36 + 34 + 2560);
    let (found, leaf_hash) = reader.read_nodetype(&child).unwrap();
    assert_eq!(leaf_hash, hash(0x52));
    assert_eq!(found.path(), &vec![1u8, 2, 3]);
    let expected: Vec<u8> = (0..40).collect();
    match found {
        TrieNodeType::Leaf(l) => assert_eq!(l.data.0.to_vec(), expected),
        _ => panic!("not a leaf"),
    }
    assert_eq!(reader.read_node_hash_bytes(&child), Ok(hash(0x52)));
    assert_eq!(reader.read_node_hash_bytes(&reader.root_trieptr()), Ok(hash(0x51)));
    assert_eq!(reader.read_block_root_hash(&bhh(2)), Ok(hash(0x51)));
    assert_eq!(reader.stats(), (2, 0));
    assert_eq!(reader.write_nodetype(0, &leaf(&[], &[]), hash(1)), Err(MarfError::ReadOnlyError));
    assert_eq!(reader.extend_to_block(&bhh(3)), Err(MarfError::ReadOnlyError));
    assert_eq!(reader.flush(), Err(MarfError::ReadOnlyError));
    assert_eq!(reader.format(), Err(MarfError::ReadOnlyError));
    assert_eq!(reader.write_children_hashes(&root, &mut Vec::new()), Err(MarfError::ReadOnlyError));
}

#[test]
fn parent_linkage() {
    let (path, mut store) = clean_store("parent_linkage");
    store.extend_to_block(&bhh(0xa1)).unwrap();
    store.write_nodetype(0, &TrieNodeType::Node256(TrieNode256::new(&vec![])), hash(1)).unwrap();
    store.flush().unwrap();
    store.extend_to_block(&bhh(0xb2)).unwrap();
    store.write_nodetype(0, &TrieNodeType::Node256(TrieNode256::new(&vec![])), hash(2)).unwrap();
    store.flush().unwrap();
    let id_a = store.get_block_identifier(&bhh(0xa1)).unwrap();
    let id_b = store.get_block_identifier(&bhh(0xb2)).unwrap();
    assert_ne!(id_a, id_b);
    let blob_b = raw_blob(&path, id_b);
    assert_eq!(&blob_b[..32], &[0xa1u8; 32]);
    assert_eq!(&blob_b[32..36], &[0u8; 4]);
    assert_eq!(blob_b.len(), 36 + 34 + 2560);
    let blob_a = raw_blob(&path, id_a);
    assert_eq!(&blob_a[..32], &[0xffu8; 32]);
    assert_eq!(store.get_block_from_local_id(id_a), Ok(bhh(0xa1)));
    assert_eq!(store.get_block_hash(id_b), Ok(bhh(0xb2)));
    assert_eq!(store.get_block_hash_caching(id_b), Ok(bhh(0xb2)));
    assert_eq!(store.get_block_hash(9999), Err(MarfError::NotFoundError));
    assert_eq!(store.num_blocks().unwrap(), 2);
}

fn open_unconfirmed_at(path: &str) -> Store {
    Store::open_unconfirmed(path, PathStatus::Present).unwrap()
}

/// Sixteen leaves below one inner node below the root, stored in the
/// trie being extended.
fn write_sixteen_leaves(store: &mut Store) {
    let mut root = TrieNode256::new(&vec![]);
    root.ptrs[0] = TriePtr::new(3, 0, 1);
    let mut inner = marf_storage::node::TrieNode16::new(&(1..31).collect());
    for i in 0..16u8 {
        inner.ptrs[usize::from(i)] = TriePtr::new(LEAF, i, 2 + u32::from(i));
    }
    store.write_nodetype(0, &TrieNodeType::Node256(root), hash(0xf0)).unwrap();
    store.write_nodetype(1, &TrieNodeType::Node16(inner), hash(0xf1)).unwrap();
    for i in 0..16u8 {
        store.write_nodetype(2 + u32::from(i), &leaf(&[], &[i; 40]), hash(i)).unwrap();
    }
}

#[test]
fn unconfirmed_reload() {
    let (path, confirmed) = clean_store("unconfirmed_reload");
    drop(confirmed);
    let mut store = open_unconfirmed_at(&path);
    assert!(store.unconfirmed());
    assert_eq!(store.extend_to_unconfirmed_block(&bhh(0x0c)), Ok(true));
    write_sixteen_leaves(&mut store);
    let mut before = Vec::new();
    for i in 0..18 {
        before.push(store.read_nodetype(&TriePtr::new(NODE256, 0, i)).unwrap());
    }
    assert_eq!(store.has_unconfirmed_block(&bhh(0x0c)), Ok(false));
    store.flush().unwrap();
    assert_eq!(store.has_unconfirmed_block(&bhh(0x0c)), Ok(true));
    assert_eq!(store.has_confirmed_block(&bhh(0x0c)), Ok(false));
    assert_eq!(store.has_block(&bhh(0x0c)), Ok(true));

    assert_eq!(store.extend_to_unconfirmed_block(&bhh(0x0c)), Ok(false));
    assert_eq!(store.get_cur_block(), bhh(0x0c));
    assert_eq!(store.last_ptr().unwrap(), 18);
    for (i, (node, node_hash)) in before.iter().enumerate() {
        let (back, back_hash) = store.read_nodetype(&TriePtr::new(NODE256, 0, i as u32)).unwrap();
        assert_eq!(back_hash, *node_hash);
        assert_eq!(back.id(), node.id());
        assert_eq!(back.path(), node.path());
        assert_eq!(back.ptrs(), node.ptrs());
    }
    // the reloaded trie can be extended and stored again
    store.write_nodetype(18, &leaf(&[], &[0x77; 40]), hash(0x77)).unwrap();
    store.flush().unwrap();
    assert_eq!(store.extend_to_unconfirmed_block(&bhh(0x0c)), Ok(false));
    assert_eq!(store.last_ptr().unwrap(), 18);
    store.flush().unwrap();

    // continuing: dropping the unconfirmed trie
    store.drop_unconfirmed_trie(&bhh(0x0c)).unwrap();
    assert_eq!(store.has_unconfirmed_block(&bhh(0x0c)), Ok(false));
    assert_eq!(store.open_block(&bhh(0x0c)), Err(MarfError::NotFoundError));
    assert_eq!(
        store.read_nodetype(&TriePtr::new(NODE256, 0, 36)).err(),
        Some(MarfError::NotFoundError)
    );
    assert_eq!(store.extend_to_unconfirmed_block(&bhh(0x0c)), Ok(true));
    store.drop_extending_trie().unwrap();
}

#[test]
fn modes_refuse_what_is_not_theirs() {
    let (path, mut confirmed) = clean_store("modes");
    assert_eq!(confirmed.extend_to_unconfirmed_block(&bhh(1)), Err(MarfError::UnconfirmedError));
    let mut unconfirmed = open_unconfirmed_at(&path);
    assert_eq!(unconfirmed.extend_to_block(&bhh(1)), Err(MarfError::UnconfirmedError));
    assert_eq!(unconfirmed.extend_to_unconfirmed_block(&bhh(1)), Ok(true));
    unconfirmed
        .write_nodetype(0, &TrieNodeType::Node256(TrieNode256::new(&vec![])), hash(1))
        .unwrap();
    // a destination that does not fit the mode is refused and nothing is done
    assert_eq!(unconfirmed.flush_to(&bhh(2)), Err(MarfError::UnconfirmedError));
    assert_eq!(unconfirmed.flush_mined(&bhh(2)), Err(MarfError::UnconfirmedError));
    assert_eq!(unconfirmed.has_block(&bhh(1)), Ok(false));
    assert_eq!(unconfirmed.has_block(&bhh(2)), Ok(false));
    assert_eq!(unconfirmed.get_cur_block_and_id(), (bhh(1), None));
    assert_eq!(unconfirmed.last_ptr(), Ok(1));
    assert_eq!(unconfirmed.read_node_hash_bytes(&TriePtr::new(NODE256, 0, 0)), Ok(hash(1)));
    // the block is still locked, and the trie can still be stored
    let mut other = open_unconfirmed_at(&path);
    assert_eq!(other.extend_to_unconfirmed_block(&bhh(1)), Err(MarfError::ExistsError));
    unconfirmed.flush().unwrap();
    assert_eq!(unconfirmed.has_unconfirmed_block(&bhh(1)), Ok(true));
    assert_eq!(other.extend_to_unconfirmed_block(&bhh(1)), Ok(false));
    other.drop_extending_trie().unwrap();
    // a confirmed store does nothing when asked to drop an unconfirmed trie
    confirmed.drop_unconfirmed_trie(&bhh(1)).unwrap();
    assert_eq!(unconfirmed.has_unconfirmed_block(&bhh(1)), Ok(true));
    // nor does it flush among the unconfirmed tries
    confirmed.extend_to_block(&bhh(3)).unwrap();
    confirmed
        .write_nodetype(0, &TrieNodeType::Node256(TrieNode256::new(&vec![])), hash(3))
        .unwrap();
    confirmed.flush_to(&bhh(4)).unwrap();
    assert_eq!(confirmed.has_confirmed_block(&bhh(4)), Ok(true));
}

#[test]
fn lock_contention() {
    let (path, mut first) = clean_store("lock_contention");
    let mut second = Store::open(&path, PathStatus::Present).unwrap();
    first.extend_to_block(&bhh(0x0e)).unwrap();
    assert_eq!(second.extend_to_block(&bhh(0x0e)), Err(MarfError::ExistsError));
    assert_eq!(second.get_cur_block(), bhh(0xff));
    first.drop_extending_trie().unwrap();
    assert_eq!(first.get_cur_block_and_id(), (bhh(0x0e), None));
    second.extend_to_block(&bhh(0x0e)).unwrap();
    assert_eq!(second.get_cur_block(), bhh(0x0e));
    // still one writer only
    assert_eq!(first.extend_to_block(&bhh(0x0e)), Err(MarfError::ExistsError));
    second
        .write_nodetype(0, &TrieNodeType::Node256(TrieNode256::new(&vec![])), hash(1))
        .unwrap();
    second.flush().unwrap();
    // and none once the block is there
    assert_eq!(first.extend_to_block(&bhh(0x0e)), Err(MarfError::ExistsError));
    assert_eq!(second.extend_to_block(&bhh(0x0e)), Err(MarfError::ExistsError));
}

#[test]
fn recover_gives_up_the_locks() {
    let (path, mut first) = clean_store("recover");
    first.extend_to_block(&bhh(5)).unwrap();
    let mut second = Store::open(&path, PathStatus::Present).unwrap();
    assert_eq!(second.extend_to_block(&bhh(5)), Err(MarfError::ExistsError));
    Store::recover(&path).unwrap();
    second.extend_to_block(&bhh(5)).unwrap();
    second.drop_extending_trie().unwrap();
}

#[test]
fn retarget_with_flush_to() {
    let (_, mut store) = clean_store("retarget");
    store.extend_to_block(&bhh(0)).unwrap();
    write_root_and_leaf(&mut store);
    store.flush_to(&bhh(0xab)).unwrap();
    assert_eq!(store.has_confirmed_block(&bhh(0)), Ok(false));
    assert_eq!(store.has_confirmed_block(&bhh(0xab)), Ok(true));
    assert_eq!(store.get_cur_block(), bhh(0xab));
    store.open_block(&bhh(0xab)).unwrap();
    let (root, root_hash) = store.read_nodetype(&store.root_trieptr()).unwrap();
    assert_eq!(root_hash, hash(0x51));
    assert_eq!(store.read_node_hash_bytes(&root.ptrs()[0x0a]), Ok(hash(0x52)));
    // the placeholder can be built upon again
    store.extend_to_block(&bhh(0)).unwrap();
    store.drop_extending_trie().unwrap();
}

#[test]
fn flush_mined_keeps_the_block_out_of_the_confirmed_tries() {
    let (_, mut store) = clean_store("mined");
    store.extend_to_block(&bhh(0)).unwrap();
    write_root_and_leaf(&mut store);
    store.flush_mined(&bhh(0xcd)).unwrap();
    assert_eq!(store.has_block(&bhh(0)), Ok(false));
    assert_eq!(store.has_block(&bhh(0xcd)), Ok(false));
    assert_eq!(store.get_cur_block(), bhh(0));
    assert_eq!(store.num_blocks().unwrap(), 0);
    // mining the same block again replaces what was mined
    store.extend_to_block(&bhh(0)).unwrap();
    write_root_and_leaf(&mut store);
    store.flush_mined(&bhh(0xcd)).unwrap();
}

#[test]
fn flush_without_a_trie_does_nothing() {
    let mut store = Store::new_memory().unwrap();
    store.set_cached_ancestor_hashes_bytes(&bhh(1), vec![hash(1)]);
    store.flush().unwrap();
    assert_eq!(store.check_cached_ancestor_hashes_bytes(&bhh(1)), None);
    store.flush_to(&bhh(3)).unwrap();
    assert_eq!(store.get_cur_block(), bhh(0xff));
    store.drop_extending_trie().unwrap();
    assert_eq!(store.num_blocks().unwrap(), 0);
}

#[test]
fn a_trie_that_cannot_be_stored_stays() {
    let (path, mut store) = clean_store("broken_trie");
    store.extend_to_block(&bhh(1)).unwrap();
    // there is no root yet
    assert_eq!(store.flush(), Err(MarfError::NotFoundError));
    assert_eq!(store.num_blocks().unwrap(), 1);
    assert_eq!(store.has_block(&bhh(1)), Ok(false));
    assert_eq!(store.get_cur_block_and_id(), (bhh(1), None));
    // the block is still being extended, by this store only
    let mut other = Store::open(&path, PathStatus::Present).unwrap();
    assert_eq!(other.extend_to_block(&bhh(1)), Err(MarfError::ExistsError));
    store.write_nodetype(0, &leaf(&[0; 40], &[]), hash(1)).unwrap();
    assert!(matches!(store.flush(), Err(MarfError::CorruptionError(_))));
    assert_eq!(store.last_ptr(), Ok(1));
    // an extension to another block fails with the flush and changes nothing
    assert!(matches!(store.extend_to_block(&bhh(2)), Err(MarfError::CorruptionError(_))));
    assert_eq!(store.get_cur_block_and_id(), (bhh(1), None));
    assert_eq!(store.last_ptr(), Ok(1));
    // once mended the trie is stored
    store.write_nodetype(0, &TrieNodeType::Node256(TrieNode256::new(&vec![])), hash(1)).unwrap();
    store.flush().unwrap();
    assert_eq!(store.has_confirmed_block(&bhh(1)), Ok(true));
    assert_eq!(store.num_blocks().unwrap(), 1);
}

#[test]
fn a_flushed_block_stays_selected_with_its_identifier() {
    let (_, mut store) = clean_store("flushed_selected");
    store.extend_to_block(&bhh(1)).unwrap();
    write_root_and_leaf(&mut store);
    assert_eq!(store.get_cur_block_and_id(), (bhh(1), None));
    store.flush().unwrap();
    let id = store.get_block_identifier(&bhh(1)).unwrap();
    assert_eq!(store.get_cur_block_and_id(), (bhh(1), Some(id)));
    assert_eq!(store.get_cur_block_identifier(), Ok(id));
    assert_eq!(store.root_ptr(), 36);
    let (root, root_hash) = store.read_nodetype(&store.root_trieptr()).unwrap();
    assert_eq!(root_hash, hash(0x51));
    assert_eq!(store.read_node_hash_bytes(&root.ptrs()[0x0a]), Ok(hash(0x52)));

    // a block selected for reading stays selected when another trie is flushed
    store.extend_to_block(&bhh(2)).unwrap();
    write_root_and_leaf(&mut store);
    store.open_block(&bhh(1)).unwrap();
    store.flush().unwrap();
    assert_eq!(store.get_cur_block_and_id(), (bhh(1), Some(id)));
    // and when a trie is dropped
    store.extend_to_block(&bhh(3)).unwrap();
    store.open_block(&bhh(1)).unwrap();
    store.drop_extending_trie().unwrap();
    assert_eq!(store.get_cur_block_and_id(), (bhh(1), Some(id)));

    // a flush under another block selects that block, with its identifier
    store.extend_to_block(&bhh(0)).unwrap();
    write_root_and_leaf(&mut store);
    store.flush_to(&bhh(4)).unwrap();
    let id4 = store.get_block_identifier(&bhh(4)).unwrap();
    assert_eq!(store.get_cur_block_and_id(), (bhh(4), Some(id4)));
    assert_eq!(store.read_node_hash_bytes(&store.root_trieptr()), Ok(hash(0x51)));
}

#[test]
fn an_unconfirmed_block_keeps_its_identifier_across_flushes() {
    let (path, confirmed) = clean_store("unconfirmed_selected");
    drop(confirmed);
    let mut store = open_unconfirmed_at(&path);
    assert_eq!(store.extend_to_unconfirmed_block(&bhh(1)), Ok(true));
    write_root_and_leaf(&mut store);
    store.flush().unwrap();
    let (selected, id) = store.get_cur_block_and_id();
    assert_eq!(selected, bhh(1));
    assert_eq!(id, store.get_block_identifier(&bhh(1)));
    assert!(id.is_some());
    assert_eq!(store.extend_to_unconfirmed_block(&bhh(1)), Ok(false));
    assert_eq!(store.get_cur_block_and_id(), (bhh(1), None));
    store.flush().unwrap();
    assert_eq!(store.get_cur_block_and_id(), (bhh(1), id));
    store.drop_unconfirmed_trie(&bhh(1)).unwrap();
    assert_eq!(store.get_cur_block_and_id(), (bhh(1), None));
}

#[test]
fn hash_bytes_are_stable_across_opens() {
    let (path, mut store) = clean_store("stable");
    store.extend_to_block(&bhh(4)).unwrap();
    write_sixteen_leaves(&mut store);
    let mut written = Vec::new();
    for i in 0..18 {
        written.push(store.read_node_hash_bytes(&TriePtr::new(LEAF, 0, i)).unwrap());
    }
    store.flush().unwrap();
    drop(store);
    for _ in 0..2 {
        let mut reader = Store::open_readonly(&path, PathStatus::Present).unwrap();
        reader.open_block(&bhh(4)).unwrap();
        let root_ptr = reader.root_trieptr();
        assert_eq!(reader.read_node_hash_bytes(&root_ptr), Ok(written[0]));
        let (root, _) = reader.read_nodetype(&root_ptr).unwrap();
        let inner_ptr = root.ptrs()[0];
        assert_eq!(reader.read_node_hash_bytes(&inner_ptr), Ok(written[1]));
        let (inner, _) = reader.read_nodetype(&inner_ptr).unwrap();
        for i in 0..16 {
            assert_eq!(reader.read_node_hash_bytes(&inner.ptrs()[i]), Ok(written[2 + i]));
        }
    }
}

#[test]
fn selecting_blocks() {
    let (_, mut store) = clean_store("selecting");
    store.extend_to_block(&bhh(1)).unwrap();
    write_root_and_leaf(&mut store);
    store.flush().unwrap();
    store.extend_to_block(&bhh(2)).unwrap();
    let id1 = store.get_block_identifier(&bhh(1)).unwrap();
    assert_eq!(store.get_block_identifier(&bhh(2)), None);
    assert_eq!(store.get_block_identifier(&bhh(3)), None);

    store.open_block(&bhh(1)).unwrap();
    assert_eq!(store.get_cur_block_and_id(), (bhh(1), Some(id1)));
    assert_eq!(store.get_cur_block_identifier(), Ok(id1));
    assert_eq!(store.root_ptr(), 36);
    store.open_block(&bhh(1)).unwrap();
    assert_eq!(store.get_cur_block_and_id(), (bhh(1), Some(id1)));

    store.open_block(&bhh(2)).unwrap();
    assert_eq!(store.get_cur_block_and_id(), (bhh(2), None));
    assert_eq!(store.root_ptr(), 0);
    assert_eq!(store.get_cur_block_identifier(), Err(MarfError::RequestedIdentifierForExtensionTrie));

    assert_eq!(store.open_block(&bhh(3)), Err(MarfError::NotFoundError));
    assert_eq!(store.get_cur_block_and_id(), (bhh(2), None));

    store.open_block(&bhh(0xff)).unwrap();
    assert_eq!(store.get_cur_block_and_id(), (bhh(0xff), None));
    assert_eq!(store.get_cur_block_identifier(), Err(MarfError::NotOpenedError));

    store.open_block_known_id(&bhh(1), id1).unwrap();
    assert_eq!(store.get_cur_block_and_id(), (bhh(1), Some(id1)));
    store.open_block_known_id(&bhh(1), 7777).unwrap();
    assert_eq!(store.get_cur_block_and_id(), (bhh(1), Some(id1)));
    store.open_block_maybe_id(&bhh(0xff), None).unwrap();
    store.open_block_maybe_id(&bhh(1), Some(id1)).unwrap();
    assert_eq!(store.get_cur_block_and_id(), (bhh(1), Some(id1)));
    store.open_block_maybe_id(&bhh(2), None).unwrap();
    assert_eq!(store.get_cur_block_and_id(), (bhh(2), None));
    assert_eq!(store.reopen_readonly().err(), Some(MarfError::InProgressError));
    store.drop_extending_trie().unwrap();
    store.open_block(&bhh(1)).unwrap();
    let mut view = store.reopen_readonly().unwrap();
    assert!(view.readonly());
    assert_eq!(view.get_cur_block_and_id(), (bhh(1), Some(id1)));
    assert_eq!(view.read_node_hash_bytes(&view.root_trieptr()), Ok(hash(0x51)));
}

#[test]
fn ancestor_hashes_are_kept_for_one_block() {
    let mut store = Store::new_memory().unwrap();
    assert_eq!(store.check_cached_ancestor_hashes_bytes(&bhh(1)), None);
    store.set_cached_ancestor_hashes_bytes(&bhh(1), vec![hash(1), hash(2)]);
    assert_eq!(store.check_cached_ancestor_hashes_bytes(&bhh(1)), Some(vec![hash(1), hash(2)]));
    assert_eq!(store.check_cached_ancestor_hashes_bytes(&bhh(2)), None);
    store.set_cached_ancestor_hashes_bytes(&bhh(2), vec![]);
    assert_eq!(store.check_cached_ancestor_hashes_bytes(&bhh(1)), None);
    assert_eq!(store.check_cached_ancestor_hashes_bytes(&bhh(2)), Some(vec![]));
    store.clear_cached_ancestor_hashes_bytes();
    assert_eq!(store.check_cached_ancestor_hashes_bytes(&bhh(2)), None);
    store.set_cached_ancestor_hashes_bytes(&bhh(2), vec![hash(3)]);
    store.extend_to_block(&bhh(9)).unwrap();
    assert_eq!(store.check_cached_ancestor_hashes_bytes(&bhh(2)), None);
    store.set_cached_ancestor_hashes_bytes(&bhh(2), vec![hash(3)]);
    store.drop_extending_trie().unwrap();
    assert_eq!(store.check_cached_ancestor_hashes_bytes(&bhh(2)), None);
}

#[test]
fn children_hashes_follow_the_kind_of_each_slot() {
    let (_, mut store) = clean_store("children_hashes");
    store.extend_to_block(&bhh(1)).unwrap();
    write_root_and_leaf(&mut store);
    store.flush().unwrap();
    let id1 = store.get_block_identifier(&bhh(1)).unwrap();

    store.extend_to_block(&bhh(2)).unwrap();
    let mut node = TrieNode4::new(&vec![]);
    node.ptrs[1] = TriePtr::new(LEAF, 1, 1);
    node.ptrs[2] = TriePtr { id: 0x80 | LEAF, chr: 2, ptr: 36 + 2594, back_block: id1 };
    store.write_nodetype(0, &TrieNodeType::Node256(TrieNode256::new(&vec![])), hash(0x60)).unwrap();
    store.write_nodetype(1, &leaf(&[], &[1; 40]), hash(0x61)).unwrap();
    let node = TrieNodeType::Node4(node);
    let mut w = vec![0xeeu8];
    store.write_children_hashes(&node, &mut w).unwrap();
    assert_eq!(w.len(), 1 + 4 * 32);
    let empty = TrieHash::from_data(&[]);
    assert_eq!(&w[1..33], &empty.0);
    assert_eq!(&w[33..65], &[0x61u8; 32]);
    // the back-pointer stands for its block, not for the node behind it
    assert_eq!(&w[65..97], &[1u8; 32]);
    assert_eq!(&w[97..129], &empty.0);
    // a second time nothing has to be looked up
    let mut again = Vec::new();
    store.write_children_hashes(&node, &mut again).unwrap();
    assert_eq!(&again[..], &w[1..]);

    // the same node read against a stored trie takes the child's hash from the blob
    store.flush().unwrap();
    store.extend_to_block(&bhh(3)).unwrap();
    store.open_block(&bhh(1)).unwrap();
    let mut on_disk = TrieNode4::new(&vec![]);
    on_disk.ptrs[0] = TriePtr::new(LEAF, 0, 36 + 2594);
    on_disk.ptrs[3] = TriePtr { id: 0x80 | NODE256, chr: 2, ptr: 36, back_block: id1 };
    let mut w = Vec::new();
    store.write_children_hashes(&TrieNodeType::Node4(on_disk), &mut w).unwrap();
    assert_eq!(&w[..32], &[0x52u8; 32]);
    assert_eq!(&w[32..64], &empty.0);
    assert_eq!(&w[96..128], &[1u8; 32]);

    // a block identifier that names no block
    let mut lost = TrieNode4::new(&vec![]);
    lost.ptrs[0] = TriePtr { id: 0x80 | LEAF, chr: 0, ptr: 36, back_block: 40000 };
    let mut w = Vec::new();
    assert_eq!(
        store.write_children_hashes(&TrieNodeType::Node4(lost), &mut w),
        Err(MarfError::NotFoundError)
    );
    assert!(w.is_empty());
    // what was written before the slot that failed stays
    let mut late = TrieNode4::new(&vec![]);
    late.ptrs[1] = TriePtr::new(LEAF, 0, 36 + 2594);
    late.ptrs[2] = TriePtr { id: 0x80 | LEAF, chr: 0, ptr: 36, back_block: 40000 };
    let mut w = vec![7u8];
    assert_eq!(
        store.write_children_hashes(&TrieNodeType::Node4(late), &mut w),
        Err(MarfError::NotFoundError)
    );
    assert_eq!(w.len(), 1 + 64);
    assert_eq!(&w[1..33], &empty.0);
    assert_eq!(&w[33..65], &[0x52u8; 32]);
    let leaf_node = leaf(&[], &[]);
    let mut w = Vec::new();
    store.write_children_hashes(&leaf_node, &mut w).unwrap();
    assert!(w.is_empty());
    store.drop_extending_trie().unwrap();
}

#[test]
fn store_counts_reads_and_writes() {
    let mut store = Store::new_memory().unwrap();
    store.extend_to_block(&bhh(1)).unwrap();
    write_root_and_leaf(&mut store);
    assert_eq!(store.stats(), (0, 2));
    assert_eq!(store.leaf_stats(), (0, 1));
    assert_eq!(store.node_stats(), (0, 0, 1));
    store.read_nodetype(&TriePtr::new(LEAF, 0, 1)).unwrap();
    store.read_nodetype(&TriePtr::new(0x80 | LEAF, 0, 1)).unwrap();
    store.read_nodetype(&TriePtr::new(NODE256, 0, 0)).unwrap();
    assert_eq!(store.read_nodetype(&TriePtr::new(NODE256, 0, 2)).err(), Some(MarfError::NotFoundError));
    assert_eq!(store.stats(), (4, 0));
    assert_eq!(store.leaf_stats(), (1, 0));
    assert_eq!(store.node_stats(), (2, 1, 0));
    assert_eq!(store.write_nodetype(5, &leaf(&[], &[]), hash(1)), Err(MarfError::NotFoundError));
    assert_eq!(store.stats(), (0, 1));
    let l = TrieLeaf::new(&vec![], &vec![]);
    store.write_node(2, &l, hash(9)).unwrap();
    assert_eq!(store.last_ptr().unwrap(), 3);
    assert_eq!(store.read_node_hash_bytes(&TriePtr::new(LEAF, 0, 2)), Ok(hash(9)));
}

#[test]
fn root_table_lists_stored_and_extending_tries() {
    let (_, mut store) = clean_store("root_table");
    store.extend_to_block(&bhh(1)).unwrap();
    write_root_and_leaf(&mut store);
    store.flush().unwrap();
    store.extend_to_block(&bhh(2)).unwrap();
    store.write_nodetype(0, &TrieNodeType::Node256(TrieNode256::new(&vec![])), hash(0x70)).unwrap();
    let table = store.read_root_to_block_table().unwrap();
    assert_eq!(table, vec![(hash(0x51), bhh(1)), (hash(0x70), bhh(2))]);
    store.flush().unwrap();
    let table = store.read_root_to_block_table().unwrap();
    assert_eq!(table, vec![(hash(0x51), bhh(1)), (hash(0x70), bhh(2))]);
}

#[test]
fn format_empties_the_store() {
    let (_, mut store) = clean_store("format");
    store.extend_to_block(&bhh(1)).unwrap();
    write_root_and_leaf(&mut store);
    store.flush().unwrap();
    store.extend_to_block(&bhh(2)).unwrap();
    store.format().unwrap();
    assert_eq!(store.get_cur_block_and_id(), (bhh(0xff), None));
    assert_eq!(store.num_blocks().unwrap(), 0);
    assert_eq!(store.has_block(&bhh(1)), Ok(false));
    store.extend_to_block(&bhh(2)).unwrap();
    store.drop_extending_trie().unwrap();
}

#[test]
fn busy_handler_can_be_set() {
    let mut store = Store::new_memory().unwrap();
    store.set_busy_handler(|run_count| tx_busy_delay(run_count).is_some()).unwrap();
    store.extend_to_block(&bhh(1)).unwrap();
}

#[test]
fn flush_target_follows_the_mode() {
    let built_for = bhh(1);
    assert_eq!(
        flush_target(FlushOptions::CurrentHeader, false, built_for),
        Ok((BlobTable::Confirmed, bhh(1)))
    );
    assert_eq!(
        flush_target(FlushOptions::NewHeader(bhh(2)), false, built_for),
        Ok((BlobTable::Confirmed, bhh(2)))
    );
    assert_eq!(
        flush_target(FlushOptions::MinedTable(bhh(3)), false, built_for),
        Ok((BlobTable::Mined, bhh(3)))
    );
    assert_eq!(
        flush_target(FlushOptions::UnconfirmedTable, true, built_for),
        Ok((BlobTable::Unconfirmed, bhh(1)))
    );
    assert_eq!(
        flush_target(FlushOptions::UnconfirmedTable, false, built_for),
        Err(MarfError::UnconfirmedError)
    );
    for options in [
        FlushOptions::CurrentHeader,
        FlushOptions::NewHeader(bhh(2)),
        FlushOptions::MinedTable(bhh(3)),
    ] {
        assert_eq!(flush_target(options, true, built_for), Err(MarfError::UnconfirmedError));
    }
}

#[test]
fn what_a_flush_stores_is_the_dump_of_the_trie() {
    let (path, mut store) = clean_store("serialize_extending");
    assert_eq!(store.serialize_extending(), Ok(None));
    store.extend_to_block(&bhh(1)).unwrap();
    write_root_and_leaf(&mut store);
    let mut trie = store.last_extended().unwrap();
    let mut expected = Vec::new();
    trie.dump(&mut expected, &bhh(1)).unwrap();
    let (built_for, blob) = store.serialize_extending().unwrap().unwrap();
    assert_eq!(built_for, bhh(1));
    assert_eq!(blob, expected);
    // the trie stays, and counts the reads
    assert_eq!(store.last_ptr(), Ok(2));
    assert_eq!(store.last_extended().unwrap().stats(), (2, 2));
    store.flush().unwrap();
    assert!(store.last_extended().is_none());
    let id = store.get_block_identifier(&bhh(1)).unwrap();
    assert_eq!(raw_blob(&path, id), expected);
}

#[test]
fn a_store_that_cannot_be_opened_is_a_backing_store_failure() {
    let r = Store::open(
        "/tmp/marf_storage_no_such_directory/store.sqlite",
        PathStatus::Present,
    );
    assert!(matches!(r.err(), Some(MarfError::BackingStoreError(_))));
    let r = Store::open(
        "/tmp/marf_storage_test_unreadable.sqlite",
        PathStatus::Unreadable("permission denied".to_string()),
    );
    assert_eq!(r.err(), Some(MarfError::IOError("permission denied".to_string())));
}

#[test]
fn a_store_locked_by_another_writer_is_busy_once_the_retries_are_used_up() {
    let (path, mut store) = clean_store("busy");
    store.set_busy_handler(|run_count| run_count < 3).unwrap();
    let other = rusqlite::Connection::open(&path).unwrap();
    other.execute_batch("BEGIN IMMEDIATE").unwrap();
    assert_eq!(store.extend_to_block(&bhh(1)), Err(MarfError::BusyError));
    assert_eq!(store.get_cur_block(), bhh(0xff));
    other.execute_batch("ROLLBACK").unwrap();
    store.extend_to_block(&bhh(1)).unwrap();
    store.drop_extending_trie().unwrap();
}

#[test]
fn a_blob_that_is_not_a_trie_is_corrupt() {
    let (path, mut store) = clean_store("corrupt");
    store.extend_to_block(&bhh(1)).unwrap();
    write_root_and_leaf(&mut store);
    store.flush().unwrap();
    let id = store.get_block_identifier(&bhh(1)).unwrap();
    let raw = rusqlite::Connection::open(&path).unwrap();
    raw.execute("UPDATE marf_data SET data = ?1 WHERE block_id = ?2", (vec![9u8; 50], id)).unwrap();
    store.open_block(&bhh(1)).unwrap();
    let root_ptr = store.root_trieptr();
    assert!(matches!(store.read_nodetype(&root_ptr), Err(MarfError::CorruptionError(_))));
    assert!(matches!(store.read_node_hash_bytes(&root_ptr), Err(MarfError::CorruptionError(_))));
    assert!(matches!(
        store.read_nodetype(&TriePtr::new(LEAF, 0, 5000)),
        Err(MarfError::CorruptionError(_))
    ));
}

#[test]
fn an_unconfirmed_blob_that_is_not_a_trie_cannot_be_taken_up() {
    let (path, confirmed) = clean_store("corrupt_unconfirmed");
    drop(confirmed);
    let mut store = open_unconfirmed_at(&path);
    assert_eq!(store.extend_to_unconfirmed_block(&bhh(1)), Ok(true));
    let mut root = TrieNode4::new(&vec![]);
    root.ptrs[0] = TriePtr::new(LEAF, 0, 1);
    // the root is not a node with 256 slots
    store.write_nodetype(0, &TrieNodeType::Node4(root), hash(1)).unwrap();
    store.write_nodetype(1, &leaf(&[], &[]), hash(2)).unwrap();
    store.flush().unwrap();
    assert!(matches!(
        store.extend_to_unconfirmed_block(&bhh(1)),
        Err(MarfError::CorruptionError(_))
    ));
    store.drop_unconfirmed_trie(&bhh(1)).unwrap();
    assert_eq!(store.extend_to_unconfirmed_block(&bhh(1)), Ok(true));
    store.drop_extending_trie().unwrap();
}

#[test]
fn the_trie_being_extended_counts_as_a_block() {
    assert_eq!(block_count(0, false), 0);
    assert_eq!(block_count(0, true), 1);
    assert_eq!(block_count(41, true), 42);
    assert_eq!(block_count(41, false), 41);
    let mut store = Store::new_memory().unwrap();
    assert_eq!(store.num_blocks(), Ok(0));
    store.extend_to_block(&bhh(1)).unwrap();
    assert_eq!(store.num_blocks(), Ok(1));
    write_root_and_leaf(&mut store);
    store.flush().unwrap();
    assert_eq!(store.num_blocks(), Ok(1));
    store.extend_to_block(&bhh(2)).unwrap();
    assert_eq!(store.num_blocks(), Ok(2));
}

#[test]
fn refusals_follow_the_answers_of_the_store() {
    assert_eq!(stored_refusal(true), Err(MarfError::ExistsError));
    assert_eq!(stored_refusal(false), Ok(()));
    assert_eq!(lock_outcome(true), Ok(()));
    assert_eq!(lock_outcome(false), Err(MarfError::ExistsError));
}

#[test]
fn an_unconfirmed_trie_starts_empty_or_from_its_blob() {
    let (mut fresh, created) = unconfirmed_start(None, &bhh(1), 8, &bhh(9)).unwrap();
    assert!(created);
    assert_eq!(fresh.last_ptr(), Ok(0));
    assert_eq!((fresh.block_header(), fresh.parent()), (bhh(1), bhh(9)));

    let mut store = Store::new_memory().unwrap();
    store.open_block(&bhh(0xff)).unwrap();
    store.extend_to_block(&bhh(5)).unwrap();
    write_root_and_leaf(&mut store);
    let (_, blob) = store.serialize_extending().unwrap().unwrap();
    let (mut back, created) = unconfirmed_start(Some(blob), &bhh(1), 8, &bhh(9)).unwrap();
    assert!(!created);
    assert_eq!(back.last_ptr(), Ok(2));
    assert_eq!((back.block_header(), back.parent()), (bhh(1), bhh(0xff)));
    assert_eq!(back.read_node_hash(&TriePtr::new(LEAF, 0, 1)), Ok(hash(0x52)));

    let broken = unconfirmed_start(Some(vec![7u8; 100]), &bhh(1), 8, &bhh(9));
    assert!(matches!(broken.err(), Some(MarfError::CorruptionError(_))));
}

#[test]
fn the_later_pair_counts_in_the_root_table() {
    let table = vec![(hash(1), bhh(1)), (hash(2), bhh(2)), (hash(1), bhh(3))];
    assert_eq!(block_of_root(&table, &hash(1)), Some(bhh(3)));
    assert_eq!(block_of_root(&table, &hash(2)), Some(bhh(2)));
    assert_eq!(block_of_root(&table, &hash(9)), None);
    assert_eq!(block_of_root(&Vec::<(TrieHash, BlockHeaderHash)>::new(), &hash(1)), None);

    // the trie being extended counts over a stored trie with the same root
    let (_, mut store) = clean_store("root_table_later");
    store.extend_to_block(&bhh(1)).unwrap();
    write_root_and_leaf(&mut store);
    store.flush().unwrap();
    store.extend_to_block(&bhh(2)).unwrap();
    write_root_and_leaf(&mut store);
    let table = store.read_root_to_block_table().unwrap();
    assert_eq!(table, vec![(hash(0x51), bhh(1)), (hash(0x51), bhh(2))]);
    assert_eq!(block_of_root(&table, &hash(0x51)), Some(bhh(2)));
    store.drop_extending_trie().unwrap();
}
