use marf_storage::bits::write_nodetype_bytes;
use marf_storage::error::MarfError;
use marf_storage::hash::{BlockHeaderHash, TrieHash};
use marf_storage::node::{TrieLeaf, TrieNodeType, TriePtr};
use marf_storage::trie_sql::{
    blob_param, block_id_of_rowid, chunk_params, count_of, flag_param, found_or_missing,
    next_id_of, number_param, store_failure, unconfirmed_slot, SqlParam,
};
use marf_storage::trie_sql::{
    blob_of, block_hash_of, block_id_of, clear_lock_data, clear_tables, count_blocks,
    create_tables_if_needed, drop_lock, drop_unconfirmed_trie, get_block_hash,
    get_block_identifier, get_confirmed_block_identifier, get_mined_block_identifier,
    get_node_hash_bytes, get_node_hash_bytes_by_bhh, get_unconfirmed_block_identifier,
    lock_bhh_for_extension, may_lock, next_block_identifier, node_hash_of_chunk, node_of_chunk,
    read_all_block_hashes_and_roots, read_node_hash_bytes, read_node_type, read_trie_blob,
    read_trie_chunk, tx_lock_bhh_for_extension, write_trie_blob, write_trie_blob_to_mined,
    write_trie_blob_to_unconfirmed, SqlValue,
};
use rusqlite::Connection;

fn bhh(b: u8) -> BlockHeaderHash {
    BlockHeaderHash([b; 32])
}

fn store() -> Connection {
    let mut conn = Connection::open_in_memory().unwrap();
    create_tables_if_needed(&mut conn).unwrap();
    conn
}

/// A blob of a header and one leaf.
fn blob(fill: u8) -> Vec<u8> {
    let mut out = vec![fill; 32];
    out.extend_from_slice(&[0u8; 4]);
    let leaf = TrieNodeType::Leaf(TrieLeaf::new(&vec![fill], &vec![fill; 40]));
    write_nodetype_bytes(&mut out, &leaf, TrieHash([fill; 32])).unwrap();
    out
}

#[test]
fn a_block_identifier_is_a_number_of_32_bits() {
    assert_eq!(block_id_of(&None), Ok(None));
    assert_eq!(block_id_of(&Some(SqlValue::Integer(0))), Ok(Some(0)));
    assert_eq!(block_id_of(&Some(SqlValue::Integer(4294967295))), Ok(Some(u32::MAX)));
    for bad in [
        SqlValue::Integer(-1),
        SqlValue::Integer(4294967296),
        SqlValue::Null,
        SqlValue::Real,
        SqlValue::Text("1".to_string()),
        SqlValue::Blob(vec![1]),
    ] {
        assert!(matches!(block_id_of(&Some(bad)), Err(MarfError::CorruptionError(_))));
    }
}

#[test]
fn a_block_hash_is_a_blob_of_32_bytes() {
    assert_eq!(block_hash_of::<BlockHeaderHash>(&None), Ok(None));
    assert_eq!(block_hash_of(&Some(SqlValue::Blob(vec![7; 32]))), Ok(Some(bhh(7))));
    for bad in [SqlValue::Blob(vec![7; 31]), SqlValue::Blob(vec![7; 33]), SqlValue::Integer(7)] {
        assert!(matches!(
            block_hash_of::<BlockHeaderHash>(&Some(bad)),
            Err(MarfError::CorruptionError(_))
        ));
    }
}

#[test]
fn a_trie_is_a_blob() {
    assert_eq!(blob_of(None), Ok(None));
    assert_eq!(blob_of(Some(SqlValue::Blob(vec![1, 2]))), Ok(Some(vec![1, 2])));
    assert!(matches!(blob_of(Some(SqlValue::Null)), Err(MarfError::CorruptionError(_))));
}

#[test]
fn a_lock_is_free_unless_taken_or_the_block_is_there() {
    assert!(may_lock(false, false, false));
    assert!(!may_lock(false, true, false));
    assert!(!may_lock(false, false, true));
    assert!(may_lock(true, true, false));
    assert!(may_lock(true, false, false));
    assert!(!may_lock(true, true, true));
}

#[test]
fn a_chunk_starts_with_a_node() {
    let bytes = blob(5);
    let (node, hash) = node_of_chunk(&bytes[36..]).unwrap();
    assert_eq!(hash, TrieHash([5; 32]));
    assert_eq!(node.path(), &vec![5u8]);
    assert_eq!(node_hash_of_chunk(&bytes[36..]), Ok(TrieHash([5; 32])));
    assert!(matches!(node_of_chunk(&bytes[36..100]), Err(MarfError::CorruptionError(_))));
    assert!(matches!(node_hash_of_chunk(&[]), Err(MarfError::CorruptionError(_))));
}

#[test]
fn tries_are_stored_and_found_by_their_kind() {
    let conn = store();
    assert_eq!(get_block_identifier(&conn, &bhh(1)), Err(MarfError::NotFoundError));
    assert_eq!(count_blocks(&conn), Ok(0));
    let id1 = write_trie_blob(&conn, &bhh(1), &blob(1)).unwrap();
    let id2 = write_trie_blob_to_unconfirmed(&conn, &bhh(2), &blob(2)).unwrap();
    let mined = write_trie_blob_to_mined(&conn, &bhh(3), &blob(3)).unwrap();
    assert_ne!(id1, id2);
    assert_eq!(get_block_identifier(&conn, &bhh(1)), Ok(id1));
    assert_eq!(get_block_identifier(&conn, &bhh(2)), Ok(id2));
    assert_eq!(get_block_identifier(&conn, &bhh(3)), Err(MarfError::NotFoundError));
    assert_eq!(get_confirmed_block_identifier(&conn, &bhh(1)), Ok(Some(id1)));
    assert_eq!(get_confirmed_block_identifier(&conn, &bhh(2)), Ok(None));
    assert_eq!(get_unconfirmed_block_identifier(&conn, &bhh(2)), Ok(Some(id2)));
    assert_eq!(get_unconfirmed_block_identifier(&conn, &bhh(1)), Ok(None));
    assert_eq!(get_mined_block_identifier(&conn, &bhh(3)), Ok(mined));
    assert_eq!(get_mined_block_identifier(&conn, &bhh(1)), Err(MarfError::NotFoundError));
    assert_eq!(get_block_hash(&conn, id1), Ok(bhh(1)));
    assert_eq!(get_block_hash::<BlockHeaderHash>(&conn, 77), Err(MarfError::NotFoundError));
    assert_eq!(count_blocks(&conn), Ok(1));
    assert_eq!(read_trie_blob(&conn, id2), Ok(blob(2)));
    assert_eq!(read_trie_blob(&conn, 77), Err(MarfError::NotFoundError));

    // a confirmed trie is stored once; an unconfirmed one may be stored again
    assert!(matches!(
        write_trie_blob(&conn, &bhh(1), &blob(9)),
        Err(MarfError::BackingStoreError(_))
    ));
    assert_eq!(write_trie_blob_to_unconfirmed(&conn, &bhh(2), &blob(8)), Ok(id2));
    assert_eq!(read_trie_blob(&conn, id2), Ok(blob(8)));
    assert_eq!(
        write_trie_blob_to_unconfirmed(&conn, &bhh(1), &blob(8)),
        Err(MarfError::ExistsError)
    );
    assert_eq!(write_trie_blob_to_mined(&conn, &bhh(3), &blob(7)).is_ok(), true);

    assert_eq!(next_block_identifier(&conn, 0), Ok(Some(id1.min(id2))));
    assert_eq!(next_block_identifier(&conn, id1.max(id2) + 1), Ok(None));
    let table: Vec<(TrieHash, BlockHeaderHash)> = read_all_block_hashes_and_roots(&conn).unwrap();
    assert_eq!(table.len(), 2);
    assert!(table.contains(&(TrieHash([1; 32]), bhh(1))));
    assert!(table.contains(&(TrieHash([8; 32]), bhh(2))));

    drop_unconfirmed_trie(&conn, &bhh(1)).unwrap();
    assert_eq!(get_block_identifier(&conn, &bhh(1)), Ok(id1));
    drop_unconfirmed_trie(&conn, &bhh(2)).unwrap();
    assert_eq!(get_block_identifier(&conn, &bhh(2)), Err(MarfError::NotFoundError));
}

#[test]
fn nodes_are_read_from_a_stored_trie() {
    let conn = store();
    let id = write_trie_blob(&conn, &bhh(1), &blob(4)).unwrap();
    let ptr = TriePtr::new(1, 0, 36);
    let (node, hash) = read_node_type(&conn, id, &ptr).unwrap();
    assert_eq!(hash, TrieHash([4; 32]));
    assert!(node.is_leaf());
    assert_eq!(get_node_hash_bytes(&conn, id, &ptr), Ok(TrieHash([4; 32])));
    assert_eq!(get_node_hash_bytes_by_bhh(&conn, &bhh(1), &ptr), Ok(TrieHash([4; 32])));
    assert_eq!(
        get_node_hash_bytes_by_bhh(&conn, &bhh(2), &ptr),
        Err(MarfError::NotFoundError)
    );
    let mut w = vec![1u8];
    read_node_hash_bytes(&conn, &mut w, id, &ptr).unwrap();
    assert_eq!(w.len(), 33);
    assert_eq!(&w[1..], &[4u8; 32]);
    assert_eq!(read_node_hash_bytes(&conn, &mut w, id + 1, &ptr), Err(MarfError::NotFoundError));
    assert_eq!(w.len(), 33);
    assert!(matches!(
        read_node_type(&conn, id, &TriePtr::new(1, 0, 37)),
        Err(MarfError::CorruptionError(_))
    ));
    assert_eq!(read_trie_chunk(&conn, id, 0).unwrap(), blob(4));
    assert_eq!(read_trie_chunk(&conn, id, 36).unwrap(), blob(4)[36..].to_vec());
    assert!(read_trie_chunk(&conn, id, 5000).unwrap().is_empty());
    assert_eq!(read_trie_chunk(&conn, id + 1, 0), Err(MarfError::NotFoundError));
}

#[test]
fn a_block_is_locked_by_one_writer() {
    let mut conn = store();
    assert_eq!(lock_bhh_for_extension(&mut conn, &bhh(1), false), Ok(true));
    assert_eq!(lock_bhh_for_extension(&mut conn, &bhh(1), false), Ok(false));
    assert_eq!(lock_bhh_for_extension(&mut conn, &bhh(1), true), Ok(false));
    assert_eq!(tx_lock_bhh_for_extension(&conn, &bhh(2), true), Ok(true));
    assert_eq!(tx_lock_bhh_for_extension(&conn, &bhh(2), true), Ok(false));
    drop_lock(&conn, &bhh(1)).unwrap();
    assert_eq!(lock_bhh_for_extension(&mut conn, &bhh(1), true), Ok(true));
    clear_lock_data(&conn).unwrap();
    assert_eq!(lock_bhh_for_extension(&mut conn, &bhh(2), false), Ok(true));
    drop_lock(&conn, &bhh(2)).unwrap();

    // a block that has a trie can be taken up for an unconfirmed trie only
    write_trie_blob(&conn, &bhh(3), &blob(3)).unwrap();
    assert_eq!(lock_bhh_for_extension(&mut conn, &bhh(3), false), Ok(false));
    assert_eq!(lock_bhh_for_extension(&mut conn, &bhh(3), true), Ok(true));
    clear_tables(&mut conn).unwrap();
    assert_eq!(count_blocks(&conn), Ok(0));
    assert_eq!(lock_bhh_for_extension(&mut conn, &bhh(3), false), Ok(true));
}

#[test]
fn a_store_without_tables_fails() {
    let conn = Connection::open_in_memory().unwrap();
    assert!(matches!(
        get_block_identifier(&conn, &bhh(1)),
        Err(MarfError::BackingStoreError(_))
    ));
    assert!(matches!(clear_lock_data(&conn), Err(MarfError::BackingStoreError(_))));
}

#[test]
fn a_failure_of_the_store_is_busy_or_carries_its_text() {
    assert_eq!(store_failure(true, "database is locked".to_string()), MarfError::BusyError);
    assert_eq!(
        store_failure(false, "no such table".to_string()),
        MarfError::BackingStoreError("no such table".to_string())
    );
}

#[test]
fn what_is_not_found_is_missing() {
    assert_eq!(found_or_missing(Some(7u32)), Ok(7));
    assert_eq!(found_or_missing::<u32>(None), Err(MarfError::NotFoundError));
    assert_eq!(found_or_missing(Some(vec![1u8])), Ok(vec![1u8]));
    assert_eq!(count_of(Some(3)), Ok(3));
    assert!(matches!(count_of(None), Err(MarfError::CorruptionError(_))));
}

#[test]
fn a_row_identifier_is_a_block_identifier_if_it_fits() {
    assert_eq!(block_id_of_rowid(0), Ok(0));
    assert_eq!(block_id_of_rowid(4294967295), Ok(u32::MAX));
    assert!(matches!(block_id_of_rowid(4294967296), Err(MarfError::CorruptionError(_))));
    assert!(matches!(block_id_of_rowid(-1), Err(MarfError::CorruptionError(_))));
}

#[test]
fn an_unconfirmed_trie_takes_its_old_place_or_a_new_one() {
    assert_eq!(unconfirmed_slot(None, None), Ok(None));
    assert_eq!(unconfirmed_slot(None, Some(4)), Ok(Some(4)));
    assert_eq!(unconfirmed_slot(Some(1), None), Err(MarfError::ExistsError));
    assert_eq!(unconfirmed_slot(Some(1), Some(4)), Err(MarfError::ExistsError));
}

#[test]
fn the_next_identifier_is_not_below_the_one_asked_from() {
    assert_eq!(next_id_of(None, 5), Ok(None));
    assert_eq!(next_id_of(Some(5), 5), Ok(Some(5)));
    assert_eq!(next_id_of(Some(9), 5), Ok(Some(9)));
    assert!(matches!(next_id_of(Some(4), 5), Err(MarfError::CorruptionError(_))));
}

#[test]
fn parameters_stand_for_what_they_are_made_of() {
    assert_eq!(number_param(u32::MAX), SqlParam::Integer(4294967295));
    assert_eq!(flag_param(true), SqlParam::Integer(1));
    assert_eq!(flag_param(false), SqlParam::Integer(0));
    assert_eq!(blob_param(&[1, 2, 3]), SqlParam::Blob(vec![1, 2, 3]));
    // SQLite counts the bytes of a blob from 1
    assert_eq!(
        chunk_params(7, 36),
        vec![SqlParam::Integer(7), SqlParam::Integer(37), SqlParam::Integer(2626)]
    );
    assert_eq!(chunk_params(0, u32::MAX)[1], SqlParam::Integer(4294967296));
}
