//! Storage engine for a forest of Merkle tries, one trie per block.
//!
//! The trie being built is buffered in memory, laid out breadth-first into a
//! compact blob when it is committed, and kept in a transactional blob store
//! indexed by block hash.
//!
//! - `node`, `hash`: trie nodes, pointers and hashes.
//! - `bits`: the byte format of a node.
//! - `blob`: the byte format of a trie, and the breadth-first layout.
//! - `trie_ram`: the trie held in memory, with `dump` and `load`.
//! - `round_trip`: what holds of a trie that was serialized and read back.
//! - `trie_sql`: the blob store, a SQLite database.
//! - `storage`: the store that the layers above work with.
//! - `counters`, `error`: tallies and failures.
pub mod bits;
pub mod blob;
pub mod counters;
pub mod error;
pub mod hash;
pub mod node;
pub mod round_trip;
pub mod storage;
pub mod trie_ram;
pub mod trie_sql;
