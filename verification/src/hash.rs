use sha2::Digest;
use vstd::prelude::*;
use vstd::std_specs::cmp::PartialEqSpecImpl;

verus! {

/// Number of bytes in a serialized node hash.
pub const TRIEHASH_ENCODED_SIZE: usize = 32;

/// Number of bytes in a serialized block hash.
pub const BLOCK_HEADER_HASH_ENCODED_SIZE: usize = 32;

/// Whether two 32-byte strings hold the same bytes.
pub fn bytes32_equal(a: &[u8; 32], b: &[u8; 32]) -> (r: bool)
    ensures
        r == (a@ == b@),
        r == (*a == *b),
{
    let mut i: usize = 0;
    while i < 32
        invariant
            i <= 32,
            forall|k: int| 0 <= k < i ==> a@[k] == b@[k],
        decreases 32 - i,
    {
        if a[i] != b[i] {
            return false;
        }
        i += 1;
    }
    assert(a@ =~= b@);
    assert(*a =~= *b);
    true
}

/// Two 32-byte arrays with the same bytes are the same array.
pub proof fn lemma_bytes32_ext(a: [u8; 32], b: [u8; 32])
    requires
        a@ == b@,
    ensures
        a == b,
{
    assert(a =~= b);
}

/// The 32 bytes of `bytes` that start at `start`, as an array.
pub(crate) fn bytes32_at(bytes: &[u8], start: usize) -> (r: [u8; 32])
    requires
        start + 32 <= bytes@.len(),
    ensures
        r@ == bytes@.subrange(start as int, start + 32),
{
    let mut out: [u8; 32] = [0u8; 32];
    let n = bytes.len();
    let mut i: usize = 0;
    while i < 32
        invariant
            i <= 32,
            n == bytes@.len(),
            start + 32 <= bytes@.len(),
            forall|k: int| 0 <= k < i ==> out@[k] == bytes@[start + k],
        decreases 32 - i,
    {
        out[i] = bytes[start + i];
        i += 1;
    }
    assert(out@ =~= bytes@.subrange(start as int, start + 32));
    out
}

/// Appends the 32 bytes of a hash.
pub fn append_hash(w: &mut Vec<u8>, bytes: &[u8; 32])
    ensures
        final(w)@ == old(w)@ + bytes@,
{
    let mut i: usize = 0;
    while i < 32
        invariant
            i <= 32,
            w@ == old(w)@ + bytes@.subrange(0, i as int),
        decreases 32 - i,
    {
        w.push(bytes[i]);
        assert(bytes@.subrange(0, i as int).push(bytes@[i as int]) =~= bytes@.subrange(0, i + 1));
        i += 1;
    }
    assert(bytes@.subrange(0, 32) =~= bytes@);
}

/// The SHA-512/256 digest of a byte string.
pub uninterp spec fn sha512_256(data: Seq<u8>) -> Seq<u8>;

/// Calls `sha2::Sha512_256::digest`. Trusted: the 32 bytes returned are the
/// SHA-512/256 digest of `data`, a function of the bytes of `data` alone.
#[verifier::external_body]
fn sha512_256_digest(data: &[u8]) -> (r: [u8; 32])
    ensures
        r@ == sha512_256(data@),
{
    sha2::Sha512_256::digest(data).into()
}

/// Content hash of a trie node.
#[derive(Clone, Copy, Debug, Eq, Hash)]
pub struct TrieHash(pub [u8; 32]);

impl View for TrieHash {
    type V = Seq<u8>;

    open spec fn view(&self) -> Seq<u8> {
        self.0@
    }
}

impl PartialEq for TrieHash {
    fn eq(&self, other: &Self) -> (r: bool) {
        bytes32_equal(&self.0, &other.0)
    }
}

impl PartialEqSpecImpl for TrieHash {
    open spec fn obeys_eq_spec() -> bool {
        true
    }

    open spec fn eq_spec(&self, other: &Self) -> bool {
        *self == *other
    }
}

impl TrieHash {
    /// The hash made of the given 32 bytes.
    pub fn from_bytes(bytes: &[u8]) -> (r: Option<TrieHash>)
        ensures
            bytes@.len() == 32 <==> r is Some,
            r matches Some(h) ==> h@ == bytes@,
    {
        if bytes.len() != 32 {
            return None;
        }
        let h = TrieHash(bytes32_at(bytes, 0));
        assert(h@ =~= bytes@);
        Some(h)
    }

    /// The hash of `data`: its SHA-512/256 digest.
    pub fn from_data(data: &[u8]) -> (r: TrieHash)
        ensures
            r@ == sha512_256(data@),
    {
        TrieHash(sha512_256_digest(data))
    }

    /// The hash of the empty byte string.
    pub fn from_empty_data() -> (r: TrieHash)
        ensures
            r@ == sha512_256(Seq::<u8>::empty()),
    {
        let empty: [u8; 0] = [];
        let r = TrieHash::from_data(empty.as_slice());
        assert(empty@ =~= Seq::<u8>::empty());
        r
    }

    /// The 32 bytes of the hash.
    pub fn as_bytes(&self) -> (r: &[u8; 32])
        ensures
            r@ == self@,
    {
        &self.0
    }

    /// Hashes with the same bytes are equal.
    pub proof fn lemma_ext(a: TrieHash, b: TrieHash)
        requires
            a@ == b@,
        ensures
            a == b,
    {
        lemma_bytes32_ext(a.0, b.0);
    }
}

/// The bytes of the reserved identifier that stands for the parent of the
/// first block and for "no block selected": all bits set.
pub open spec fn sentinel_bytes() -> Seq<u8> {
    Seq::new(32, |i: int| 0xffu8)
}

/// Whether an identifier is the sentinel.
pub open spec fn is_sentinel<T: MarfTrieId>(id: T) -> bool {
    id.id_bytes() == sentinel_bytes()
}

/// Identifier of a block, and with it of the trie committed for that
/// block: 32 bytes, of which one value, the sentinel, is reserved.
///
/// An identifier is nothing but its bytes: identifiers with the same bytes
/// are the same.
pub trait MarfTrieId: Sized + Copy {
    /// The 32 bytes of the identifier.
    spec fn id_bytes(&self) -> Seq<u8>;

    /// The 32 bytes of the identifier.
    fn as_bytes(&self) -> (r: &[u8; 32])
        ensures
            r@ == self.id_bytes(),
    ;

    /// The identifier made of the given bytes.
    fn from_bytes(bytes: [u8; 32]) -> (r: Self)
        ensures
            r.id_bytes() == bytes@,
    ;

    /// The sentinel.
    fn sentinel() -> (r: Self)
        ensures
            r.id_bytes() == sentinel_bytes(),
    ;

    /// Whether two identifiers are the same.
    fn same(&self, other: &Self) -> (r: bool)
        ensures
            r == (*self == *other),
    ;

    /// Identifiers with the same bytes are the same, and there are 32
    /// bytes.
    proof fn lemma_id_bytes(a: Self, b: Self)
        ensures
            a.id_bytes().len() == 32,
            a.id_bytes() == b.id_bytes() ==> a == b,
    ;
}

/// Hash that names a block, and with it the trie committed for that block.
#[derive(Clone, Copy, Debug, Eq, Hash)]
pub struct BlockHeaderHash(pub [u8; 32]);

impl View for BlockHeaderHash {
    type V = Seq<u8>;

    open spec fn view(&self) -> Seq<u8> {
        self.0@
    }
}

impl PartialEq for BlockHeaderHash {
    fn eq(&self, other: &Self) -> (r: bool) {
        bytes32_equal(&self.0, &other.0)
    }
}

impl PartialEqSpecImpl for BlockHeaderHash {
    open spec fn obeys_eq_spec() -> bool {
        true
    }

    open spec fn eq_spec(&self, other: &Self) -> bool {
        *self == *other
    }
}

impl MarfTrieId for BlockHeaderHash {
    open spec fn id_bytes(&self) -> Seq<u8> {
        self@
    }

    fn as_bytes(&self) -> (r: &[u8; 32]) {
        &self.0
    }

    fn from_bytes(bytes: [u8; 32]) -> (r: BlockHeaderHash) {
        BlockHeaderHash(bytes)
    }

    fn sentinel() -> (r: BlockHeaderHash) {
        let r = BlockHeaderHash([0xffu8; 32]);
        assert(r@ =~= sentinel_bytes());
        r
    }

    fn same(&self, other: &Self) -> (r: bool) {
        *self == *other
    }

    proof fn lemma_id_bytes(a: Self, b: Self) {
        if a.id_bytes() == b.id_bytes() {
            lemma_bytes32_ext(a.0, b.0);
        }
    }
}

/// Hash that names a block of the chain of blocks built on the first.
#[derive(Clone, Copy, Debug, Eq, Hash)]
pub struct StacksBlockId(pub [u8; 32]);

impl View for StacksBlockId {
    type V = Seq<u8>;

    open spec fn view(&self) -> Seq<u8> {
        self.0@
    }
}

impl PartialEq for StacksBlockId {
    fn eq(&self, other: &Self) -> (r: bool) {
        bytes32_equal(&self.0, &other.0)
    }
}

impl PartialEqSpecImpl for StacksBlockId {
    open spec fn obeys_eq_spec() -> bool {
        true
    }

    open spec fn eq_spec(&self, other: &Self) -> bool {
        *self == *other
    }
}

impl MarfTrieId for StacksBlockId {
    open spec fn id_bytes(&self) -> Seq<u8> {
        self@
    }

    fn as_bytes(&self) -> (r: &[u8; 32]) {
        &self.0
    }

    fn from_bytes(bytes: [u8; 32]) -> (r: StacksBlockId) {
        StacksBlockId(bytes)
    }

    fn sentinel() -> (r: StacksBlockId) {
        let r = StacksBlockId([0xffu8; 32]);
        assert(r@ =~= sentinel_bytes());
        r
    }

    fn same(&self, other: &Self) -> (r: bool) {
        *self == *other
    }

    proof fn lemma_id_bytes(a: Self, b: Self) {
        if a.id_bytes() == b.id_bytes() {
            lemma_bytes32_ext(a.0, b.0);
        }
    }
}

} // verus!
