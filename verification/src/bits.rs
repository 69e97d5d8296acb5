use crate::error::MarfError;
use crate::hash::{bytes32_at, TrieHash};
use crate::node::{
    fanout, spec_fanout, NodeSpec, TrieLeaf, TrieNode16, TrieNode256, TrieNode4, TrieNode48,
    TrieNodeType, TriePtr, MARFValue, MARF_VALUE_ENCODED_SIZE, TRIEPATH_MAX_LEN,
    TRIEPTR_SIZE, TRIE_NODE_ID_LEAF, TRIE_NODE_ID_NODE16, TRIE_NODE_ID_NODE256,
    TRIE_NODE_ID_NODE4, TRIE_NODE_ID_NODE48,
};
use vstd::prelude::*;
use vstd::slice::{slice_subrange, slice_to_vec};

verus! {

/// Bytes of a serialized node before its path: kind tag, hash, path length.
pub const NODE_HEADER_SIZE: usize = 34;

/// The four bytes of `x`, most significant first.
pub open spec fn u32_be_bytes(x: u32) -> Seq<u8> {
    seq![
        (x / 0x100_0000) as u8,
        ((x / 0x1_0000) % 0x100) as u8,
        ((x / 0x100) % 0x100) as u8,
        (x % 0x100) as u8,
    ]
}

/// The number whose four bytes, most significant first, start at `at`.
pub open spec fn u32_from_be(bytes: Seq<u8>, at: int) -> u32 {
    (bytes[at] * 0x100_0000 + bytes[at + 1] * 0x1_0000 + bytes[at + 2] * 0x100 + bytes[at
        + 3]) as u32
}

/// The number whose four bytes, least significant first, start at `at`.
pub open spec fn u32_from_le(bytes: Seq<u8>, at: int) -> u32 {
    (bytes[at] + bytes[at + 1] * 0x100 + bytes[at + 2] * 0x1_0000 + bytes[at + 3]
        * 0x100_0000) as u32
}

/// The ten bytes of a serialized pointer: kind tag, branch character,
/// target and block identifier, the two numbers most significant byte first.
pub open spec fn ptr_bytes(p: TriePtr) -> Seq<u8> {
    seq![p.id, p.chr] + u32_be_bytes(p.ptr) + u32_be_bytes(p.back_block)
}

/// The pointer serialized in the ten bytes that start at `at`.
pub open spec fn ptr_at(bytes: Seq<u8>, at: int) -> TriePtr {
    TriePtr {
        id: bytes[at],
        chr: bytes[at + 1],
        ptr: u32_from_be(bytes, at + 2),
        back_block: u32_from_be(bytes, at + 6),
    }
}

/// The serialized pointers one after the other.
pub open spec fn ptrs_bytes(ptrs: Seq<TriePtr>) -> Seq<u8> {
    Seq::new(ptrs.len() * 10, |i: int| ptr_bytes(ptrs[i / 10])[i % 10])
}

/// The `n` pointers serialized one after the other from `at` on.
pub open spec fn ptrs_at(bytes: Seq<u8>, at: int, n: nat) -> Seq<TriePtr> {
    Seq::new(n, |k: int| ptr_at(bytes, at + 10 * k))
}

/// Number of bytes after the path in a serialized node of the given kind:
/// the payload of a leaf, or the pointers of another node.
pub open spec fn spec_body_len(id: u8) -> nat {
    if id == TRIE_NODE_ID_LEAF {
        MARF_VALUE_ENCODED_SIZE as nat
    } else {
        spec_fanout(id) * 10
    }
}

/// Number of bytes of a serialized node: a function of its kind and of the
/// length of its path.
pub open spec fn node_byte_len(n: NodeSpec) -> nat {
    NODE_HEADER_SIZE as nat + n.path.len() + spec_body_len(n.id)
}

/// A serialized node: kind tag, hash, length of the path in one byte, the
/// path, then the payload of a leaf or the pointers of another node.
pub open spec fn node_bytes(n: NodeSpec, hash: Seq<u8>) -> Seq<u8> {
    seq![n.id] + hash + seq![n.path.len() as u8] + n.path + (if n.is_leaf() {
        n.data
    } else {
        ptrs_bytes(n.ptrs)
    })
}

/// Whether a serialized node starts at `at`: the bytes up to the path are
/// there, the kind tag is that of a node, the path is no longer than the
/// trie is deep, and the rest of the node is there too.
pub open spec fn node_starts_at(blob: Seq<u8>, at: int) -> bool {
    &&& 0 <= at
    &&& at + NODE_HEADER_SIZE <= blob.len()
    &&& TRIE_NODE_ID_LEAF <= blob[at] <= TRIE_NODE_ID_NODE256
    &&& blob[at + 33] <= TRIEPATH_MAX_LEN
    &&& at + NODE_HEADER_SIZE + blob[at + 33] + spec_body_len(blob[at]) <= blob.len()
}

/// The node serialized at `at`, where one starts there.
pub open spec fn node_at(blob: Seq<u8>, at: int) -> NodeSpec {
    let id = blob[at];
    let body = at + NODE_HEADER_SIZE + blob[at + 33];
    NodeSpec {
        id,
        path: blob.subrange(at + NODE_HEADER_SIZE, body),
        ptrs: if id == TRIE_NODE_ID_LEAF {
            Seq::empty()
        } else {
            ptrs_at(blob, body, spec_fanout(id))
        },
        data: if id == TRIE_NODE_ID_LEAF {
            blob.subrange(body, body + MARF_VALUE_ENCODED_SIZE)
        } else {
            Seq::empty()
        },
    }
}

/// The hash of the node serialized at `at`.
pub open spec fn hash_at(blob: Seq<u8>, at: int) -> Seq<u8> {
    blob.subrange(at + 1, at + 33)
}

/// The node and hash serialized at `at`, if a node starts there.
pub open spec fn decode_node(blob: Seq<u8>, at: int) -> Option<(NodeSpec, Seq<u8>)> {
    if node_starts_at(blob, at) {
        Some((node_at(blob, at), hash_at(blob, at)))
    } else {
        None
    }
}

/// Four big-endian bytes read back give the number they were made from.
pub proof fn lemma_u32_be_round_trip(x: u32)
    ensures
        u32_be_bytes(x).len() == 4,
        u32_from_be(u32_be_bytes(x), 0) == x,
{
}

/// Ten bytes that are those of a serialized pointer read back as the pointer.
proof fn lemma_ptr_at_of_bytes(b: Seq<u8>, at: int, p: TriePtr)
    requires
        0 <= at,
        at + 10 <= b.len(),
        b.subrange(at, at + 10) == ptr_bytes(p),
    ensures
        ptr_at(b, at) == p,
{
    let w = b.subrange(at, at + 10);
    assert(b[at] == w[0]);
    assert(b[at + 1] == w[1]);
    assert(b[at + 2] == w[2]);
    assert(b[at + 3] == w[3]);
    assert(b[at + 4] == w[4]);
    assert(b[at + 5] == w[5]);
    assert(b[at + 6] == w[6]);
    assert(b[at + 7] == w[7]);
    assert(b[at + 8] == w[8]);
    assert(b[at + 9] == w[9]);
    lemma_u32_be_round_trip(p.ptr);
    lemma_u32_be_round_trip(p.back_block);
    assert(w[2] == u32_be_bytes(p.ptr)[0]);
    assert(w[3] == u32_be_bytes(p.ptr)[1]);
    assert(w[4] == u32_be_bytes(p.ptr)[2]);
    assert(w[5] == u32_be_bytes(p.ptr)[3]);
    assert(w[6] == u32_be_bytes(p.back_block)[0]);
    assert(w[7] == u32_be_bytes(p.back_block)[1]);
    assert(w[8] == u32_be_bytes(p.back_block)[2]);
    assert(w[9] == u32_be_bytes(p.back_block)[3]);
}

/// Serialized pointers take ten bytes each, and adding a pointer adds its
/// ten bytes at the end.
pub proof fn lemma_ptrs_bytes_push(ptrs: Seq<TriePtr>, p: TriePtr)
    ensures
        ptrs_bytes(ptrs).len() == ptrs.len() * 10,
        ptrs_bytes(ptrs.push(p)) == ptrs_bytes(ptrs) + ptr_bytes(p),
{
    let a = ptrs_bytes(ptrs.push(p));
    let b = ptrs_bytes(ptrs) + ptr_bytes(p);
    assert(a.len() == b.len());
    assert forall|i: int| 0 <= i < a.len() implies a[i] == b[i] by {
        if i < ptrs.len() * 10 {
            assert(i / 10 < ptrs.len());
        } else {
            assert(i / 10 == ptrs.len());
            assert(i % 10 == i - ptrs.len() * 10);
        }
    }
    assert(a =~= b);
}

/// Serialized pointers read back as the pointers, whatever surrounds them.
pub proof fn lemma_ptrs_round_trip(pre: Seq<u8>, ptrs: Seq<TriePtr>, post: Seq<u8>)
    ensures
        ptrs_at(pre + ptrs_bytes(ptrs) + post, pre.len() as int, ptrs.len()) == ptrs,
{
    let b = pre + ptrs_bytes(ptrs) + post;
    let at = pre.len() as int;
    let got = ptrs_at(b, at, ptrs.len());
    assert forall|k: int| 0 <= k < ptrs.len() implies got[k] == ptrs[k] by {
        let p = ptrs[k];
        let lo = at + 10 * k;
        let w = b.subrange(lo, lo + 10);
        assert forall|j: int| 0 <= j < 10 implies w[j] == ptr_bytes(p)[j] by {
            assert(w[j] == ptrs_bytes(ptrs)[10 * k + j]);
            assert((10 * k + j) / 10 == k);
            assert((10 * k + j) % 10 == j);
        }
        assert(w =~= ptr_bytes(p));
        lemma_ptr_at_of_bytes(b, lo, p);
    }
    assert(got =~= ptrs);
}

/// The length of a serialized node is what `node_byte_len` says.
pub proof fn lemma_node_bytes_len(n: NodeSpec, hash: Seq<u8>)
    requires
        n.shaped(),
        hash.len() == 32,
    ensures
        node_bytes(n, hash).len() == node_byte_len(n),
        node_byte_len(n) >= NODE_HEADER_SIZE,
{
}

/// A serialized node reads back as the node and its hash, whatever
/// surrounds it.
pub proof fn lemma_node_round_trip(pre: Seq<u8>, n: NodeSpec, hash: Seq<u8>, post: Seq<u8>)
    requires
        n.encodable(),
        hash.len() == 32,
    ensures
        decode_node(pre + node_bytes(n, hash) + post, pre.len() as int) == Some((n, hash)),
{
    let enc = node_bytes(n, hash);
    let b = pre + enc + post;
    let at = pre.len() as int;
    lemma_node_bytes_len(n, hash);
    assert forall|j: int| 0 <= j < enc.len() implies b[at + j] == enc[j] by {}
    assert(b[at] == enc[0]);
    assert(enc[0] == n.id);
    assert(b[at + 33] == enc[33]);
    assert(enc[33] == n.path.len() as u8);
    assert(node_starts_at(b, at));
    let body = at + 34 + n.path.len();
    assert(hash_at(b, at) =~= hash);
    assert(b.subrange(at + 34, body) =~= n.path);
    let got = node_at(b, at);
    if n.is_leaf() {
        assert(got.data =~= n.data);
        assert(got.ptrs =~= n.ptrs);
    } else {
        let head = pre + seq![n.id] + hash + seq![n.path.len() as u8] + n.path;
        assert(b =~= head + ptrs_bytes(n.ptrs) + post);
        lemma_ptrs_round_trip(head, n.ptrs, post);
        assert(got.ptrs =~= n.ptrs);
        assert(got.data =~= n.data);
    }
    assert(got =~= n);
}

/// Appends the four bytes of `x`, most significant first.
fn push_u32_be(out: &mut Vec<u8>, x: u32)
    ensures
        final(out)@ == old(out)@ + u32_be_bytes(x),
{
    out.push((x / 0x100_0000) as u8);
    out.push(((x / 0x1_0000) % 0x100) as u8);
    out.push(((x / 0x100) % 0x100) as u8);
    out.push((x % 0x100) as u8);
    assert(out@ =~= old(out)@ + u32_be_bytes(x));
}

/// Reads the number whose four bytes, most significant first, start at `at`.
fn read_u32_be(bytes: &[u8], at: usize) -> (r: u32)
    requires
        at + 4 <= bytes@.len(),
    ensures
        r == u32_from_be(bytes@, at as int),
{
    let b0 = bytes[at] as u32;
    let b1 = bytes[at + 1] as u32;
    let b2 = bytes[at + 2] as u32;
    let b3 = bytes[at + 3] as u32;
    b0 * 0x100_0000 + b1 * 0x1_0000 + b2 * 0x100 + b3
}

/// Appends a serialized pointer.
pub fn write_ptr_bytes(out: &mut Vec<u8>, p: &TriePtr)
    ensures
        final(out)@ == old(out)@ + ptr_bytes(*p),
{
    out.push(p.id);
    out.push(p.chr);
    push_u32_be(out, p.ptr);
    push_u32_be(out, p.back_block);
    assert(out@ =~= old(out)@ + ptr_bytes(*p));
}

/// Appends the serialized pointers one after the other.
pub fn write_ptrs_bytes(out: &mut Vec<u8>, ptrs: &[TriePtr])
    ensures
        final(out)@ == old(out)@ + ptrs_bytes(ptrs@),
{
    let mut i: usize = 0;
    assert(ptrs_bytes(ptrs@.subrange(0, 0)) =~= Seq::<u8>::empty());
    assert(out@ =~= old(out)@ + Seq::<u8>::empty());
    while i < ptrs.len()
        invariant
            i <= ptrs@.len(),
            out@ == old(out)@ + ptrs_bytes(ptrs@.subrange(0, i as int)),
        decreases ptrs@.len() - i,
    {
        let ghost before = out@;
        write_ptr_bytes(out, &ptrs[i]);
        proof {
            let done = ptrs@.subrange(0, i as int);
            lemma_ptrs_bytes_push(done, ptrs@[i as int]);
            assert(done.push(ptrs@[i as int]) =~= ptrs@.subrange(0, i + 1));
            assert(out@ =~= old(out)@ + ptrs_bytes(ptrs@.subrange(0, i + 1)));
        }
        i += 1;
    }
    assert(ptrs@.subrange(0, ptrs@.len() as int) =~= ptrs@);
}

/// Reads the pointer serialized in the ten bytes that start at `at`.
fn ptr_from(bytes: &[u8], at: usize) -> (r: TriePtr)
    requires
        at + TRIEPTR_SIZE <= bytes@.len(),
    ensures
        r == ptr_at(bytes@, at as int),
{
    TriePtr {
        id: bytes[at],
        chr: bytes[at + 1],
        ptr: read_u32_be(bytes, at + 2),
        back_block: read_u32_be(bytes, at + 6),
    }
}

/// Reads the pointer serialized in the ten bytes that start at `at`.
/// Fails if the bytes end before the pointer does.
pub fn read_ptr_bytes(bytes: &[u8], at: usize) -> (r: Result<TriePtr, MarfError>)
    ensures
        r is Ok <==> at + TRIEPTR_SIZE <= bytes@.len(),
        r matches Ok(p) ==> p == ptr_at(bytes@, at as int),
        r matches Err(e) ==> e is CorruptionError,
{
    if bytes.len() < TRIEPTR_SIZE || at > bytes.len() - TRIEPTR_SIZE {
        return Err(MarfError::CorruptionError("bytes end inside a pointer".to_string()));
    }
    Ok(ptr_from(bytes, at))
}

/// Reads `N` pointers serialized one after the other from `at` on.
fn read_ptrs<const N: usize>(bytes: &[u8], at: usize) -> (r: [TriePtr; N])
    requires
        at + N * 10 <= bytes@.len(),
    ensures
        r@ == ptrs_at(bytes@, at as int, N as nat),
{
    let mut out: [TriePtr; N] = [TriePtr::default(); N];
    let n = bytes.len();
    let mut k: usize = 0;
    while k < N
        invariant
            k <= N,
            n == bytes@.len(),
            at + N * 10 <= bytes@.len(),
            forall|j: int| 0 <= j < k ==> out@[j] == ptr_at(bytes@, at + 10 * j),
        decreases N - k,
    {
        out[k] = ptr_from(bytes, at + 10 * k);
        k += 1;
    }
    assert(out@ =~= ptrs_at(bytes@, at as int, N as nat));
    out
}

/// Number of bytes the node takes when serialized.
pub fn get_node_byte_len(node: &TrieNodeType) -> (r: usize)
    requires
        node_byte_len(node@) <= usize::MAX,
    ensures
        r == node_byte_len(node@),
{
    let body = if node.is_leaf() {
        MARF_VALUE_ENCODED_SIZE
    } else {
        fanout(node.id()) * TRIEPTR_SIZE
    };
    NODE_HEADER_SIZE + node.path().len() + body
}

/// Appends the serialized node to `out`.
///
/// A node whose path is longer than the trie is deep cannot be
/// serialized: it is refused and `out` is left as it was.
pub fn write_nodetype_bytes(out: &mut Vec<u8>, node: &TrieNodeType, hash: TrieHash) -> (r: Result<
    (),
    MarfError,
>)
    ensures
        r is Ok <==> node@.path.len() <= TRIEPATH_MAX_LEN,
        r is Ok ==> node@.encodable() && final(out)@ == old(out)@ + node_bytes(node@, hash@),
        r matches Err(e) ==> e is CorruptionError && final(out)@ == old(out)@,
{
    let path = node.path();
    if path.len() > TRIEPATH_MAX_LEN {
        return Err(MarfError::CorruptionError("node path is too long".to_string()));
    }
    let ghost start = out@;
    out.push(node.id());
    let mut i: usize = 0;
    while i < 32
        invariant
            i <= 32,
            out@ == start + seq![node@.id] + hash@.subrange(0, i as int),
        decreases 32 - i,
    {
        out.push(hash.0[i]);
        assert(hash@.subrange(0, i as int).push(hash@[i as int]) =~= hash@.subrange(0, i + 1));
        i += 1;
    }
    assert(hash@.subrange(0, 32) =~= hash@);
    out.push(path.len() as u8);
    let mut j: usize = 0;
    while j < path.len()
        invariant
            j <= path@.len(),
            path@ == node@.path,
            out@ == start + seq![node@.id] + hash@ + seq![path@.len() as u8] + path@.subrange(
                0,
                j as int,
            ),
        decreases path@.len() - j,
    {
        out.push(path[j]);
        assert(path@.subrange(0, j as int).push(path@[j as int]) =~= path@.subrange(0, j + 1));
        j += 1;
    }
    assert(path@.subrange(0, path@.len() as int) =~= path@);
    let ghost head = out@;
    match node {
        TrieNodeType::Leaf(leaf) => {
            let mut k: usize = 0;
            while k < 40
                invariant
                    k <= 40,
                    out@ == head + leaf.data.0@.subrange(0, k as int),
                decreases 40 - k,
            {
                out.push(leaf.data.0[k]);
                assert(leaf.data.0@.subrange(0, k as int).push(leaf.data.0@[k as int])
                    =~= leaf.data.0@.subrange(0, k + 1));
                k += 1;
            }
            assert(leaf.data.0@.subrange(0, 40) =~= leaf.data.0@);
        },
        _ => {
            write_ptrs_bytes(out, node.ptrs());
        },
    }
    assert(out@ =~= start + node_bytes(node@, hash@));
    Ok(())
}

/// Reads the 32 bytes of a hash that start at `at`.
pub fn read_hash_bytes(blob: &[u8], at: usize) -> (r: Result<[u8; 32], MarfError>)
    ensures
        r is Ok <==> at + 32 <= blob@.len(),
        r matches Ok(h) ==> h@ == blob@.subrange(at as int, at + 32),
        r matches Err(e) ==> e is CorruptionError,
{
    if blob.len() < 32 || at > blob.len() - 32 {
        return Err(MarfError::CorruptionError("blob ends inside a hash".to_string()));
    }
    Ok(bytes32_at(blob, at))
}

/// Reads the reserved identifier of a blob: the four bytes after the
/// parent hash, least significant first.
pub fn read_block_identifier(blob: &[u8]) -> (r: Result<u32, MarfError>)
    ensures
        r is Ok <==> blob@.len() >= 36,
        r matches Ok(id) ==> id == u32_from_le(blob@, 32),
        r matches Err(e) ==> e is CorruptionError,
{
    if blob.len() < 36 {
        return Err(MarfError::CorruptionError("blob ends inside its header".to_string()));
    }
    let b0 = blob[32] as u32;
    let b1 = blob[33] as u32;
    let b2 = blob[34] as u32;
    let b3 = blob[35] as u32;
    Ok(b0 + b1 * 0x100 + b2 * 0x1_0000 + b3 * 0x100_0000)
}

/// Whether the hash of a node can be read at `at`: the kind tag and the
/// hash are there and the tag is that of a node.
pub open spec fn node_hash_readable(blob: Seq<u8>, at: int) -> bool {
    &&& 0 <= at
    &&& at + 33 <= blob.len()
    &&& TRIE_NODE_ID_LEAF <= blob[at] <= TRIE_NODE_ID_NODE256
}

/// Reads the hash of the node that `ptr` points to, without reading the
/// node: looks at the kind tag, then takes the 32 bytes after it.
pub fn read_node_hash_bytes(blob: &[u8], ptr: &TriePtr) -> (r: Result<TrieHash, MarfError>)
    ensures
        r is Ok <==> node_hash_readable(blob@, ptr.ptr as int),
        r matches Ok(h) ==> h@ == hash_at(blob@, ptr.ptr as int),
        r matches Err(e) ==> e is CorruptionError,
{
    let n = blob.len();
    if n < 33 || ptr.ptr as u64 > (n - 33) as u64 {
        return Err(MarfError::CorruptionError("blob ends inside a node".to_string()));
    }
    let at = ptr.ptr as usize;
    let id = blob[at];
    if id < TRIE_NODE_ID_LEAF || id > TRIE_NODE_ID_NODE256 {
        return Err(MarfError::CorruptionError("bad node kind".to_string()));
    }
    Ok(TrieHash(bytes32_at(blob, at + 1)))
}

/// Reads the node that `ptr` points to, and its hash.
///
/// Fails if the blob ends before the node does, if the kind tag found
/// there is not that of a node, or if the path is longer than the trie is
/// deep. Only the target of `ptr` is used.
pub fn read_nodetype(blob: &[u8], ptr: &TriePtr) -> (r: Result<(TrieNodeType, TrieHash), MarfError>)
    ensures
        r is Ok <==> node_starts_at(blob@, ptr.ptr as int),
        r matches Ok(nh) ==> decode_node(blob@, ptr.ptr as int) == Some((nh.0@, nh.1@)),
        r matches Err(e) ==> e is CorruptionError,
{
    let n = blob.len();
    if n < NODE_HEADER_SIZE || ptr.ptr as u64 > (n - NODE_HEADER_SIZE) as u64 {
        return Err(MarfError::CorruptionError("blob ends inside a node".to_string()));
    }
    let at = ptr.ptr as usize;
    let id = blob[at];
    if id < TRIE_NODE_ID_LEAF || id > TRIE_NODE_ID_NODE256 {
        return Err(MarfError::CorruptionError("bad node kind".to_string()));
    }
    let path_len = blob[at + 33] as usize;
    if path_len > TRIEPATH_MAX_LEN {
        return Err(MarfError::CorruptionError("node path is too long".to_string()));
    }
    let body_len = if id == TRIE_NODE_ID_LEAF {
        MARF_VALUE_ENCODED_SIZE
    } else {
        fanout(id) * TRIEPTR_SIZE
    };
    if path_len > n - (at + NODE_HEADER_SIZE) {
        return Err(MarfError::CorruptionError("blob ends inside a node".to_string()));
    }
    let body = at + NODE_HEADER_SIZE + path_len;
    if body_len > n - body {
        return Err(MarfError::CorruptionError("blob ends inside a node".to_string()));
    }
    let hash = TrieHash(bytes32_at(blob, at + 1));
    let path = slice_to_vec(slice_subrange(blob, at + NODE_HEADER_SIZE, body));
    let node = if id == TRIE_NODE_ID_LEAF {
        let mut data: [u8; 40] = [0u8; 40];
        let mut k: usize = 0;
        while k < 40
            invariant
                k <= 40,
                body + 40 <= blob@.len(),
                n == blob@.len(),
                forall|j: int| 0 <= j < k ==> data@[j] == blob@[body + j],
            decreases 40 - k,
        {
            data[k] = blob[body + k];
            k += 1;
        }
        assert(data@ =~= blob@.subrange(body as int, body + 40));
        TrieNodeType::Leaf(TrieLeaf { path, data: MARFValue(data) })
    } else if id == TRIE_NODE_ID_NODE4 {
        TrieNodeType::Node4(TrieNode4 { path, ptrs: read_ptrs::<4>(blob, body) })
    } else if id == TRIE_NODE_ID_NODE16 {
        TrieNodeType::Node16(TrieNode16 { path, ptrs: read_ptrs::<16>(blob, body) })
    } else if id == TRIE_NODE_ID_NODE48 {
        TrieNodeType::Node48(TrieNode48 { path, ptrs: read_ptrs::<48>(blob, body) })
    } else {
        TrieNodeType::Node256(TrieNode256 { path, ptrs: read_ptrs::<256>(blob, body) })
    };
    assert(node@ =~= node_at(blob@, at as int));
    Ok((node, hash))
}

} // verus!
