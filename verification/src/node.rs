use vstd::prelude::*;

verus! {

/// Longest radix path a node can carry, in bytes: the depth of the trie.
pub const TRIEPATH_MAX_LEN: usize = 32;

/// Number of bytes in a leaf's payload.
pub const MARF_VALUE_ENCODED_SIZE: usize = 40;

/// Number of bytes in a serialized child pointer.
pub const TRIEPTR_SIZE: usize = 10;

/// Kind tag of an empty child slot.
pub const TRIE_NODE_ID_EMPTY: u8 = 0;

/// Kind tag of a leaf.
pub const TRIE_NODE_ID_LEAF: u8 = 1;

/// Kind tag of a node with 4 child slots.
pub const TRIE_NODE_ID_NODE4: u8 = 2;

/// Kind tag of a node with 16 child slots.
pub const TRIE_NODE_ID_NODE16: u8 = 3;

/// Kind tag of a node with 48 child slots.
pub const TRIE_NODE_ID_NODE48: u8 = 4;

/// Kind tag of a node with 256 child slots.
pub const TRIE_NODE_ID_NODE256: u8 = 5;

/// The kinds of node, and the kind of an empty child slot.
#[derive(Clone, Copy, Debug, PartialEq, Eq, Structural)]
pub enum TrieNodeID {
    Empty,
    Leaf,
    Node4,
    Node16,
    Node48,
    Node256,
}

impl TrieNodeID {
    /// The one-byte tag that stands for this kind.
    pub open spec fn spec_tag(self) -> u8 {
        match self {
            TrieNodeID::Empty => TRIE_NODE_ID_EMPTY,
            TrieNodeID::Leaf => TRIE_NODE_ID_LEAF,
            TrieNodeID::Node4 => TRIE_NODE_ID_NODE4,
            TrieNodeID::Node16 => TRIE_NODE_ID_NODE16,
            TrieNodeID::Node48 => TRIE_NODE_ID_NODE48,
            TrieNodeID::Node256 => TRIE_NODE_ID_NODE256,
        }
    }

    /// The one-byte tag that stands for this kind.
    #[verifier::when_used_as_spec(spec_tag)]
    pub fn tag(self) -> (r: u8)
        ensures
            r == self.spec_tag(),
    {
        match self {
            TrieNodeID::Empty => TRIE_NODE_ID_EMPTY,
            TrieNodeID::Leaf => TRIE_NODE_ID_LEAF,
            TrieNodeID::Node4 => TRIE_NODE_ID_NODE4,
            TrieNodeID::Node16 => TRIE_NODE_ID_NODE16,
            TrieNodeID::Node48 => TRIE_NODE_ID_NODE48,
            TrieNodeID::Node256 => TRIE_NODE_ID_NODE256,
        }
    }

    /// The kind a tag stands for, if any. The back-pointer bit is not
    /// looked through: a tag with that bit set stands for no kind.
    pub fn from_tag(tag: u8) -> (r: Option<TrieNodeID>)
        ensures
            r is Some <==> tag <= TRIE_NODE_ID_NODE256,
            r matches Some(k) ==> k.spec_tag() == tag,
    {
        if tag == TRIE_NODE_ID_EMPTY {
            Some(TrieNodeID::Empty)
        } else if tag == TRIE_NODE_ID_LEAF {
            Some(TrieNodeID::Leaf)
        } else if tag == TRIE_NODE_ID_NODE4 {
            Some(TrieNodeID::Node4)
        } else if tag == TRIE_NODE_ID_NODE16 {
            Some(TrieNodeID::Node16)
        } else if tag == TRIE_NODE_ID_NODE48 {
            Some(TrieNodeID::Node48)
        } else if tag == TRIE_NODE_ID_NODE256 {
            Some(TrieNodeID::Node256)
        } else {
            None
        }
    }
}

/// Whether a kind tag carries the back-pointer mark (its high bit).
pub open spec fn spec_is_backptr(id: u8) -> bool {
    id >= 0x80
}

/// Whether a kind tag carries the back-pointer mark (its high bit).
#[verifier::when_used_as_spec(spec_is_backptr)]
pub fn is_backptr(id: u8) -> (r: bool)
    ensures
        r == spec_is_backptr(id),
{
    id >= 0x80
}

/// The tag with the back-pointer mark set.
pub open spec fn spec_set_backptr(id: u8) -> u8 {
    if id >= 0x80 {
        id
    } else {
        (id + 0x80) as u8
    }
}

/// The tag with the back-pointer mark set.
#[verifier::when_used_as_spec(spec_set_backptr)]
pub fn set_backptr(id: u8) -> (r: u8)
    ensures
        r == spec_set_backptr(id),
        spec_is_backptr(r),
        spec_clear_backptr(r) == spec_clear_backptr(id),
{
    if id >= 0x80 {
        id
    } else {
        id + 0x80
    }
}

/// The tag with the back-pointer mark cleared.
pub open spec fn spec_clear_backptr(id: u8) -> u8 {
    if id >= 0x80 {
        (id - 0x80) as u8
    } else {
        id
    }
}

/// The tag with the back-pointer mark cleared.
#[verifier::when_used_as_spec(spec_clear_backptr)]
pub fn clear_backptr(id: u8) -> (r: u8)
    ensures
        r == spec_clear_backptr(id),
        !spec_is_backptr(r),
{
    if id >= 0x80 {
        id - 0x80
    } else {
        id
    }
}

/// Pointer from a node to one of its children.
///
/// While a trie is in memory, `ptr` is the child's index in the trie's
/// node array. In a serialized trie, `ptr` is the byte offset of the child
/// in the blob. A back-pointer (kind tag with the high bit set) instead
/// names a node of an earlier block: `back_block` is that block's
/// identifier and `ptr` an offset in that block's blob.
#[derive(Clone, Copy, Debug, PartialEq, Eq, Structural)]
pub struct TriePtr {
    pub id: u8,
    pub chr: u8,
    pub ptr: u32,
    pub back_block: u32,
}

impl Default for TriePtr {
    fn default() -> (r: TriePtr)
        ensures
            r == TriePtr::spec_empty(),
    {
        TriePtr { id: TRIE_NODE_ID_EMPTY, chr: 0, ptr: 0, back_block: 0 }
    }
}

impl TriePtr {
    /// The pointer of an empty slot.
    pub open spec fn spec_empty() -> TriePtr {
        TriePtr { id: TRIE_NODE_ID_EMPTY, chr: 0, ptr: 0, back_block: 0 }
    }

    /// Whether the pointer leads to a node of the same trie: its slot is
    /// neither empty nor a back-pointer.
    pub open spec fn is_live(self) -> bool {
        self.id != TRIE_NODE_ID_EMPTY && !spec_is_backptr(self.id)
    }

    /// The same pointer with its target replaced.
    pub open spec fn with_ptr(self, ptr: u32) -> TriePtr {
        TriePtr { ptr, ..self }
    }

    /// What `from_backptr` returns.
    pub open spec fn spec_from_backptr(&self) -> TriePtr {
        TriePtr { id: spec_clear_backptr(self.id), chr: self.chr, ptr: self.ptr, back_block: 0 }
    }

    /// A pointer into the same block.
    pub fn new(id: u8, chr: u8, ptr: u32) -> (r: TriePtr)
        ensures
            r == (TriePtr { id, chr, ptr, back_block: 0 }),
    {
        TriePtr { id, chr, ptr, back_block: 0 }
    }

    /// The kind tag, with the back-pointer mark if any.
    pub fn id(&self) -> (r: u8)
        ensures
            r == self.id,
    {
        self.id
    }

    /// The branch character.
    pub fn chr(&self) -> (r: u8)
        ensures
            r == self.chr,
    {
        self.chr
    }

    /// The target: an array index or a byte offset.
    pub fn ptr(&self) -> (r: u32)
        ensures
            r == self.ptr,
    {
        self.ptr
    }

    /// The identifier of the block a back-pointer leads into.
    pub fn back_block(&self) -> (r: u32)
        ensures
            r == self.back_block,
    {
        self.back_block
    }

    /// The pointer to follow once the block it names is selected: the same
    /// slot without the back-pointer mark and without a block identifier.
    #[verifier::when_used_as_spec(spec_from_backptr)]
    pub fn from_backptr(&self) -> (r: TriePtr)
        ensures
            r == self.spec_from_backptr(),
    {
        TriePtr { id: clear_backptr(self.id), chr: self.chr, ptr: self.ptr, back_block: 0 }
    }

    /// Whether the pointer leads to a node of the same trie.
    pub fn live(&self) -> (r: bool)
        ensures
            r == self.is_live(),
    {
        self.id != TRIE_NODE_ID_EMPTY && !is_backptr(self.id)
    }
}

/// Payload of a leaf.
#[derive(Clone, Copy, Debug, PartialEq, Eq)]
pub struct MARFValue(pub [u8; 40]);

/// What a node holds, as mathematical values.
///
/// `id` is the node's kind tag. A leaf has no child slots and 40 bytes of
/// `data`; another node has as many slots as its kind says and no `data`.
#[verifier::ext_equal]
pub struct NodeSpec {
    pub id: u8,
    pub path: Seq<u8>,
    pub ptrs: Seq<TriePtr>,
    pub data: Seq<u8>,
}

/// Number of child slots of a node of the given kind; 0 for other tags.
pub open spec fn spec_fanout(id: u8) -> nat {
    if id == TRIE_NODE_ID_NODE4 {
        4
    } else if id == TRIE_NODE_ID_NODE16 {
        16
    } else if id == TRIE_NODE_ID_NODE48 {
        48
    } else if id == TRIE_NODE_ID_NODE256 {
        256
    } else {
        0
    }
}

/// Number of child slots of a node of the given kind; 0 for other tags.
pub fn fanout(id: u8) -> (r: usize)
    ensures
        r == spec_fanout(id),
{
    if id == TRIE_NODE_ID_NODE4 {
        4
    } else if id == TRIE_NODE_ID_NODE16 {
        16
    } else if id == TRIE_NODE_ID_NODE48 {
        48
    } else if id == TRIE_NODE_ID_NODE256 {
        256
    } else {
        0
    }
}

impl NodeSpec {
    /// Whether the parts fit the kind: a known kind tag, as many slots as
    /// the kind has, and a payload exactly where the kind is a leaf.
    pub open spec fn shaped(self) -> bool {
        &&& TRIE_NODE_ID_LEAF <= self.id <= TRIE_NODE_ID_NODE256
        &&& self.ptrs.len() == spec_fanout(self.id)
        &&& self.data.len() == (if self.id == TRIE_NODE_ID_LEAF {
            MARF_VALUE_ENCODED_SIZE as nat
        } else {
            0
        })
    }

    /// Whether the node can be serialized: it is shaped and its path is no
    /// longer than the trie is deep.
    pub open spec fn encodable(self) -> bool {
        self.shaped() && self.path.len() <= TRIEPATH_MAX_LEN
    }

    /// Whether the node is a leaf.
    pub open spec fn is_leaf(self) -> bool {
        self.id == TRIE_NODE_ID_LEAF
    }

    /// The same node with its child slots replaced.
    pub open spec fn with_ptrs(self, ptrs: Seq<TriePtr>) -> NodeSpec {
        NodeSpec { ptrs, ..self }
    }
}

/// A copy of a byte vector.
fn copy_bytes(v: &Vec<u8>) -> (r: Vec<u8>)
    ensures
        r@ == v@,
{
    let mut out: Vec<u8> = Vec::with_capacity(v.len());
    let mut i: usize = 0;
    while i < v.len()
        invariant
            i <= v.len(),
            out@ == v@.subrange(0, i as int),
        decreases v.len() - i,
    {
        out.push(v[i]);
        i += 1;
    }
    assert(v@.subrange(0, v@.len() as int) =~= v@);
    out
}

/// Leaf: the end of a path, with the value stored there.
#[derive(Debug, PartialEq, Eq)]
pub struct TrieLeaf {
    pub path: Vec<u8>,
    pub data: MARFValue,
}

/// Inner node with 4 child slots.
#[derive(Debug, PartialEq, Eq)]
pub struct TrieNode4 {
    pub path: Vec<u8>,
    pub ptrs: [TriePtr; 4],
}

/// Inner node with 16 child slots.
#[derive(Debug, PartialEq, Eq)]
pub struct TrieNode16 {
    pub path: Vec<u8>,
    pub ptrs: [TriePtr; 16],
}

/// Inner node with 48 child slots.
#[derive(Debug, PartialEq, Eq)]
pub struct TrieNode48 {
    pub path: Vec<u8>,
    pub ptrs: [TriePtr; 48],
}

/// Inner node with 256 child slots.
#[derive(Debug, PartialEq, Eq)]
pub struct TrieNode256 {
    pub path: Vec<u8>,
    pub ptrs: [TriePtr; 256],
}

impl View for TrieLeaf {
    type V = NodeSpec;

    open spec fn view(&self) -> NodeSpec {
        NodeSpec {
            id: TRIE_NODE_ID_LEAF,
            path: self.path@,
            ptrs: Seq::empty(),
            data: self.data.0@,
        }
    }
}

impl View for TrieNode4 {
    type V = NodeSpec;

    open spec fn view(&self) -> NodeSpec {
        NodeSpec {
            id: TRIE_NODE_ID_NODE4,
            path: self.path@,
            ptrs: self.ptrs@,
            data: Seq::empty(),
        }
    }
}

impl View for TrieNode16 {
    type V = NodeSpec;

    open spec fn view(&self) -> NodeSpec {
        NodeSpec {
            id: TRIE_NODE_ID_NODE16,
            path: self.path@,
            ptrs: self.ptrs@,
            data: Seq::empty(),
        }
    }
}

impl View for TrieNode48 {
    type V = NodeSpec;

    open spec fn view(&self) -> NodeSpec {
        NodeSpec {
            id: TRIE_NODE_ID_NODE48,
            path: self.path@,
            ptrs: self.ptrs@,
            data: Seq::empty(),
        }
    }
}

impl View for TrieNode256 {
    type V = NodeSpec;

    open spec fn view(&self) -> NodeSpec {
        NodeSpec {
            id: TRIE_NODE_ID_NODE256,
            path: self.path@,
            ptrs: self.ptrs@,
            data: Seq::empty(),
        }
    }
}

impl Clone for TrieLeaf {
    fn clone(&self) -> (r: Self)
        ensures
            r@ == self@,
    {
        TrieLeaf { path: copy_bytes(&self.path), data: self.data }
    }
}

impl Clone for TrieNode4 {
    fn clone(&self) -> (r: Self)
        ensures
            r@ == self@,
    {
        TrieNode4 { path: copy_bytes(&self.path), ptrs: self.ptrs }
    }
}

impl Clone for TrieNode16 {
    fn clone(&self) -> (r: Self)
        ensures
            r@ == self@,
    {
        TrieNode16 { path: copy_bytes(&self.path), ptrs: self.ptrs }
    }
}

impl Clone for TrieNode48 {
    fn clone(&self) -> (r: Self)
        ensures
            r@ == self@,
    {
        TrieNode48 { path: copy_bytes(&self.path), ptrs: self.ptrs }
    }
}

impl Clone for TrieNode256 {
    fn clone(&self) -> (r: Self)
        ensures
            r@ == self@,
    {
        TrieNode256 { path: copy_bytes(&self.path), ptrs: self.ptrs }
    }
}

impl TrieLeaf {
    /// A leaf with the given path and value. The value is padded with
    /// zero bytes up to its fixed size.
    pub fn new(path: &Vec<u8>, data: &Vec<u8>) -> (r: TrieLeaf)
        requires
            data@.len() <= MARF_VALUE_ENCODED_SIZE,
        ensures
            r@.id == TRIE_NODE_ID_LEAF,
            r@.path == path@,
            r@.ptrs.len() == 0,
            r@.data == data@ + Seq::new(
                (MARF_VALUE_ENCODED_SIZE - data@.len()) as nat,
                |i: int| 0u8,
            ),
            r@.shaped(),
    {
        let mut bytes: [u8; 40] = [0u8; 40];
        let mut i: usize = 0;
        while i < data.len()
            invariant
                i <= data@.len() <= 40,
                forall|k: int| 0 <= k < i ==> bytes@[k] == data@[k],
                forall|k: int| i <= k < 40 ==> bytes@[k] == 0,
            decreases data.len() - i,
        {
            bytes[i] = data[i];
            i += 1;
        }
        let r = TrieLeaf { path: copy_bytes(path), data: MARFValue(bytes) };
        assert(r@.data =~= data@ + Seq::new((40 - data@.len()) as nat, |i: int| 0u8));
        r
    }
}

impl TrieNode4 {
    /// A node with the given path and all slots empty.
    pub fn new(path: &Vec<u8>) -> (r: TrieNode4)
        ensures
            r@.id == TRIE_NODE_ID_NODE4,
            r@.path == path@,
            r@.ptrs == Seq::new(4, |i: int| TriePtr::spec_empty()),
            r@.shaped(),
    {
        let r = TrieNode4 { path: copy_bytes(path), ptrs: [TriePtr::default(); 4] };
        assert(r@.ptrs =~= Seq::new(4, |i: int| TriePtr::spec_empty()));
        r
    }
}

impl TrieNode16 {
    /// A node with the given path and all slots empty.
    pub fn new(path: &Vec<u8>) -> (r: TrieNode16)
        ensures
            r@.id == TRIE_NODE_ID_NODE16,
            r@.path == path@,
            r@.ptrs == Seq::new(16, |i: int| TriePtr::spec_empty()),
            r@.shaped(),
    {
        let r = TrieNode16 { path: copy_bytes(path), ptrs: [TriePtr::default(); 16] };
        assert(r@.ptrs =~= Seq::new(16, |i: int| TriePtr::spec_empty()));
        r
    }
}

impl TrieNode48 {
    /// A node with the given path and all slots empty.
    pub fn new(path: &Vec<u8>) -> (r: TrieNode48)
        ensures
            r@.id == TRIE_NODE_ID_NODE48,
            r@.path == path@,
            r@.ptrs == Seq::new(48, |i: int| TriePtr::spec_empty()),
            r@.shaped(),
    {
        let r = TrieNode48 { path: copy_bytes(path), ptrs: [TriePtr::default(); 48] };
        assert(r@.ptrs =~= Seq::new(48, |i: int| TriePtr::spec_empty()));
        r
    }
}

impl TrieNode256 {
    /// A node with the given path and all slots empty.
    pub fn new(path: &Vec<u8>) -> (r: TrieNode256)
        ensures
            r@.id == TRIE_NODE_ID_NODE256,
            r@.path == path@,
            r@.ptrs == Seq::new(256, |i: int| TriePtr::spec_empty()),
            r@.shaped(),
    {
        let r = TrieNode256 { path: copy_bytes(path), ptrs: [TriePtr::default(); 256] };
        assert(r@.ptrs =~= Seq::new(256, |i: int| TriePtr::spec_empty()));
        r
    }
}

/// A node of any kind.
#[derive(Debug, PartialEq, Eq)]
pub enum TrieNodeType {
    Node4(TrieNode4),
    Node16(TrieNode16),
    Node48(TrieNode48),
    Node256(TrieNode256),
    Leaf(TrieLeaf),
}

impl View for TrieNodeType {
    type V = NodeSpec;

    open spec fn view(&self) -> NodeSpec {
        match self {
            TrieNodeType::Node4(n) => n@,
            TrieNodeType::Node16(n) => n@,
            TrieNodeType::Node48(n) => n@,
            TrieNodeType::Node256(n) => n@,
            TrieNodeType::Leaf(n) => n@,
        }
    }
}

impl Clone for TrieNodeType {
    fn clone(&self) -> (r: Self)
        ensures
            r@ == self@,
    {
        match self {
            TrieNodeType::Node4(n) => TrieNodeType::Node4(n.clone()),
            TrieNodeType::Node16(n) => TrieNodeType::Node16(n.clone()),
            TrieNodeType::Node48(n) => TrieNodeType::Node48(n.clone()),
            TrieNodeType::Node256(n) => TrieNodeType::Node256(n.clone()),
            TrieNodeType::Leaf(n) => TrieNodeType::Leaf(n.clone()),
        }
    }
}

impl TrieNodeType {
    /// Every node has a known kind, the slots of its kind, and a payload
    /// exactly if it is a leaf.
    pub proof fn lemma_shaped(&self)
        ensures
            self@.shaped(),
    {
    }

    /// Whether the node is a leaf.
    pub fn is_leaf(&self) -> (r: bool)
        ensures
            r == self@.is_leaf(),
    {
        match self {
            TrieNodeType::Leaf(_) => true,
            _ => false,
        }
    }

    /// Whether the node has 256 child slots.
    pub fn is_node256(&self) -> (r: bool)
        ensures
            r == (self@.id == TRIE_NODE_ID_NODE256),
    {
        match self {
            TrieNodeType::Node256(_) => true,
            _ => false,
        }
    }

    /// The node's kind tag.
    pub fn id(&self) -> (r: u8)
        ensures
            r == self@.id,
    {
        match self {
            TrieNodeType::Node4(_) => TRIE_NODE_ID_NODE4,
            TrieNodeType::Node16(_) => TRIE_NODE_ID_NODE16,
            TrieNodeType::Node48(_) => TRIE_NODE_ID_NODE48,
            TrieNodeType::Node256(_) => TRIE_NODE_ID_NODE256,
            TrieNodeType::Leaf(_) => TRIE_NODE_ID_LEAF,
        }
    }

    /// The node's radix path.
    pub fn path(&self) -> (r: &Vec<u8>)
        ensures
            r@ == self@.path,
    {
        match self {
            TrieNodeType::Node4(n) => &n.path,
            TrieNodeType::Node16(n) => &n.path,
            TrieNodeType::Node48(n) => &n.path,
            TrieNodeType::Node256(n) => &n.path,
            TrieNodeType::Leaf(n) => &n.path,
        }
    }

    /// Number of child slots: none for a leaf.
    pub fn num_ptrs(&self) -> (r: usize)
        ensures
            r == self@.ptrs.len(),
    {
        match self {
            TrieNodeType::Node4(_) => 4,
            TrieNodeType::Node16(_) => 16,
            TrieNodeType::Node48(_) => 48,
            TrieNodeType::Node256(_) => 256,
            TrieNodeType::Leaf(_) => 0,
        }
    }

    /// The child slots in order: none for a leaf.
    pub fn ptrs(&self) -> (r: &[TriePtr])
        ensures
            r@ == self@.ptrs,
    {
        match self {
            TrieNodeType::Node4(n) => n.ptrs.as_slice(),
            TrieNodeType::Node16(n) => n.ptrs.as_slice(),
            TrieNodeType::Node48(n) => n.ptrs.as_slice(),
            TrieNodeType::Node256(n) => n.ptrs.as_slice(),
            TrieNodeType::Leaf(_) => {
                let none: &[TriePtr; 0] = &[];
                let r = none.as_slice();
                assert(r@ =~= self@.ptrs);
                r
            },
        }
    }

    /// Replaces the target of the child slot `k`; the slot's kind tag,
    /// branch character and block identifier stay.
    pub fn set_ptr(&mut self, k: usize, ptr: u32)
        requires
            k < old(self)@.ptrs.len(),
        ensures
            final(self)@ == old(self)@.with_ptrs(
                old(self)@.ptrs.update(k as int, old(self)@.ptrs[k as int].with_ptr(ptr)),
            ),
    {
        match self {
            TrieNodeType::Node4(n) => {
                let mut p = n.ptrs[k];
                p.ptr = ptr;
                n.ptrs[k] = p;
            },
            TrieNodeType::Node16(n) => {
                let mut p = n.ptrs[k];
                p.ptr = ptr;
                n.ptrs[k] = p;
            },
            TrieNodeType::Node48(n) => {
                let mut p = n.ptrs[k];
                p.ptr = ptr;
                n.ptrs[k] = p;
            },
            TrieNodeType::Node256(n) => {
                let mut p = n.ptrs[k];
                p.ptr = ptr;
                n.ptrs[k] = p;
            },
            TrieNodeType::Leaf(_) => {},
        }
    }
}

/// What the node kinds have in common.
pub trait TrieNode {
    /// What the node holds.
    spec fn node_spec(&self) -> NodeSpec;

    /// The node as a value of the type that covers all kinds.
    fn as_trie_node_type(&self) -> (r: TrieNodeType)
        ensures
            r@ == self.node_spec(),
    ;
}

impl TrieNode for TrieLeaf {
    open spec fn node_spec(&self) -> NodeSpec {
        self@
    }

    fn as_trie_node_type(&self) -> (r: TrieNodeType) {
        TrieNodeType::Leaf(self.clone())
    }
}

impl TrieNode for TrieNode4 {
    open spec fn node_spec(&self) -> NodeSpec {
        self@
    }

    fn as_trie_node_type(&self) -> (r: TrieNodeType) {
        TrieNodeType::Node4(self.clone())
    }
}

impl TrieNode for TrieNode16 {
    open spec fn node_spec(&self) -> NodeSpec {
        self@
    }

    fn as_trie_node_type(&self) -> (r: TrieNodeType) {
        TrieNodeType::Node16(self.clone())
    }
}

impl TrieNode for TrieNode48 {
    open spec fn node_spec(&self) -> NodeSpec {
        self@
    }

    fn as_trie_node_type(&self) -> (r: TrieNodeType) {
        TrieNodeType::Node48(self.clone())
    }
}

impl TrieNode for TrieNode256 {
    open spec fn node_spec(&self) -> NodeSpec {
        self@
    }

    fn as_trie_node_type(&self) -> (r: TrieNodeType) {
        TrieNodeType::Node256(self.clone())
    }
}

} // verus!
