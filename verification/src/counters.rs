use crate::node::{is_backptr, spec_is_backptr, TriePtr, TRIE_NODE_ID_LEAF};
use vstd::prelude::*;

verus! {

/// Tallies of the reads and writes that went through a trie or a store.
///
/// Each tally wraps around to 0 after `u64::MAX`.
#[derive(Clone, Copy, Debug, PartialEq, Eq, Structural)]
pub struct Counters {
    pub read_count: u64,
    pub read_backptr_count: u64,
    pub read_node_count: u64,
    pub read_leaf_count: u64,
    pub write_count: u64,
    pub write_node_count: u64,
    pub write_leaf_count: u64,
}

/// `n + 1`, or 0 after `u64::MAX`.
pub open spec fn spec_bump(n: u64) -> u64 {
    if n == u64::MAX {
        0
    } else {
        (n + 1) as u64
    }
}

/// `n + 1`, or 0 after `u64::MAX`.
fn bump(n: u64) -> (r: u64)
    ensures
        r == spec_bump(n),
{
    n.wrapping_add(1)
}

impl Counters {
    /// All tallies at 0.
    pub open spec fn spec_zero() -> Counters {
        Counters {
            read_count: 0,
            read_backptr_count: 0,
            read_node_count: 0,
            read_leaf_count: 0,
            write_count: 0,
            write_node_count: 0,
            write_leaf_count: 0,
        }
    }

    /// The tallies after one more read through a pointer with kind tag
    /// `id`: the read counts as a back-pointer read if the tag has the
    /// back-pointer mark, else as a leaf read if the tag is that of a
    /// leaf, else as a node read.
    pub open spec fn after_read(self, id: u8) -> Counters {
        let c = Counters { read_count: spec_bump(self.read_count), ..self };
        if spec_is_backptr(id) {
            Counters { read_backptr_count: spec_bump(self.read_backptr_count), ..c }
        } else if id == TRIE_NODE_ID_LEAF {
            Counters { read_leaf_count: spec_bump(self.read_leaf_count), ..c }
        } else {
            Counters { read_node_count: spec_bump(self.read_node_count), ..c }
        }
    }

    /// The tallies after reads through the given pointers, one after the
    /// other.
    pub open spec fn after_reads_through(self, ptrs: Seq<TriePtr>) -> Counters
        decreases ptrs.len(),
    {
        if ptrs.len() == 0 {
            self
        } else {
            self.after_reads_through(ptrs.drop_last()).after_read(ptrs.last().id)
        }
    }

    /// Reading through some pointers and then through others is reading
    /// through all of them.
    pub proof fn lemma_reads_through_concat(self, a: Seq<TriePtr>, b: Seq<TriePtr>)
        ensures
            self.after_reads_through(a).after_reads_through(b) == self.after_reads_through(a + b),
        decreases b.len(),
    {
        if b.len() == 0 {
            assert(a + b =~= a);
        } else {
            self.lemma_reads_through_concat(a, b.drop_last());
            assert((a + b).drop_last() =~= a + b.drop_last());
            assert((a + b).last() == b.last());
        }
    }

    /// Reading through one pointer is one read.
    pub proof fn lemma_reads_through_one(self, p: TriePtr)
        ensures
            self.after_reads_through(seq![p]) == self.after_read(p.id),
    {
        assert(seq![p].drop_last() =~= Seq::<TriePtr>::empty());
        assert(self.after_reads_through(Seq::<TriePtr>::empty()) == self);
    }

    /// The tallies after one more write, of a leaf or of another node.
    pub open spec fn after_write(self, leaf: bool) -> Counters {
        let c = Counters { write_count: spec_bump(self.write_count), ..self };
        if leaf {
            Counters { write_leaf_count: spec_bump(self.write_leaf_count), ..c }
        } else {
            Counters { write_node_count: spec_bump(self.write_node_count), ..c }
        }
    }

    /// All tallies at 0.
    pub fn zero() -> (r: Counters)
        ensures
            r == Counters::spec_zero(),
    {
        Counters {
            read_count: 0,
            read_backptr_count: 0,
            read_node_count: 0,
            read_leaf_count: 0,
            write_count: 0,
            write_node_count: 0,
            write_leaf_count: 0,
        }
    }

    /// Counts a read through a pointer with kind tag `id`.
    pub fn count_read(&mut self, id: u8)
        ensures
            *final(self) == old(self).after_read(id),
    {
        self.read_count = bump(self.read_count);
        if is_backptr(id) {
            self.read_backptr_count = bump(self.read_backptr_count);
        } else if id == TRIE_NODE_ID_LEAF {
            self.read_leaf_count = bump(self.read_leaf_count);
        } else {
            self.read_node_count = bump(self.read_node_count);
        }
    }

    /// Counts a write, of a leaf or of another node.
    pub fn count_write(&mut self, leaf: bool)
        ensures
            *final(self) == old(self).after_write(leaf),
    {
        self.write_count = bump(self.write_count);
        if leaf {
            self.write_leaf_count = bump(self.write_leaf_count);
        } else {
            self.write_node_count = bump(self.write_node_count);
        }
    }

    /// Hands out the totals of reads and writes, and sets both to 0.
    pub fn stats(&mut self) -> (r: (u64, u64))
        ensures
            r == (old(self).read_count, old(self).write_count),
            *final(self) == (Counters { read_count: 0, write_count: 0, ..*old(self) }),
    {
        let r = self.read_count;
        let w = self.write_count;
        self.read_count = 0;
        self.write_count = 0;
        (r, w)
    }

    /// Hands out the tallies of node reads, back-pointer reads and node
    /// writes, and sets the three to 0.
    pub fn node_stats(&mut self) -> (r: (u64, u64, u64))
        ensures
            r == (
                old(self).read_node_count,
                old(self).read_backptr_count,
                old(self).write_node_count,
            ),
            *final(self) == (Counters {
                read_node_count: 0,
                read_backptr_count: 0,
                write_node_count: 0,
                ..*old(self)
            }),
    {
        let nr = self.read_node_count;
        let br = self.read_backptr_count;
        let nw = self.write_node_count;
        self.read_node_count = 0;
        self.read_backptr_count = 0;
        self.write_node_count = 0;
        (nr, br, nw)
    }

    /// Hands out the tallies of leaf reads and leaf writes, and sets both
    /// to 0.
    pub fn leaf_stats(&mut self) -> (r: (u64, u64))
        ensures
            r == (old(self).read_leaf_count, old(self).write_leaf_count),
            *final(self) == (Counters { read_leaf_count: 0, write_leaf_count: 0, ..*old(self) }),
    {
        let lr = self.read_leaf_count;
        let lw = self.write_leaf_count;
        self.read_leaf_count = 0;
        self.write_leaf_count = 0;
        (lr, lw)
    }
}

} // verus!
