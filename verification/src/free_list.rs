//! A list of blocks in a store of fixed size: the list never grows beyond
//! its store, so keeping it takes no memory from anywhere else.

use vstd::prelude::*;
use crate::allocator::Block;

verus! {

/// The number of blocks that a list can hold.
pub const FREE_LIST_CAPACITY: usize = 1024;

/// A list of at most `FREE_LIST_CAPACITY` blocks.
pub struct FreeList {
    blocks: [Block; 1024],
    len: usize,
}

impl FreeList {
    #[verifier::type_invariant]
    spec fn inv(self) -> bool {
        self.len <= 1024
    }

    /// The blocks of the list, in order.
    pub closed spec fn view(&self) -> Seq<Block> {
        self.blocks@.take(self.len as int)
    }

    /// The empty list.
    pub fn new() -> (r: FreeList)
        ensures
            r@ == Seq::<Block>::empty(),
    {
        let r = FreeList { blocks: [Block { start: 0, end: 0 }; 1024], len: 0 };
        proof {
            assert(r@ =~= Seq::<Block>::empty());
        }
        r
    }

    /// The number of blocks in the list.
    pub fn len(&self) -> (n: usize)
        ensures
            n == self@.len(),
            n <= FREE_LIST_CAPACITY,
    {
        proof {
            use_type_invariant(self);
        }
        self.len
    }

    /// Whether the list fills its store.
    pub fn is_full(&self) -> (r: bool)
        ensures
            r == (self@.len() == FREE_LIST_CAPACITY),
    {
        proof {
            use_type_invariant(self);
        }
        self.len == FREE_LIST_CAPACITY
    }

    /// The block at position `i`.
    pub fn get(&self, i: usize) -> (block: Block)
        requires
            i < self@.len(),
        ensures
            block == self@[i as int],
    {
        proof {
            use_type_invariant(self);
        }
        self.blocks[i]
    }

    /// Puts `block` in the place of the block at position `i`.
    pub fn set(&mut self, i: usize, block: Block)
        requires
            i < old(self)@.len(),
        ensures
            final(self)@ == old(self)@.update(i as int, block),
    {
        proof {
            use_type_invariant(&*self);
        }
        self.blocks[i] = block;
        proof {
            assert(self@ =~= old(self)@.update(i as int, block));
        }
    }

    /// Puts `block` at position `i`; the blocks from there on move up by
    /// one.
    pub fn insert(&mut self, i: usize, block: Block)
        requires
            i <= old(self)@.len(),
            old(self)@.len() < FREE_LIST_CAPACITY,
        ensures
            final(self)@ == old(self)@.insert(i as int, block),
    {
        proof {
            use_type_invariant(&*self);
        }
        let len: usize = self.len;
        let mut j: usize = len;
        while j > i
            invariant
                i <= j <= len < 1024,
                self.len == len,
                len == old(self).len,
                forall|k: int| 0 <= k < j ==> self.blocks@[k] == old(self).blocks@[k],
                forall|k: int| j < k <= len ==> self.blocks@[k] == old(self).blocks@[k - 1],
            decreases j,
        {
            let moved: Block = self.blocks[j - 1];
            self.blocks[j] = moved;
            j -= 1;
        }
        self.blocks[i] = block;
        self.len = len + 1;
        proof {
            assert(self@ =~= old(self)@.insert(i as int, block));
        }
    }

    /// Takes the block at position `i` out; the blocks after it move down by
    /// one.
    pub fn remove(&mut self, i: usize) -> (block: Block)
        requires
            i < old(self)@.len(),
        ensures
            block == old(self)@[i as int],
            final(self)@ == old(self)@.remove(i as int),
    {
        proof {
            use_type_invariant(&*self);
        }
        let len: usize = self.len;
        let block: Block = self.blocks[i];
        let mut j: usize = i;
        while j + 1 < len
            invariant
                i <= j < len <= 1024,
                self.len == len,
                len == old(self).len,
                forall|k: int| 0 <= k < i ==> self.blocks@[k] == old(self).blocks@[k],
                forall|k: int| i <= k < j ==> self.blocks@[k] == old(self).blocks@[k + 1],
                forall|k: int| j <= k < len ==> self.blocks@[k] == old(self).blocks@[k],
            decreases len - j,
        {
            let moved: Block = self.blocks[j + 1];
            self.blocks[j] = moved;
            j += 1;
        }
        self.len = len - 1;
        proof {
            assert(self@ =~= old(self)@.remove(i as int));
        }
        block
    }
}

} // verus!
