//! The executable bump arena: machine-word bookkeeping for one reserved block.
use crate::align::align_down;
use crate::region::{lemma_bump, lemma_fits_iff_headroom, Region};
use vstd::arithmetic::power2::is_pow2;
use vstd::pervasive::unreached;
use vstd::prelude::*;

verus! {

/// Why a request could not be served. Either way the arena is left as it was.
#[derive(Debug, Clone, Copy, PartialEq, Eq)]
pub enum AllocError {
    /// The request is larger than the cursor's own address, so that no
    /// address lies that far below the cursor.
    Underflow,
    /// The rounded target lies below the start of the block.
    Exhausted {
        /// Bytes the arena would have handed out in total, had the request
        /// been served.
        requested: usize,
        /// Bytes the block holds.
        capacity: usize,
    },
}

/// A reserved block, as it is described to whoever reserves and frees memory.
#[derive(Debug, Clone, Copy, PartialEq, Eq)]
pub struct Block {
    /// Address of the lowest byte.
    pub start: usize,
    /// Size in bytes.
    pub capacity: usize,
    /// Boundary on which `start` lies.
    pub alignment: usize,
}

/// A bump arena over one reserved block. Requests are served from the end of
/// the block downward; nothing is ever handed back one by one.
#[derive(Debug)]
pub struct LeakyBumpAlloc {
    start: usize,
    end: usize,
    ptr: usize,
    capacity: usize,
    alignment: usize,
}

impl View for LeakyBumpAlloc {
    type V = Region;

    closed spec fn view(&self) -> Region {
        Region {
            start: self.start as nat,
            capacity: self.capacity as nat,
            alignment: self.alignment as nat,
            cursor: self.ptr as nat,
        }
    }
}

impl LeakyBumpAlloc {
    #[verifier::type_invariant]
    spec fn inv(self) -> bool {
        &&& self@.wf()
        &&& self.end == self.start + self.capacity
    }

    /// Sets up the books for a block of `capacity` bytes that was reserved at
    /// address `start`, on a multiple of `alignment`. Nothing is handed out
    /// yet: the cursor stands at the end of the block.
    pub fn new(capacity: usize, alignment: usize, start: usize) -> (arena: LeakyBumpAlloc)
        requires
            capacity > 0,
            is_pow2(alignment as int),
            start != 0,
            start % alignment == 0,
            start + capacity <= usize::MAX,
        ensures
            arena@ == Region::fresh(start as nat, capacity as nat, alignment as nat),
            arena@.wf(),
            arena@.allocated() == 0,
            arena@.capacity == capacity,
    {
        let end: usize = start + capacity;
        LeakyBumpAlloc { start, end, ptr: end, capacity, alignment }
    }

    /// Ends the arena and names the block that has to go back to the system:
    /// the one the arena was set up with. Every address it has handed out is
    /// dead from here on.
    pub fn clear(self) -> (block: Block)
        ensures
            block.start == self@.start,
            block.capacity == self@.capacity,
            block.alignment == self@.alignment,
    {
        Block { start: self.start, capacity: self.capacity, alignment: self.alignment }
    }

    /// Serves a request for `num_bytes` bytes that is known to fit, and
    /// returns the address of its first byte. The bytes
    /// `[addr, addr + num_bytes)` lie in the block, below everything handed
    /// out before. A caller that cannot show that the request fits asks
    /// `try_allocate` instead.
    pub fn allocate(&mut self, num_bytes: usize) -> (addr: usize)
        requires
            old(self)@.fits(num_bytes as nat),
        ensures
            final(self)@ == old(self)@.bump(num_bytes as nat),
            final(self)@.wf(),
            final(self)@.capacity == old(self)@.capacity,
            addr == final(self)@.cursor,
            addr as nat % old(self)@.alignment == 0,
            old(self)@.start <= addr,
            addr + num_bytes <= old(self)@.cursor,
            final(self)@.allocated() == old(self)@.allocated() + old(self)@.consumed(
                num_bytes as nat,
            ),
    {
        proof {
            use_type_invariant(&*self);
            lemma_bump(self@, num_bytes as nat);
        }
        match self.try_allocate(num_bytes) {
            Ok(addr) => addr,
            Err(_) => unreached(),
        }
    }

    /// Serves a request for `num_bytes` bytes if it fits, as `allocate` does;
    /// otherwise leaves the arena untouched and says why it does not fit.
    pub fn try_allocate(&mut self, num_bytes: usize) -> (res: Result<usize, AllocError>)
        ensures
            final(self)@.wf(),
            final(self)@.capacity == old(self)@.capacity,
            match res {
                Ok(addr) => {
                    &&& old(self)@.fits(num_bytes as nat)
                    &&& final(self)@ == old(self)@.bump(num_bytes as nat)
                    &&& addr == final(self)@.cursor
                    &&& addr as nat % old(self)@.alignment == 0
                    &&& old(self)@.start <= addr
                    &&& addr + num_bytes <= old(self)@.cursor
                    &&& final(self)@.allocated() == old(self)@.allocated() + old(self)@.consumed(
                        num_bytes as nat,
                    )
                },
                Err(AllocError::Underflow) => {
                    &&& num_bytes > old(self)@.cursor
                    &&& final(self)@ == old(self)@
                },
                Err(AllocError::Exhausted { requested, capacity }) => {
                    &&& num_bytes <= old(self)@.cursor
                    &&& !old(self)@.fits(num_bytes as nat)
                    &&& requested == old(self)@.end() - old(self)@.target(num_bytes as nat)
                    &&& capacity == old(self)@.capacity
                    &&& final(self)@ == old(self)@
                },
            },
    {
        proof {
            use_type_invariant(&*self);
            lemma_fits_iff_headroom(self@, num_bytes as nat);
        }
        match self.ptr.checked_sub(num_bytes) {
            None => Err(AllocError::Underflow),
            Some(lowered) => {
                let new_ptr: usize = align_down(lowered, self.alignment);
                if new_ptr < self.start {
                    Err(
                        AllocError::Exhausted {
                            requested: self.end - new_ptr,
                            capacity: self.capacity,
                        },
                    )
                } else {
                    proof {
                        lemma_bump(self@, num_bytes as nat);
                    }
                    self.ptr = new_ptr;
                    Ok(new_ptr)
                }
            },
        }
    }

    /// Bytes handed out so far, padding included.
    pub fn allocated(&self) -> (n: usize)
        ensures
            n == self@.allocated(),
            n <= self@.capacity,
            self@.wf(),
    {
        proof {
            use_type_invariant(self);
        }
        self.end - self.ptr
    }

    /// Size of the block in bytes.
    pub fn capacity(&self) -> (n: usize)
        ensures
            n == self@.capacity,
            self@.wf(),
    {
        proof {
            use_type_invariant(self);
        }
        self.capacity
    }

    /// Address one past the highest byte of the block.
    pub fn end(&self) -> (addr: usize)
        ensures
            addr == self@.end(),
            self@.wf(),
    {
        proof {
            use_type_invariant(self);
        }
        self.end
    }

    /// The cursor: the lowest address handed out so far, or the end of the
    /// block while nothing has been handed out.
    pub fn ptr(&self) -> (addr: usize)
        ensures
            addr == self@.cursor,
            self@.wf(),
    {
        proof {
            use_type_invariant(self);
        }
        self.ptr
    }
}

} // verus!
