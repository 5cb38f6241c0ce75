//! The mathematical model of a bump region: four natural numbers and the
//! rule by which a request moves the cursor.
use crate::align::{
    lemma_power_of_two_exponent, lemma_round_down, lemma_round_down_is_largest, round_down,
};
use vstd::arithmetic::power2::is_pow2;
use vstd::prelude::*;

verus! {

/// A reserved block `[start, start + capacity)` together with the cursor that
/// separates the bytes still free, `[start, cursor)`, from the bytes already
/// handed out, `[cursor, start + capacity)`.
pub struct Region {
    /// Address of the lowest byte of the block.
    pub start: nat,
    /// Size of the block in bytes.
    pub capacity: nat,
    /// Boundary that the block and every handed-out address respect.
    pub alignment: nat,
    /// Lowest address handed out so far; the end of the block when nothing
    /// has been handed out yet.
    pub cursor: nat,
}

impl Region {
    /// The region right after its block was reserved: nothing handed out.
    pub open spec fn fresh(start: nat, capacity: nat, alignment: nat) -> Region {
        Region { start, capacity, alignment, cursor: start + capacity }
    }

    /// Address one past the highest byte of the block.
    pub open spec fn end(self) -> nat {
        self.start + self.capacity
    }

    /// Bytes between the cursor and the end of the block: everything that
    /// requests have consumed, padding included.
    pub open spec fn allocated(self) -> int {
        self.end() - self.cursor
    }

    /// Bytes between the start of the block and the cursor.
    pub open spec fn headroom(self) -> int {
        self.cursor - self.start
    }

    /// The invariant of a live region.
    pub open spec fn wf(self) -> bool {
        &&& is_pow2(self.alignment as int)
        &&& self.capacity > 0
        &&& self.start > 0
        &&& self.start % self.alignment == 0
        &&& self.start <= self.cursor <= self.end()
        &&& (self.cursor == self.end() || self.cursor % self.alignment == 0)
    }

    /// Where a request for `n` bytes would put the cursor: `n` bytes below the
    /// current cursor, rounded down to the alignment. Negative when `n`
    /// exceeds the cursor's own address.
    pub open spec fn target(self, n: nat) -> int {
        round_down(self.cursor - n, self.alignment as int)
    }

    /// Bytes lost to rounding when `n` bytes are requested.
    pub open spec fn padding(self, n: nat) -> int {
        (self.cursor - n) % (self.alignment as int)
    }

    /// Bytes by which a request for `n` bytes moves the cursor.
    pub open spec fn consumed(self, n: nat) -> int {
        n + self.padding(n)
    }

    /// A request for `n` bytes can be served: its target lies in the block.
    pub open spec fn fits(self, n: nat) -> bool {
        self.target(n) >= self.start
    }

    /// The region after a request for `n` bytes was served.
    pub open spec fn bump(self, n: nat) -> Region {
        Region { cursor: self.target(n) as nat, ..self }
    }

    /// The region after the first `k` requests of `sizes` were served, in
    /// order.
    pub open spec fn after(self, sizes: Seq<nat>, k: nat) -> Region
        decreases k,
    {
        if k == 0 {
            self
        } else {
            self.after(sizes, (k - 1) as nat).bump(sizes[k - 1])
        }
    }

    /// Every request of `sizes`, taken in order, fits when its turn comes.
    pub open spec fn serves(self, sizes: Seq<nat>) -> bool {
        forall|k: nat| k < sizes.len() ==> (#[trigger] self.after(sizes, k)).fits(sizes[k as int])
    }

    /// The address that request number `i` of `sizes` receives.
    pub open spec fn address(self, sizes: Seq<nat>, i: nat) -> nat {
        self.after(sizes, i + 1).cursor
    }

    /// Bytes that the first `k` requests of `sizes` consume together, each
    /// with its padding.
    pub open spec fn consumed_by(self, sizes: Seq<nat>, k: nat) -> int
        decreases k,
    {
        if k == 0 {
            0
        } else {
            self.consumed_by(sizes, (k - 1) as nat) + self.after(sizes, (k - 1) as nat).consumed(
                sizes[k - 1],
            )
        }
    }
}

/// A region whose block was just reserved is well formed, has handed out
/// nothing, holds the capacity it was reserved with, and has all of it as
/// headroom.
pub proof fn lemma_fresh_is_empty(start: nat, capacity: nat, alignment: nat)
    requires
        capacity > 0,
        is_pow2(alignment as int),
        start > 0,
        start % alignment == 0,
    ensures
        Region::fresh(start, capacity, alignment).wf(),
        Region::fresh(start, capacity, alignment).allocated() == 0,
        Region::fresh(start, capacity, alignment).capacity == capacity,
        Region::fresh(start, capacity, alignment).headroom() == capacity,
{
}

/// A request fits exactly when it asks for no more than the headroom: since
/// the block starts on the alignment, rounding never pushes a target that lies
/// in the block out of it. Put the other way, a request is refused exactly
/// when what it would consume, padding included, exceeds the headroom.
pub proof fn lemma_fits_iff_headroom(r: Region, n: nat)
    requires
        r.wf(),
    ensures
        r.fits(n) <==> n <= r.headroom(),
        r.fits(n) <==> r.consumed(n) <= r.headroom(),
{
    let a: int = r.alignment as int;
    let _ = lemma_power_of_two_exponent(a);
    lemma_round_down(r.cursor - n, a);
    if n <= r.headroom() {
        lemma_round_down_is_largest(r.cursor - n, a, r.start as int);
    }
}

/// What one served request does: the new cursor is aligned, lies in the block
/// and at least `n` bytes below the old one; the bytes consumed are `n` plus a
/// padding smaller than the alignment; the block itself is untouched; and the
/// invariant is kept.
pub proof fn lemma_bump(r: Region, n: nat)
    requires
        r.wf(),
        r.fits(n),
    ensures
        r.bump(n).wf(),
        r.bump(n).start == r.start,
        r.bump(n).capacity == r.capacity,
        r.bump(n).alignment == r.alignment,
        r.bump(n).cursor == r.target(n),
        r.bump(n).cursor % r.alignment == 0,
        r.start <= r.bump(n).cursor,
        r.bump(n).cursor + n <= r.cursor,
        0 <= r.padding(n) < r.alignment,
        r.cursor - r.bump(n).cursor == r.consumed(n),
        r.bump(n).allocated() == r.allocated() + r.consumed(n),
        r.bump(n).allocated() <= r.capacity,
{
    let _ = lemma_power_of_two_exponent(r.alignment as int);
    lemma_round_down(r.cursor - n, r.alignment as int);
}

/// However many requests are served, the block stays what it was: start,
/// capacity and alignment never change, the invariant holds, and the cursor
/// only moves down.
pub proof fn lemma_block_is_fixed(r: Region, sizes: Seq<nat>, k: nat)
    requires
        r.wf(),
        r.serves(sizes),
        k <= sizes.len(),
    ensures
        r.after(sizes, k).wf(),
        r.after(sizes, k).start == r.start,
        r.after(sizes, k).capacity == r.capacity,
        r.after(sizes, k).alignment == r.alignment,
        r.after(sizes, k).cursor <= r.cursor,
    decreases k,
{
    if k > 0 {
        let before: Region = r.after(sizes, (k - 1) as nat);
        lemma_block_is_fixed(r, sizes, (k - 1) as nat);
        assert(before.fits(sizes[k - 1]));
        lemma_bump(before, sizes[k - 1]);
    }
}

/// The cursor after `j` requests is no higher than it was after `i <= j`.
pub proof fn lemma_cursor_descends(r: Region, sizes: Seq<nat>, i: nat, j: nat)
    requires
        r.wf(),
        r.serves(sizes),
        i <= j <= sizes.len(),
    ensures
        r.after(sizes, j).cursor <= r.after(sizes, i).cursor,
    decreases j,
{
    if i < j {
        let before: Region = r.after(sizes, (j - 1) as nat);
        lemma_cursor_descends(r, sizes, i, (j - 1) as nat);
        lemma_block_is_fixed(r, sizes, (j - 1) as nat);
        assert(before.fits(sizes[j - 1]));
        lemma_bump(before, sizes[j - 1]);
    }
}

/// Every address handed out is a multiple of the alignment, and the bytes
/// that go with it lie inside the block.
pub proof fn lemma_addresses_aligned_in_block(r: Region, sizes: Seq<nat>, i: nat)
    requires
        r.wf(),
        r.serves(sizes),
        i < sizes.len(),
    ensures
        r.address(sizes, i) % r.alignment == 0,
        r.start <= r.address(sizes, i),
        r.address(sizes, i) + sizes[i as int] <= r.end(),
{
    let before: Region = r.after(sizes, i);
    lemma_block_is_fixed(r, sizes, i);
    assert(before.fits(sizes[i as int]));
    lemma_bump(before, sizes[i as int]);
}

/// No two served requests share a byte: a later request lies wholly below
/// every earlier one.
pub proof fn lemma_ranges_disjoint(r: Region, sizes: Seq<nat>, i: nat, j: nat)
    requires
        r.wf(),
        r.serves(sizes),
        i < j < sizes.len(),
    ensures
        r.address(sizes, j) + sizes[j as int] <= r.address(sizes, i),
{
    let before: Region = r.after(sizes, j);
    lemma_block_is_fixed(r, sizes, j);
    assert(before.fits(sizes[j as int]));
    lemma_bump(before, sizes[j as int]);
    lemma_cursor_descends(r, sizes, i + 1, j);
}

/// The bytes handed out grow by exactly what the served requests consume,
/// request by request its size plus its padding, and they never exceed the
/// capacity. For a fresh region, whose count starts at zero, the count after
/// the requests is that sum itself.
pub proof fn lemma_allocated_is_sum(r: Region, sizes: Seq<nat>, k: nat)
    requires
        r.wf(),
        r.serves(sizes),
        k <= sizes.len(),
    ensures
        r.after(sizes, k).allocated() == r.allocated() + r.consumed_by(sizes, k),
        r.after(sizes, k).allocated() <= r.capacity,
        r.consumed_by(sizes, k) >= 0,
    decreases k,
{
    lemma_block_is_fixed(r, sizes, k);
    if k > 0 {
        let before: Region = r.after(sizes, (k - 1) as nat);
        lemma_allocated_is_sum(r, sizes, (k - 1) as nat);
        lemma_block_is_fixed(r, sizes, (k - 1) as nat);
        assert(before.fits(sizes[k - 1]));
        lemma_bump(before, sizes[k - 1]);
    }
}

} // verus!
