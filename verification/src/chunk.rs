//! A typed segment of 64 storage cells plus the free mask that tracks them.
//!
//! The chunk is the unit the pool is built from: it owns its cells, hands
//! out the lowest-numbered free one, and flips single bits of its mask when
//! a cell is allocated or released.  Cell storage is modelled as
//! `Option` slots so that a chunk can start out with no values at all;
//! releasing a cell abandons the stored value in place, exactly as a slab
//! overwrites cells on reuse without zeroing them.

use vstd::prelude::*;

use crate::bits::cell_is_free;
use crate::bits::free_cell_count;
use crate::bits::lemma_all_free_is_ones;
use crate::bits::lemma_all_ones_all_free;
use crate::bits::lemma_all_used_is_zero;
use crate::bits::lemma_clear_bit;
use crate::bits::lemma_count_full_iff;
use crate::bits::lemma_count_update;
use crate::bits::lemma_count_zero_iff;
use crate::bits::lemma_set_bit;
use crate::bits::lemma_zero_has_no_free;

verus! {

/// Mask used to claim cell `pos`: all ones except the bit of `pos`, so that
/// `free_list & alloc_mask(pos)` occupies exactly that cell.
pub fn alloc_mask(pos: u8) -> (r: u64)
    requires
        pos < 64,
    ensures
        r == (u64::MAX ^ (1u64 << ((63 - pos) as u64))),
        forall|j: u64| j < 64 ==> cell_is_free(r, j) == (j != pos as u64),
{
    let r = u64::MAX ^ (1u64 << (63 - pos));
    proof {
        lemma_clear_bit(u64::MAX, pos as u64);
        lemma_all_ones_all_free();
        assert(u64::MAX & (u64::MAX ^ (1u64 << ((63 - (pos as u64)) as u64))) == u64::MAX ^ (1u64
            << ((63 - (pos as u64)) as u64))) by (bit_vector);
        assert forall|j: u64| j < 64 implies cell_is_free(r, j) == (j != pos as u64) by {
            assert(cell_is_free(u64::MAX, j));
            assert(cell_is_free(
                u64::MAX & (u64::MAX ^ (1u64 << ((63 - (pos as u64)) as u64))),
                j,
            ) == (cell_is_free(u64::MAX, j) && j != pos as u64));
        }
    }
    r
}

/// Mask used to release cell `pos`: only the bit of `pos`, so that
/// `free_list | free_mask(pos)` frees exactly that cell.
pub fn free_mask(pos: u8) -> (r: u64)
    requires
        pos < 64,
    ensures
        r == (1u64 << ((63 - pos) as u64)),
        forall|j: u64| j < 64 ==> cell_is_free(r, j) == (j == pos as u64),
{
    let r = 1u64 << (63 - pos);
    proof {
        lemma_set_bit(0u64, pos as u64);
        lemma_zero_has_no_free();
        assert(0u64 | (1u64 << ((63 - (pos as u64)) as u64)) == 1u64 << ((63 - (
        pos as u64)) as u64)) by (bit_vector);
        assert forall|j: u64| j < 64 implies cell_is_free(r, j) == (j == pos as u64) by {
            assert(!cell_is_free(0u64, j));
            assert(cell_is_free(0u64 | (1u64 << ((63 - (pos as u64)) as u64)), j) == (cell_is_free(
                0u64,
                j,
            ) || j == pos as u64));
        }
    }
    r
}

/// A fixed block of 64 cells of type `T` and the mask saying which of them
/// are free.  Bit `63 - i` of `free_list` (index 0 is the most significant
/// bit) is 1 while cell `i` is free.
pub struct Chunk<T> {
    /// One bit per cell; 1 means free, MSB first.
    pub free_list: u64,
    /// The 64 storage cells; an occupied cell always holds a value.
    pub inner: Vec<Option<T>>,
}

impl<T> Chunk<T> {
    /// Well-formedness: one cell per mask bit, and every occupied cell
    /// actually holds a value.
    pub open spec fn wf(self) -> bool {
        &&& self.inner.len() == 64
        &&& forall|j: u64|
            j < 64 && !cell_is_free(self.free_list, j) ==> self.inner[j as int] is Some
    }

    /// Cell `i` is free.
    #[verifier::inline]
    pub open spec fn cell_free(self, i: u64) -> bool {
        cell_is_free(self.free_list, i)
    }

    /// Number of free cells.
    pub open spec fn free_count(self) -> int {
        free_cell_count(self.free_list)
    }

    /// No cell is allocated.
    pub open spec fn all_free(self) -> bool {
        forall|j: u64| j < 64 ==> self.cell_free(j)
    }

    /// Every cell is allocated.
    pub open spec fn none_free(self) -> bool {
        forall|j: u64| j < 64 ==> !self.cell_free(j)
    }

    /// The value stored in cell `i`; meaningful while `i` is occupied.
    pub open spec fn value_at(self, i: u64) -> T {
        self.inner[i as int]->0
    }

    /// A fresh chunk: every cell free, no values stored yet.
    pub fn new() -> (r: Self)
        ensures
            r.wf(),
            r.free_list == u64::MAX,
            r.all_free(),
            r.free_count() == 64,
            r.inner.len() == 64,
    {
        let mut inner: Vec<Option<T>> = Vec::new();
        let mut i: usize = 0;
        while i < 64
            invariant
                inner.len() == i,
                i <= 64,
            decreases 64 - i,
        {
            inner.push(None);
            i += 1;
        }
        proof {
            lemma_all_ones_all_free();
            lemma_count_full_iff(u64::MAX, 64);
        }
        Chunk { free_list: u64::MAX, inner }
    }

    /// The lowest-numbered free cell, or `None` when the chunk is full.
    pub fn first_free(&self) -> (r: Option<usize>)
        ensures
            r matches Some(i) ==> i < 64 && self.cell_free(i as u64) && (forall|j: u64|
                j < i as u64 ==> !self.cell_free(j)),
            (r is None) <==> self.none_free(),
    {
        let mut i: usize = 0;
        while i < 64
            invariant
                i <= 64,
                forall|j: u64| j < i as u64 ==> !cell_is_free(self.free_list, j),
            decreases 64 - i,
        {
            if (self.free_list >> (63 - i) as u64) & 1 == 1 {
                proof {
                    assert(cell_is_free(self.free_list, i as u64));
                }
                return Some(i);
            }
            i += 1;
        }
        None
    }

    /// True when no cell has been allocated: the mask is all ones.
    pub fn empty(&self) -> (r: bool)
        ensures
            r == (self.free_list == u64::MAX),
            r == self.all_free(),
            r == (self.free_count() == 64),
    {
        proof {
            lemma_count_full_iff(self.free_list, 64);
            if self.free_list == u64::MAX {
                lemma_all_ones_all_free();
            }
            if self.all_free() {
                lemma_all_free_is_ones(self.free_list);
            }
        }
        self.free_list == u64::MAX
    }

    /// True when every cell has been allocated: the mask is all zeros.
    pub fn full(&self) -> (r: bool)
        ensures
            r == (self.free_list == 0),
            r == self.none_free(),
            r == (self.free_count() == 0),
    {
        proof {
            lemma_count_zero_iff(self.free_list, 64);
            if self.free_list == 0 {
                lemma_zero_has_no_free();
            }
            if self.none_free() {
                lemma_all_used_is_zero(self.free_list);
            }
        }
        self.free_list == 0
    }

    /// Store `value` in the free cell `pos` and mark it occupied.  Exactly
    /// one bit of the mask changes, and the free count drops by one.
    pub fn alloc_at(&mut self, pos: usize, value: T)
        requires
            old(self).wf(),
            pos < 64,
            old(self).cell_free(pos as u64),
        ensures
            final(self).wf(),
            !final(self).cell_free(pos as u64),
            final(self).value_at(pos as u64) == value,
            forall|j: u64|
                j < 64 && j != pos as u64 ==> final(self).cell_free(j) == old(self).cell_free(j),
            final(self).inner@ == old(self).inner@.update(pos as int, Some(value)),
            final(self).free_list == (old(self).free_list & (u64::MAX ^ (1u64 << ((63
                - pos) as u64)))),
            final(self).free_count() == old(self).free_count() - 1,
    {
        let slot = &mut self.inner[pos];
        *slot = Some(value);
        let mask = alloc_mask(pos as u8);
        self.free_list = self.free_list & mask;
        proof {
            lemma_clear_bit(old(self).free_list, pos as u64);
            lemma_count_update(old(self).free_list, self.free_list, pos as u64, 64);
            assert forall|j: u64|
                j < 64 && !cell_is_free(self.free_list, j) implies self.inner[j as int] is Some by {
                assert(cell_is_free(self.free_list, j) == (cell_is_free(old(self).free_list, j)
                    && j != pos as u64));
                if j != pos as u64 {
                    assert(!cell_is_free(old(self).free_list, j) ==> old(
                        self,
                    ).inner[j as int] is Some);
                    assert(self.inner[j as int] == old(self).inner[j as int]);
                }
            }
        }
    }

    /// Mark the occupied cell `pos` free again; the stored value is simply
    /// left behind, to be overwritten by the next allocation of the cell.
    /// Exactly one bit of the mask changes, and the free count rises by one.
    pub fn release_at(&mut self, pos: usize)
        requires
            old(self).wf(),
            pos < 64,
            !old(self).cell_free(pos as u64),
        ensures
            final(self).wf(),
            final(self).cell_free(pos as u64),
            forall|j: u64|
                j < 64 && j != pos as u64 ==> final(self).cell_free(j) == old(self).cell_free(j),
            final(self).inner@ == old(self).inner@,
            final(self).free_list == (old(self).free_list | (1u64 << ((63 - pos) as u64))),
            final(self).free_count() == old(self).free_count() + 1,
    {
        let mask = free_mask(pos as u8);
        self.free_list = self.free_list | mask;
        proof {
            lemma_set_bit(old(self).free_list, pos as u64);
            lemma_count_update(old(self).free_list, self.free_list, pos as u64, 64);
            assert forall|j: u64|
                j < 64 && !cell_is_free(self.free_list, j) implies self.inner[j as int] is Some by {
                assert(cell_is_free(self.free_list, j) == (cell_is_free(old(self).free_list, j)
                    || j == pos as u64));
                assert(!cell_is_free(old(self).free_list, j) ==> old(
                    self,
                ).inner[j as int] is Some);
            }
        }
    }

    /// Borrow the value stored in the occupied cell `pos`.
    pub fn read_at(&self, pos: usize) -> (r: &T)
        requires
            self.wf(),
            pos < 64,
            !self.cell_free(pos as u64),
        ensures
            *r == self.value_at(pos as u64),
    {
        let slot = &self.inner[pos];
        slot.as_ref().unwrap()
    }

    /// Overwrite the value stored in the occupied cell `pos`.  The mask does
    /// not change.
    pub fn write_at(&mut self, pos: usize, value: T)
        requires
            old(self).wf(),
            pos < 64,
            !old(self).cell_free(pos as u64),
        ensures
            final(self).wf(),
            final(self).free_list == old(self).free_list,
            final(self).inner@ == old(self).inner@.update(pos as int, Some(value)),
            final(self).value_at(pos as u64) == value,
    {
        let slot = &mut self.inner[pos];
        *slot = Some(value);
    }
}

impl<T> Default for Chunk<T> {
    /// Same as [`Chunk::new`]: a fully free chunk.
    fn default() -> (r: Self)
        ensures
            r.wf(),
            r.free_list == u64::MAX,
            r.all_free(),
            r.free_count() == 64,
    {
        Self::new()
    }
}

/// A chunk whose cells are all free — as after releasing every outstanding
/// handle, in whatever order — is back in its fully-free state: the mask is
/// all ones and all 64 cells count as free.
pub proof fn lemma_all_free_chunk_mask<T>(c: Chunk<T>)
    requires
        c.all_free(),
    ensures
        c.free_list == u64::MAX,
        c.free_count() == 64,
{
    lemma_all_free_is_ones(c.free_list);
    lemma_all_ones_all_free();
    lemma_count_full_iff(u64::MAX, 64);
}

} // verus!
