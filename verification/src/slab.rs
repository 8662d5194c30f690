//! The pool and the owning handle.
//!
//! A [`SlabAllocator`] owns a fixed number of chunks and serves every
//! allocation from the first chunk that still has a free cell, taking the
//! lowest-numbered free cell of that chunk.  A successful allocation yields
//! a [`Box`]: an owning handle naming the cell by stable (chunk, cell)
//! indices.  The value is read and written by resolving the handle through
//! the pool, and releasing the handle — which consumes it, so it can happen
//! only once — is the sole way the cell becomes free again.

use vstd::prelude::*;

use crate::bits::free_cell_count;
use crate::bits::lemma_count_bounds;
use crate::bits::lemma_count_zero_iff;
use crate::chunk::Chunk;

verus! {

/// An owning handle to one allocated cell: chunk index and cell index into
/// the pool that issued it.  There is no way to free a cell except to hand
/// the handle back to [`SlabAllocator::release`], which consumes it, so a
/// release can neither be forgotten by a verified caller nor done twice.
pub struct Box<T> {
    /// Index of the owning chunk within the pool.
    pub chunk: usize,
    /// Index of the owned cell within that chunk.
    pub cell: usize,
    /// Ties the handle to the element type of its pool.
    pub marker: core::marker::PhantomData<T>,
}

/// Total number of free cells over a sequence of chunks.
pub open spec fn chunks_free_total<T>(s: Seq<Chunk<T>>) -> int
    decreases s.len(),
{
    if s.len() <= 0 {
        0
    } else {
        chunks_free_total(s.drop_last()) + free_cell_count(s.last().free_list)
    }
}

/// The total free count lies between 0 and 64 cells per chunk.
pub proof fn lemma_total_bounds<T>(s: Seq<Chunk<T>>)
    ensures
        0 <= chunks_free_total(s),
        chunks_free_total(s) <= 64 * s.len(),
    decreases s.len(),
{
    if s.len() > 0 {
        lemma_total_bounds(s.drop_last());
        lemma_count_bounds(s.last().free_list, 64);
    }
}

/// Appending a chunk adds its free count to the total.
pub proof fn lemma_total_push<T>(s: Seq<Chunk<T>>, c: Chunk<T>)
    ensures
        chunks_free_total(s.push(c)) == chunks_free_total(s) + free_cell_count(c.free_list),
{
    assert(s.push(c).drop_last() =~= s);
    assert(s.push(c).last() == c);
}

/// Replacing one chunk moves the total by the difference of the two free
/// counts.
pub proof fn lemma_total_update<T>(s: Seq<Chunk<T>>, i: int, c: Chunk<T>)
    requires
        0 <= i < s.len(),
    ensures
        chunks_free_total(s.update(i, c)) == chunks_free_total(s) + free_cell_count(c.free_list)
            - free_cell_count(s[i].free_list),
    decreases s.len(),
{
    if i == s.len() - 1 {
        assert(s.update(i, c).drop_last() =~= s.drop_last());
        assert(s.update(i, c).last() == c);
    } else {
        assert(s.update(i, c).drop_last() =~= s.drop_last().update(i, c));
        assert(s.update(i, c).last() == s.last());
        lemma_total_update(s.drop_last(), i, c);
    }
}

/// The total free count is zero exactly when every chunk is entirely
/// occupied.
pub proof fn lemma_total_zero_iff_all_full<T>(s: Seq<Chunk<T>>)
    ensures
        chunks_free_total(s) == 0 <==> (forall|k: int| 0 <= k < s.len() ==> s[k].none_free()),
    decreases s.len(),
{
    if s.len() > 0 {
        lemma_total_zero_iff_all_full(s.drop_last());
        lemma_total_bounds(s.drop_last());
        lemma_count_bounds(s.last().free_list, 64);
        lemma_count_zero_iff(s.last().free_list, 64);
        if chunks_free_total(s) == 0 {
            assert forall|k: int| 0 <= k < s.len() implies s[k].none_free() by {
                if k < s.len() - 1 {
                    assert(s.drop_last()[k] == s[k]);
                } else {
                    assert(s[k] == s.last());
                }
            }
        }
        if forall|k: int| 0 <= k < s.len() ==> s[k].none_free() {
            assert(forall|k: int|
                0 <= k < s.drop_last().len() ==> s.drop_last()[k] == s[k]);
            assert(s.last() == s[s.len() - 1]);
            assert(s.last().none_free());
        }
    }
}

/// A pool of `N` chunks of 64 cells each for values of type `T`.  Chunks are
/// scanned in index order, so lower-numbered chunks fill up first.
pub struct SlabAllocator<T, const N: usize> {
    /// The chunks, in scan order; the length is fixed at `N` for the life of
    /// the pool.
    pub chunks: Vec<Chunk<T>>,
}

impl<T, const N: usize> SlabAllocator<T, N> {
    /// Well-formedness: exactly `N` chunks, each well formed.
    pub open spec fn wf(self) -> bool {
        &&& self.chunks.len() == N
        &&& forall|k: int| 0 <= k < N ==> self.chunks[k].wf()
    }

    /// `b` names an occupied cell of this pool: the handle is one this pool
    /// issued and has not yet released.
    pub open spec fn handle_valid(self, b: Box<T>) -> bool {
        &&& b.chunk < self.chunks.len()
        &&& b.cell < 64
        &&& !self.chunks[b.chunk as int].cell_free(b.cell as u64)
    }

    /// The value stored in the cell named by `b`.
    pub open spec fn value_of(self, b: Box<T>) -> T {
        self.chunks[b.chunk as int].value_at(b.cell as u64)
    }

    /// Every cell of every chunk is allocated: the pool is exhausted.
    pub open spec fn all_full(self) -> bool {
        forall|k: int| 0 <= k < self.chunks.len() ==> self.chunks[k].none_free()
    }

    /// Total number of free cells over the whole pool.
    pub open spec fn free_total(self) -> int {
        chunks_free_total(self.chunks@)
    }

    /// A new pool: `N` fully free chunks.
    pub fn new() -> (r: Self)
        ensures
            r.wf(),
            forall|k: int| 0 <= k < N ==> r.chunks[k].free_list == u64::MAX,
            forall|k: int| 0 <= k < N ==> r.chunks[k].all_free(),
            r.free_total() == 64 * (N as int),
    {
        Self::default()
    }

    /// Allocate `value`, returning an owning handle to the cell that now
    /// holds it, or `None` exactly when every chunk is full.  The cell is
    /// the lowest-numbered free cell of the lowest-numbered non-full chunk;
    /// nothing else in the pool changes.
    pub fn boxed(&mut self, value: T) -> (r: Option<Box<T>>)
        requires
            old(self).wf(),
        ensures
            final(self).wf(),
            (r is None) <==> old(self).all_full(),
            r is None ==> *final(self) == *old(self),
            r matches Some(b) ==> ({
                &&& b.chunk < N
                &&& b.cell < 64
                &&& forall|k: int| 0 <= k < b.chunk as int ==> old(self).chunks[k].none_free()
                &&& old(self).chunks[b.chunk as int].cell_free(b.cell as u64)
                &&& forall|j: u64|
                    j < b.cell as u64 ==> !old(self).chunks[b.chunk as int].cell_free(j)
                &&& final(self).handle_valid(b)
                &&& final(self).value_of(b) == value
                &&& forall|k: int|
                    0 <= k < N && k != b.chunk as int ==> final(self).chunks[k] == old(
                        self,
                    ).chunks[k]
                &&& forall|j: u64|
                    j < 64 && j != b.cell as u64 ==> final(self).chunks[b.chunk as int].cell_free(
                        j,
                    ) == old(self).chunks[b.chunk as int].cell_free(j)
                &&& final(self).chunks[b.chunk as int].inner@ == old(
                    self,
                ).chunks[b.chunk as int].inner@.update(b.cell as int, Some(value))
                &&& final(self).chunks[b.chunk as int].free_count() == old(
                    self,
                ).chunks[b.chunk as int].free_count() - 1
                &&& final(self).free_total() == old(self).free_total() - 1
            }),
    {
        match self.find_chunk_with_space() {
            None => None,
            Some(offset) => {
                let chunk = &mut self.chunks[offset];
                let cell = match chunk.first_free() {
                    Some(c) => c,
                    None => vstd::pervasive::unreached(),
                };
                chunk.alloc_at(cell, value);
                proof {
                    lemma_total_update(
                        old(self).chunks@,
                        offset as int,
                        self.chunks@[offset as int],
                    );
                }
                Some(Box { chunk: offset, cell, marker: core::marker::PhantomData })
            },
        }
    }

    /// Index of the first chunk with at least one free cell, or `None` when
    /// the pool is exhausted.  All chunks before the returned one are full.
    pub fn find_chunk_with_space(&self) -> (r: Option<usize>)
        ensures
            r matches Some(i) ==> i < self.chunks.len() && !self.chunks[i as int].none_free() && (
            forall|k: int| 0 <= k < i as int ==> self.chunks[k].none_free()),
            (r is None) <==> self.all_full(),
    {
        let n = self.chunks.len();
        let mut i: usize = 0;
        while i < n
            invariant
                n == self.chunks.len(),
                i <= n,
                forall|k: int| 0 <= k < i as int ==> self.chunks[k].none_free(),
            decreases n - i,
        {
            if !self.chunks[i].full() {
                return Some(i);
            }
            i += 1;
        }
        None
    }

    /// Shared borrow of the chunk at `offset`; `None` for an out-of-range
    /// index.
    pub fn borrow_chunk(&self, offset: usize) -> (r: Option<&Chunk<T>>)
        ensures
            offset < self.chunks.len() ==> (r matches Some(c) && *c == self.chunks[offset as int]),
            offset >= self.chunks.len() ==> r is None,
    {
        if offset < self.chunks.len() {
            Some(&self.chunks[offset])
        } else {
            None
        }
    }

    /// Mutable borrow of the chunk at `offset`; `None` for an out-of-range
    /// index.
    pub fn borrow_chunk_mut(&mut self, offset: usize) -> (r: Option<&mut Chunk<T>>)
        ensures
            offset < old(self).chunks.len() ==> (r matches Some(c) && *c == old(
                self,
            ).chunks[offset as int] && final(self).chunks@ == old(self).chunks@.update(
                offset as int,
                *final(c),
            )),
            offset >= old(self).chunks.len() ==> (r is None && *final(self) == *old(self)),
    {
        if offset < self.chunks.len() {
            Some(&mut self.chunks[offset])
        } else {
            None
        }
    }

    /// Borrow the value owned by handle `b`, resolving through the pool.
    pub fn read(&self, b: &Box<T>) -> (r: &T)
        requires
            self.wf(),
            self.handle_valid(*b),
        ensures
            *r == self.value_of(*b),
    {
        let chunk = &self.chunks[b.chunk];
        chunk.read_at(b.cell)
    }

    /// Overwrite the value owned by handle `b`.  No free bit changes.
    pub fn write(&mut self, b: &Box<T>, value: T)
        requires
            old(self).wf(),
            old(self).handle_valid(*b),
        ensures
            final(self).wf(),
            final(self).handle_valid(*b),
            final(self).value_of(*b) == value,
            forall|k: int|
                0 <= k < N && k != b.chunk as int ==> final(self).chunks[k] == old(self).chunks[k],
            final(self).chunks[b.chunk as int].free_list == old(
                self,
            ).chunks[b.chunk as int].free_list,
            final(self).chunks[b.chunk as int].inner@ == old(
                self,
            ).chunks[b.chunk as int].inner@.update(b.cell as int, Some(value)),
            final(self).free_total() == old(self).free_total(),
    {
        let chunk = &mut self.chunks[b.chunk];
        chunk.write_at(b.cell, value);
        proof {
            lemma_total_update(old(self).chunks@, b.chunk as int, self.chunks@[b.chunk as int]);
        }
    }

    /// Release the cell owned by `b` back to its chunk.  The handle is
    /// consumed: destruction of the handle is the one reclamation path, and
    /// it cannot be repeated.  Exactly one free bit is set; the abandoned
    /// value stays in place until the cell is reused.
    pub fn release(&mut self, b: Box<T>)
        requires
            old(self).wf(),
            old(self).handle_valid(b),
        ensures
            final(self).wf(),
            final(self).chunks[b.chunk as int].cell_free(b.cell as u64),
            forall|k: int|
                0 <= k < N && k != b.chunk as int ==> final(self).chunks[k] == old(self).chunks[k],
            forall|j: u64|
                j < 64 && j != b.cell as u64 ==> final(self).chunks[b.chunk as int].cell_free(j)
                    == old(self).chunks[b.chunk as int].cell_free(j),
            final(self).chunks[b.chunk as int].inner@ == old(self).chunks[b.chunk as int].inner@,
            final(self).chunks[b.chunk as int].free_list == (old(
                self,
            ).chunks[b.chunk as int].free_list | (1u64 << ((63 - b.cell) as u64))),
            final(self).chunks[b.chunk as int].free_count() == old(
                self,
            ).chunks[b.chunk as int].free_count() + 1,
            final(self).free_total() == old(self).free_total() + 1,
    {
        let chunk = &mut self.chunks[b.chunk];
        chunk.release_at(b.cell);
        proof {
            lemma_total_update(old(self).chunks@, b.chunk as int, self.chunks@[b.chunk as int]);
        }
    }
}

impl<T, const N: usize> Default for SlabAllocator<T, N> {
    /// A pool of `N` fully free chunks.
    fn default() -> (r: Self)
        ensures
            r.wf(),
            forall|k: int| 0 <= k < N ==> r.chunks[k].free_list == u64::MAX,
            forall|k: int| 0 <= k < N ==> r.chunks[k].all_free(),
            r.free_total() == 64 * (N as int),
    {
        let mut chunks: Vec<Chunk<T>> = Vec::new();
        let mut i: usize = 0;
        while i < N
            invariant
                chunks.len() == i,
                i <= N,
                forall|k: int| 0 <= k < i as int ==> chunks[k].wf(),
                forall|k: int| 0 <= k < i as int ==> chunks[k].free_list == u64::MAX,
                forall|k: int| 0 <= k < i as int ==> chunks[k].all_free(),
                chunks_free_total(chunks@) == 64 * (i as int),
            decreases N - i,
        {
            let c = Chunk::new();
            proof {
                lemma_total_push(chunks@, c);
            }
            chunks.push(c);
            i += 1;
        }
        SlabAllocator { chunks }
    }
}

/// Capacity law: a well-formed pool never has more than `N * 64` free
/// cells, so no more than `N * 64` allocations can succeed between
/// construction and exhaustion.
pub proof fn lemma_pool_capacity<T, const N: usize>(s: SlabAllocator<T, N>)
    requires
        s.wf(),
    ensures
        0 <= s.free_total() <= 64 * (N as int),
{
    lemma_total_bounds(s.chunks@);
}

/// Exhaustion law: allocation fails exactly when no free cell remains, and
/// that is exactly when the free total has been driven to zero.
pub proof fn lemma_exhausted_iff_no_free_cells<T, const N: usize>(s: SlabAllocator<T, N>)
    requires
        s.wf(),
    ensures
        s.all_full() <==> s.free_total() == 0,
{
    lemma_total_zero_iff_all_full(s.chunks@);
}

} // verus!

