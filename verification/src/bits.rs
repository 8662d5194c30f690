//! Bit-level model of a chunk's free mask.
//!
//! A chunk tracks its 64 cells in one `u64`: bit `i` (counting the most
//! significant bit as index 0) is 1 when cell `i` is free and 0 when it is
//! occupied.  The spec functions here give that reading a name, and the
//! lemmas supply the algebra the allocator needs: what clearing or setting
//! one bit does to every cell, and how the per-bit view relates to the free
//! cell count and to the two extreme masks (all ones, all zeros).

use vstd::prelude::*;

verus! {

/// Cell `i` of `mask` is free: the bit `63 - i` (MSB-first convention) is set.
pub open spec fn cell_is_free(mask: u64, i: u64) -> bool
    recommends
        i < 64,
{
    (mask >> ((63 - i) as u64)) & 1u64 == 1u64
}

/// Number of free cells among indices `0 <= i < n`.
pub open spec fn free_cells_below(mask: u64, n: int) -> int
    recommends
        n <= 64,
    decreases n,
{
    if n <= 0 {
        0
    } else {
        free_cells_below(mask, n - 1) + if cell_is_free(mask, (n - 1) as u64) {
            1int
        } else {
            0int
        }
    }
}

/// Number of free cells in the whole mask.
pub open spec fn free_cell_count(mask: u64) -> int {
    free_cells_below(mask, 64)
}

/// The all-zero mask has no free cell.
pub proof fn lemma_zero_has_no_free()
    by (bit_vector)
    ensures
        forall|j: u64| j < 64 ==> !cell_is_free(0u64, j),
{
}

/// The all-ones mask has every cell free.
pub proof fn lemma_all_ones_all_free()
    by (bit_vector)
    ensures
        forall|j: u64| j < 64 ==> cell_is_free(u64::MAX, j),
{
}

/// The top `n` cells determine the top `n` bits: masks that agree on cells
/// `0..n` agree once both are shifted right by `64 - n`.
proof fn lemma_high_bits_eq(m1: u64, m2: u64, n: u64)
    requires
        1 <= n <= 64,
        forall|j: u64| j < n ==> cell_is_free(m1, j) == cell_is_free(m2, j),
    ensures
        m1 >> ((64 - n) as u64) == m2 >> ((64 - n) as u64),
    decreases n,
{
    let s = (64 - n) as u64;
    if n == 1 {
        assert(cell_is_free(m1, 0) == cell_is_free(m2, 0));
        assert(m1 >> 63 == m2 >> 63) by (bit_vector)
            requires
                ((m1 >> 63) & 1u64 == 1u64) == ((m2 >> 63) & 1u64 == 1u64),
        ;
    } else {
        lemma_high_bits_eq(m1, m2, (n - 1) as u64);
        assert(cell_is_free(m1, (n - 1) as u64) == cell_is_free(m2, (n - 1) as u64));
        assert(((63 - ((n - 1) as u64)) as u64) == s);
        assert(((64 - ((n - 1) as u64)) as u64) == (s + 1) as u64);
        assert(m1 >> s == m2 >> s) by (bit_vector)
            requires
                s <= 62,
                m1 >> ((s + 1) as u64) == m2 >> ((s + 1) as u64),
                ((m1 >> s) & 1u64 == 1u64) == ((m2 >> s) & 1u64 == 1u64),
        ;
    }
}

/// Extensionality: two masks whose 64 cells agree are the same mask.
pub proof fn lemma_bit_ext(m1: u64, m2: u64)
    requires
        forall|j: u64| j < 64 ==> cell_is_free(m1, j) == cell_is_free(m2, j),
    ensures
        m1 == m2,
{
    lemma_high_bits_eq(m1, m2, 64);
    assert(m1 >> 0u64 == m1 && m2 >> 0u64 == m2) by (bit_vector);
}

/// A mask with no free cell is the all-zero mask.
pub proof fn lemma_all_used_is_zero(mask: u64)
    requires
        forall|j: u64| j < 64 ==> !cell_is_free(mask, j),
    ensures
        mask == 0,
{
    lemma_zero_has_no_free();
    lemma_bit_ext(mask, 0);
}

/// A mask with every cell free is the all-ones mask.
pub proof fn lemma_all_free_is_ones(mask: u64)
    requires
        forall|j: u64| j < 64 ==> cell_is_free(mask, j),
    ensures
        mask == u64::MAX,
{
    lemma_all_ones_all_free();
    lemma_bit_ext(mask, u64::MAX);
}

/// Clearing the bit of cell `pos` occupies exactly that cell: afterwards a
/// cell is free iff it was free before and is not `pos`.
pub proof fn lemma_clear_bit(mask: u64, pos: u64)
    by (bit_vector)
    requires
        pos < 64,
    ensures
        forall|j: u64|
            j < 64 ==> cell_is_free(mask & (u64::MAX ^ (1u64 << ((63 - pos) as u64))), j) == (
            cell_is_free(mask, j) && j != pos),
{
}

/// Setting the bit of cell `pos` frees exactly that cell: afterwards a cell
/// is free iff it was free before or is `pos`.
pub proof fn lemma_set_bit(mask: u64, pos: u64)
    by (bit_vector)
    requires
        pos < 64,
    ensures
        forall|j: u64|
            j < 64 ==> cell_is_free(mask | (1u64 << ((63 - pos) as u64)), j) == (cell_is_free(
                mask,
                j,
            ) || j == pos),
{
}

/// The free count over `0..n` lies between 0 and `n`.
pub proof fn lemma_count_bounds(mask: u64, n: int)
    requires
        0 <= n <= 64,
    ensures
        0 <= free_cells_below(mask, n),
        free_cells_below(mask, n) <= n,
    decreases n,
{
    if n > 0 {
        lemma_count_bounds(mask, n - 1);
    }
}

/// Changing a mask at one cell changes the free count by at most that cell's
/// contribution: plus one when `pos` becomes free, minus one when it becomes
/// occupied, nothing otherwise.
pub proof fn lemma_count_update(m1: u64, m2: u64, pos: u64, n: int)
    requires
        pos < 64,
        n <= 64,
        forall|j: u64| j < 64 && j != pos ==> cell_is_free(m1, j) == cell_is_free(m2, j),
    ensures
        free_cells_below(m2, n) == free_cells_below(m1, n) + (if (pos as int) < n
            && cell_is_free(m2, pos) && !cell_is_free(m1, pos) {
            1int
        } else if (pos as int) < n && !cell_is_free(m2, pos) && cell_is_free(m1, pos) {
            -1int
        } else {
            0int
        }),
    decreases n,
{
    if n > 0 {
        lemma_count_update(m1, m2, pos, n - 1);
        if (pos as int) != n - 1 {
            assert(cell_is_free(m1, (n - 1) as u64) == cell_is_free(m2, (n - 1) as u64));
        }
    }
}

/// The free count over `0..n` reaches `n` exactly when every one of those
/// cells is free.
pub proof fn lemma_count_full_iff(mask: u64, n: int)
    requires
        0 <= n <= 64,
    ensures
        free_cells_below(mask, n) == n <==> (forall|j: u64| (j as int) < n ==> cell_is_free(mask, j)),
    decreases n,
{
    if n > 0 {
        lemma_count_bounds(mask, n - 1);
        lemma_count_full_iff(mask, n - 1);
        if free_cells_below(mask, n) == n {
            assert(free_cells_below(mask, n - 1) == n - 1);
            assert(cell_is_free(mask, (n - 1) as u64));
            assert forall|j: u64| (j as int) < n implies cell_is_free(mask, j) by {
                if (j as int) < n - 1 {
                } else {
                    assert(j == (n - 1) as u64);
                }
            }
        }
        if forall|j: u64| (j as int) < n ==> cell_is_free(mask, j) {
            assert(forall|j: u64| (j as int) < n - 1 ==> cell_is_free(mask, j));
            assert(cell_is_free(mask, (n - 1) as u64));
        }
    }
}

/// The free count over `0..n` is zero exactly when every one of those cells
/// is occupied.
pub proof fn lemma_count_zero_iff(mask: u64, n: int)
    requires
        0 <= n <= 64,
    ensures
        free_cells_below(mask, n) == 0 <==> (forall|j: u64| (j as int) < n ==> !cell_is_free(mask, j)),
    decreases n,
{
    if n > 0 {
        lemma_count_bounds(mask, n - 1);
        lemma_count_zero_iff(mask, n - 1);
        if free_cells_below(mask, n) == 0 {
            assert(free_cells_below(mask, n - 1) == 0);
            assert(!cell_is_free(mask, (n - 1) as u64));
            assert forall|j: u64| (j as int) < n implies !cell_is_free(mask, j) by {
                if (j as int) < n - 1 {
                } else {
                    assert(j == (n - 1) as u64);
                }
            }
        }
        if forall|j: u64| (j as int) < n ==> !cell_is_free(mask, j) {
            assert(forall|j: u64| (j as int) < n - 1 ==> !cell_is_free(mask, j));
            assert(!cell_is_free(mask, (n - 1) as u64));
        }
    }
}

} // verus!
