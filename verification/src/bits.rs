//! Occupancy masks: an 8-bit mask read as the set of cells whose bit is set.

use vstd::prelude::*;

verus! {

/// Whether cell `i` is marked in `mask`. Cells are numbered 0 to 7; no other
/// index is ever marked.
pub open spec fn marked(mask: u8, i: int) -> bool {
    0 <= i < 8 && mask & (1u8 << (i as u8)) != 0
}

/// The set of cells that `mask` marks.
pub open spec fn cells_of(mask: u8) -> Set<int> {
    Set::new(|i: int| marked(mask, i))
}

/// Flipping the bits `a` and `b` of a mask flips exactly those two bits.
proof fn lemma_flip_two(mask: u8, a: u8, b: u8, j: u8)
    by (bit_vector)
    requires
        a < 8,
        b < 8,
        j < 8,
        a != b,
    ensures
        ((mask ^ (1u8 << a) ^ (1u8 << b)) & (1u8 << j) != 0) == (if j == a || j == b {
            mask & (1u8 << j) == 0
        } else {
            mask & (1u8 << j) != 0
        }),
{
}

/// A bit of the union of two masks is clear exactly when it is clear in both.
proof fn lemma_union_bit(x: u8, y: u8, j: u8)
    by (bit_vector)
    requires
        j < 8,
    ensures
        ((x | y) & (1u8 << j) == 0) == (x & (1u8 << j) == 0 && y & (1u8 << j) == 0),
{
}

/// Two masks share no bit exactly when none of the eight bits is set in both.
proof fn lemma_disjoint_bits(x: u8, y: u8)
    by (bit_vector)
    ensures
        (x & y == 0) == (!(x & 1 != 0 && y & 1 != 0) && !(x & 2 != 0 && y & 2 != 0) && !(x & 4 != 0
            && y & 4 != 0) && !(x & 8 != 0 && y & 8 != 0) && !(x & 16 != 0 && y & 16 != 0) && !(x
            & 32 != 0 && y & 32 != 0) && !(x & 64 != 0 && y & 64 != 0) && !(x & 128 != 0 && y & 128
            != 0)),
{
}

/// Two masks that agree on each of the eight bits are equal.
proof fn lemma_equal_bits(x: u8, y: u8)
    by (bit_vector)
    requires
        (x & 1 != 0) == (y & 1 != 0),
        (x & 2 != 0) == (y & 2 != 0),
        (x & 4 != 0) == (y & 4 != 0),
        (x & 8 != 0) == (y & 8 != 0),
        (x & 16 != 0) == (y & 16 != 0),
        (x & 32 != 0) == (y & 32 != 0),
        (x & 64 != 0) == (y & 64 != 0),
        (x & 128 != 0) == (y & 128 != 0),
    ensures
        x == y,
{
}

/// The eight single-bit masks, as the shifts that `marked` uses.
proof fn lemma_unit_masks()
    by (bit_vector)
    ensures
        1u8 << 0u8 == 1,
        1u8 << 1u8 == 2,
        1u8 << 2u8 == 4,
        1u8 << 3u8 == 8,
        1u8 << 4u8 == 16,
        1u8 << 5u8 == 32,
        1u8 << 6u8 == 64,
        1u8 << 7u8 == 128,
{
}

/// Moving a mark: with cell `from` marked and cell `to` not, flipping both
/// bits gives the mask of the same cells with `from` taken out and `to` put
/// in.
pub proof fn lemma_relocate(mask: u8, from: u8, to: u8)
    requires
        from < 8,
        to < 8,
        marked(mask, from as int),
        !marked(mask, to as int),
    ensures
        cells_of(mask ^ (1u8 << from) ^ (1u8 << to)) == cells_of(mask).remove(from as int).insert(
            to as int,
        ),
{
    let after = mask ^ (1u8 << from) ^ (1u8 << to);
    assert forall|j: int| cells_of(after).contains(j) == cells_of(mask).remove(from as int).insert(
        to as int,
    ).contains(j) by {
        if 0 <= j < 8 {
            lemma_flip_two(mask, from, to, j as u8);
        }
    }
    assert(cells_of(after) =~= cells_of(mask).remove(from as int).insert(to as int));
}

/// A cell is clear in the union of two masks exactly when neither marks it.
pub proof fn lemma_union_marked(x: u8, y: u8, i: u8)
    requires
        i < 8,
    ensures
        ((x | y) & (1u8 << i) == 0) == (!marked(x, i as int) && !marked(y, i as int)),
{
    lemma_union_bit(x, y, i);
}

/// Two masks share no bit exactly when the sets of cells they mark are
/// disjoint.
pub proof fn lemma_disjoint(x: u8, y: u8)
    ensures
        (x & y == 0) == cells_of(x).disjoint(cells_of(y)),
{
    lemma_disjoint_bits(x, y);
    lemma_unit_masks();
    if cells_of(x).disjoint(cells_of(y)) {
        assert(!(cells_of(x).contains(0) && cells_of(y).contains(0)));
        assert(!(cells_of(x).contains(1) && cells_of(y).contains(1)));
        assert(!(cells_of(x).contains(2) && cells_of(y).contains(2)));
        assert(!(cells_of(x).contains(3) && cells_of(y).contains(3)));
        assert(!(cells_of(x).contains(4) && cells_of(y).contains(4)));
        assert(!(cells_of(x).contains(5) && cells_of(y).contains(5)));
        assert(!(cells_of(x).contains(6) && cells_of(y).contains(6)));
        assert(!(cells_of(x).contains(7) && cells_of(y).contains(7)));
    }
}

/// A mask is determined by the set of cells it marks.
pub proof fn lemma_cells_determine_mask(x: u8, y: u8)
    requires
        cells_of(x) == cells_of(y),
    ensures
        x == y,
{
    lemma_unit_masks();
    assert(cells_of(x).contains(0) == marked(x, 0) && cells_of(y).contains(0) == marked(y, 0));
    assert(cells_of(x).contains(1) == marked(x, 1) && cells_of(y).contains(1) == marked(y, 1));
    assert(cells_of(x).contains(2) == marked(x, 2) && cells_of(y).contains(2) == marked(y, 2));
    assert(cells_of(x).contains(3) == marked(x, 3) && cells_of(y).contains(3) == marked(y, 3));
    assert(cells_of(x).contains(4) == marked(x, 4) && cells_of(y).contains(4) == marked(y, 4));
    assert(cells_of(x).contains(5) == marked(x, 5) && cells_of(y).contains(5) == marked(y, 5));
    assert(cells_of(x).contains(6) == marked(x, 6) && cells_of(y).contains(6) == marked(y, 6));
    assert(cells_of(x).contains(7) == marked(x, 7) && cells_of(y).contains(7) == marked(y, 7));
    lemma_equal_bits(x, y);
}

/// A mask marks finitely many cells, at most eight.
pub proof fn lemma_cells_finite(mask: u8)
    ensures
        cells_of(mask).finite(),
        cells_of(mask).len() <= 8,
{
    vstd::set_lib::lemma_int_range(0, 8);
    assert(cells_of(mask).subset_of(vstd::set_lib::set_int_range(0, 8)));
    vstd::set_lib::lemma_len_subset(cells_of(mask), vstd::set_lib::set_int_range(0, 8));
}

} // verus!
