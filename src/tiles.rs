//! The bit-packed solidity grid.
use vstd::prelude::*;

verus! {

/// Bit `b` of `word`.
pub open spec fn word_bit(word: u32, b: u32) -> bool {
    (word >> b) & 1u32 == 1u32
}

/// Cell `i` of a packed grid: bit `i % 32` of word `i / 32`.
pub open spec fn packed_bit(words: Seq<u32>, i: int) -> bool {
    word_bit(words[i / 32], (i % 32) as u32)
}

/// Number of 32-bit words that hold `n` bits.
pub open spec fn words_for(n: int) -> int {
    (n + 31) / 32
}

/// Solidity of a `width` by `height` cell grid, one bit per cell.
///
/// Cell `(x, y)` is stored at flat index `x * height + y`.
pub struct Tiles {
    pub width: usize,
    pub height: usize,
    pub solid: Vec<u32>,
}

impl View for Tiles {
    type V = Seq<bool>;

    /// One flag per cell, in flat-index order.
    open spec fn view(&self) -> Seq<bool> {
        Seq::new((self.width * self.height) as nat, |i: int| packed_bit(self.solid@, i))
    }
}

proof fn lemma_flip_bit(word: u32, b: u32, j: u32)
    requires
        b < 32,
        j < 32,
    ensures
        j == b ==> word_bit(word ^ (1u32 << b), j) != word_bit(word, j),
        j != b ==> word_bit(word ^ (1u32 << b), j) == word_bit(word, j),
{
    assert(j == b ==> word_bit(word ^ (1u32 << b), j) != word_bit(word, j)) by (bit_vector)
        requires
            b < 32,
            j < 32,
    ;
    assert(j != b ==> word_bit(word ^ (1u32 << b), j) == word_bit(word, j)) by (bit_vector)
        requires
            b < 32,
            j < 32,
    ;
}

pub(crate) proof fn lemma_flat_index(x: int, y: int, w: int, h: int)
    requires
        0 <= x < w,
        0 <= y < h,
    ensures
        0 <= x * h + y < w * h,
{
    assert(0 <= x * h) by (nonlinear_arith)
        requires
            0 <= x,
            0 <= h,
    ;
    assert(x * h + y < w * h) by (nonlinear_arith)
        requires
            0 <= x < w,
            0 <= y < h,
    ;
}

impl Tiles {
    /// The word vector has exactly the length that `width * height` bits
    /// need, and the cell count fits in `usize`.
    pub open spec fn wf(self) -> bool {
        &&& self.width * self.height <= usize::MAX
        &&& self.solid@.len() == words_for(self.width * self.height)
    }

    /// Solidity of cell `(x, y)`; false outside the grid.
    pub open spec fn cell(self, x: int, y: int) -> bool {
        0 <= x < self.width && 0 <= y < self.height && self@[x * self.height + y]
    }

    /// Solidity at flat index `i`; false outside the grid.
    pub open spec fn cell_i(self, i: int) -> bool {
        0 <= i < self.width * self.height && self@[i]
    }

    /// What storing `value` at flat index `i` leaves behind: that cell is
    /// `value` when `i` is in range, every other bit of the words is kept, and
    /// an out-of-range `i` changes nothing.
    pub open spec fn stored_at(self, after: Tiles, i: int, value: bool) -> bool {
        &&& after.width == self.width
        &&& after.height == self.height
        &&& after.wf()
        &&& if 0 <= i < self.width * self.height {
            after@ == self@.update(i, value)
        } else {
            after.solid@ == self.solid@
        }
    }

    /// What `set_solid(x, y, value)` leaves behind.
    pub open spec fn stored(self, after: Tiles, x: int, y: int, value: bool) -> bool {
        if 0 <= x < self.width && 0 <= y < self.height {
            self.stored_at(after, x * self.height + y, value)
        } else {
            self.stored_at(after, -1, value)
        }
    }

    /// An empty (all clear) grid of `width` by `height` cells.
    pub fn world(width: usize, height: usize) -> (r: Tiles)
        requires
            width * height <= usize::MAX,
        ensures
            r.wf(),
            r.width == width,
            r.height == height,
            forall|i: int| 0 <= i < width * height ==> !#[trigger] r@[i],
    {
        let n: usize = width * height;
        let words: usize = if n % 32 == 0 { n / 32 } else { n / 32 + 1 };
        let mut solid: Vec<u32> = Vec::new();
        while solid.len() < words
            invariant
                solid.len() <= words,
                forall|k: int| 0 <= k < solid.len() ==> solid@[k] == 0u32,
            decreases words - solid.len(),
        {
            solid.push(0u32);
        }
        let r = Tiles { width, height, solid };
        assert forall|i: int| 0 <= i < width * height implies !#[trigger] r@[i] by {
            let b = (i % 32) as u32;
            assert(word_bit(0u32, b) == false) by (bit_vector);
        }
        r
    }

    fn get_solid_static(solid: &Vec<u32>, i: usize) -> (r: bool)
        requires
            i / 32 < solid.len(),
        ensures
            r == packed_bit(solid@, i as int),
    {
        let num = solid[i / 32];
        let bit = (i % 32) as u32;
        let shifter = 1u32 << bit;
        let shifted = num & shifter;
        let shifted = shifted >> bit;
        assert(((num & (1u32 << bit)) >> bit == 1u32) == word_bit(num, bit)) by (bit_vector)
            requires
                bit < 32,
        ;
        shifted == 1
    }

    fn set_solid_static(solid: &mut Vec<u32>, i: usize, is_solid: bool)
        requires
            i / 32 < old(solid).len(),
        ensures
            final(solid).len() == old(solid).len(),
            packed_bit(final(solid)@, i as int) == is_solid,
            forall|j: int|
                0 <= j < 32 * old(solid).len() && j != i ==> #[trigger] packed_bit(final(solid)@, j)
                    == packed_bit(old(solid)@, j),
    {
        if Self::get_solid_static(solid, i) != is_solid {
            let num = solid[i / 32];
            let bit = (i % 32) as u32;
            let shifter = 1u32 << bit;
            let shifted = num ^ shifter;
            solid.set(i / 32, shifted);
            proof {
                lemma_flip_bit(num, bit, bit);
                assert forall|j: int|
                    0 <= j < 32 * old(solid).len() && j != i implies #[trigger] packed_bit(solid@, j)
                        == packed_bit(old(solid)@, j) by {
                    if j / 32 == i / 32 {
                        lemma_flip_bit(num, bit, (j % 32) as u32);
                    }
                }
            }
        }
    }

    fn store(&mut self, i: usize, value: bool)
        requires
            old(self).wf(),
            i < old(self).width * old(self).height,
        ensures
            old(self).stored_at(*final(self), i as int, value),
    {
        let ghost before = self@;
        Self::set_solid_static(&mut self.solid, i, value);
        assert(self@ =~= before.update(i as int, value));
    }

    /// Marks cell `(x, y)` solid or clear; out-of-range cells are ignored.
    pub fn set_solid(&mut self, x: usize, y: usize, solid: bool)
        requires
            old(self).wf(),
        ensures
            old(self).stored(*final(self), x as int, y as int, solid),
    {
        if x < self.width && y < self.height {
            proof {
                lemma_flat_index(x as int, y as int, self.width as int, self.height as int);
            }
            let i = x * self.height + y;
            self.store(i, solid);
        }
    }

    /// Solidity of cell `(x, y)`; false for out-of-range cells.
    pub fn get_solid(&self, x: usize, y: usize) -> (r: bool)
        requires
            self.wf(),
        ensures
            r == self.cell(x as int, y as int),
    {
        if x < self.width && y < self.height {
            proof {
                lemma_flat_index(x as int, y as int, self.width as int, self.height as int);
            }
            let i = x * self.height + y;
            return Self::get_solid_static(&self.solid, i);
        }
        false
    }

    /// Marks the cell at flat index `i` solid or clear; out-of-range indices
    /// are ignored.
    pub fn set_solid_i(&mut self, i: usize, solid: bool)
        requires
            old(self).wf(),
        ensures
            old(self).stored_at(*final(self), i as int, solid),
    {
        if i < self.width * self.height {
            self.store(i, solid);
        }
    }

    /// Solidity at flat index `i`; false for out-of-range indices.
    pub fn get_solid_i(&self, i: usize) -> (r: bool)
        requires
            self.wf(),
        ensures
            r == self.cell_i(i as int),
    {
        if i < self.width * self.height {
            return Self::get_solid_static(&self.solid, i);
        }
        false
    }
}

/// Reading a cell right after storing `value` in it gives `value`.
pub proof fn lemma_set_then_get(before: Tiles, after: Tiles, x: int, y: int, value: bool)
    requires
        before.wf(),
        0 <= x < before.width,
        0 <= y < before.height,
        before.stored(after, x, y, value),
    ensures
        after.cell(x, y) == value,
{
    lemma_flat_index(x, y, before.width as int, before.height as int);
}

/// The two addressing schemes agree: cell `(x, y)` is flat index
/// `x * height + y`.
pub proof fn lemma_index_agreement(t: Tiles, x: int, y: int)
    requires
        t.wf(),
        0 <= x < t.width,
        0 <= y < t.height,
    ensures
        t.cell_i(x * t.height + y) == t.cell(x, y),
{
    lemma_flat_index(x, y, t.width as int, t.height as int);
}

/// Storing at an out-of-range cell leaves every bit as it was.
pub proof fn lemma_set_out_of_range_keeps_bits(
    before: Tiles,
    after: Tiles,
    x: int,
    y: int,
    value: bool,
)
    requires
        before.wf(),
        !(0 <= x < before.width && 0 <= y < before.height),
        before.stored(after, x, y, value),
    ensures
        after.solid@ == before.solid@,
        after@ == before@,
        forall|i: int| #[trigger] after.cell_i(i) == before.cell_i(i),
{
    assert(after@ =~= before@);
}

} // verus!
