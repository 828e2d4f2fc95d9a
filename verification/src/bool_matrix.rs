//! A fixed-size grid of bits, packed eight to a byte.
//!
//! The grid has `width` columns and `height` rows. The cell in column `x` of
//! row `y` is kept at the linear position `y * width + x` of the packed store.
//! In contracts a grid is viewed as the set of its cells that are set, each
//! written as the pair `(x, y)`.

use vstd::arithmetic::div_mod::lemma_fundamental_div_mod;
use vstd::arithmetic::div_mod::lemma_fundamental_div_mod_converse;
use vstd::prelude::*;

verus! {

/// Whether bit `k` of `byte` is set. Bit 0 is the least significant one.
pub open spec fn has_bit(byte: u8, k: u8) -> bool {
    byte & (1u8 << k) != 0
}

/// Whether the bit at linear position `index` of a packed store is set:
/// bit `index % 8` of byte `index / 8`.
pub open spec fn stored_bit(bytes: Seq<u8>, index: int) -> bool {
    has_bit(bytes[index / 8], (index % 8) as u8)
}

/// Whether no byte of `a` has a set bit in common with the byte of `b` at
/// the same place.
pub open spec fn bytes_disjoint(a: Seq<u8>, b: Seq<u8>) -> bool {
    forall|i: int| 0 <= i < a.len() && i < b.len() ==> (#[trigger] a[i]) & b[i] == 0
}

/// The cells of row `row` in the columns `from..=to`.
pub open spec fn row_cells(row: int, from: int, to: int) -> Set<(int, int)> {
    Set::new(|c: (int, int)| c.1 == row && from <= c.0 <= to)
}

/// A grid of `width` columns and `height` rows of bits.
#[derive(Clone, Debug, PartialEq, Eq)]
pub struct BoolMatrix {
    /// The number of columns.
    pub width: usize,
    /// The number of rows.
    pub height: usize,
    /// The packed store, of `(width * height + 7) / 8` bytes.
    pub data: Vec<u8>,
}

/// Setting or clearing bit `k` of a byte changes that bit and no other.
proof fn lemma_bit_update(byte: u8, k: u8, j: u8)
    by (bit_vector)
    requires
        k < 8,
        j < 8,
    ensures
        has_bit(byte | (1u8 << k), j) == (has_bit(byte, j) || j == k),
        has_bit(byte & !(1u8 << k), j) == (has_bit(byte, j) && j != k),
{
}

/// A bit of the disjunction of two bytes is set exactly when it is set in
/// one of them, and no bit of the zero byte is set.
proof fn lemma_bit_union(a: u8, b: u8, j: u8)
    by (bit_vector)
    requires
        j < 8,
    ensures
        has_bit(a | b, j) == (has_bit(a, j) || has_bit(b, j)),
        !has_bit(0u8, j),
{
}

/// Whether two bytes have bit `k` in common.
spec fn common_bit(a: u8, b: u8, k: u8) -> bool {
    has_bit(a, k) && has_bit(b, k)
}

/// The conjunction of two bytes, bit by bit.
proof fn lemma_byte_overlap_bits(a: u8, b: u8)
    by (bit_vector)
    ensures
        (a & b != 0) == (common_bit(a, b, 0) || common_bit(a, b, 1) || common_bit(a, b, 2)
            || common_bit(a, b, 3) || common_bit(a, b, 4) || common_bit(a, b, 5) || common_bit(
            a,
            b,
            6,
        ) || common_bit(a, b, 7)),
{
}

/// Two bytes have a non-zero conjunction exactly when they have a bit in
/// common.
proof fn lemma_byte_overlap(a: u8, b: u8)
    ensures
        (a & b != 0) == (exists|k: u8| k < 8 && #[trigger] common_bit(a, b, k)),
{
    lemma_byte_overlap_bits(a, b);
}

/// The linear position of an in-range cell is below `w * h`, and the cell
/// can be read back from it.
proof fn lemma_cell_position(w: int, h: int, x: int, y: int)
    requires
        0 <= x < w,
        0 <= y < h,
    ensures
        0 <= y * w + x < w * h,
        (y * w + x) / w == y,
        (y * w + x) % w == x,
{
    assert(0 <= y * w && y * w + w <= w * h) by (nonlinear_arith)
        requires
            0 <= y < h,
            0 < w,
    ;
    lemma_fundamental_div_mod_converse(y * w + x, w, y, x);
}

/// Every linear position below `w * h` is the position of an in-range cell.
proof fn lemma_position_cell(w: int, h: int, p: int)
    requires
        0 <= w,
        0 <= h,
        0 <= p < w * h,
    ensures
        0 <= p % w < w,
        0 <= p / w < h,
        (p / w) * w + p % w == p,
{
    assert(w != 0) by (nonlinear_arith)
        requires
            0 < w * h,
    ;
    lemma_fundamental_div_mod(p, w);
    let q = p / w;
    assert(0 <= q < h) by (nonlinear_arith)
        requires
            0 < w,
            0 <= p < w * h,
            p == w * q + p % w,
            0 <= p % w < w,
    ;
    assert(q * w == w * q) by (nonlinear_arith);
}

/// The byte that results from writing `value` into bit `k` of `byte`.
spec fn with_bit(byte: u8, k: u8, value: bool) -> u8 {
    if value {
        byte | (1u8 << k)
    } else {
        byte & !(1u8 << k)
    }
}

/// Writing one bit of a packed store leaves every other bit as it was.
proof fn lemma_store_bit(before: Seq<u8>, after: Seq<u8>, index: int, value: bool)
    requires
        0 <= index < 8 * before.len(),
        after == before.update(
            index / 8,
            with_bit(before[index / 8], (index % 8) as u8, value),
        ),
    ensures
        forall|p: int|
            0 <= p < 8 * before.len() ==> #[trigger] stored_bit(after, p) == (if p == index {
                value
            } else {
                stored_bit(before, p)
            }),
{
    assert forall|p: int| 0 <= p < 8 * before.len() implies
        #[trigger] stored_bit(after, p) == (if p == index {
            value
        } else {
            stored_bit(before, p)
        }) by {
        if p / 8 == index / 8 {
            lemma_bit_update(before[index / 8], (index % 8) as u8, (p % 8) as u8);
        }
    }
}

impl BoolMatrix {
    /// Whether `(x, y)` names a cell of the grid.
    pub open spec fn in_bounds(&self, x: int, y: int) -> bool {
        0 <= x < self.width && 0 <= y < self.height
    }

    /// The store has one bit per cell, rounded up to whole bytes, its size
    /// can be computed in `usize`, and the bits after the last cell are
    /// clear.
    pub closed spec fn wf(&self) -> bool {
        &&& self.width * self.height + 7 <= usize::MAX
        &&& self.data@.len() == (self.width * self.height + 7) / 8
        &&& forall|p: int|
            self.width * self.height <= p < 8 * self.data@.len() ==> !stored_bit(self.data@, p)
    }

    /// The cells that are set.
    pub closed spec fn view(&self) -> Set<(int, int)> {
        Set::new(
            |c: (int, int)|
                self.in_bounds(c.0, c.1) && stored_bit(self.data@, c.1 * self.width + c.0),
        )
    }

    /// Only cells of the grid are ever set.
    pub proof fn lemma_view_in_bounds(&self)
        ensures
            forall|c: (int, int)| #[trigger] self@.contains(c) ==> self.in_bounds(c.0, c.1),
    {
    }

    /// The grid of `width` columns and `height` rows with no cell set.
    pub fn new(width: usize, height: usize) -> (matrix: Self)
        requires
            width * height + 7 <= usize::MAX,
        ensures
            matrix.wf(),
            matrix.width == width,
            matrix.height == height,
            matrix.data@ == Seq::new(((width * height + 7) / 8) as nat, |i: int| 0u8),
            matrix@ == Set::<(int, int)>::empty(),
    {
        let size: usize = (width * height + 7) / 8;
        let matrix = Self { width, height, data: vec![0u8; size] };
        proof {
            assert forall|p: int| 0 <= p < 8 * matrix.data@.len() implies
                !stored_bit(matrix.data@, p) by {
                lemma_bit_union(0u8, 0u8, (p % 8) as u8);
            }
            assert forall|c: (int, int)| !matrix@.contains(c) by {
                if matrix.in_bounds(c.0, c.1) {
                    lemma_cell_position(width as int, height as int, c.0, c.1);
                }
            }
        }
        matrix
    }

    /// The packed store. It has one bit per cell, rounded up to whole bytes.
    /// The bit at linear position `p` is that of the cell in column
    /// `p % width` of row `p / width`, so the cell `(x, y)` is kept at
    /// position `y * width + x`; the bits after the last cell are clear.
    pub fn data(&self) -> (bytes: &Vec<u8>)
        ensures
            bytes@ == self.data@,
            self.wf() ==> bytes@.len() == (self.width * self.height + 7) / 8,
            self.wf() ==> forall|p: int|
                0 <= p < 8 * bytes@.len() ==> (#[trigger] stored_bit(bytes@, p) <==> p < self.width
                    * self.height && self@.contains(
                    (p % (self.width as int), p / (self.width as int)),
                )),
    {
        proof {
            if self.wf() {
                assert forall|p: int| 0 <= p < 8 * self.data@.len() implies
                    (#[trigger] stored_bit(self.data@, p) <==> p < self.width * self.height
                        && self@.contains((p % (self.width as int), p / (self.width as int)))) by {
                    if p < self.width * self.height {
                        lemma_position_cell(self.width as int, self.height as int, p);
                    }
                }
            }
        }
        &self.data
    }

    /// The byte that holds the cell `(x, y)`, and the mask of its bit there.
    fn calculate_index(&self, x: usize, y: usize) -> (place: (usize, u8))
        requires
            self.wf(),
            x < self.width,
            y < self.height,
        ensures
            place.0 == (y * self.width + x) / 8,
            place.0 < self.data@.len(),
            place.1 == 1u8 << (((y * self.width + x) % 8) as u8),
    {
        proof {
            lemma_cell_position(self.width as int, self.height as int, x as int, y as int);
        }
        let index: usize = y * self.width + x;
        let shift: u8 = (index % 8) as u8;
        (index / 8, 1u8 << shift)
    }

    /// Writes `value` into the cell in column `x` of row `y`.
    pub fn set(&mut self, x: usize, y: usize, value: bool)
        requires
            old(self).wf(),
            x < old(self).width,
            y < old(self).height,
        ensures
            final(self).wf(),
            final(self).width == old(self).width,
            final(self).height == old(self).height,
            final(self)@ == (if value {
                old(self)@.insert((x as int, y as int))
            } else {
                old(self)@.remove((x as int, y as int))
            }),
    {
        let (byte_index, bit_mask) = self.calculate_index(x, y);
        let byte: u8 = self.data[byte_index];
        if value {
            self.data.set(byte_index, byte | bit_mask);
        } else {
            self.data.set(byte_index, byte & !bit_mask);
        }
        proof {
            let w = self.width as int;
            let h = self.height as int;
            let index = y * w + x;
            let expected = if value {
                old(self)@.insert((x as int, y as int))
            } else {
                old(self)@.remove((x as int, y as int))
            };
            lemma_cell_position(w, h, x as int, y as int);
            lemma_store_bit(old(self).data@, self.data@, index, value);
            assert forall|c: (int, int)| self@.contains(c) == expected.contains(c) by {
                if self.in_bounds(c.0, c.1) {
                    lemma_cell_position(w, h, c.0, c.1);
                }
            }
        }
    }

    /// Whether the cell in column `x` of row `y` is set.
    pub fn get(&self, x: usize, y: usize) -> (value: bool)
        requires
            self.wf(),
            x < self.width,
            y < self.height,
        ensures
            value == self@.contains((x as int, y as int)),
    {
        let (byte_index, bit_mask) = self.calculate_index(x, y);
        (self.data[byte_index] & bit_mask) != 0
    }

    /// The grid of one column that holds column `col_index` of this one.
    pub fn column(&self, col_index: usize) -> (column: Self)
        requires
            self.wf(),
            col_index < self.width,
        ensures
            column.wf(),
            column.width == 1,
            column.height == self.height,
            column@ == Set::new(
                |c: (int, int)| c.0 == 0 && self@.contains((col_index as int, c.1)),
            ),
    {
        proof {
            assert(self.height <= self.width * self.height) by (nonlinear_arith)
                requires
                    1 <= self.width,
                    0 <= self.height,
            ;
        }
        let mut column = Self::new(1, self.height);
        for y in 0..self.height
            invariant
                self.wf(),
                col_index < self.width,
                column.wf(),
                column.width == 1,
                column.height == self.height,
                column@ =~= Set::new(
                    |c: (int, int)|
                        c.0 == 0 && 0 <= c.1 < y && self@.contains((col_index as int, c.1)),
                ),
        {
            let value = self.get(col_index, y);
            column.set(0, y, value);
        }
        proof {
            self.lemma_view_in_bounds();
            assert(column@ =~= Set::new(
                |c: (int, int)| c.0 == 0 && self@.contains((col_index as int, c.1)),
            ));
        }
        column
    }

    /// The grid of one row that holds row `row_index` of this one.
    pub fn row(&self, row_index: usize) -> (row: Self)
        requires
            self.wf(),
            row_index < self.height,
        ensures
            row.wf(),
            row.width == self.width,
            row.height == 1,
            row@ == Set::new(|c: (int, int)| c.1 == 0 && self@.contains((c.0, row_index as int))),
    {
        proof {
            assert(self.width <= self.width * self.height) by (nonlinear_arith)
                requires
                    0 <= self.width,
                    1 <= self.height,
            ;
        }
        let mut row = Self::new(self.width, 1);
        for x in 0..self.width
            invariant
                self.wf(),
                row_index < self.height,
                row.wf(),
                row.width == self.width,
                row.height == 1,
                row@ =~= Set::new(
                    |c: (int, int)|
                        c.1 == 0 && 0 <= c.0 < x && self@.contains((c.0, row_index as int)),
                ),
        {
            let value = self.get(x, row_index);
            row.set(x, 0, value);
        }
        proof {
            self.lemma_view_in_bounds();
            assert(row@ =~= Set::new(
                |c: (int, int)| c.1 == 0 && self@.contains((c.0, row_index as int)),
            ));
        }
        row
    }

    /// Writes `value` into the cells of `row` in the columns `from..=to`.
    pub fn set_row_range(&mut self, row: usize, from: usize, to: usize, value: bool)
        requires
            old(self).wf(),
            from <= to,
            to < old(self).width,
            row < old(self).height,
        ensures
            final(self).wf(),
            final(self).width == old(self).width,
            final(self).height == old(self).height,
            final(self)@ == (if value {
                old(self)@.union(row_cells(row as int, from as int, to as int))
            } else {
                old(self)@.difference(row_cells(row as int, from as int, to as int))
            }),
    {
        let ghost before = self@;
        let mut x: usize = from;
        while x <= to
            invariant
                from <= x <= to + 1,
                to < self.width,
                row < self.height,
                self.wf(),
                self.width == old(self).width,
                self.height == old(self).height,
                self@ =~= (if value {
                    before.union(row_cells(row as int, from as int, x - 1))
                } else {
                    before.difference(row_cells(row as int, from as int, x - 1))
                }),
            decreases to + 1 - x,
        {
            self.set(x, row, value);
            x += 1;
        }
    }

    /// Where two bytes at the same place have a bit in common, a cell is set
    /// in both grids.
    proof fn lemma_colliding_byte(&self, other: &Self, i: int)
        requires
            self.wf(),
            other.wf(),
            self.width == other.width,
            self.height == other.height,
            0 <= i < self.data@.len(),
            self.data@[i] & other.data@[i] != 0,
        ensures
            !self@.disjoint(other@),
    {
        let w = self.width as int;
        let h = self.height as int;
        lemma_byte_overlap(self.data@[i], other.data@[i]);
        let k = choose|k: u8| k < 8 && #[trigger] common_bit(self.data@[i], other.data@[i], k);
        let p = 8 * i + k;
        assert(stored_bit(self.data@, p) && stored_bit(other.data@, p));
        lemma_position_cell(w, h, p);
        let c = (p % w, p / w);
        assert(self@.contains(c) && other@.contains(c));
    }

    /// Where no two bytes at the same place have a bit in common, no cell is
    /// set in both grids.
    proof fn lemma_no_colliding_byte(&self, other: &Self)
        requires
            self.wf(),
            other.wf(),
            self.width == other.width,
            self.height == other.height,
            bytes_disjoint(self.data@, other.data@),
        ensures
            self@.disjoint(other@),
    {
        let w = self.width as int;
        let h = self.height as int;
        assert forall|c: (int, int)| self@.contains(c) implies !other@.contains(c) by {
            if other@.contains(c) {
                lemma_cell_position(w, h, c.0, c.1);
                let p = c.1 * w + c.0;
                lemma_byte_overlap(self.data@[p / 8], other.data@[p / 8]);
                assert(common_bit(self.data@[p / 8], other.data@[p / 8], (p % 8) as u8));
            }
        }
    }

    /// The grid that holds the cells of both, if the two have the same
    /// dimensions and no set cell in common; `None` otherwise. The grids are
    /// compared and merged byte by byte: two bytes with a common bit make
    /// the whole merge fail, and each byte of the sum is the disjunction of
    /// the two bytes at its place.
    pub fn try_add(one: &BoolMatrix, two: &BoolMatrix) -> (sum: Option<Self>)
        requires
            one.wf(),
            two.wf(),
        ensures
            sum.is_some() <==> (one.width == two.width && one.height == two.height
                && one@.disjoint(two@)),
            sum.is_some() <==> (one.width == two.width && one.height == two.height
                && bytes_disjoint(one.data@, two.data@)),
            sum matches Some(m) ==> m.wf() && m.width == one.width && m.height == one.height
                && m@ == one@.union(two@),
            sum matches Some(m) ==> m.data@.len() == one.data@.len() && forall|i: int|
                0 <= i < m.data@.len() ==> #[trigger] m.data@[i] == one.data@[i] | two.data@[i],
    {
        if one.width != two.width || one.height != two.height {
            return None;
        }
        let mut result = Self::new(one.width, two.height);
        let n: usize = one.data.len();
        let mut i: usize = 0;
        while i < n
            invariant
                one.wf(),
                two.wf(),
                one.width == two.width,
                one.height == two.height,
                result.width == one.width,
                result.height == one.height,
                i <= n,
                n == one.data@.len(),
                n == two.data@.len(),
                n == result.data@.len(),
                forall|j: int| 0 <= j < i ==> (#[trigger] one.data@[j]) & two.data@[j] == 0,
                forall|j: int|
                    0 <= j < i ==> #[trigger] result.data@[j] == one.data@[j] | two.data@[j],
            decreases n - i,
        {
            let byte_one: u8 = one.data[i];
            let byte_two: u8 = two.data[i];
            if byte_one & byte_two == 0 {
                result.data.set(i, byte_one | byte_two);
            } else {
                proof {
                    one.lemma_colliding_byte(two, i as int);
                }
                return None;
            }
            i += 1;
        }
        proof {
            one.lemma_no_colliding_byte(two);
            assert forall|p: int| 0 <= p < 8 * n implies
                #[trigger] stored_bit(result.data@, p) == (stored_bit(one.data@, p) || stored_bit(
                    two.data@,
                    p,
                )) by {
                lemma_bit_union(one.data@[p / 8], two.data@[p / 8], (p % 8) as u8);
            }
            assert forall|c: (int, int)| result@.contains(c) == one@.union(two@).contains(c) by {
                if result.in_bounds(c.0, c.1) {
                    lemma_cell_position(one.width as int, one.height as int, c.0, c.1);
                }
            }
        }
        Some(result)
    }

    /// Whether some cell is set in both grids, that is, whether two bytes at
    /// the same place have a bit in common.
    pub fn has_colliding_bits(&self, other: &Self) -> (colliding: bool)
        requires
            self.wf(),
            other.wf(),
            self.width == other.width,
            self.height == other.height,
        ensures
            colliding == !self@.disjoint(other@),
            colliding == !bytes_disjoint(self.data@, other.data@),
    {
        let n: usize = self.data.len();
        let mut i: usize = 0;
        while i < n
            invariant
                self.wf(),
                other.wf(),
                self.width == other.width,
                self.height == other.height,
                i <= n,
                n == self.data@.len(),
                n == other.data@.len(),
                forall|j: int| 0 <= j < i ==> (#[trigger] self.data@[j]) & other.data@[j] == 0,
            decreases n - i,
        {
            if self.data[i] & other.data[i] != 0 {
                proof {
                    self.lemma_colliding_byte(other, i as int);
                }
                return true;
            }
            i += 1;
        }
        proof {
            self.lemma_no_colliding_byte(other);
        }
        false
    }
}

impl Default for BoolMatrix {
    /// The grid without cells.
    fn default() -> (matrix: Self)
        ensures
            matrix.wf(),
            matrix.width == 0,
            matrix.height == 0,
            matrix@ == Set::<(int, int)>::empty(),
    {
        Self::new(0, 0)
    }
}

} // verus!
