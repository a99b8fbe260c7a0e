use vstd::prelude::*;
use vstd::std_specs::iter::IteratorSpec;

mod column;
pub mod laws;
mod rows;

pub use column::{column_span, ColumMut, Column};
pub use rows::{Rows, RowsMut};

use column::lemma_column_index;
use rows::lemma_row_split;

verus! {

/// A (row, column) position that can address a cell of an `Array2d`.
pub trait GridIdx {
    /// The row this position names.
    spec fn row_of(&self) -> nat;

    /// The column this position names.
    spec fn column_of(&self) -> nat;

    fn no_row(&self) -> (r: usize)
        ensures
            r == self.row_of(),
    ;

    fn no_column(&self) -> (c: usize)
        ensures
            c == self.column_of(),
    ;
}

impl<T> Default for Array2d<T> {
    /// The empty 0 by 0 grid.
    fn default() -> (res: Self)
        ensures
            res.wf(),
            res.rows_spec() == 0,
            res.cols_spec() == 0,
    {
        let res = Array2d { vec_slice: Vec::new(), no_rows: 0, no_columns: 0 };
        assert(res.rows_spec() * res.cols_spec() == 0);
        res
    }
}

impl<T, Idx: GridIdx> core::ops::Index<Idx> for Array2d<T> {
    type Output = T;

    /// The cell at `index`, as `get` gives it.
    fn index(&self, index: Idx) -> (res: &T)
        ensures
            *res == self.cells()[self.pos_offset(&index)],
    {
        self.get(index)
    }
}

impl<T, Idx: GridIdx> vstd::std_specs::core::IndexSpecImpl<Idx> for Array2d<T> {
    open spec fn index_req(&self, index: &Idx) -> bool {
        self.wf() && self.in_bounds(index)
    }
}

/// A named (row, column) position.
pub struct GridPos {
    pub row: usize,
    pub column: usize,
}

impl GridPos {
    pub fn new(r: usize, c: usize) -> (res: Self)
        ensures
            res.row == r,
            res.column == c,
    {
        GridPos { row: r, column: c }
    }
}

impl GridIdx for GridPos {
    open spec fn row_of(&self) -> nat {
        self.row as nat
    }

    open spec fn column_of(&self) -> nat {
        self.column as nat
    }

    fn no_row(&self) -> (r: usize) {
        self.row
    }

    fn no_column(&self) -> (c: usize) {
        self.column
    }
}

impl GridIdx for (usize, usize) {
    open spec fn row_of(&self) -> nat {
        self.0 as nat
    }

    open spec fn column_of(&self) -> nat {
        self.1 as nat
    }

    fn no_row(&self) -> (r: usize) {
        self.0
    }

    fn no_column(&self) -> (c: usize) {
        self.1
    }
}

impl GridIdx for [usize; 2] {
    open spec fn row_of(&self) -> nat {
        self@[0] as nat
    }

    open spec fn column_of(&self) -> nat {
        self@[1] as nat
    }

    fn no_row(&self) -> (r: usize) {
        self[0]
    }

    fn no_column(&self) -> (c: usize) {
        self[1]
    }
}

/// The main struct for the 2d array: one buffer of `no_rows * no_columns`
/// cells, stored row after row.
#[derive(Debug)]
pub struct Array2d<T> {
    vec_slice: Vec<T>,
    no_rows: usize,
    no_columns: usize,
}

impl<T> Array2d<T> {
    /// Number of rows.
    pub closed spec fn rows_spec(&self) -> nat {
        self.no_rows as nat
    }

    /// Number of columns.
    pub closed spec fn cols_spec(&self) -> nat {
        self.no_columns as nat
    }

    /// All cells in row-major order.
    pub closed spec fn cells(&self) -> Seq<T> {
        self.vec_slice@
    }

    /// The buffer holds exactly one cell per (row, column) pair, and the grid
    /// is either empty in both dimensions or in neither.
    pub open spec fn wf(&self) -> bool {
        &&& self.cells().len() == self.rows_spec() * self.cols_spec()
        &&& (self.rows_spec() == 0 <==> self.cols_spec() == 0)
        &&& self.cells().len() <= usize::MAX
    }

    /// Row-major offset of the cell at `(r, c)`.
    pub open spec fn offset(&self, r: int, c: int) -> int {
        r * self.cols_spec() + c
    }

    /// The cell at `(r, c)`.
    pub open spec fn at(&self, r: int, c: int) -> T {
        self.cells()[self.offset(r, c)]
    }

    /// The cells of row `r`, left to right.
    pub open spec fn row_spec(&self, r: int) -> Seq<T> {
        self.cells().subrange(self.offset(r, 0), self.offset(r, 0) + self.cols_spec())
    }

    /// All rows, top to bottom.
    pub open spec fn all_rows(&self) -> Seq<Seq<T>> {
        Seq::new(self.rows_spec(), |r: int| self.row_spec(r))
    }

    /// The cells of column `c`, top to bottom.
    pub open spec fn column_spec(&self, c: int) -> Seq<T> {
        Seq::new(self.rows_spec(), |i: int| self.at(i, c))
    }

    /// Creates a `r` by `c` grid whose cells are all clones of `element`.
    pub fn filled_with(element: T, r: usize, c: usize) -> (res: Self) where T: Clone
        requires
            r >= 1,
            c >= 1,
            r * c <= usize::MAX,
        ensures
            res.wf(),
            res.rows_spec() == r,
            res.cols_spec() == c,
            forall|i: int| 0 <= i < r * c ==> cloned(element, #[trigger] res.cells()[i]),
    {
        let n: usize = r * c;
        let v = vec![element; n];
        Array2d { vec_slice: v, no_rows: r, no_columns: c }
    }

    /// Creates a `r` by `c` grid; each cell is built by its own call of
    /// `T::default()`.
    pub fn filled_with_default(r: usize, c: usize) -> (res: Self) where T: Default
        requires
            r >= 1,
            c >= 1,
            r * c <= usize::MAX,
        ensures
            res.wf(),
            res.rows_spec() == r,
            res.cols_spec() == c,
            forall|i: int| 0 <= i < r * c ==> call_ensures(T::default, (), #[trigger] res.cells()[i]),
    {
        let n: usize = r * c;
        let mut v: Vec<T> = Vec::with_capacity(n);
        let mut k: usize = 0;
        while k < n
            invariant
                k <= n,
                v@.len() == k,
                forall|i: int| 0 <= i < k ==> call_ensures(T::default, (), #[trigger] v@[i]),
            decreases n - k,
        {
            v.push(T::default());
            k = k + 1;
        }
        Array2d { vec_slice: v, no_rows: r, no_columns: c }
    }

    /// True when `pos` names a cell of this grid.
    pub open spec fn in_bounds<F: GridIdx>(&self, pos: &F) -> bool {
        pos.row_of() < self.rows_spec() && pos.column_of() < self.cols_spec()
    }

    /// Row-major offset of the cell that `pos` names.
    pub open spec fn pos_offset<F: GridIdx>(&self, pos: &F) -> int {
        self.offset(pos.row_of() as int, pos.column_of() as int)
    }

    /// Returns the row count.
    pub fn row_count(&self) -> (res: usize)
        ensures
            res == self.rows_spec(),
    {
        self.no_rows
    }

    /// Returns the column count.
    pub fn column_count(&self) -> (res: usize)
        ensures
            res == self.cols_spec(),
    {
        self.no_columns
    }

    /// Converts a 2d position to its 1d position `row * column_count + column`.
    pub fn d2_index_d1<F: GridIdx>(&self, pos: &F) -> (res: usize)
        requires
            self.pos_offset(pos) <= usize::MAX,
        ensures
            res == self.pos_offset(pos),
    {
        let r = pos.no_row();
        let c = pos.no_column();
        proof {
            assert(0 <= r * self.no_columns <= r * self.no_columns + c) by (nonlinear_arith)
                requires c >= 0, r >= 0, self.no_columns >= 0;
        }
        r * self.no_columns + c
    }

    /// Offset of an in-range position, below the buffer's length.
    fn checked_offset<F: GridIdx>(&self, pos: &F) -> (res: usize)
        requires
            self.wf(),
            self.in_bounds(pos),
        ensures
            res == self.pos_offset(pos),
            res < self.cells().len(),
    {
        proof {
            lemma_offset_in_range(
                self.rows_spec(), self.cols_spec(), pos.row_of() as int, pos.column_of() as int);
        }
        self.d2_index_d1(pos)
    }

    /// The cell at `pos`.
    pub fn get<F: GridIdx>(&self, pos: F) -> (res: &T)
        requires
            self.wf(),
            self.in_bounds(&pos),
        ensures
            *res == self.cells()[self.pos_offset(&pos)],
    {
        let k = self.checked_offset(&pos);
        &self.vec_slice[k]
    }

    /// A mutable reference to the cell at `pos`; whatever is left behind it
    /// becomes that cell's new value.
    pub fn get_mut<F: GridIdx>(&mut self, pos: F) -> (res: &mut T)
        requires
            old(self).wf(),
            old(self).in_bounds(&pos),
        ensures
            *res == old(self).cells()[old(self).pos_offset(&pos)],
            final(self).rows_spec() == old(self).rows_spec(),
            final(self).cols_spec() == old(self).cols_spec(),
            final(self).cells() == old(self).cells().update(old(self).pos_offset(&pos), *final(res)),
            final(self).wf(),
    {
        let k = self.checked_offset(&pos);
        &mut self.vec_slice[k]
    }

    /// Returns the half-open range of offsets `(start, end)` that row
    /// `row_index` occupies.
    pub fn row_between(&self, row_index: usize) -> (res: (usize, usize))
        requires
            self.wf(),
            row_index < self.rows_spec(),
        ensures
            res.0 == self.offset(row_index as int, 0),
            res.1 == res.0 + self.cols_spec(),
            res.1 <= self.cells().len(),
    {
        proof {
            lemma_offset_in_range(self.rows_spec(), self.cols_spec(), row_index as int, 0);
        }
        let start = row_index * self.no_columns;
        let end = start + self.no_columns;
        (start, end)
    }

    /// Row `row_index` as a mutable slice; what is left in it becomes the
    /// row's new contents.
    pub fn mut_row(&mut self, row_index: usize) -> (res: &mut [T])
        requires
            old(self).wf(),
            row_index < old(self).rows_spec(),
        ensures
            res@ == old(self).row_spec(row_index as int),
            final(self).rows_spec() == old(self).rows_spec(),
            final(self).cols_spec() == old(self).cols_spec(),
            final(self).cells() == old(self).cells().subrange(0, old(self).offset(row_index as int, 0))
                + final(res)@
                + old(self).cells().subrange(old(self).offset(row_index as int + 1, 0), old(self).cells().len() as int),
            final(self).wf(),
    {
        let (start, end) = self.row_between(row_index);
        proof {
            lemma_offset_in_range(self.rows_spec(), self.cols_spec(), row_index as int, 0);
        }
        proof {
            lemma_next_row_offset(self.cols_spec(), row_index as int);
        }
        let whole = buffer_mut(&mut self.vec_slice);
        let (before, tail) = split_slice(whole, start);
        let (row, after) = split_slice(tail, end - start);
        row
    }

    /// All cells as one slice, in row-major order.
    pub fn as_slice(&self) -> (res: &[T])
        ensures
            res@ == self.cells(),
    {
        self.vec_slice.as_slice()
    }

    /// Iterates over all cells in row-major order.
    pub fn iter(&self) -> (res: core::slice::Iter<'_, T>)
        ensures
            res.remaining() == self.cells().map(|i: int, v: T| &v),
    {
        proof {
            broadcast use vstd::std_specs::slice::group_slice_axioms;
        }
        let s = self.vec_slice.as_slice();
        assert(s@.as_ref() =~= self.cells().map(|i: int, v: T| &v));
        s.iter()
    }

    /// Row `row_index` as a shared slice.
    fn row_slice(&self, row_index: usize) -> (res: &[T])
        requires
            self.wf(),
            row_index < self.rows_spec(),
        ensures
            res@ == self.row_spec(row_index as int),
    {
        let (start, end) = self.row_between(row_index);
        let whole = self.vec_slice.as_slice();
        let (_, tail) = whole.split_at(start);
        let (row, _) = tail.split_at(end - start);
        row
    }

    /// Iterates over row `row_index`, left to right.
    pub fn iter_row(&self, row_index: usize) -> (res: core::slice::Iter<'_, T>)
        requires
            self.wf(),
            row_index < self.rows_spec(),
        ensures
            res.remaining() == self.row_spec(row_index as int).map(|i: int, v: T| &v),
    {
        proof {
            broadcast use vstd::std_specs::slice::group_slice_axioms;
        }
        let s = self.row_slice(row_index);
        assert(s@.as_ref() =~= self.row_spec(row_index as int).map(|i: int, v: T| &v));
        s.iter()
    }

    /// Row `row_index` as a mutable slice, for iterating over its cells;
    /// what is left in it becomes the row's new contents.
    pub fn iter_mut_row(&mut self, row_index: usize) -> (res: &mut [T])
        requires
            old(self).wf(),
            row_index < old(self).rows_spec(),
        ensures
            res@ == old(self).row_spec(row_index as int),
            final(self).rows_spec() == old(self).rows_spec(),
            final(self).cols_spec() == old(self).cols_spec(),
            final(self).cells() == old(self).cells().subrange(0, old(self).offset(row_index as int, 0))
                + final(res)@
                + old(self).cells().subrange(old(self).offset(row_index as int + 1, 0), old(self).cells().len() as int),
            final(self).wf(),
    {
        self.mut_row(row_index)
    }

    /// One past the offset of the last cell of column `c`.
    pub open spec fn column_end(&self, c: int) -> int {
        self.offset(self.rows_spec() - 1, c) + 1
    }

    /// The cells from the first cell of column `no_column` to its last one.
    fn column_bounds(&self, no_column: usize) -> (res: (usize, usize))
        requires
            self.wf(),
            no_column < self.cols_spec(),
        ensures
            res.0 == no_column,
            res.1 == self.column_end(no_column as int),
            res.0 < res.1 <= self.cells().len(),
            column_span((res.1 - res.0) as nat, (self.cols_spec() - 1) as nat, self.rows_spec()),
            forall|i: int| 0 <= i < self.rows_spec() ==>
                #[trigger] (i * ((self.cols_spec() - 1) as nat + 1)) + no_column
                    == self.offset(i, no_column as int),
    {
        proof {
            lemma_offset_in_range(
                self.rows_spec(), self.cols_spec(), self.rows_spec() - 1, no_column as int);
            lemma_row_split(self.rows_spec() as int, self.cols_spec() as int);
        }
        let total = self.vec_slice.len();
        (no_column, total - self.no_columns + no_column + 1)
    }

    /// Views column `no_column`, top to bottom.
    pub fn column(&self, no_column: usize) -> (res: Column<'_, T>)
        requires
            self.wf(),
            no_column < self.cols_spec(),
        ensures
            res.wf(),
            res.skip == self.cols_spec() - 1,
            res.no_rows == self.rows_spec(),
            res.items() == self.column_spec(no_column as int),
    {
        let (start, end) = self.column_bounds(no_column);
        let whole = self.vec_slice.as_slice();
        let (_, tail) = whole.split_at(start);
        let (v, _) = tail.split_at(end - start);
        let res = Column { v, skip: self.no_columns - 1, no_rows: self.no_rows };
        proof {
            assert forall|i: int| 0 <= i < self.rows_spec() implies #[trigger] res.items()[i]
                == self.column_spec(no_column as int)[i] by {
                lemma_column_index(res.no_rows as int, res.skip as int, i);
            }
            assert(res.items() =~= self.column_spec(no_column as int));
        }
        res
    }

    /// Views column `no_column` mutably, top to bottom. Once the borrow ends,
    /// the grid holds what was left behind `res.v` in place of the cells from
    /// the column's first cell to its last.
    pub fn column_mut(&mut self, no_column: usize) -> (res: ColumMut<'_, T>)
        requires
            old(self).wf(),
            no_column < old(self).cols_spec(),
        ensures
            res.wf(),
            res.skip == old(self).cols_spec() - 1,
            res.no_rows == old(self).rows_spec(),
            res.items() == old(self).column_spec(no_column as int),
            res.v@ == old(self).cells().subrange(
                no_column as int,
                old(self).column_end(no_column as int),
            ),
            final(self).rows_spec() == old(self).rows_spec(),
            final(self).cols_spec() == old(self).cols_spec(),
            final(self).cells() == old(self).cells().subrange(0, no_column as int) + final(res.v)@
                + old(self).cells().subrange(
                old(self).column_end(no_column as int),
                old(self).cells().len() as int,
            ),
            final(self).wf(),
    {
        let (start, end) = self.column_bounds(no_column);
        let skip = self.no_columns - 1;
        let no_rows = self.no_rows;
        let ghost cells = self.cells();
        let ghost cols = self.cols_spec();
        let whole = buffer_mut(&mut self.vec_slice);
        let (before, tail) = split_slice(whole, start);
        let (v, after) = split_slice(tail, end - start);
        let res = ColumMut { v, skip, no_rows };
        proof {
            assert forall|i: int| 0 <= i < no_rows implies #[trigger] res.items()[i]
                == cells[i * cols + no_column] by {
                lemma_column_index(res.no_rows as int, res.skip as int, i);
            }
            assert(res.items() =~= old(self).column_spec(no_column as int));
        }
        res
    }

    /// Iterates over the rows, from either end.
    pub fn iter_rows(&self) -> (res: Rows<'_, T>)
        requires
            self.wf(),
        ensures
            res.wf(),
            res.v@ == self.cells(),
            res.no_columns == self.cols_spec(),
            res.no_rows == self.rows_spec(),
            res.rows_left() == self.all_rows(),
    {
        let res = Rows { v: self.vec_slice.as_slice(), no_columns: self.no_columns, no_rows: self.no_rows };
        proof {
            lemma_row_starts(self.cols_spec());
            assert(res.rows_left() =~= self.all_rows());
        }
        res
    }

    /// Iterates over the rows as disjoint mutable slices, from either end.
    /// Once the borrow ends, the grid holds what was left behind `res.v`.
    pub fn iter_mut_rows(&mut self) -> (res: RowsMut<'_, T>)
        requires
            old(self).wf(),
        ensures
            res.wf(),
            res.v@ == old(self).cells(),
            res.no_columns == old(self).cols_spec(),
            res.no_rows == old(self).rows_spec(),
            res.rows_left() == old(self).all_rows(),
            final(self).rows_spec() == old(self).rows_spec(),
            final(self).cols_spec() == old(self).cols_spec(),
            final(self).cells() == final(res.v)@,
            final(self).wf(),
    {
        let c = self.no_columns;
        let r = self.no_rows;
        let res = RowsMut { v: buffer_mut(&mut self.vec_slice), no_columns: c, no_rows: r };
        proof {
            lemma_row_starts(c as nat);
            assert(res.rows_left() =~= old(self).all_rows());
        }
        res
    }

    /// Exchanges the cells at `pos1` and `pos2`.
    pub fn swap<F: GridIdx, K: GridIdx>(&mut self, pos1: &F, pos2: &K)
        requires
            old(self).wf(),
            old(self).in_bounds(pos1),
            old(self).in_bounds(pos2),
        ensures
            final(self).wf(),
            final(self).rows_spec() == old(self).rows_spec(),
            final(self).cols_spec() == old(self).cols_spec(),
            final(self).cells() == old(self).cells().update(
                old(self).pos_offset(pos1),
                old(self).cells()[old(self).pos_offset(pos2)],
            ).update(old(self).pos_offset(pos2), old(self).cells()[old(self).pos_offset(pos1)]),
    {
        let a = self.checked_offset(pos1);
        let b = self.checked_offset(pos2);
        if a != b {
            let lo = if a < b { a } else { b };
            let hi = if a < b { b } else { a };
            let whole = buffer_mut(&mut self.vec_slice);
            let (left, right) = split_slice(whole, hi);
            let (before, mid) = split_slice(left, lo);
            core::mem::swap(&mut mid[0], &mut right[0]);
            proof {
                assert(self.vec_slice@ =~= old(self).cells().update(a as int, old(self).cells()[b as int]).update(b as int, old(self).cells()[a as int]));
            }
        }
    }

    /// Replaces the cell at `pos` with `value`.
    pub fn set<F: GridIdx>(&mut self, pos: F, value: T)
        requires
            old(self).wf(),
            old(self).in_bounds(&pos),
        ensures
            final(self).wf(),
            final(self).rows_spec() == old(self).rows_spec(),
            final(self).cols_spec() == old(self).cols_spec(),
            final(self).cells() == old(self).cells().update(old(self).pos_offset(&pos), value),
    {
        let k = self.checked_offset(&pos);
        self.vec_slice.set(k, value);
    }
}

/// An in-range (row, column) pair lands inside a `rows * cols` buffer.
proof fn lemma_offset_in_range(rows: nat, cols: nat, r: int, c: int)
    requires
        0 <= r < rows,
        0 <= c < cols,
    ensures
        0 <= r * cols <= r * cols + c < rows * cols,
        r * cols + cols <= rows * cols,
{
    assert(0 <= r * cols <= r * cols + c < rows * cols && r * cols + cols <= rows * cols)
        by (nonlinear_arith)
        requires 0 <= r < rows, 0 <= c < cols;
}

/// The row after row `r` starts one row length further on.
proof fn lemma_next_row_offset(cols: nat, r: int)
    ensures
        (r + 1) * cols == r * cols + cols,
{
    assert((r + 1) * cols == r * cols + cols) by (nonlinear_arith);
}

/// Row `i + 1` starts where row `i` ends.
proof fn lemma_row_starts(cols: nat)
    ensures
        forall|i: int| #[trigger] ((i + 1) * cols) == i * cols + 0 + cols,
{
    assert forall|i: int| #[trigger] ((i + 1) * cols) == i * cols + 0 + cols by {
        lemma_next_row_offset(cols, i);
    }
}

/// Relies on `Vec::as_mut_slice`: the slice is the vector's buffer, and, as
/// for every slice, its length cannot change while borrowed.
#[verifier::external_body]
fn buffer_mut<T>(v: &mut Vec<T>) -> (res: &mut [T])
    ensures
        res@ == old(v)@,
        final(v)@ == final(res)@,
        final(res)@.len() == res@.len(),
{
    v.as_mut_slice()
}

/// Relies on `<[T]>::split_at_mut`: the two halves partition the slice, and,
/// as for every slice, neither half can change its length while borrowed.
#[verifier::external_body]
pub(crate) fn split_slice<T>(s: &mut [T], mid: usize) -> (res: (&mut [T], &mut [T]))
    requires
        mid <= old(s)@.len(),
    ensures
        res.0@ == old(s)@.subrange(0, mid as int),
        res.1@ == old(s)@.subrange(mid as int, old(s)@.len() as int),
        final(s)@ == final(res.0)@ + final(res.1)@,
        final(res.0)@.len() == res.0@.len(),
        final(res.1)@.len() == res.1@.len(),
{
    s.split_at_mut(mid)
}

} // verus!
