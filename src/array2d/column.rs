use vstd::prelude::*;

use super::split_slice;

verus! {

/// A view of one column of a grid: the cells `v[0]`, `v[skip + 1]`,
/// `v[2 * (skip + 1)]`, ..., one per row not yet handed out.
#[derive(Debug)]
pub struct Column<'a, T> {
    /// The cells from the next one to hand out to the last one, inclusive.
    pub v: &'a [T],
    /// How many cells lie between two cells of the column.
    pub skip: usize,
    /// How many cells of the column are left.
    pub no_rows: usize,
}

/// `len` cells hold exactly `n` cells spaced `skip + 1` apart, from the first
/// cell to the last.
pub open spec fn column_span(len: nat, skip: nat, n: nat) -> bool {
    if n == 0 {
        len == 0
    } else {
        len == (n - 1) * (skip + 1) + 1
    }
}

impl<'a, T> Column<'a, T> {
    pub open spec fn wf(&self) -> bool {
        &&& column_span(self.v@.len(), self.skip as nat, self.no_rows as nat)
        &&& self.skip < usize::MAX
    }

    /// The cells of the column that are left, in order.
    pub open spec fn items(&self) -> Seq<T> {
        Seq::new(self.no_rows as nat, |i: int| self.v@[i * (self.skip + 1)])
    }

    /// The `idx`-th cell left in the column.
    pub fn index(&self, idx: usize) -> (res: &T)
        requires
            self.wf(),
            idx < self.no_rows,
        ensures
            *res == self.items()[idx as int],
    {
        proof {
            lemma_column_index(self.no_rows as int, self.skip as int, idx as int);
        }
        let len = self.v.len();
        &self.v[idx * (self.skip + 1)]
    }

    /// Hands out the next cell of the column.
    pub fn next(&mut self) -> (res: Option<&'a T>)
        requires
            old(self).wf(),
        ensures
            final(self).wf(),
            final(self).skip == old(self).skip,
            old(self).no_rows == 0 ==> res is None && *final(self) == *old(self),
            old(self).no_rows > 0 ==> {
                &&& res matches Some(cell)
                &&& *cell == old(self).items()[0]
                &&& final(self).items() == old(self).items().drop_first()
            },
    {
        if self.no_rows == 0 {
            return None;
        }
        let cell = &self.v[0];
        assert(*cell == old(self).items()[0]);
        if self.no_rows == 1 {
            self.v = &[];
        } else {
            proof {
                lemma_column_step(self.no_rows as int, self.skip as int);
            }
            let (_, rest) = self.v.split_at(self.skip + 1);
            self.v = rest;
            self.no_rows = self.no_rows - 1;
            proof {
                let step = self.skip + 1;
                assert forall|i: int| 0 <= i < self.no_rows implies #[trigger] self.items()[i]
                    == old(self).items()[i + 1] by {
                    assert((i + 1) * step == i * step + step);
                    lemma_column_index(self.no_rows as int, self.skip as int, i);
                    assert(self.items()[i] == self.v@[i * step]);
                    assert(self.v@[i * step] == old(self).v@[i * step + step]);
                }
                assert(self.items() =~= old(self).items().drop_first());
            }
            return Some(cell);
        }
        self.no_rows = self.no_rows - 1;
        proof {
            assert(self.items() =~= old(self).items().drop_first());
        }
        Some(cell)
    }
}

/// A mutable view of one column of a grid: the cells `v[0]`, `v[skip + 1]`,
/// `v[2 * (skip + 1)]`, ..., one per row not yet handed out.
#[derive(Debug)]
pub struct ColumMut<'a, T> {
    /// The cells from the next one to hand out to the last one, inclusive.
    pub v: &'a mut [T],
    /// How many cells lie between two cells of the column.
    pub skip: usize,
    /// How many cells of the column are left.
    pub no_rows: usize,
}

impl<'a, T> ColumMut<'a, T> {
    pub open spec fn wf(&self) -> bool {
        &&& column_span(self.v@.len(), self.skip as nat, self.no_rows as nat)
        &&& self.skip < usize::MAX
    }

    /// Offset in `v` of the `i`-th cell left in the column.
    pub open spec fn item_offset(&self, i: int) -> int {
        i * (self.skip + 1)
    }

    /// The cells of the column that are left, in order.
    pub open spec fn items(&self) -> Seq<T> {
        Seq::new(self.no_rows as nat, |i: int| self.v@[self.item_offset(i)])
    }

    /// The `idx`-th cell left in the column.
    pub fn index(&self, idx: usize) -> (res: &T)
        requires
            self.wf(),
            idx < self.no_rows,
        ensures
            *res == self.items()[idx as int],
    {
        proof {
            lemma_column_index(self.no_rows as int, self.skip as int, idx as int);
        }
        let len = self.v.len();
        &self.v[idx * (self.skip + 1)]
    }

    /// A mutable reference to the `idx`-th cell left in the column; whatever
    /// is left behind it becomes that cell's new value.
    pub fn index_mut(&mut self, idx: usize) -> (res: &mut T)
        requires
            old(self).wf(),
            idx < old(self).no_rows,
        ensures
            *res == old(self).items()[idx as int],
            final(self).skip == old(self).skip,
            final(self).no_rows == old(self).no_rows,
            final(self).v@ == old(self).v@.update(old(self).item_offset(idx as int), *final(res)),
            final(final(self).v)@ == final(old(self).v)@,
            final(self).items() == old(self).items().update(idx as int, *final(res)),
            final(self).wf(),
    {
        proof {
            lemma_column_index(self.no_rows as int, self.skip as int, idx as int);
            lemma_column_offsets_distinct(self.no_rows as int, self.skip as int);
        }
        let len = self.v.len();
        &mut self.v[idx * (self.skip + 1)]
    }

    /// Hands out the next cell of the column. Once the borrows end, the cells
    /// behind `self.v` before the call hold the returned cell, the cells
    /// stepped over, unchanged, and the cells behind `self.v` after it.
    pub fn next(&mut self) -> (res: Option<&'a mut T>)
        requires
            old(self).wf(),
        ensures
            final(self).wf(),
            final(self).skip == old(self).skip,
            old(self).no_rows == 0 ==> res is None && *final(self) == *old(self),
            old(self).no_rows > 0 ==> {
                &&& res matches Some(cell)
                &&& *cell == old(self).items()[0]
                &&& final(self).no_rows == old(self).no_rows - 1
                &&& final(self).items() == old(self).items().drop_first()
                &&& final(old(self).v)@ == seq![*final(cell)]
                    + old(self).v@.subrange(1, old(self).v@.len() - final(self).v@.len())
                    + final(final(self).v)@
                &&& final(final(self).v)@.len() == final(self).v@.len()
            },
    {
        if self.no_rows == 0 {
            return None;
        }
        let mut rest: &'a mut [T] = &mut [];
        core::mem::swap(&mut rest, &mut self.v);
        proof {
            assert(0 * (self.skip + 1) == 0);
        }
        let (head, tail) = split_slice(rest, 1);
        let cell = &mut head[0];
        if self.no_rows == 1 {
            self.v = tail;
            self.no_rows = 0;
            proof {
                assert(self.items() =~= old(self).items().drop_first());
            }
            return Some(cell);
        }
        proof {
            lemma_column_step(self.no_rows as int, self.skip as int);
        }
        let (gap, later) = split_slice(tail, self.skip);
        self.v = later;
        self.no_rows = self.no_rows - 1;
        proof {
            let step = self.skip + 1;
            assert forall|i: int| 0 <= i < self.no_rows implies #[trigger] self.items()[i]
                == old(self).items()[i + 1] by {
                assert((i + 1) * step == i * step + step);
                lemma_column_index(self.no_rows as int, self.skip as int, i);
            }
            assert(self.items() =~= old(self).items().drop_first());
        }
        Some(cell)
    }
}

/// The `idx`-th cell of a column of `n` cells lies inside its span.
pub(crate) proof fn lemma_column_index(n: int, skip: int, idx: int)
    requires
        0 <= idx < n,
        skip >= 0,
    ensures
        0 <= idx * (skip + 1) <= (n - 1) * (skip + 1),
{
    assert(0 <= idx * (skip + 1) <= (n - 1) * (skip + 1)) by (nonlinear_arith)
        requires 0 <= idx < n, skip >= 0;
}

/// Distinct cells of a column of `n` cells lie at distinct offsets, inside
/// its span.
proof fn lemma_column_offsets_distinct(n: int, skip: int)
    requires
        skip >= 0,
    ensures
        forall|i: int, j: int| 0 <= i < n && 0 <= j < n && i != j ==>
            #[trigger] (i * (skip + 1)) != #[trigger] (j * (skip + 1)),
        forall|i: int| 0 <= i < n ==> 0 <= #[trigger] (i * (skip + 1)) <= (n - 1) * (skip + 1),
{
    assert forall|i: int, j: int| 0 <= i < n && 0 <= j < n && i != j implies
        #[trigger] (i * (skip + 1)) != #[trigger] (j * (skip + 1)) by {
        if i < j {
            assert(i * (skip + 1) < j * (skip + 1)) by (nonlinear_arith)
                requires i < j, skip >= 0;
        } else {
            assert(j * (skip + 1) < i * (skip + 1)) by (nonlinear_arith)
                requires j < i, skip >= 0;
        }
    }
    assert forall|i: int| 0 <= i < n implies 0 <= #[trigger] (i * (skip + 1)) <= (n - 1) * (skip + 1) by {
        lemma_column_index(n, skip, i);
    }
}

/// Stepping over one cell of a column of `n >= 2` cells leaves the span of
/// `n - 1` cells.
proof fn lemma_column_step(n: int, skip: int)
    requires
        n >= 2,
        skip >= 0,
    ensures
        (n - 1) * (skip + 1) + 1 - (skip + 1) == (n - 2) * (skip + 1) + 1,
        skip + 1 < (n - 1) * (skip + 1) + 1,
        forall|i: int| #[trigger] ((i + 1) * (skip + 1)) == i * (skip + 1) + (skip + 1),
{
    assert((n - 1) * (skip + 1) + 1 - (skip + 1) == (n - 2) * (skip + 1) + 1) by (nonlinear_arith);
    assert(skip + 1 < (n - 1) * (skip + 1) + 1) by (nonlinear_arith)
        requires n >= 2, skip >= 0;
    assert forall|i: int| #[trigger] ((i + 1) * (skip + 1)) == i * (skip + 1) + (skip + 1) by {
        assert((i + 1) * (skip + 1) == i * (skip + 1) + (skip + 1)) by (nonlinear_arith);
    }
}

} // verus!
