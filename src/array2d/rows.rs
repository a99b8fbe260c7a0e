use vstd::prelude::*;

use super::{lemma_next_row_offset, split_slice};

verus! {

/// Iterates over the rows of a grid, from either end.
#[derive(Debug)]
pub struct Rows<'a, T> {
    /// The rows not yet handed out, one after the other.
    pub v: &'a [T],
    /// The length of each row.
    pub no_columns: usize,
    /// How many rows `v` holds.
    pub no_rows: usize,
}

impl<'a, T> Rows<'a, T> {
    /// `v` holds exactly `no_rows` rows of `no_columns` cells.
    pub open spec fn wf(&self) -> bool {
        &&& self.v@.len() == self.no_rows * self.no_columns
        &&& self.no_rows > 0 ==> self.no_columns > 0
    }

    /// Row `i` of the rows not yet handed out.
    pub open spec fn row_left(&self, i: int) -> Seq<T> {
        self.v@.subrange(i * self.no_columns, (i + 1) * self.no_columns)
    }

    /// The rows not yet handed out, in order.
    pub open spec fn rows_left(&self) -> Seq<Seq<T>> {
        Seq::new(self.no_rows as nat, |i: int| self.row_left(i))
    }

    /// Hands out the first row not yet handed out.
    pub fn next(&mut self) -> (res: Option<&'a [T]>)
        requires
            old(self).wf(),
        ensures
            final(self).wf(),
            final(self).no_columns == old(self).no_columns,
            old(self).no_rows == 0 ==> res is None && *final(self) == *old(self),
            old(self).no_rows > 0 ==> {
                &&& res matches Some(row)
                &&& row@ == old(self).row_left(0)
                &&& final(self).no_rows == old(self).no_rows - 1
                &&& final(self).v@ == old(self).v@.subrange(
                    old(self).no_columns as int,
                    old(self).v@.len() as int,
                )
                &&& final(self).rows_left() == old(self).rows_left().drop_first()
            },
    {
        if self.no_rows == 0 {
            return None;
        }
        proof {
            lemma_row_split(self.no_rows as int, self.no_columns as int);
        }
        let (head, tail) = self.v.split_at(self.no_columns);
        self.v = tail;
        self.no_rows = self.no_rows - 1;
        proof {
            lemma_rows_shift(old(self).v@, self.no_rows as int, self.no_columns as int);
            assert(self.rows_left() =~= old(self).rows_left().drop_first());
        }
        Some(head)
    }

    /// Hands out the last row not yet handed out.
    pub fn next_back(&mut self) -> (res: Option<&'a [T]>)
        requires
            old(self).wf(),
        ensures
            final(self).wf(),
            final(self).no_columns == old(self).no_columns,
            old(self).no_rows == 0 ==> res is None && *final(self) == *old(self),
            old(self).no_rows > 0 ==> {
                &&& res matches Some(row)
                &&& row@ == old(self).row_left(old(self).no_rows - 1)
                &&& final(self).no_rows == old(self).no_rows - 1
                &&& final(self).v@ == old(self).v@.subrange(
                    0,
                    old(self).v@.len() - old(self).no_columns,
                )
                &&& final(self).rows_left() == old(self).rows_left().drop_last()
            },
    {
        if self.no_rows == 0 {
            return None;
        }
        proof {
            lemma_row_split(self.no_rows as int, self.no_columns as int);
        }
        let total = self.v.len();
        let (init, last) = self.v.split_at(total - self.no_columns);
        self.v = init;
        self.no_rows = self.no_rows - 1;
        proof {
            lemma_rows_prefix_rows(old(self).v@, self.no_rows as int, old(self).no_rows as int, self.no_columns as int);
            assert(self.rows_left() =~= old(self).rows_left().drop_last());
        }
        Some(last)
    }

    /// Skips the last `n` rows not yet handed out, then hands out the row
    /// before them; with `n` at least the number of rows left, skips them all
    /// and hands out nothing.
    pub fn nth_back(&mut self, n: usize) -> (res: Option<&'a [T]>)
        requires
            old(self).wf(),
        ensures
            final(self).wf(),
            final(self).no_columns == old(self).no_columns,
            n >= old(self).no_rows ==> res is None && final(self).no_rows == 0,
            n < old(self).no_rows ==> {
                let k = old(self).no_rows - 1 - n;
                &&& res matches Some(row)
                &&& row@ == old(self).row_left(k)
                &&& final(self).no_rows == k
                &&& final(self).v@ == old(self).v@.subrange(0, k * old(self).no_columns)
                &&& final(self).rows_left() == old(self).rows_left().subrange(0, k)
            },
    {
        if n >= self.no_rows {
            self.v = &[];
            self.no_rows = 0;
            return None;
        }
        let keep_rows = self.no_rows - n;
        proof {
            lemma_rows_prefix(keep_rows as int, self.no_rows as int, self.no_columns as int);
        }
        let total = self.v.len();
        let (keep, _) = self.v.split_at(keep_rows * self.no_columns);
        self.v = keep;
        self.no_rows = keep_rows;
        proof {
            lemma_row_split(keep_rows as int, self.no_columns as int);
            lemma_next_row_offset(self.no_columns as nat, keep_rows - 1);
            lemma_rows_prefix_rows(old(self).v@, keep_rows as int, old(self).no_rows as int, self.no_columns as int);
            assert(self.rows_left() =~= old(self).rows_left().subrange(0, keep_rows as int));
        }
        self.next_back()
    }
}

/// Iterates over the mutable rows of a grid. It keeps one mutable slice over
/// the rows not yet handed out and splits each row off it, so no two rows it
/// yields overlap.
#[derive(Debug)]
pub struct RowsMut<'a, T> {
    /// The rows not yet handed out, one after the other.
    pub v: &'a mut [T],
    /// The length of each row.
    pub no_columns: usize,
    /// How many rows `v` holds.
    pub no_rows: usize,
}

impl<'a, T> RowsMut<'a, T> {
    /// `v` holds exactly `no_rows` rows of `no_columns` cells.
    pub open spec fn wf(&self) -> bool {
        &&& self.v@.len() == self.no_rows * self.no_columns
        &&& self.no_rows > 0 ==> self.no_columns > 0
    }

    /// Row `i` of the rows not yet handed out.
    pub open spec fn row_left(&self, i: int) -> Seq<T> {
        self.v@.subrange(i * self.no_columns, (i + 1) * self.no_columns)
    }

    /// The rows not yet handed out, in order.
    pub open spec fn rows_left(&self) -> Seq<Seq<T>> {
        Seq::new(self.no_rows as nat, |i: int| self.row_left(i))
    }

    /// Hands out the first row not yet handed out. Once the borrows end, the
    /// cells behind `self.v` before the call hold the returned row followed
    /// by the cells behind `self.v` after it.
    pub fn next(&mut self) -> (res: Option<&'a mut [T]>)
        requires
            old(self).wf(),
        ensures
            final(self).wf(),
            final(self).no_columns == old(self).no_columns,
            old(self).no_rows == 0 ==> res is None && *final(self) == *old(self),
            old(self).no_rows > 0 ==> {
                &&& res matches Some(row)
                &&& row@ == old(self).row_left(0)
                &&& final(row)@.len() == old(self).no_columns
                &&& final(self).no_rows == old(self).no_rows - 1
                &&& final(self).v@ == old(self).v@.subrange(
                    old(self).no_columns as int,
                    old(self).v@.len() as int,
                )
                &&& final(self).rows_left() == old(self).rows_left().drop_first()
                &&& final(old(self).v)@ == final(row)@ + final(final(self).v)@
            },
    {
        if self.no_rows == 0 {
            return None;
        }
        let mut rest: &'a mut [T] = &mut [];
        core::mem::swap(&mut rest, &mut self.v);
        proof {
            lemma_row_split(self.no_rows as int, self.no_columns as int);
        }
        let (head, tail) = split_slice(rest, self.no_columns);
        self.v = tail;
        self.no_rows = self.no_rows - 1;
        proof {
            lemma_rows_shift(old(self).v@, self.no_rows as int, self.no_columns as int);
            assert(self.rows_left() =~= old(self).rows_left().drop_first());
        }
        Some(head)
    }

    /// Hands out the last row not yet handed out. Once the borrows end, the
    /// cells behind `self.v` before the call hold the cells behind `self.v`
    /// after it followed by the returned row.
    pub fn next_back(&mut self) -> (res: Option<&'a mut [T]>)
        requires
            old(self).wf(),
        ensures
            final(self).wf(),
            final(self).no_columns == old(self).no_columns,
            old(self).no_rows == 0 ==> res is None && *final(self) == *old(self),
            old(self).no_rows > 0 ==> {
                &&& res matches Some(row)
                &&& row@ == old(self).row_left(old(self).no_rows - 1)
                &&& final(row)@.len() == old(self).no_columns
                &&& final(self).no_rows == old(self).no_rows - 1
                &&& final(self).v@ == old(self).v@.subrange(
                    0,
                    old(self).v@.len() - old(self).no_columns,
                )
                &&& final(self).rows_left() == old(self).rows_left().drop_last()
                &&& final(old(self).v)@ == final(final(self).v)@ + final(row)@
            },
    {
        if self.no_rows == 0 {
            return None;
        }
        let mut rest: &'a mut [T] = &mut [];
        core::mem::swap(&mut rest, &mut self.v);
        proof {
            lemma_row_split(self.no_rows as int, self.no_columns as int);
        }
        let total = rest.len();
        let (init, last) = split_slice(rest, total - self.no_columns);
        self.v = init;
        self.no_rows = self.no_rows - 1;
        proof {
            lemma_rows_prefix_rows(old(self).v@, self.no_rows as int, old(self).no_rows as int, self.no_columns as int);
            assert(self.rows_left() =~= old(self).rows_left().drop_last());
        }
        Some(last)
    }

    /// Drops the last `n` rows not yet handed out, unchanged, then hands out
    /// the row before them; with `n` at least the number of rows left, drops
    /// them all and hands out nothing.
    pub fn nth_back(&mut self, n: usize) -> (res: Option<&'a mut [T]>)
        requires
            old(self).wf(),
        ensures
            final(self).wf(),
            final(self).no_columns == old(self).no_columns,
            n >= old(self).no_rows ==> {
                &&& res is None
                &&& final(self).no_rows == 0
                &&& final(old(self).v)@ == old(self).v@
            },
            n < old(self).no_rows ==> {
                let k = old(self).no_rows - 1 - n;
                &&& res matches Some(row)
                &&& row@ == old(self).row_left(k)
                &&& final(row)@.len() == old(self).no_columns
                &&& final(self).no_rows == k
                &&& final(self).v@ == old(self).v@.subrange(0, k * old(self).no_columns)
                &&& final(self).rows_left() == old(self).rows_left().subrange(0, k)
                &&& final(old(self).v)@ == final(final(self).v)@ + final(row)@
                    + old(self).v@.subrange((k + 1) * old(self).no_columns, old(self).v@.len() as int)
            },
    {
        let mut rest: &'a mut [T] = &mut [];
        core::mem::swap(&mut rest, &mut self.v);
        if n >= self.no_rows {
            self.no_rows = 0;
            return None;
        }
        let keep_rows = self.no_rows - n;
        proof {
            lemma_rows_prefix(keep_rows as int, self.no_rows as int, self.no_columns as int);
        }
        let total = rest.len();
        let (keep, dropped) = split_slice(rest, keep_rows * self.no_columns);
        self.v = keep;
        self.no_rows = keep_rows;
        proof {
            lemma_row_split(keep_rows as int, self.no_columns as int);
            lemma_next_row_offset(self.no_columns as nat, keep_rows - 1);
            lemma_rows_prefix_rows(old(self).v@, keep_rows as int, old(self).no_rows as int, self.no_columns as int);
            assert(self.rows_left() =~= old(self).rows_left().subrange(0, keep_rows as int));
        }
        self.next_back()
    }
}

/// Splitting one row off `rows` rows leaves `rows - 1` rows.
pub(crate) proof fn lemma_row_split(rows: int, cols: int)
    requires
        rows > 0,
        cols >= 0,
    ensures
        cols <= rows * cols,
        rows * cols - cols == (rows - 1) * cols,
{
    assert(cols <= rows * cols && rows * cols - cols == (rows - 1) * cols) by (nonlinear_arith)
        requires rows > 0, cols >= 0;
}

/// Dropping the first row of `s` moves every later row one place forward.
proof fn lemma_rows_shift<T>(s: Seq<T>, n: int, cols: int)
    requires
        n >= 0,
        cols >= 0,
        s.len() == (n + 1) * cols,
    ensures
        forall|i: int| 0 <= i < n ==> #[trigger] s.subrange(cols, s.len() as int).subrange(i * cols, (i + 1) * cols)
            == s.subrange((i + 1) * cols, (i + 2) * cols),
{
    assert forall|i: int| 0 <= i < n implies #[trigger] s.subrange(cols, s.len() as int).subrange(i * cols, (i + 1) * cols)
        == s.subrange((i + 1) * cols, (i + 2) * cols) by {
        assert((i + 1) * cols == i * cols + cols && (i + 2) * cols == (i + 1) * cols + cols
            && 0 <= i * cols && (i + 1) * cols <= n * cols) by (nonlinear_arith)
            requires 0 <= i < n, cols >= 0;
        assert(n * cols + cols == (n + 1) * cols) by (nonlinear_arith);
        assert(s.subrange(cols, s.len() as int).subrange(i * cols, (i + 1) * cols)
            =~= s.subrange((i + 1) * cols, (i + 2) * cols));
    }
}

/// The first `k` of `n` rows of `s` are the rows of its first `k * cols` cells.
proof fn lemma_rows_prefix_rows<T>(s: Seq<T>, k: int, n: int, cols: int)
    requires
        0 <= k <= n,
        cols >= 0,
        s.len() == n * cols,
    ensures
        forall|i: int| 0 <= i < k ==> #[trigger] s.subrange(0, k * cols).subrange(i * cols, (i + 1) * cols)
            == s.subrange(i * cols, (i + 1) * cols),
{
    assert forall|i: int| 0 <= i < k implies #[trigger] s.subrange(0, k * cols).subrange(i * cols, (i + 1) * cols)
        == s.subrange(i * cols, (i + 1) * cols) by {
        assert(0 <= i * cols <= (i + 1) * cols <= k * cols <= n * cols) by (nonlinear_arith)
            requires 0 <= i < k, k <= n, cols >= 0;
        assert(s.subrange(0, k * cols).subrange(i * cols, (i + 1) * cols)
            =~= s.subrange(i * cols, (i + 1) * cols));
    }
}

/// The first `k` of `rows` rows fit in front of the rest.
proof fn lemma_rows_prefix(k: int, rows: int, cols: int)
    requires
        0 <= k <= rows,
        cols >= 0,
    ensures
        0 <= k * cols <= rows * cols,
{
    assert(0 <= k * cols <= rows * cols) by (nonlinear_arith)
        requires 0 <= k <= rows, cols >= 0;
}

} // verus!
