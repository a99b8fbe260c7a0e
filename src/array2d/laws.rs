use vstd::pervasive::strictly_cloned;
use vstd::prelude::*;

use super::{Array2d, GridIdx, GridPos};
use super::column::lemma_column_index;
use super::rows::lemma_row_split;

verus! {

/// A grid of `rows` by `cols` cells, each a clone of `v`, holds `v` in every
/// cell, in every row and in every column, when cloning a `T` gives an equal
/// value.
pub proof fn lemma_filled_everywhere<T: Clone>(g: Array2d<T>, v: T, rows: nat, cols: nat)
    requires
        g.wf(),
        g.rows_spec() == rows,
        g.cols_spec() == cols,
        forall|i: int| 0 <= i < rows * cols ==> cloned(v, #[trigger] g.cells()[i]),
        forall|a: T, b: T| #[trigger] strictly_cloned(a, b) ==> a == b,
    ensures
        g.cells() == Seq::new(rows * cols, |i: int| v),
        forall|r: int| 0 <= r < rows ==> #[trigger] g.row_spec(r) == Seq::new(cols, |i: int| v),
        forall|c: int| 0 <= c < cols ==> #[trigger] g.column_spec(c) == Seq::new(rows, |i: int| v),
{
    assert(g.cells() =~= Seq::new(rows * cols, |i: int| v));
    assert forall|r: int| 0 <= r < rows implies #[trigger] g.row_spec(r) == Seq::new(cols, |i: int| v) by {
        assert(0 <= r * cols && r * cols + cols <= rows * cols) by (nonlinear_arith)
            requires 0 <= r < rows;
        assert(g.row_spec(r) =~= Seq::new(cols, |i: int| v));
    }
    assert forall|c: int| 0 <= c < cols implies #[trigger] g.column_spec(c) == Seq::new(rows, |i: int| v) by {
        assert forall|r: int| 0 <= r < rows implies #[trigger] g.at(r, c) == v by {
            assert(0 <= r * cols + c < rows * cols) by (nonlinear_arith)
                requires 0 <= r < rows, 0 <= c < cols;
        }
        assert(g.column_spec(c) =~= Seq::new(rows, |i: int| v));
    }
}

/// A grid whose cells each come from `T::default()` holds `d` in every
/// cell, when `T::default()` always gives `d`.
pub proof fn lemma_default_everywhere<T: Default>(g: Array2d<T>, d: T)
    requires
        g.wf(),
        forall|i: int| 0 <= i < g.cells().len() ==> call_ensures(T::default, (), #[trigger] g.cells()[i]),
        forall|x: T| #[trigger] call_ensures(T::default, (), x) ==> x == d,
    ensures
        g.cells() == Seq::new(g.cells().len(), |i: int| d),
{
    assert(g.cells() =~= Seq::new(g.cells().len(), |i: int| d));
}

/// A named position, a pair and a two-element array that hold the same row
/// and column address the same cell.
pub proof fn lemma_positions_agree<T>(g: Array2d<T>, p: GridPos, t: (usize, usize), a: [usize; 2])
    requires
        t.0 == p.row && t.1 == p.column,
        a@[0] == p.row && a@[1] == p.column,
    ensures
        g.in_bounds(&p) == g.in_bounds(&t),
        g.in_bounds(&p) == g.in_bounds(&a),
        g.pos_offset(&p) == g.pos_offset(&t),
        g.pos_offset(&p) == g.pos_offset(&a),
        g.cells()[g.pos_offset(&p)] == g.cells()[g.pos_offset(&t)],
        g.cells()[g.pos_offset(&p)] == g.cells()[g.pos_offset(&a)],
{
}

/// The first `n` rows of `cols` cells of `s`, joined in order, give back the
/// first `n * cols` cells of `s`.
proof fn lemma_rows_join<T>(s: Seq<T>, n: nat, cols: nat)
    requires
        n * cols <= s.len(),
    ensures
        Seq::new(n, |i: int| s.subrange(i * cols + 0, i * cols + 0 + cols)).flatten()
            == s.subrange(0, (n * cols) as int),
    decreases n,
{
    let rows = Seq::new(n, |i: int| s.subrange(i * cols + 0, i * cols + 0 + cols));
    if n == 0 {
        assert(s.subrange(0, 0) =~= Seq::<T>::empty());
    } else {
        let m = (n - 1) as nat;
        assert(m * cols + cols == n * cols && m * cols <= n * cols) by (nonlinear_arith)
            requires m == n - 1;
        lemma_rows_join(s, m, cols);
        let init = Seq::new(m, |i: int| s.subrange(i * cols + 0, i * cols + 0 + cols));
        assert(rows.drop_last() =~= init);
        rows.lemma_flatten_and_flatten_alt_are_equivalent();
        init.lemma_flatten_and_flatten_alt_are_equivalent();
        assert(s.subrange(0, (m * cols) as int) + s.subrange((m * cols) as int, (n * cols) as int)
            =~= s.subrange(0, (n * cols) as int));
    }
}

/// The rows of a grid, joined top to bottom, give back all its cells in
/// row-major order, and there are `row_count` of them.
pub proof fn lemma_rows_cover_cells<T>(g: Array2d<T>)
    requires
        g.wf(),
    ensures
        g.all_rows().len() == g.rows_spec(),
        g.all_rows().flatten() == g.cells(),
{
    lemma_rows_join(g.cells(), g.rows_spec(), g.cols_spec());
    assert(g.all_rows() =~= Seq::new(g.rows_spec(), |i: int| g.cells().subrange(i * g.cols_spec() + 0, i * g.cols_spec() + 0 + g.cols_spec())));
    assert(g.cells().subrange(0, g.cells().len() as int) =~= g.cells());
}

/// Writes `w` into every cell of `s`.
fn fill_slice<T: Copy>(s: &mut [T], w: T)
    ensures
        final(s)@ == Seq::new(old(s)@.len(), |i: int| w),
{
    let len = s.len();
    let mut k: usize = 0;
    while k < len
        invariant
            k <= len,
            s@.len() == len,
            len == old(s)@.len(),
            forall|j: int| 0 <= j < k ==> s@[j] == w,
        decreases len - k,
    {
        s[k] = w;
        k = k + 1;
    }
    assert(s@ =~= Seq::new(old(s)@.len(), |i: int| w));
}

/// Writing `w` into every cell of every row that `iter_mut_rows` hands out
/// leaves `w` in every cell of the grid, and the shape unchanged.
pub fn fill_through_rows<T: Copy>(g: &mut Array2d<T>, w: T)
    requires
        old(g).wf(),
    ensures
        final(g).wf(),
        final(g).rows_spec() == old(g).rows_spec(),
        final(g).cols_spec() == old(g).cols_spec(),
        final(g).cells() == Seq::new(old(g).cells().len(), |i: int| w),
{
    let ghost n = old(g).cells().len();
    let mut rows = g.iter_mut_rows();
    let ghost v0 = rows.v;
    let ghost mut done: nat = 0;
    loop
        invariant
            rows.wf(),
            done + rows.v@.len() == n,
            final(v0)@ == Seq::new(done, |i: int| w) + final(rows.v)@,
            final(rows.v)@.len() == rows.v@.len(),
        ensures
            final(v0)@ == Seq::new(n, |i: int| w),
        decreases rows.no_rows,
    {
        proof {
            if rows.no_rows > 0 {
                lemma_row_split(rows.no_rows as int, rows.no_columns as int);
            }
        }
        match rows.next() {
            Some(row) => {
                let ghost before = done;
                fill_slice(row, w);
                proof {
                    done = done + row@.len();
                    assert(Seq::new(before, |i: int| w) + Seq::new(row@.len(), |i: int| w)
                        =~= Seq::new(done, |i: int| w));
                }
            },
            None => {
                proof {
                    assert(0 * rows.no_columns == 0);
                    assert(Seq::new(done, |i: int| w) + final(rows.v)@ =~= Seq::new(n, |i: int| w));
                }
                break;
            },
        }
    }
}

/// Writing `w` into every cell of column `c` through `column_mut` and then
/// reading the column back gives `w` for every row.
pub fn fill_through_column<T: Copy>(g: &mut Array2d<T>, c: usize, w: T)
    requires
        old(g).wf(),
        c < old(g).cols_spec(),
    ensures
        final(g).wf(),
        final(g).rows_spec() == old(g).rows_spec(),
        final(g).cols_spec() == old(g).cols_spec(),
        final(g).column_spec(c as int) == Seq::new(old(g).rows_spec(), |i: int| w),
{
    let ghost cols = old(g).cols_spec();
    let ghost rows = old(g).rows_spec();
    let mut col = g.column_mut(c);
    let ghost v0 = col.v;
    let n = col.no_rows;
    let mut i: usize = 0;
    while i < n
        invariant
            col.wf(),
            col.no_rows == n,
            n == rows,
            col.skip + 1 == cols,
            i <= n,
            final(col.v)@ == final(v0)@,
            forall|j: int| 0 <= j < i ==> #[trigger] col.items()[j] == w,
        decreases n - i,
    {
        *col.index_mut(i) = w;
        i = i + 1;
    }
    let ghost cur = col.v@;
    proof {
        assert forall|r: int| 0 <= r < rows implies #[trigger] cur[r * cols] == w by {
            assert(col.items()[r] == w);
        }
    }
    proof {
        let mid = final(v0)@;
        assert(mid == cur);
        assert(mid.len() == (rows - 1) * cols + 1);
        assert forall|r: int| 0 <= r < rows implies #[trigger] final(g).column_spec(c as int)[r] == w by {
            assert(0 <= r * cols <= (rows - 1) * cols && (rows - 1) * cols + cols == rows * cols)
                by (nonlinear_arith)
                requires 0 <= r < rows, cols > 0;
            assert(cur[r * cols] == w);
            assert(final(g).cells()[r * cols + c] == mid[r * cols]);
        }
        assert(final(g).column_spec(c as int) =~= Seq::new(rows, |i: int| w));
    }
}

/// Walking `iter_rows` from the front hands out exactly `row_count` rows,
/// each row once, top to bottom.
pub fn rows_front_to_back<'a, T>(g: &'a Array2d<T>) -> (res: Vec<&'a [T]>)
    requires
        g.wf(),
    ensures
        res@.len() == g.rows_spec(),
        forall|i: int| 0 <= i < res@.len() ==> #[trigger] res@[i]@ == g.all_rows()[i],
{
    let mut rows = g.iter_rows();
    let mut res: Vec<&'a [T]> = Vec::new();
    loop
        invariant
            rows.wf(),
            res@.len() + rows.rows_left().len() == g.rows_spec(),
            g.all_rows() == res@.map_values(|r: &[T]| r@) + rows.rows_left(),
        ensures
            res@.len() == g.rows_spec(),
            g.all_rows() == res@.map_values(|r: &[T]| r@),
        decreases rows.no_rows,
    {
        let ghost before = rows.rows_left();
        match rows.next() {
            Some(row) => {
                let ghost done = res@.map_values(|r: &[T]| r@);
                res.push(row);
                proof {
                    assert(res@.map_values(|r: &[T]| r@) =~= done.push(row@));
                    assert(done.push(row@) + rows.rows_left() =~= done + before);
                }
            },
            None => {
                proof {
                    assert(res@.map_values(|r: &[T]| r@) + rows.rows_left()
                        =~= res@.map_values(|r: &[T]| r@));
                }
                break;
            },
        }
    }
    proof {
        assert forall|i: int| 0 <= i < res@.len() implies #[trigger] res@[i]@ == g.all_rows()[i] by {
            assert(res@.map_values(|r: &[T]| r@)[i] == res@[i]@);
        }
    }
    res
}

/// Walking `iter_rows` from the back hands out the same rows as walking it
/// from the front, in reverse order.
pub fn rows_back_to_front<'a, T>(g: &'a Array2d<T>) -> (res: Vec<&'a [T]>)
    requires
        g.wf(),
    ensures
        res@.len() == g.rows_spec(),
        forall|i: int| 0 <= i < res@.len() ==> #[trigger] res@[i]@ == g.all_rows().reverse()[i],
{
    let mut rows = g.iter_rows();
    let mut res: Vec<&'a [T]> = Vec::new();
    loop
        invariant
            rows.wf(),
            res@.len() + rows.rows_left().len() == g.rows_spec(),
            g.all_rows() == rows.rows_left() + res@.map_values(|r: &[T]| r@).reverse(),
        ensures
            res@.len() == g.rows_spec(),
            g.all_rows() == res@.map_values(|r: &[T]| r@).reverse(),
        decreases rows.no_rows,
    {
        let ghost before = rows.rows_left();
        match rows.next_back() {
            Some(row) => {
                let ghost done = res@.map_values(|r: &[T]| r@);
                res.push(row);
                proof {
                    assert(res@.map_values(|r: &[T]| r@) =~= done.push(row@));
                    assert(done.push(row@).reverse() =~= seq![row@] + done.reverse());
                    assert(rows.rows_left() + done.push(row@).reverse() =~= before + done.reverse());
                }
            },
            None => {
                proof {
                    assert(rows.rows_left() + res@.map_values(|r: &[T]| r@).reverse()
                        =~= res@.map_values(|r: &[T]| r@).reverse());
                }
                break;
            },
        }
    }
    proof {
        let m = res@.map_values(|r: &[T]| r@);
        assert(g.all_rows().reverse() =~= m.reverse().reverse());
        assert forall|i: int| 0 <= i < res@.len() implies #[trigger] res@[i]@ == g.all_rows().reverse()[i] by {
            assert(m[i] == res@[i]@);
        }
    }
    res
}

} // verus!
