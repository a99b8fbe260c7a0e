use array2ds::array2d::laws::{
    fill_through_column, fill_through_rows, rows_back_to_front, rows_front_to_back,
};
use array2ds::array2d::{Array2d, GridPos};

/// A grid whose cell (r, c) holds `r * 100 + c`.
fn numbered(rows: usize, cols: usize) -> Array2d<usize> {
    let mut g = Array2d::filled_with(0usize, rows, cols);
    for r in 0..rows {
        for c in 0..cols {
            g.set(GridPos::new(r, c), r * 100 + c);
        }
    }
    g
}

#[test]
fn filled_value_in_every_view() {
    let g = Array2d::filled_with(7u32, 4, 3);
    assert_eq!(g.iter().count(), 12);
    assert!(g.iter().all(|x| *x == 7));
    let mut rows = g.iter_rows();
    let mut seen = 0;
    while let Some(row) = rows.next() {
        assert_eq!(row, &[7, 7, 7]);
        seen += 1;
    }
    assert_eq!(seen, 4);
    for c in 0..3 {
        let mut col = g.column(c);
        let mut n = 0;
        while let Some(x) = col.next() {
            assert_eq!(*x, 7);
            n += 1;
        }
        assert_eq!(n, 4);
    }
}

#[test]
fn default_cells_are_default() {
    let g: Array2d<u8> = Array2d::filled_with_default(3, 9);
    assert_eq!(g.row_count(), 3);
    assert_eq!(g.column_count(), 9);
    assert_eq!(g.as_slice(), &[0u8; 27][..]);
    let s: Array2d<String> = Array2d::filled_with_default(2, 2);
    assert!(s.iter().all(|x| x.is_empty()));
}

#[test]
fn three_position_forms_agree() {
    let g = numbered(6, 7);
    for r in 0..6 {
        for c in 0..7 {
            let a = *g.get(GridPos::new(r, c));
            assert_eq!(a, r * 100 + c);
            assert_eq!(a, *g.get((r, c)));
            assert_eq!(a, *g.get([r, c]));
        }
    }
}

#[test]
fn offset_is_row_major() {
    let g = numbered(3, 5);
    assert_eq!(g.d2_index_d1(&(2usize, 4usize)), 14);
    assert_eq!(g.d2_index_d1(&[1usize, 0usize]), 5);
    assert_eq!(g.d2_index_d1(&GridPos::new(0, 3)), 3);
    assert_eq!(g.row_between(2), (10, 15));
    assert_eq!(g.as_slice()[14], 204);
}

#[test]
fn rows_join_to_all_cells() {
    let g = numbered(5, 4);
    let mut joined = Vec::new();
    let mut count = 0;
    let mut rows = g.iter_rows();
    while let Some(row) = rows.next() {
        assert_eq!(row.len(), 4);
        joined.extend_from_slice(row);
        count += 1;
    }
    assert_eq!(count, g.row_count());
    let all: Vec<usize> = g.iter().copied().collect();
    assert_eq!(joined, all);
    let front = rows_front_to_back(&g);
    assert_eq!(front.len(), 5);
    assert_eq!(front[3], &[300, 301, 302, 303]);
}

#[test]
fn rows_from_back_mirror_rows_from_front() {
    let g = numbered(5, 3);
    let mut forward = Vec::new();
    let mut rows = g.iter_rows();
    while let Some(row) = rows.next() {
        forward.push(row.to_vec());
    }
    let mut backward = Vec::new();
    let mut rows = g.iter_rows();
    while let Some(row) = rows.next_back() {
        backward.push(row.to_vec());
    }
    backward.reverse();
    assert_eq!(forward, backward);
    let back = rows_back_to_front(&g);
    assert_eq!(back[0], &[400, 401, 402]);
    assert_eq!(back[4], &[0, 1, 2]);
}

#[test]
fn rows_nth_back_skips_from_the_end() {
    let g = numbered(5, 2);
    let mut rows = g.iter_rows();
    assert_eq!(rows.nth_back(1), Some(&[300usize, 301][..]));
    assert_eq!(rows.next_back(), Some(&[200usize, 201][..]));
    assert_eq!(rows.next(), Some(&[0usize, 1][..]));
    assert_eq!(rows.nth_back(0), Some(&[100usize, 101][..]));
    assert_eq!(rows.next(), None);
    let mut rows = g.iter_rows();
    assert_eq!(rows.nth_back(5), None);
    assert_eq!(rows.next(), None);
    assert_eq!(rows.next_back(), None);
}

#[test]
fn rows_mut_rows_are_disjoint() {
    let mut g = numbered(4, 3);
    let mut rows = g.iter_mut_rows();
    let first = rows.next().unwrap();
    let last = rows.next_back().unwrap();
    let skipped = rows.nth_back(5);
    assert!(skipped.is_none());
    first[0] = 999;
    last[2] = 888;
    assert_eq!(*g.get((0, 0)), 999);
    assert_eq!(*g.get((3, 2)), 888);
    assert_eq!(*g.get((1, 1)), 101);
    assert_eq!(*g.get((2, 2)), 202);
}

#[test]
fn rows_mut_nth_back_hands_out_right_row() {
    let mut g = numbered(5, 2);
    let mut rows = g.iter_mut_rows();
    let row = rows.nth_back(2).unwrap();
    row[1] = 7;
    assert!(rows.next_back().is_some());
    assert_eq!(g.as_slice(), &[0, 1, 100, 101, 200, 7, 300, 301, 400, 401]);
}

#[test]
fn rows_mut_overwrite_leaves_no_old_value() {
    let mut g = Array2d::filled_with(3i64, 7, 8);
    let mut rows = g.iter_mut_rows();
    while let Some(row) = rows.next_back() {
        for x in row.iter_mut() {
            *x = -5;
        }
    }
    assert_eq!(g.iter().filter(|x| **x == -5).count(), 56);
    assert_eq!(g.iter().filter(|x| **x == 3).count(), 0);
    let mut h = Array2d::filled_with(1u8, 3, 4);
    fill_through_rows(&mut h, 9);
    assert!(h.iter().all(|x| *x == 9));
}

#[test]
fn rows_mut_scenario_ten_by_six() {
    let mut g = Array2d::filled_with(1, 10, 6);
    let mut rows = g.iter_mut_rows();
    while let Some(row) = rows.next() {
        for x in row {
            *x = 24;
        }
    }
    assert_eq!(g.iter().filter(|x| **x == 24).count(), 60);
}

#[test]
fn column_mut_then_column_round_trip() {
    let mut g = numbered(6, 4);
    let mut col = g.column_mut(2);
    while let Some(x) = col.next() {
        *x = 5;
    }
    let mut col = g.column(2);
    let mut n = 0;
    while let Some(x) = col.next() {
        assert_eq!(*x, 5);
        n += 1;
    }
    assert_eq!(n, g.row_count());
    assert_eq!(*g.get((3, 1)), 301);
    assert_eq!(*g.get((3, 3)), 303);
    let mut h = numbered(3, 3);
    fill_through_column(&mut h, 0, 42);
    assert_eq!(h.as_slice(), &[42, 1, 2, 42, 101, 102, 42, 201, 202]);
}

#[test]
fn column_mut_scenario_ten_by_twenty() {
    let mut g = Array2d::filled_with(15, 10, 20);
    let mut col = g.column_mut(19);
    while let Some(x) = col.next() {
        *x = 20;
    }
    let mut col = g.column(19);
    let mut twenties = 0;
    while let Some(x) = col.next() {
        assert_eq!(*x, 20);
        twenties += 1;
    }
    assert_eq!(twenties, g.row_count());
    assert_eq!(*g.get((0, 18)), 15);
}

#[test]
fn column_views_index_by_row() {
    let mut g = numbered(4, 5);
    let col = g.column(3);
    assert_eq!(*col.index(0), 3);
    assert_eq!(*col.index(3), 303);
    let mut colm = g.column_mut(1);
    assert_eq!(*colm.index(2), 201);
    *colm.index_mut(2) = 0;
    assert_eq!(*g.get((2, 1)), 0);
    assert_eq!(*g.get((2, 0)), 200);
}

#[test]
fn one_by_one_grid() {
    let g = Array2d::filled_with('x', 1, 1);
    assert_eq!(g.row_count(), 1);
    assert_eq!(g.column_count(), 1);
    assert_eq!(*g.get((0, 0)), 'x');
    assert_eq!(g.iter_row(0).count(), 1);
    let mut col = g.column(0);
    assert_eq!(col.next(), Some(&'x'));
    assert_eq!(col.next(), None);
    let mut rows = g.iter_rows();
    assert_eq!(rows.next(), Some(&['x'][..]));
    assert_eq!(rows.next(), None);
}

#[test]
fn empty_default_grid() {
    let g: Array2d<i32> = Array2d::default();
    assert_eq!(g.row_count(), 0);
    assert_eq!(g.column_count(), 0);
    assert_eq!(g.iter().count(), 0);
    let mut rows = g.iter_rows();
    assert!(rows.next().is_none());
    assert!(rows.next_back().is_none());
}

#[test]
fn swap_exchanges_two_cells() {
    let mut g = numbered(3, 4);
    g.swap(&(0usize, 1usize), &[2usize, 3usize]);
    assert_eq!(*g.get((0, 1)), 203);
    assert_eq!(*g.get((2, 3)), 1);
    g.swap(&GridPos::new(1, 1), &(1usize, 1usize));
    assert_eq!(*g.get((1, 1)), 101);
    g.swap(&(2usize, 3usize), &(0usize, 1usize));
    assert_eq!(g.as_slice(), numbered(3, 4).as_slice());
}

#[test]
fn single_row_access() {
    let mut g = numbered(3, 4);
    let row: Vec<usize> = g.iter_row(1).copied().collect();
    assert_eq!(row, vec![100, 101, 102, 103]);
    let r = g.mut_row(2);
    assert_eq!(r.len(), 4);
    r[0] = 1;
    for x in g.iter_mut_row(0) {
        *x += 1000;
    }
    assert_eq!(
        g.as_slice(),
        &[1000, 1001, 1002, 1003, 100, 101, 102, 103, 1, 201, 202, 203]
    );
    *g.get_mut([1, 3]) = 77;
    assert_eq!(*g.get((1, 3)), 77);
}

#[test]
fn wide_and_tall_shapes() {
    let wide = Array2d::filled_with(2u16, 1, 2048);
    assert_eq!(wide.iter_row(0).count(), 2048);
    let tall = Array2d::filled_with(3u16, 2048, 1);
    let mut col = tall.column(0);
    let mut n = 0;
    while col.next().is_some() {
        n += 1;
    }
    assert_eq!(n, 2048);
}
