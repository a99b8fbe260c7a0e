use array2ds::array2d::Array2d;

/// A small deterministic generator, so that every run sees the same shapes.
struct Lcg(u64);

impl Lcg {
    fn below(&mut self, lo: usize, hi: usize) -> usize {
        self.0 = self.0.wrapping_mul(6364136223846793005).wrapping_add(1442695040888963407);
        lo + ((self.0 >> 33) as usize) % (hi - lo)
    }
}

#[test]
fn test_filled_with() {
    let mut rng = Lcg(7);
    for _ in 0..10 {
        let num = rng.below(0, 2048);
        let arr = Array2d::filled_with(num, rng.below(1, 2048), rng.below(1, 2048));

        let mut rows = arr.iter_rows();
        while let Some(row) = rows.next() {
            for val in row {
                assert_eq!(*val, num)
            }
        }
    }
}

#[test]
fn iter_rows() {
    let (r, c) = (20, 30);
    let n = 10;
    let arr = Array2d::filled_with(n, r, c);
    let mut count = 0;
    let mut rows = arr.iter_rows();
    while rows.next().is_some() {
        count += 1;
    }
    assert_eq!(count, r);
    let mut rows = arr.iter_rows();
    while let Some(rr) = rows.next() {
        let roc = rr.iter().filter(|rn| **rn == n).count();
        assert_eq!(c, roc)
    }
}

#[test]
fn test_column_mut() {
    let r = 10;
    let c = 20;
    let v = 15;
    let vr = 20;
    let mut arr = Array2d::filled_with(v, r, c);

    let mut col = arr.column_mut(c - 1);
    while let Some(val) = col.next() {
        *val = vr;
    }

    let mut col = arr.column(c - 1);
    while let Some(val) = col.next() {
        assert_eq!(*val, vr);
    }
}

#[test]
fn test_column() {
    let r = 10;
    let c = 20;
    let v = 15;
    let vr = 20;
    let mut arr = Array2d::filled_with(v, r, c);

    for qr in 0..r {
        arr.set([qr, c - 1], vr);
    }

    let mut col = arr.column(c - 1);
    while let Some(val) = col.next() {
        assert_eq!(*val, vr);
    }
}

#[test]
fn test_index() {
    let mut rng = Lcg(11);
    let n = rng.below(1, 4096);
    let r = rng.below(2, 4096);
    let c = rng.below(2, 4096);
    let arr = Array2d::filled_with(n, r, c);
    for _ in 0..70 {
        let cc = rng.below(0, c - 1);
        let rr = rng.below(0, r - 1);
        assert_eq!(arr[[rr, cc]], arr[(rr, cc)]);
    }
}

#[test]
fn test_iter() {
    let r = 10;
    let c = 5;
    let n = 8;
    let board = Array2d::filled_with(n, r, c);
    let n_count = board.iter().filter(|x| **x == n).count();
    assert_eq!(n_count, r * c);
}

#[test]
fn fill_with_default() {
    let r = 10;
    let c = 13;
    let num_default = i32::default();
    let arr: Array2d<i32> = Array2d::filled_with_default(r, c);
    let count = arr.iter().filter(|x| **x == num_default).count();
    assert_eq!(count, r * c);
}

#[test]
fn iter_mut_rows() {
    let fill_num = 1;
    let replace_with = 24;
    let r = 10;
    let c = 6;
    let mut arr = Array2d::filled_with(fill_num, r, c);
    let mut rows = arr.iter_mut_rows();
    while let Some(row) = rows.next() {
        for num in row {
            *num = replace_with;
        }
    }

    let count_replace_with = arr.iter().filter(|&n| *n == replace_with).count();
    assert_eq!(count_replace_with, r * c);
}
