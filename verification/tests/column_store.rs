use alexdb::column::{insert_all, BitMap, BoolCol, ColumnInterface, RunLength, XorCol};
use alexdb::num::Num;

fn num(x: f64) -> Num {
    Num(x.to_bits())
}

fn val(n: Option<Num>) -> f64 {
    f64::from_bits(n.unwrap().0)
}

#[test]
fn run_length_1() {
    let mut col: RunLength<Num> = RunLength::new();
    col.insert(Some(num(5.0)));
    col.insert(Some(num(5.0)));
    col.insert(Some(num(5.0)));
    col.insert(Some(num(4.0)));
    col.insert(Some(num(4.0)));
    let col_unc = col.uncompress();
    assert_eq!(col_unc.len(), 5);
    assert_eq!(val(col_unc[0]), 5.0);
    assert_eq!(val(col_unc[2]), 5.0);
    assert_eq!(val(col_unc[4]), 4.0);
}

#[test]
fn run_length_2() {
    let mut col: RunLength<Num> = RunLength::new();
    col.insert(Some(num(5.0)));
    col.insert(Some(num(5.0)));
    col.insert(Some(num(5.0)));
    col.insert(None);
    col.insert(None);
    let col_unc = col.uncompress();
    assert_eq!(col_unc.len(), 5);
    assert_eq!(val(col_unc[0]), 5.0);
    assert_eq!(val(col_unc[2]), 5.0);
    assert!(col_unc[4].is_none());
}

#[test]
fn bitmap_1() {
    let mut col: BitMap<Num> = BitMap::new();
    col.insert(Some(num(5.0)));
    col.insert(Some(num(5.0)));
    col.insert(Some(num(5.0)));
    col.insert(Some(num(4.0)));
    col.insert(Some(num(4.0)));
    let col_unc = col.uncompress();
    assert_eq!(col_unc.len(), 5);
    assert_eq!(val(col_unc[0]), 5.0);
    assert_eq!(val(col_unc[2]), 5.0);
    assert_eq!(val(col_unc[4]), 4.0);
}

#[test]
fn bitmap_2() {
    let mut col: BitMap<Num> = BitMap::new();
    col.insert(Some(num(5.0)));
    col.insert(Some(num(5.0)));
    col.insert(Some(num(5.0)));
    col.insert(None);
    col.insert(None);
    let col_unc = col.uncompress();
    assert_eq!(col_unc.len(), 5);
    assert_eq!(val(col_unc[0]), 5.0);
    assert_eq!(val(col_unc[2]), 5.0);
    assert!(col_unc[4].is_none());
}

#[test]
fn xor_1() {
    let mut col: XorCol = XorCol::new();
    col.insert(None);
    let col_unc = col.uncompress();
    assert_eq!(col_unc.len(), 1);
    assert!(col_unc[0].is_none());
}

#[test]
fn xor_2() {
    let mut col: XorCol = XorCol::new();
    col.insert(None);
    col.insert(None);
    col.insert(None);
    col.insert(None);
    col.insert(None);
    let col_unc = col.uncompress();
    assert_eq!(col_unc.len(), 5);
    assert!(col_unc[4].is_none());
}

#[test]
fn xor_3() {
    let mut col: XorCol = XorCol::new();
    col.insert(Some(num(5.0)));
    let col_unc = col.uncompress();
    assert_eq!(col_unc.len(), 1);
    assert_eq!(val(col_unc[0]), 5.0);
}

#[test]
fn xor_4() {
    let mut col: XorCol = XorCol::new();
    col.insert(None);
    col.insert(Some(num(5.0)));
    let col_unc = col.uncompress();
    assert_eq!(col_unc.len(), 2);
    assert_eq!(val(col_unc[1]), 5.0);
}

#[test]
fn xor_5() {
    let mut col: XorCol = XorCol::new();
    col.insert(Some(num(5.0)));
    col.insert(Some(num(5.0)));
    col.insert(Some(num(5.0)));
    let col_unc = col.uncompress();
    assert_eq!(col_unc.len(), 3);
    assert_eq!(val(col_unc[0]), 5.0);
    assert_eq!(val(col_unc[2]), 5.0);
}

#[test]
fn xor_6() {
    let mut col: XorCol = XorCol::new();
    col.insert(Some(num(4.0)));
    col.insert(Some(num(5.0)));
    col.insert(Some(num(5.0)));
    let col_unc = col.uncompress();
    assert_eq!(col_unc.len(), 3);
    assert_eq!(val(col_unc[0]), 4.0);
    assert_eq!(val(col_unc[2]), 5.0);
}

#[test]
fn xor_7() {
    let mut col: XorCol = XorCol::new();
    col.insert(Some(num(0.0)));
    col.insert(Some(num(5.0)));
    col.insert(Some(num(3.0)));
    let col_unc = col.uncompress();
    assert_eq!(col_unc.len(), 3);
    assert_eq!(val(col_unc[0]), 0.0);
    assert_eq!(val(col_unc[2]), 3.0);
}

#[test]
fn xor_8() {
    let mut col: XorCol = XorCol::new();
    col.insert(Some(num(0.0)));
    col.insert(Some(num(14.0)));
    col.insert(Some(num(3.0)));
    col.insert(Some(num(-1110.2292)));
    col.insert(Some(num(3.0)));
    col.insert(Some(num(-3.0)));
    col.insert(Some(num(5.0)));
    col.insert(Some(num(5.0)));
    col.insert(Some(num(45.654)));
    col.insert(Some(num(5.0)));
    col.insert(Some(num(13.6765)));
    col.insert(Some(num(100000.7)));
    col.insert(Some(num(0.0)));
    col.insert(Some(num(45.0)));
    col.insert(Some(num(0.0000005)));
    let col_unc = col.uncompress();
    assert_eq!(col_unc.len(), 15);
    assert_eq!(val(col_unc[1]), 14.0);
    assert_eq!(val(col_unc[5]), -3.0);
    assert_eq!(val(col_unc[9]), 5.0);
    assert_eq!(val(col_unc[13]), 45.0);
}

#[test]
fn xor_9() {
    let mut col: XorCol = XorCol::new();
    col.insert(Some(num(0.0)));
    col.insert(Some(num(14.0)));
    col.insert(Some(num(3.0)));
    col.insert(None);
    col.insert(Some(num(3.0)));
    col.insert(Some(num(-3.0)));
    col.insert(Some(num(5.0)));
    col.insert(None);
    col.insert(Some(num(45.654)));
    col.insert(Some(num(5.0)));
    col.insert(Some(num(13.6765)));
    col.insert(Some(num(100000.7)));
    col.insert(Some(num(0.0)));
    col.insert(Some(num(45.0)));
    col.insert(None);
    let col_unc = col.uncompress();
    assert_eq!(col_unc.len(), 15);
    assert_eq!(val(col_unc[1]), 14.0);
    assert_eq!(val(col_unc[5]), -3.0);
    assert_eq!(val(col_unc[9]), 5.0);
    assert_eq!(val(col_unc[13]), 45.0);
}

#[test]
fn xor_10() {
    let mut col: XorCol = XorCol::new();
    col.insert(Some(num(5.0)));
    col.insert(Some(num(6.0)));
    col.insert(Some(num(8.0)));
    col.insert(Some(num(13.0)));
    col.insert(Some(num(2.0)));
    col.insert(Some(num(5.0)));
    let col_unc = col.uncompress();
    assert_eq!(col_unc.len(), 6);
    assert_eq!(val(col_unc[1]), 6.0);
    assert_eq!(val(col_unc[2]), 8.0);
    assert_eq!(val(col_unc[4]), 2.0);
    assert_eq!(val(col_unc[5]), 5.0);
}

#[test]
fn bool_1() {
    let mut col: BoolCol = BoolCol::new();
    col.insert(Some(true));
    let col_unc = col.uncompress();
    assert_eq!(col_unc.len(), 1);
    assert_eq!(col_unc[0].unwrap(), true);
}

#[test]
fn bool_2() {
    let mut col: BoolCol = BoolCol::new();
    col.insert(Some(true));
    col.insert(Some(false));
    let col_unc = col.uncompress();
    assert_eq!(col_unc.len(), 2);
    assert_eq!(col_unc[0].unwrap(), true);
    assert_eq!(col_unc[1].unwrap(), false);
}

#[test]
fn bool_3() {
    let mut col: BoolCol = BoolCol::new();
    col.insert(Some(true));
    col.insert(None);
    col.insert(Some(false));
    let col_unc = col.uncompress();
    assert_eq!(col_unc.len(), 3);
    assert_eq!(col_unc[0].unwrap(), true);
    assert!(col_unc[1].is_none());
    assert_eq!(col_unc[2].unwrap(), false);
}

#[test]
fn insert_all_reads_back_in_order() {
    let vals = vec![Some(num(5.0)), Some(num(5.0)), Some(num(5.0)), None, None, Some(num(4.0))];
    let mut rl: RunLength<Num> = RunLength::new();
    insert_all(&mut rl, &vals);
    let mut bm: BitMap<Num> = BitMap::new();
    insert_all(&mut bm, &vals);
    let mut x = XorCol::new();
    insert_all(&mut x, &vals);
    for col in [rl.uncompress(), bm.uncompress(), x.uncompress()] {
        assert_eq!(col.len(), vals.len());
        for (a, b) in col.iter().zip(vals.iter()) {
            assert_eq!(a.map(|n| n.0), b.map(|n| n.0));
        }
    }
}

#[test]
fn bitmap_keeps_one_bitmap_per_value() {
    let mut bm: BitMap<Num> = BitMap::new();
    for v in [4.0, 5.0, 4.0, 5.0, 4.0] {
        bm.insert(Some(num(v)));
    }
    bm.insert(None);
    let back: Vec<Option<u64>> = bm.uncompress().iter().map(|o| o.map(|n| n.0)).collect();
    let expect: Vec<Option<u64>> = vec![Some(num(4.0).0), Some(num(5.0).0), Some(num(4.0).0), Some(num(5.0).0), Some(num(4.0).0), None];
    assert_eq!(back, expect);
}

#[test]
fn xor_column_reports_nine_more_rows() {
    let mut x = XorCol::new();
    assert_eq!(x.len(), 9);
    x.insert(Some(num(1.5)));
    x.insert(None);
    assert_eq!(x.len(), 11);
    assert_eq!(x.uncompress().len(), 2);
}

#[test]
fn bitmap_from_values_reads_back() {
    let vals: Vec<Option<Num>> = [4.0, 5.0, 4.0, 5.0, 4.0].iter().map(|v| Some(num(*v))).collect();
    let bm = BitMap::from_values(&vals);
    let back: Vec<Option<u64>> = bm.uncompress().iter().map(|o| o.map(|n| n.0)).collect();
    let expect: Vec<Option<u64>> = vals.iter().map(|o| o.map(|n| n.0)).collect();
    assert_eq!(back, expect);
    assert_eq!(bm.len(), 5);
}
