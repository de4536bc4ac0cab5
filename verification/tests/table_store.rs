use alexdb::column::{Column, ColumnInterface};
use alexdb::num::Num;
use alexdb::table::Table;
use alexdb::types::{ColType, CompressType, Val};

fn num(x: f64) -> Val {
    Val::NumVal(Num(x.to_bits()))
}

#[test]
fn test_bool_column() {
    let mut test_table = Table::new();
    let col_name1 = "Test1".to_string();
    let col_name2 = "Test2".to_string();
    test_table.add_column(&col_name1, ColType::Boolean, CompressType::Uncompressed).unwrap();
    test_table.add_column(&col_name2, ColType::Boolean, CompressType::Uncompressed).unwrap();
    let row1 = vec![Val::BoolVal(false), Val::NullVal];
    test_table.add_row(row1).unwrap();
    match test_table.get_column(&col_name1).unwrap() {
        Column::Boolean(x) => match x.uncompress()[0] {
            Some(y) => assert!(!y),
            _ => assert!(false),
        },
        _ => assert!(false),
    }
    match test_table.get_column(&col_name2).unwrap() {
        Column::Boolean(x) => match x.uncompress()[0] {
            None => assert!(true),
            _ => assert!(false),
        },
        _ => assert!(false),
    }
}

#[test]
fn test_number_column() {
    let mut test_table = Table::new();
    let col_name1 = "Test1".to_string();
    let col_name2 = "Test2".to_string();
    test_table.add_column(&col_name1, ColType::Number, CompressType::Uncompressed).unwrap();
    test_table.add_column(&col_name2, ColType::Number, CompressType::Uncompressed).unwrap();
    let row1 = vec![num(12.5), Val::NullVal];
    test_table.add_row(row1).unwrap();
    match test_table.get_column(&col_name1).unwrap() {
        Column::Number(x) => match x.uncompress()[0] {
            Some(y) => assert_eq!(f64::from_bits(y.0), 12.5),
            _ => assert!(false),
        },
        _ => assert!(false),
    }
    match test_table.get_column(&col_name2).unwrap() {
        Column::Number(x) => match x.uncompress()[0] {
            None => assert!(true),
            _ => assert!(false),
        },
        _ => assert!(false),
    }
}

#[test]
fn test_str_column() {
    let mut test_table = Table::new();
    let col_name1 = "Test1".to_string();
    let col_name2 = "Test2".to_string();
    test_table.add_column(&col_name1, ColType::String, CompressType::Uncompressed).unwrap();
    test_table.add_column(&col_name2, ColType::String, CompressType::Uncompressed).unwrap();
    let row1 = vec![Val::StrVal("Hello".to_string()), Val::NullVal];
    test_table.add_row(row1).unwrap();
    match test_table.get_column(&col_name1).unwrap() {
        Column::String(x) => match &x.uncompress()[0] {
            Some(y) => assert_eq!(y, "Hello"),
            _ => assert!(false),
        },
        _ => assert!(false),
    }
    match test_table.get_column(&col_name2).unwrap() {
        Column::String(x) => match x.uncompress()[0] {
            None => assert!(true),
            _ => assert!(false),
        },
        _ => assert!(false),
    }
}

#[test]
fn test_mixed_column() {
    let mut test_table = Table::new();
    let col_name1 = "Test1".to_string();
    let col_name2 = "Test2".to_string();
    test_table.add_column(&col_name1, ColType::Number, CompressType::Uncompressed).unwrap();
    test_table.add_column(&col_name2, ColType::String, CompressType::Uncompressed).unwrap();
    let row1 = vec![num(112.0), Val::StrVal("Hello".to_string())];
    test_table.add_row(row1).unwrap();
    match test_table.get_column(&col_name1).unwrap() {
        Column::Number(x) => match &x.uncompress()[0] {
            Some(y) => assert_eq!(f64::from_bits(y.0), 112.0),
            _ => assert!(false),
        },
        _ => assert!(false),
    }
    match test_table.get_column(&col_name2).unwrap() {
        Column::String(x) => match &x.uncompress()[0] {
            Some(y) => assert_eq!(y, "Hello"),
            _ => assert!(false),
        },
        _ => assert!(false),
    }
}

#[test]
fn test_multi_row() {
    let mut test_table = Table::new();
    let col_name1 = "Test1".to_string();
    let col_name2 = "Test2".to_string();
    test_table.add_column(&col_name1, ColType::Number, CompressType::Uncompressed).unwrap();
    test_table.add_column(&col_name2, ColType::String, CompressType::Uncompressed).unwrap();
    let row1 = vec![num(112.2), Val::StrVal("Hello".to_string())];
    let row2: Vec<Val> = vec![num(119.0), Val::StrVal("Goodbye".to_string())];
    test_table.add_row(row1).unwrap();
    test_table.add_row(row2).unwrap();
    match test_table.get_column(&col_name1).unwrap() {
        Column::Number(x) => match &x.uncompress()[0] {
            Some(y) => assert_eq!(f64::from_bits(y.0), 112.2),
            _ => assert!(false),
        },
        _ => assert!(false),
    }
    match test_table.get_column(&col_name2).unwrap() {
        Column::String(x) => match &x.uncompress()[1] {
            Some(y) => assert_eq!(y, "Goodbye"),
            _ => assert!(false),
        },
        _ => assert!(false),
    }
}

#[test]
fn test_iter() {
    let mut test_table = Table::new();
    let col_name1 = "Test1".to_string();
    let col_name2 = "Test2".to_string();
    test_table.add_column(&col_name1, ColType::Number, CompressType::Uncompressed).unwrap();
    test_table.add_column(&col_name2, ColType::String, CompressType::Uncompressed).unwrap();
    let row1 = vec![num(112.2), Val::StrVal("Hello".to_string())];
    let row2: Vec<Val> = vec![num(119.0), Val::StrVal("Goodbye".to_string())];
    test_table.add_row(row1).unwrap();
    test_table.add_row(row2).unwrap();
    let mut i: usize = 0;
    for row in test_table.iter() {
        if i == 0 {
            match &row[0] {
                Val::NumVal(x) if f64::from_bits(x.0) == 112.2 => assert!(true),
                _ => assert!(false),
            }
        } else if i == 1 {
            match &row[1] {
                Val::StrVal(x) => assert_eq!(*x, "Goodbye".to_string()),
                _ => assert!(false),
            }
        }
        i += 1;
    }
    assert_eq!(i, 2);
}

#[test]
fn refused_strategies() {
    let mut t = Table::new();
    t.add_column(&"b".to_string(), ColType::Boolean, CompressType::Uncompressed).unwrap();
    assert!(t.add_column(&"c".to_string(), ColType::Boolean, CompressType::Xor).is_err());
    assert_eq!(t.get_headers(), &vec!["b".to_string(), "c".to_string()]);
    assert!(t.add_column(&"s".to_string(), ColType::String, CompressType::Xor).is_err());
    assert_eq!(t.get_headers().len(), 3);
    assert_eq!(t.recompress(0, CompressType::Xor), Err("Boolean columns do not implement compression type xor".to_string()));
    assert_eq!(t.recompress(0, CompressType::Xor), Err("Boolean columns do not implement compression type xor".to_string()));
    assert_eq!(t.recompress(0, CompressType::Uncompressed), Ok(()));
}

#[test]
fn refused_row_keeps_values_appended_before_it() {
    let mut t = Table::new();
    t.add_column(&"a".to_string(), ColType::Number, CompressType::Uncompressed).unwrap();
    t.add_column(&"b".to_string(), ColType::Number, CompressType::Uncompressed).unwrap();
    assert_eq!(
        t.add_row(vec![num(1.0), Val::StrVal("x".to_string())]),
        Err("Cannot insert non-number into a number column".to_string())
    );
    assert_eq!(t.len(), 0);
    assert_eq!(t.column_rows(0), 1);
    assert_eq!(t.column_rows(1), 0);
    t.add_row(vec![num(2.0), num(3.0)]).unwrap();
    let rows = t.iter();
    assert_eq!(rows.len(), 1);
    match (&rows[0][0], &rows[0][1]) {
        (Val::NumVal(x), Val::NumVal(y)) => {
            assert_eq!(f64::from_bits(x.0), 1.0);
            assert_eq!(f64::from_bits(y.0), 3.0);
        },
        _ => panic!("numbers expected"),
    }
}

#[test]
fn recompress_keeps_bits_for_plain_and_xor() {
    let mut t = Table::new();
    t.add_column(&"a".to_string(), ColType::Number, CompressType::Uncompressed).unwrap();
    t.add_row(vec![num(-0.0)]).unwrap();
    t.add_row(vec![num(0.0)]).unwrap();
    t.recompress(0, CompressType::Xor).unwrap();
    t.recompress(0, CompressType::Uncompressed).unwrap();
    let rows = t.iter();
    let bits: Vec<u64> = rows.iter().map(|r| match &r[0] { Val::NumVal(x) => x.0, _ => 1 }).collect();
    assert_eq!(bits, vec![(-0.0f64).to_bits(), 0.0f64.to_bits()]);
}
