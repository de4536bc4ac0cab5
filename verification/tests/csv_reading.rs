use alexdb::csv_import::{csv_cell, csv_columns, csv_import, trim, CsvCell};
use alexdb::table::Table;
use alexdb::types::{ColType, CompressType, Val};

#[test]
fn trim_removes_surrounding_white_space() {
    assert_eq!(trim("  name\t"), "name");
    assert_eq!(trim("\u{3000}a b\u{a0}\n"), "a b");
    assert_eq!(trim("plain"), "plain");
    assert_eq!(trim(" \t \r\n"), "");
    assert_eq!(trim(""), "");
}

#[test]
fn trim_agrees_with_std() {
    for s in ["  x y  ", "\u{2003}x\u{2029}", "\u{1680}\u{85}", "é ", " ü\u{202f}z "] {
        assert_eq!(trim(s), s.trim());
    }
}

fn sample_table() -> Table {
    let mut t = Table::new();
    t.add_column(&"id".to_string(), ColType::Number, CompressType::Uncompressed).unwrap();
    t.add_column(&"name".to_string(), ColType::String, CompressType::Uncompressed).unwrap();
    t.add_column(&"ok".to_string(), ColType::Boolean, CompressType::Uncompressed).unwrap();
    t
}

#[test]
fn csv_columns_match_trimmed_headers() {
    let t = sample_table();
    let headers = vec![" ok ".to_string(), "name".to_string(), "extra".to_string(), "ok".to_string()];
    let map = csv_columns(&t, &headers);
    assert_eq!(map.len(), 3);
    assert_eq!(map[0], None);
    assert_eq!(map[1], Some((ColType::String, 1)));
    assert_eq!(map[2], Some((ColType::Boolean, 0)));
}

#[test]
fn csv_cells_by_type() {
    let empty = "".to_string();
    assert!(matches!(csv_cell(ColType::Boolean, &empty), Ok(CsvCell::Value(Val::NullVal))));
    assert!(matches!(csv_cell(ColType::Number, &empty), Ok(CsvCell::Value(Val::NullVal))));
    assert!(matches!(csv_cell(ColType::String, &empty), Ok(CsvCell::Value(Val::NullVal))));
    assert!(matches!(csv_cell(ColType::Boolean, &"true".to_string()), Ok(CsvCell::Value(Val::BoolVal(true)))));
    assert!(matches!(csv_cell(ColType::Boolean, &"false".to_string()), Ok(CsvCell::Value(Val::BoolVal(false)))));
    match csv_cell(ColType::Boolean, &"yes".to_string()) {
        Err(e) => assert_eq!(e, "Unexpeced boolean value yes. Expect either true or false"),
        _ => panic!("a boolean cell other than true or false is refused"),
    }
    match csv_cell(ColType::Number, &"3.5".to_string()) {
        Ok(CsvCell::NumberText(s)) => assert_eq!(s, "3.5"),
        _ => panic!("a number cell keeps its text"),
    }
    match csv_cell(ColType::String, &" a b ".to_string()) {
        Ok(CsvCell::Value(Val::StrVal(s))) => assert_eq!(s, " a b "),
        _ => panic!("a string cell keeps its text"),
    }
}

#[test]
fn csv_import_reads_rows_for_the_table() {
    let t = sample_table();
    let data = b" ok ,name,extra\ntrue,Ann,1\n,Bob,2\nmaybe,Cy,3\nshort\n".to_vec();
    let imp = csv_import(&t, &data).unwrap().unwrap();
    assert_eq!(imp.sources, vec![None, Some((ColType::String, 1)), Some((ColType::Boolean, 0))]);
    assert_eq!(imp.rows.len(), 4);
    let row0 = imp.rows[0].as_ref().unwrap();
    assert!(matches!(row0[0], Ok(CsvCell::Value(Val::NullVal))));
    assert!(matches!(&row0[1], Ok(CsvCell::Value(Val::StrVal(s))) if s == "Ann"));
    assert!(matches!(row0[2], Ok(CsvCell::Value(Val::BoolVal(true)))));
    let row1 = imp.rows[1].as_ref().unwrap();
    assert!(matches!(row1[2], Ok(CsvCell::Value(Val::NullVal))));
    let row2 = imp.rows[2].as_ref().unwrap();
    assert!(matches!(&row2[2], Err(e) if e == "Unexpeced boolean value maybe. Expect either true or false"));
    assert!(imp.rows[3].is_none());
}

#[test]
fn csv_import_numbers_stay_text() {
    let mut t = Table::new();
    t.add_column(&"x".to_string(), ColType::Number, CompressType::Uncompressed).unwrap();
    let imp = csv_import(&t, &b"x\n2.5\n".to_vec()).unwrap().unwrap();
    assert!(matches!(&imp.rows[0].as_ref().unwrap()[0], Ok(CsvCell::NumberText(s)) if s == "2.5"));
}

#[test]
fn csv_import_refuses_unreadable_headers() {
    let t = sample_table();
    let data = vec![0xff, 0xfe, b'\n', b'1', b'\n'];
    match csv_import(&t, &data) {
        Err(e) => assert_eq!(e, "Error reading CSV headers"),
        _ => panic!("headers that are not UTF-8 cannot be read"),
    }
}
