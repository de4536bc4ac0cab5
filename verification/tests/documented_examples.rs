use alexdb::column::{BitMap, ColumnInterface, RunLength};
use alexdb::database::{CellSource, Database, QueryResult};
use alexdb::num::Num;
use alexdb::parser::Parser;
use alexdb::types::{Block, BopType, ColType, CompressType, Expr, Query, SortType};

fn num(x: f64) -> Num {
    Num(x.to_bits())
}

fn query(input: &str) -> Query {
    Parser::new(input.to_string()).parse().unwrap()
}

#[test]
fn doc_run_length_example() {
    let mut col: RunLength<Num> = RunLength::new();
    for x in [4.0, 4.0, 4.0, 5.0, 5.0] {
        col.insert(Some(num(x)));
    }
    let back: Vec<f64> = col.uncompress().iter().map(|v| f64::from_bits(v.unwrap().0)).collect();
    assert_eq!(back, vec![4.0, 4.0, 4.0, 5.0, 5.0]);
    assert_eq!(col.len(), 5);
}

#[test]
fn doc_bitmap_example() {
    let mut col: BitMap<Num> = BitMap::new();
    for x in [4.0, 5.0, 4.0, 5.0, 4.0] {
        col.insert(Some(num(x)));
    }
    let back: Vec<f64> = col.uncompress().iter().map(|v| f64::from_bits(v.unwrap().0)).collect();
    assert_eq!(back, vec![4.0, 5.0, 4.0, 5.0, 4.0]);
}

#[test]
fn doc_create_table_example() {
    match query("CREATE TABLE person (name str, age num xor, height num xor, has_degree bool)") {
        Query::CreateTable(name, cols) => {
            assert_eq!(name, "person");
            assert_eq!(cols, vec![
                ("name".to_string(), ColType::String, None),
                ("age".to_string(), ColType::Number, Some(CompressType::Xor)),
                ("height".to_string(), ColType::Number, Some(CompressType::Xor)),
                ("has_degree".to_string(), ColType::Boolean, None),
            ]);
            let mut db = Database::new();
            match db.create_table(&name, &cols) {
                QueryResult::Success(m) => assert_eq!(m, "Created table person"),
                _ => assert!(false),
            }
            assert_eq!(db.get_table(0).get_col_types(), vec![ColType::String, ColType::Number, ColType::Number, ColType::Boolean]);
        },
        _ => assert!(false),
    }
}

#[test]
fn doc_insert_omitted_fields_are_null() {
    let mut db = Database::new();
    if let Query::CreateTable(name, cols) = query("CREATE TABLE person (name str, age num xor, height num xor, has_degree bool)") {
        db.create_table(&name, &cols);
    }
    match query("INSERT INTO person (name, age, height) VALUES ('Earl', 87, 5.25)") {
        Query::Insert(_, fields, values) => {
            assert_eq!(values.len(), 3);
            let plan = db.insert_plan(0, &fields);
            assert_eq!(plan, vec![CellSource::Given(0), CellSource::Given(1), CellSource::Given(2), CellSource::Missing]);
        },
        _ => assert!(false),
    }
    let plan = db.insert_plan(0, &Some(vec!["height".to_string(), "name".to_string()]));
    assert_eq!(plan, vec![CellSource::Given(1), CellSource::Missing, CellSource::Given(0), CellSource::Missing]);
    let plan = db.insert_plan(0, &None);
    assert_eq!(plan, vec![CellSource::Given(0), CellSource::Given(1), CellSource::Given(2), CellSource::Given(3)]);
}

#[test]
fn doc_compress_example() {
    match query("COMPRESS person (age, height) xor") {
        Query::Compress(t, fields, strats) => {
            assert_eq!(t, "person");
            assert_eq!(fields, vec!["age".to_string(), "height".to_string()]);
            assert_eq!(strats, vec![CompressType::Xor, CompressType::Xor]);
        },
        _ => assert!(false),
    }
    match query("COMPRESS person (age, name) (bitmap, runlen)") {
        Query::Compress(_, _, strats) => assert_eq!(strats, vec![CompressType::BitMap, CompressType::RunLength]),
        _ => assert!(false),
    }
}

#[test]
fn doc_select_example() {
    match query("SELECT name FROM person WHERE age > avg_age ORDER BY height DESC LIMIT 5") {
        Query::Select(Some(fields), t, Some(w), Some((f, d)), Some(_)) => {
            assert_eq!(fields, vec!["name".to_string()]);
            assert_eq!(t, "person");
            assert_eq!(f, "height");
            assert_eq!(d, SortType::Descending);
            match w {
                Expr::BopExpr(_, BopType::GtBop, _) => assert!(true),
                _ => assert!(false),
            }
        },
        _ => assert!(false),
    }
}

#[test]
fn doc_operator_precedence() {
    let mut p = Parser::new("1 + 2 * 3 > 4 && x".to_string());
    match p.parse_script().unwrap() {
        Block::ExprBlock(e) => match e.as_ref() {
            Expr::BopExpr(l, BopType::LogAndBop, _) => match l.as_ref() {
                Expr::BopExpr(s, BopType::GtBop, _) => match s.as_ref() {
                    Expr::BopExpr(_, BopType::PlusBop, m) => match m.as_ref() {
                        Expr::BopExpr(_, BopType::TimesBop, _) => assert!(true),
                        _ => assert!(false),
                    },
                    _ => assert!(false),
                },
                _ => assert!(false),
            },
            _ => assert!(false),
        },
        _ => assert!(false),
    }
}
