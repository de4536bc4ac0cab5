use alexdb::database::{rows_where, Database, QueryResult};
use alexdb::num::Num;
use alexdb::types::{ColType, CompressType, Expr, Lit, Val};

fn num(x: f64) -> Val {
    Val::NumVal(Num(x.to_bits()))
}

fn msg(r: &QueryResult) -> String {
    match r {
        QueryResult::Success(m) => format!("ok: {}", m),
        QueryResult::Error(e) => format!("err: {}", e),
        QueryResult::Table(_) => "table".to_string(),
        QueryResult::Value(_) => "value".to_string(),
        QueryResult::Exit => "exit".to_string(),
    }
}

fn schema(cols: &[(&str, ColType, Option<CompressType>)]) -> Vec<(String, ColType, Option<CompressType>)> {
    cols.iter().map(|(n, t, c)| (n.to_string(), *t, *c)).collect()
}

fn people() -> Database {
    let mut db = Database::new();
    let s = schema(&[("age", ColType::Number, None), ("name", ColType::String, Some(CompressType::RunLength))]);
    let r = db.create_table(&"people".to_string(), &s);
    assert_eq!(msg(&r), "ok: Created table people");
    db
}

#[test]
fn database_create_and_find_tables() {
    let mut db = people();
    let s = schema(&[("x", ColType::Boolean, None)]);
    db.create_table(&"flags".to_string(), &s);
    assert_eq!(db.get_table_index(&"people".to_string()), Ok(0));
    assert_eq!(db.get_table_index(&"flags".to_string()), Ok(1));
    assert_eq!(db.get_table_index(&"nope".to_string()), Err("Table nope does not exist".to_string()));
    assert_eq!(db.get_table_names(), &vec!["people".to_string(), "flags".to_string()]);
    let t = db.get_table(0);
    assert_eq!(t.get_headers(), &vec!["age".to_string(), "name".to_string()]);
    assert_eq!(t.len(), 0);
}

#[test]
fn database_create_table_stops_at_bad_column() {
    let mut db = Database::new();
    let s = schema(&[("a", ColType::Number, None), ("a", ColType::String, None), ("b", ColType::Number, None)]);
    let r = db.create_table(&"t".to_string(), &s);
    assert_eq!(msg(&r), "err: Duplicate column a");
    assert_eq!(db.get_table(0).get_headers(), &vec!["a".to_string()]);
    assert_eq!(db.calculated_count(0), 1);
    let s = schema(&[("a", ColType::Number, None), ("b", ColType::Boolean, Some(CompressType::Xor)), ("c", ColType::Number, None)]);
    let r = db.create_table(&"u".to_string(), &s);
    assert_eq!(msg(&r), "err: Boolean columns do not implement compression type xor");
    assert_eq!(db.get_table(1).get_headers(), &vec!["a".to_string(), "b".to_string()]);
    assert_eq!(db.calculated_count(1), 1);
}

#[test]
fn database_constants_update_in_place() {
    let mut db = Database::new();
    assert_eq!(msg(&db.create_const(&"k".to_string(), num(1.0))), "ok: Const k");
    db.create_const(&"j".to_string(), Val::BoolVal(true));
    db.create_const(&"k".to_string(), num(2.0));
    let env = db.default_environment();
    match env.get(&"k".to_string()) {
        Some(Val::NumVal(n)) => assert_eq!(f64::from_bits(n.0), 2.0),
        _ => assert!(false),
    }
    match env.get(&"j".to_string()) {
        Some(Val::BoolVal(b)) => assert!(*b),
        _ => assert!(false),
    }
    assert!(env.get(&"zz".to_string()).is_none());
}

#[test]
fn database_insert_and_update() {
    let mut db = people();
    db.register_aggregate(0, &"total".to_string(), Val::NullVal, Expr::ValExpr(Lit::Null), None, &"people".to_string());
    db.register_computation(0, &"twice".to_string(), Val::NullVal, Expr::ValExpr(Lit::Null), &"people".to_string());
    let r = db.insert_and_update(&"people".to_string(), 0, vec![num(30.0), Val::StrVal("ann".to_string())], vec![num(30.0)], vec![num(60.0)]);
    assert_eq!(msg(&r), "ok: Insert on people");
    let r = db.insert_and_update(&"people".to_string(), 0, vec![Val::StrVal("bob".to_string()), num(1.0)], vec![], vec![]);
    assert_eq!(msg(&r), "err: Cannot insert non-number into a number column");
    let r = db.insert_and_update(&"people".to_string(), 0, vec![num(1.0)], vec![], vec![]);
    assert_eq!(msg(&r), "err: Number of items inserted does not match number of fields");
    let r = db.insert_and_update(&"people".to_string(), 0, vec![num(40.0), Val::NullVal], vec![], vec![]);
    assert_eq!(msg(&r), "err: Number of aggregate values given does not match number of aggregates stored");
    assert_eq!(db.get_table(0).len(), 2);
    match db.select_aggregate(&"total".to_string(), &"people".to_string()) {
        QueryResult::Value(v) => match v.as_ref() {
            Val::NumVal(n) => assert_eq!(f64::from_bits(n.0), 30.0),
            _ => assert!(false),
        },
        _ => assert!(false),
    }
    match db.select_computation(&"twice".to_string(), &"people".to_string()) {
        QueryResult::Value(v) => match v.as_ref() {
            Val::NumVal(n) => assert_eq!(f64::from_bits(n.0), 60.0),
            _ => assert!(false),
        },
        _ => assert!(false),
    }
    assert_eq!(msg(&db.select_aggregate(&"none".to_string(), &"people".to_string())), "err: Aggregate  does not exist");
    assert_eq!(msg(&db.select_computation(&"none".to_string(), &"people".to_string())), "err: Computation none does not exist");
    assert_eq!(msg(&db.select_aggregate(&"total".to_string(), &"ghosts".to_string())), "err: Table ghosts does not exist");
    let r = db.insert_and_update(&"people".to_string(), 0, vec![num(41.0), Val::NullVal], vec![num(1.0)], vec![]);
    assert_eq!(msg(&r), "err: Number of values given does not match number of computations");
    assert_eq!(db.get_table(0).len(), 3);
    match db.select_aggregate(&"total".to_string(), &"people".to_string()) {
        QueryResult::Value(v) => match v.as_ref() {
            Val::NumVal(n) => assert_eq!(f64::from_bits(n.0), 1.0),
            _ => assert!(false),
        },
        _ => assert!(false),
    }
}

#[test]
fn database_project_fields_and_limit() {
    let db = people();
    let rows = vec![
        vec![Val::StrVal("ann".to_string()), num(30.0)],
        vec![Val::StrVal("bob".to_string()), num(40.0)],
        vec![Val::StrVal("cy".to_string()), num(50.0)],
    ];
    let fields = Some(vec!["name".to_string(), "age".to_string()]);
    match db.project(0, &fields, rows, Some(2)) {
        QueryResult::Table(t) => {
            assert_eq!(t.get_headers(), &fields.clone().unwrap());
            assert_eq!(t.len(), 2);
            let out = t.iter();
            match &out[1][0] {
                Val::StrVal(s) => assert_eq!(s, "bob"),
                _ => assert!(false),
            }
        },
        _ => assert!(false),
    }
    let bad = Some(vec!["name".to_string(), "height".to_string()]);
    assert_eq!(msg(&db.project(0, &bad, vec![], None)), "err: Invalid column name height");
    let twice = Some(vec!["name".to_string(), "name".to_string()]);
    assert_eq!(msg(&db.project(0, &twice, vec![], None)), "err: Duplicate column name");
    let rows = vec![vec![num(1.0), num(2.0)]];
    assert_eq!(msg(&db.project(0, &None, rows, None)), "err: Cannot insert non-string into a string column");
}

#[test]
fn database_compress_keeps_values() {
    let mut db = people();
    for (a, n) in [(1.0, "x"), (1.0, "x"), (2.5, "y")] {
        db.insert_and_update(&"people".to_string(), 0, vec![num(a), Val::StrVal(n.to_string())], vec![], vec![]);
    }
    let before = db.get_table(0).iter();
    let r = db.compress(&"people".to_string(), &vec!["age".to_string(), "name".to_string()], &vec![CompressType::Xor, CompressType::BitMap]);
    assert_eq!(msg(&r), "ok: Compression success on people");
    let after = db.get_table(0).iter();
    assert_eq!(before.len(), after.len());
    for (b, a) in before.iter().zip(after.iter()) {
        match (&b[0], &a[0]) {
            (Val::NumVal(x), Val::NumVal(y)) => assert_eq!(x.0, y.0),
            _ => assert!(false),
        }
        match (&b[1], &a[1]) {
            (Val::StrVal(x), Val::StrVal(y)) => assert_eq!(x, y),
            _ => assert!(false),
        }
    }
    let r = db.compress(&"people".to_string(), &vec!["name".to_string()], &vec![CompressType::Xor]);
    assert_eq!(msg(&r), "err: String columns do not implement compression type xor");
    let r = db.compress(&"ghosts".to_string(), &vec![], &vec![]);
    assert_eq!(msg(&r), "err: Table ghosts does not exist");
}

#[test]
fn database_calculated_column() {
    let mut db = people();
    db.insert_and_update(&"people".to_string(), 0, vec![num(3.0), Val::NullVal], vec![], vec![]);
    let mut col = alexdb::column::Uncompressed::new();
    alexdb::column::ColumnInterface::insert(&mut col, Some(true));
    let c = alexdb::column::Column::Boolean(alexdb::column::BoolColumn::Uncompressed(col));
    let r = db.register_column(0, &"adult".to_string(), c, None, Expr::IdentExpr("age".to_string()), &"people".to_string());
    assert_eq!(msg(&r), "ok: Column adult on people");
    assert!(db.get_calculated(0, 2).is_some());
    assert!(db.get_calculated(0, 0).is_none());
    let empty = alexdb::column::Column::Boolean(alexdb::column::BoolColumn::Uncompressed(alexdb::column::Uncompressed::new()));
    let r = db.register_column(0, &"other".to_string(), empty, None, Expr::IdentExpr("age".to_string()), &"people".to_string());
    assert_eq!(msg(&r), "err: Could not insert pre-populated column due to size mismatch other");
}

#[test]
fn rows_where_keeps_flagged_rows_in_order() {
    let rows = vec![vec![num(1.0)], vec![num(2.0)], vec![num(3.0)], vec![num(4.0)]];
    let kept = rows_where(rows, &vec![true, false, true, true]);
    let firsts: Vec<f64> = kept.iter().map(|r| match &r[0] { Val::NumVal(n) => f64::from_bits(n.0), _ => f64::NAN }).collect();
    assert_eq!(firsts, vec![1.0, 3.0, 4.0]);
}
