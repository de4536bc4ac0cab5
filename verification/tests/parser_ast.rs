use alexdb::parser::Parser;
use alexdb::types::{Block, BopType, Expr, Lit, Query, SortType, UopType};

fn number(l: &Lit) -> f64 {
    match l {
        Lit::Num(x) => x.parse::<f64>().unwrap(),
        _ => panic!("not a number"),
    }
}

fn script(input: &str) -> Block {
    let mut test_parser: Parser = Parser::new(input.to_string());
    test_parser.parse_script().unwrap()
}

fn query(input: &str) -> Query {
    let mut test_parser: Parser = Parser::new(input.to_string());
    test_parser.parse().unwrap()
}

#[test]
fn parser_integer() {
    match script("4") {
        Block::ExprBlock(e1) => match e1.as_ref() {
            Expr::ValExpr(v) => match v {
                Lit::Num(_) => assert_eq!(number(v), 4.0),
                _ => assert!(false),
            },
            _ => assert!(false),
        },
        _ => assert!(false),
    }
}

#[test]
fn parser_basic_arithmetic() {
    match script("5 + 10") {
        Block::ExprBlock(e1) => match e1.as_ref() {
            Expr::BopExpr(v, t, _) => {
                assert_eq!(*t, BopType::PlusBop);
                match v.as_ref() {
                    Expr::ValExpr(y) => assert_eq!(number(y), 5.0),
                    _ => assert!(false),
                }
            },
            _ => assert!(false),
        },
        _ => assert!(false),
    }
}

#[test]
fn parser_nontrivial_arithmetic() {
    match script("(5 + 10) - 3") {
        Block::ExprBlock(e1) => match e1.as_ref() {
            Expr::BopExpr(_, t, v) => {
                assert_eq!(*t, BopType::MinusBop);
                match v.as_ref() {
                    Expr::ValExpr(y) => assert_eq!(number(y), 3.0),
                    _ => assert!(false),
                }
            },
            _ => assert!(false),
        },
        _ => assert!(false),
    }
}

#[test]
fn parser_very_nested() {
    match script("((((((((((((4))))))))))))") {
        Block::ExprBlock(e1) => match e1.as_ref() {
            Expr::ValExpr(v) => assert_eq!(number(v), 4.0),
            _ => assert!(false),
        },
        _ => assert!(false),
    }
}

#[test]
fn parser_basic_stmt() {
    match script("x = 5; x") {
        Block::StmtBlock(id, e1, sc) => {
            assert_eq!(id, "x");
            match e1.as_ref() {
                Expr::ValExpr(v) => assert_eq!(number(v), 5.0),
                _ => assert!(false),
            }
            match sc.as_ref() {
                Block::ExprBlock(_) => assert!(true),
                _ => assert!(false),
            }
        },
        _ => assert!(false),
    }
}

#[test]
fn parser_nontrivial_stmt() {
    match script("x = (3+2)-1; x - 15") {
        Block::StmtBlock(id, _, sc) => {
            assert_eq!(id, "x");
            match sc.as_ref() {
                Block::ExprBlock(_) => assert!(true),
                _ => assert!(false),
            }
        },
        _ => assert!(false),
    }
}

#[test]
fn parser_nested_stmt() {
    match script("x = 5; y = 10; x + y") {
        Block::StmtBlock(_, _, sc1) => match sc1.as_ref() {
            Block::StmtBlock(_, _, sc2) => match sc2.as_ref() {
                Block::ExprBlock(_) => assert!(true),
                _ => assert!(false),
            },
            _ => assert!(false),
        },
        _ => assert!(false),
    }
}

#[test]
fn parser_script_expr() {
    match script("{a = 4; a} + 5") {
        Block::ExprBlock(e1) => match e1.as_ref() {
            Expr::BopExpr(e11, _, _) => match e11.as_ref() {
                Expr::BlockExpr(_) => assert!(true),
                _ => assert!(false),
            },
            _ => assert!(false),
        },
        _ => assert!(false),
    }
}

#[test]
fn parser_script_script_expr() {
    match script("x = {a = 4; a}; x") {
        Block::StmtBlock(_, e1, _) => match e1.as_ref() {
            Expr::BlockExpr(_) => assert!(true),
            _ => assert!(false),
        },
        _ => assert!(false),
    }
}

#[test]
fn parser_uop_expr() {
    match script("-5") {
        Block::ExprBlock(e1) => match e1.as_ref() {
            Expr::UopExpr(t, e2) => {
                assert_eq!(*t, UopType::NegUop);
                match e2.as_ref() {
                    Expr::ValExpr(_) => assert!(true),
                    _ => assert!(false),
                }
            },
            _ => assert!(false),
        },
        _ => assert!(false),
    }
}

#[test]
fn parser_uop_expr_2() {
    match script("0 - -1") {
        Block::ExprBlock(e1) => match e1.as_ref() {
            Expr::BopExpr(_, _, e2) => match e2.as_ref() {
                Expr::UopExpr(t, _) => assert_eq!(*t, UopType::NegUop),
                _ => assert!(false),
            },
            _ => assert!(false),
        },
        _ => assert!(false),
    }
}

#[test]
fn parser_call_expr() {
    match script("x()") {
        Block::ExprBlock(e1) => match e1.as_ref() {
            Expr::CallExpr(e1, args) => {
                assert_eq!(args.len(), 0);
                match e1.as_ref() {
                    Expr::IdentExpr(_) => assert!(true),
                    _ => assert!(false),
                }
            },
            _ => assert!(false),
        },
        _ => assert!(false),
    }
}

#[test]
fn parser_call_expr_2() {
    match script("x() + y") {
        Block::ExprBlock(e1) => match e1.as_ref() {
            Expr::BopExpr(e2, _, _) => match e2.as_ref() {
                Expr::CallExpr(e3, args) => {
                    assert_eq!(args.len(), 0);
                    match e3.as_ref() {
                        Expr::IdentExpr(_) => assert!(true),
                        _ => assert!(false),
                    }
                },
                _ => assert!(false),
            },
            _ => assert!(false),
        },
        _ => assert!(false),
    }
}

#[test]
fn parser_call_expr_3() {
    match script("y + x()") {
        Block::ExprBlock(e1) => match e1.as_ref() {
            Expr::BopExpr(_, _, _) => assert!(true),
            _ => assert!(false),
        },
        _ => assert!(false),
    }
}

#[test]
fn parser_call_expr_4() {
    match script("x(1)") {
        Block::ExprBlock(e1) => match e1.as_ref() {
            Expr::CallExpr(_, args) => assert_eq!(args.len(), 1),
            _ => assert!(false),
        },
        _ => assert!(false),
    }
}

#[test]
fn parser_call_expr_5() {
    match script("x(1,2,3)") {
        Block::ExprBlock(e1) => match e1.as_ref() {
            Expr::CallExpr(_, args) => assert_eq!(args.len(), 3),
            _ => assert!(false),
        },
        _ => assert!(false),
    }
}

#[test]
fn parser_fun_expr_empty() {
    match script("fun -> 0.0") {
        Block::ExprBlock(e1) => match e1.as_ref() {
            Expr::FunExpr(params, body) => {
                assert_eq!(params.len(), 0);
                match body.as_ref() {
                    Expr::ValExpr(_) => assert!(true),
                    _ => assert!(false),
                }
            },
            _ => assert!(false),
        },
        _ => assert!(false),
    }
}

#[test]
fn parser_fun_expr_one() {
    match script("fun x -> x") {
        Block::ExprBlock(e1) => match e1.as_ref() {
            Expr::FunExpr(params, body) => {
                assert_eq!(params.len(), 1);
                match body.as_ref() {
                    Expr::IdentExpr(_) => assert!(true),
                    _ => assert!(false),
                }
            },
            _ => assert!(false),
        },
        _ => assert!(false),
    }
}

#[test]
fn parser_fun_expr_multi() {
    match script("fun x,y,z -> x") {
        Block::ExprBlock(e1) => match e1.as_ref() {
            Expr::FunExpr(params, body) => {
                assert_eq!(params.len(), 3);
                match body.as_ref() {
                    Expr::IdentExpr(_) => assert!(true),
                    _ => assert!(false),
                }
            },
            _ => assert!(false),
        },
        _ => assert!(false),
    }
}

#[test]
fn parser_fun_expr_stmt() {
    match script("f = fun x -> x; f(5)") {
        Block::StmtBlock(_, e1, _) => match e1.as_ref() {
            Expr::FunExpr(params, body) => {
                assert_eq!(params.len(), 1);
                match body.as_ref() {
                    Expr::IdentExpr(_) => assert!(true),
                    _ => assert!(false),
                }
            },
            _ => assert!(false),
        },
        _ => assert!(false),
    }
}

#[test]
fn parser_cond_expr_1() {
    match script("if true then 1 else 0") {
        Block::ExprBlock(e1) => match e1.as_ref() {
            Expr::CondExpr(_, _, _) => assert!(true),
            _ => assert!(false),
        },
        _ => assert!(false),
    }
}

#[test]
fn parser_cond_expr_in_fun() {
    match script("max = fun x,y -> if x > y then x else y; max(15, 10)") {
        Block::StmtBlock(_, e1, _) => match e1.as_ref() {
            Expr::FunExpr(_, body) => match body.as_ref() {
                Expr::CondExpr(_, _, _) => assert!(true),
                _ => assert!(false),
            },
            _ => assert!(false),
        },
        _ => assert!(false),
    }
}

#[test]
fn parser_query_select_1() {
    match query("SELECT field1, field2 FROM tablename") {
        Query::Select(_, _, _, _, _) => assert!(true),
        _ => assert!(false),
    }
}

#[test]
fn parser_query_select_2() {
    match query("SELECT field2 FROM tablename WHERE field1 > 100") {
        Query::Select(_, _, _, _, _) => assert!(true),
        _ => assert!(false),
    }
}

#[test]
fn parser_query_insert_1() {
    match query("INSERT INTO table VALUES (1,1+1,3)") {
        Query::Insert(_, _, _) => assert!(true),
        _ => assert!(false),
    }
}

#[test]
fn parser_query_insert_2() {
    match query("INSERT INTO table (field1, field2, field3) VALUES (1,2,3)") {
        Query::Insert(_, _, _) => assert!(true),
        _ => assert!(false),
    }
}

#[test]
fn parser_query_selectagg() {
    match query("SELECT AGGREGATE ag1 FROM table") {
        Query::SelectAggregate(_, _) => assert!(true),
        _ => assert!(false),
    }
}

#[test]
fn parser_query_const() {
    match query("CREATE CONST max = fun x, y -> if x > y then x else y") {
        Query::Const(_, _) => assert!(true),
        _ => assert!(false),
    }
}

#[test]
fn parser_query_aggregate() {
    match query("CREATE AGGREGATE maxval = max(field1, current) INTO table") {
        Query::Aggregate(_, _, _, _) => assert!(true),
        _ => assert!(false),
    }
}

#[test]
fn parser_query_col() {
    match query("CREATE COLUMN (num) awesome = max(field1, field2) INTO table") {
        Query::Column(_, _, _, _, _) => assert!(true),
        _ => assert!(false),
    }
}

#[test]
fn parser_query_create() {
    match query("CREATE TABLE people (age num, name str, height num)") {
        Query::CreateTable(name, _) => assert_eq!(name, "people"),
        _ => assert!(false),
    }
}

#[test]
fn parser_select_all() {
    match query("SELECT * FROM table1") {
        Query::Select(ids, _, _, _, _) => match ids {
            None => assert!(true),
            _ => assert!(false),
        },
        _ => assert!(false),
    }
}

#[test]
fn parser_select_limit_1() {
    match query("SELECT * FROM table1 WHERE x > 10 LIMIT 10") {
        Query::Select(_, _, whr, _, lim) => {
            match lim {
                Some(_) => assert!(true),
                _ => assert!(false),
            };
            match whr {
                Some(_) => assert!(true),
                _ => assert!(false),
            }
        },
        _ => assert!(false),
    }
}

#[test]
fn parser_select_limit_2() {
    match query("SELECT * FROM table1 LIMIT 10") {
        Query::Select(_, _, whr, _, lim) => {
            match lim {
                Some(_) => assert!(true),
                _ => assert!(false),
            };
            match whr {
                None => assert!(true),
                _ => assert!(false),
            }
        },
        _ => assert!(false),
    }
}

#[test]
fn parser_select_sort_1() {
    match query("SELECT * FROM table1 ORDER BY test2 LIMIT 10") {
        Query::Select(_, _, whr, srt, lim) => {
            match lim {
                Some(_) => assert!(true),
                _ => assert!(false),
            };
            match whr {
                None => assert!(true),
                _ => assert!(false),
            };
            match srt {
                Some(s) => assert_eq!(s.0, "test2"),
                _ => assert!(false),
            }
        },
        _ => assert!(false),
    }
}

#[test]
fn parser_select_sort_2() {
    match query("SELECT * FROM table1 ORDER BY test1") {
        Query::Select(_, _, _, srt, _) => match srt {
            Some(s) => assert_eq!(s.0, "test1"),
            _ => assert!(false),
        },
        _ => assert!(false),
    }
}

#[test]
fn parser_select_sort_3() {
    match query("SELECT * FROM table1 WHERE x > 5 ORDER BY x LIMIT 10") {
        Query::Select(_, _, _, srt, _) => match srt {
            Some(s) => assert_eq!(s.0, "x"),
            _ => assert!(false),
        },
        _ => assert!(false),
    }
}

#[test]
fn parser_sort_direction_and_default() {
    match query("SELECT a FROM t ORDER BY a DESC") {
        Query::Select(_, _, _, Some((f, d)), _) => {
            assert_eq!(f, "a");
            assert_eq!(d, SortType::Descending);
        },
        _ => assert!(false),
    }
    match query("SELECT a FROM t ORDER BY a") {
        Query::Select(_, _, _, Some((_, d)), _) => assert_eq!(d, SortType::Ascending),
        _ => assert!(false),
    }
}

#[test]
fn parser_unexpected_token_position() {
    let mut p = Parser::new("SELECT FROM t".to_string());
    match p.parse() {
        Err(e) => assert_eq!(e, "Unexpected token at 11"),
        Ok(_) => assert!(false),
    }
    let mut p = Parser::new("x = ;".to_string());
    match p.parse_script() {
        Err(e) => assert_eq!(e, "Unexpected token at 5"),
        Ok(_) => assert!(false),
    }
}

#[test]
fn parser_lexing_error() {
    let mut p = Parser::new("SELECT $ FROM t".to_string());
    match p.parse() {
        Err(e) => assert_eq!(e, "Lexing error"),
        Ok(_) => assert!(false),
    }
}

#[test]
fn parser_compress_one_strategy_for_all() {
    match query("COMPRESS t (a, b, c) runlen") {
        Query::Compress(t, fields, strats) => {
            assert_eq!(t, "t");
            assert_eq!(fields, vec!["a".to_string(), "b".to_string(), "c".to_string()]);
            assert_eq!(strats.len(), 3);
        },
        _ => assert!(false),
    }
}

#[test]
fn parser_reparse_is_the_same() {
    let mut p = Parser::new("CREATE TABLE t (a num xor, b str)".to_string());
    let first = p.parse().unwrap();
    let second = p.parse().unwrap();
    match (first, second) {
        (Query::CreateTable(n1, c1), Query::CreateTable(n2, c2)) => {
            assert_eq!(n1, n2);
            assert_eq!(c1, c2);
            assert_eq!(c1.len(), 2);
        },
        _ => assert!(false),
    }
}

fn shape(e: &Expr) -> String {
    match e {
        Expr::BopExpr(a, b, c) => format!("({} {:?} {})", shape(a), b, shape(c)),
        Expr::ValExpr(l) => format!("{}", number(l)),
        Expr::IdentExpr(x) => x.clone(),
        _ => "?".to_string(),
    }
}

fn script_shape(input: &str) -> String {
    match script(input) {
        Block::ExprBlock(e) => shape(e.as_ref()),
        _ => panic!("not an expression"),
    }
}

#[test]
fn parser_operators_group_left() {
    assert_eq!(script_shape("10 - 5 - 2"), "((10 MinusBop 5) MinusBop 2)");
    assert_eq!(script_shape("8 / 4 / 2"), "((8 DivBop 4) DivBop 2)");
    assert_eq!(script_shape("1 + 2 * 3 - 4"), "((1 PlusBop (2 TimesBop 3)) MinusBop 4)");
    assert_eq!(script_shape("a && b || c"), "((a LogAndBop b) LogOrBop c)");
    assert_eq!(script_shape("a < b == c"), "((a LtBop b) EqBop c)");
}
