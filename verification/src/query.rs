//! Parsing of queries: `SELECT`, `INSERT`, `CREATE`, `COMPRESS`, `SCRIPT`,
//! `IMPORT`, `EXPORT` and `EXIT`.
use vstd::prelude::*;
use crate::lexer::TokenKind;
use crate::types::{
    SortType,
    Expr,
    Query,
    CompressList,
    ExprV,
    QueryV,
    expr_view,
    opt_expr_view,
    query_view,
};
use crate::grammar::{
    PState,
    sp_opt_clause,
    sp_sort_clause,
    sp_select,
    sp_insert,
    sp_compress,
    sp_script,
    sp_csv,
    sp_singleassign,
    sp_create_column,
    sp_create_aggregate,
    sp_create,
    sp_query,
};
use crate::parser::Parser;

verus! {

/// A sort clause as plain values.
pub open spec fn sort_view(o: Option<(String, SortType)>) -> Option<(Seq<char>, SortType)> {
    match o {
        Some((n, d)) => Some((n@, d)),
        None => None,
    }
}

impl Parser {
    /// An optional clause `k e` (`WHERE`, `LIMIT` or `INIT`).
    fn opt_clause(&mut self, k: TokenKind) -> (r: Result<Option<Expr>, String>)
        requires
            old(self).wf(),
        ensures
            final(self).stream() == old(self).stream(),
            final(self).wf(),
            r matches Ok(v) ==> old(self).gives(sp_opt_clause(old(self).stream(), old(self).state(), k), opt_expr_view(v), *final(self)),
            r matches Err(e) ==> sp_opt_clause(old(self).stream(), old(self).state(), k) == Err::<(Option<ExprV>, PState), Seq<char>>(e@),
    {
        if self.peek().kind == k {
            match self.pop() {
                Ok(_) => {},
                Err(e) => return Err(e),
            }
            match self.expr() {
                Ok(e) => Ok(Some(e)),
                Err(e) => Err(e),
            }
        } else {
            Ok(None)
        }
    }

    /// An optional `ORDER BY f [ASC|DESC]` clause.
    fn sort_clause(&mut self) -> (r: Result<Option<(String, SortType)>, String>)
        requires
            old(self).wf(),
        ensures
            final(self).stream() == old(self).stream(),
            final(self).wf(),
            r matches Ok(v) ==> old(self).gives(sp_sort_clause(old(self).stream(), old(self).state()), sort_view(v), *final(self)),
            r matches Err(e) ==> sp_sort_clause(old(self).stream(), old(self).state()) == Err::<(Option<(Seq<char>, SortType)>, PState), Seq<char>>(e@),
    {
        match self.peek().kind {
            TokenKind::SortKw => {
                match self.pop() {
                    Ok(_) => {},
                    Err(e) => return Err(e),
                }
                match self.pop_expect(TokenKind::ByKw) {
                    Ok(_) => {},
                    Err(e) => return Err(e),
                }
                let ident = match self.ident() {
                    Ok(v) => v,
                    Err(e) => return Err(e),
                };
                match self.peek().kind {
                    TokenKind::SortType => {
                        let t = match self.pop() {
                            Ok(t) => t,
                            Err(e) => return Err(e),
                        };
                        match t.value {
                            crate::lexer::TokenValue::SortType(d) => Ok(Some((ident, d))),
                            _ => Err(self.unexpected_here()),
                        }
                    },
                    _ => Ok(Some((ident, SortType::Ascending))),
                }
            },
            _ => Ok(None),
        }
    }

    /// What follows `SELECT`.
    fn select_query(&mut self) -> (r: Result<Query, String>)
        requires
            old(self).wf(),
        ensures
            final(self).stream() == old(self).stream(),
            final(self).wf(),
            r matches Ok(v) ==> old(self).gives(sp_select(old(self).stream(), old(self).state()), query_view(v), *final(self)),
            r matches Err(e) ==> sp_select(old(self).stream(), old(self).state()) == Err::<(QueryV, PState), Seq<char>>(e@),
    {
        match self.peek().kind {
            TokenKind::AggregateKw => {
                match self.pop() {
                    Ok(_) => {},
                    Err(e) => return Err(e),
                }
                let agid = match self.ident() {
                    Ok(v) => v,
                    Err(e) => return Err(e),
                };
                match self.pop_expect(TokenKind::FromKw) {
                    Ok(_) => {},
                    Err(e) => return Err(e),
                }
                let tabid = match self.ident() {
                    Ok(v) => v,
                    Err(e) => return Err(e),
                };
                Ok(Query::SelectAggregate(agid, tabid))
            },
            TokenKind::CompKw => {
                match self.pop() {
                    Ok(_) => {},
                    Err(e) => return Err(e),
                }
                let cmpid = match self.ident() {
                    Ok(v) => v,
                    Err(e) => return Err(e),
                };
                match self.pop_expect(TokenKind::FromKw) {
                    Ok(_) => {},
                    Err(e) => return Err(e),
                }
                let tabid = match self.ident() {
                    Ok(v) => v,
                    Err(e) => return Err(e),
                };
                Ok(Query::SelectComp(cmpid, tabid))
            },
            _ => {
                let ilist = match self.peek().kind {
                    TokenKind::TimesKw => {
                        match self.pop() {
                            Ok(_) => {},
                            Err(e) => return Err(e),
                        }
                        None
                    },
                    _ => match self.identlist() {
                        Ok(v) => Some(v),
                        Err(e) => return Err(e),
                    },
                };
                match self.pop_expect(TokenKind::FromKw) {
                    Ok(_) => {},
                    Err(e) => return Err(e),
                }
                let tableid = match self.ident() {
                    Ok(v) => v,
                    Err(e) => return Err(e),
                };
                let wherescript = match self.opt_clause(TokenKind::WhereKw) {
                    Ok(v) => v,
                    Err(e) => return Err(e),
                };
                let sortscript = match self.sort_clause() {
                    Ok(v) => v,
                    Err(e) => return Err(e),
                };
                let limitscript = match self.opt_clause(TokenKind::LimitKw) {
                    Ok(v) => v,
                    Err(e) => return Err(e),
                };
                Ok(Query::Select(ilist, tableid, wherescript, sortscript, limitscript))
            },
        }
    }

    /// What follows `INSERT`.
    #[verifier::rlimit(40)]
    fn insert_query(&mut self) -> (r: Result<Query, String>)
        requires
            old(self).wf(),
        ensures
            final(self).stream() == old(self).stream(),
            final(self).wf(),
            r matches Ok(v) ==> old(self).gives(sp_insert(old(self).stream(), old(self).state()), query_view(v), *final(self)),
            r matches Err(e) ==> sp_insert(old(self).stream(), old(self).state()) == Err::<(QueryV, PState), Seq<char>>(e@),
    {
        match self.pop_expect(TokenKind::IntoKw) {
            Ok(_) => {},
            Err(e) => return Err(e),
        }
        let tableid = match self.ident() {
            Ok(v) => v,
            Err(e) => return Err(e),
        };
        let colids = match self.peek().kind {
            TokenKind::LParen => {
                match self.pop() {
                    Ok(_) => {},
                    Err(e) => return Err(e),
                }
                let ilist = match self.identlist() {
                    Ok(v) => v,
                    Err(e) => return Err(e),
                };
                match self.pop_expect(TokenKind::RParen) {
                    Ok(_) => {},
                    Err(e) => return Err(e),
                }
                Some(ilist)
            },
            _ => None,
        };
        match self.pop_expect(TokenKind::ValuesKw) {
            Ok(_) => {},
            Err(e) => return Err(e),
        }
        match self.pop_expect(TokenKind::LParen) {
            Ok(_) => {},
            Err(e) => return Err(e),
        }
        let vlist = match self.exprlist() {
            Ok(v) => v,
            Err(e) => return Err(e),
        };
        match self.pop_expect(TokenKind::RParen) {
            Ok(_) => {},
            Err(e) => return Err(e),
        }
        Ok(Query::Insert(tableid, colids, vlist))
    }

    /// What follows `COMPRESS`.
    fn compress_query(&mut self) -> (r: Result<Query, String>)
        requires
            old(self).wf(),
        ensures
            final(self).stream() == old(self).stream(),
            final(self).wf(),
            r matches Ok(v) ==> old(self).gives(sp_compress(old(self).stream(), old(self).state()), query_view(v), *final(self)),
            r matches Err(e) ==> sp_compress(old(self).stream(), old(self).state()) == Err::<(QueryV, PState), Seq<char>>(e@),
    {
        let table = match self.ident() {
            Ok(v) => v,
            Err(e) => return Err(e),
        };
        match self.pop_expect(TokenKind::LParen) {
            Ok(_) => {},
            Err(e) => return Err(e),
        }
        let fields = match self.identlist() {
            Ok(v) => v,
            Err(e) => return Err(e),
        };
        match self.pop_expect(TokenKind::RParen) {
            Ok(_) => {},
            Err(e) => return Err(e),
        }
        let comptypes = match self.peek().kind {
            TokenKind::LParen => {
                match self.pop() {
                    Ok(_) => {},
                    Err(e) => return Err(e),
                }
                let types = match self.compresslist() {
                    Ok(v) => v,
                    Err(e) => return Err(e),
                };
                match self.pop_expect(TokenKind::RParen) {
                    Ok(_) => {},
                    Err(e) => return Err(e),
                }
                types
            },
            _ => {
                let ctype = match self.compresstype() {
                    Ok(v) => v,
                    Err(e) => return Err(e),
                };
                let mut clist: CompressList = Vec::new();
                let mut i: usize = 0;
                while i < fields.len()
                    invariant
                        i <= fields.len(),
                        clist@ =~= Seq::new(i as nat, |j: int| ctype),
                    decreases fields.len() - i,
                {
                    clist.push(ctype);
                    i += 1;
                }
                clist
            },
        };
        Ok(Query::Compress(table, fields, comptypes))
    }

    /// What follows `SCRIPT`.
    fn script_query(&mut self) -> (r: Result<Query, String>)
        requires
            old(self).wf(),
        ensures
            final(self).stream() == old(self).stream(),
            final(self).wf(),
            r matches Ok(v) ==> old(self).gives(sp_script(old(self).stream(), old(self).state()), query_view(v), *final(self)),
            r matches Err(e) ==> sp_script(old(self).stream(), old(self).state()) == Err::<(QueryV, PState), Seq<char>>(e@),
    {
        let e = match self.block() {
            Ok(b) => Expr::BlockExpr(b),
            Err(e) => return Err(e),
        };
        match self.peek().kind {
            TokenKind::FromKw => {
                match self.pop() {
                    Ok(_) => {},
                    Err(e) => return Err(e),
                }
                let tname = match self.ident() {
                    Ok(v) => v,
                    Err(e) => return Err(e),
                };
                Ok(Query::Script(e, Some(tname)))
            },
            _ => Ok(Query::Script(e, None)),
        }
    }

    /// What follows `IMPORT` (`k` being `INTO`) or `EXPORT` (`k` being
    /// `FROM`): `CSV path k table`.
    fn csv_target(&mut self, k: TokenKind) -> (r: Result<(String, String), String>)
        requires
            old(self).wf(),
            k != TokenKind::EOF,
        ensures
            final(self).stream() == old(self).stream(),
            final(self).wf(),
            r matches Ok(v) ==> old(self).gives(sp_csv(old(self).stream(), old(self).state(), k), (v.0@, v.1@), *final(self)),
            r matches Err(e) ==> sp_csv(old(self).stream(), old(self).state(), k) == Err::<((Seq<char>, Seq<char>), PState), Seq<char>>(e@),
    {
        match self.pop_expect(TokenKind::CSVKw) {
            Ok(_) => {},
            Err(e) => return Err(e),
        }
        let cpath = match self.ident() {
            Ok(v) => v,
            Err(e) => return Err(e),
        };
        match self.pop_expect(k) {
            Ok(_) => {},
            Err(e) => return Err(e),
        }
        let tname = match self.ident() {
            Ok(v) => v,
            Err(e) => return Err(e),
        };
        Ok((cpath, tname))
    }

    /// An assignment `x = e`.
    fn singleassign(&mut self) -> (r: Result<(String, Expr), String>)
        requires
            old(self).wf(),
        ensures
            final(self).stream() == old(self).stream(),
            final(self).wf(),
            r matches Ok(v) ==> old(self).gives(sp_singleassign(old(self).stream(), old(self).state()), (v.0@, expr_view(v.1)), *final(self)),
            r matches Err(e) ==> sp_singleassign(old(self).stream(), old(self).state()) == Err::<((Seq<char>, ExprV), PState), Seq<char>>(e@),
    {
        let id = match self.ident() {
            Ok(v) => v,
            Err(e) => return Err(e),
        };
        match self.pop_expect(TokenKind::AssignKw) {
            Ok(_) => {},
            Err(e) => return Err(e),
        }
        let expr = match self.expr() {
            Ok(v) => v,
            Err(e) => return Err(e),
        };
        Ok((id, expr))
    }

    /// What follows `CREATE COLUMN`.
    fn create_column(&mut self) -> (r: Result<Query, String>)
        requires
            old(self).wf(),
        ensures
            final(self).stream() == old(self).stream(),
            final(self).wf(),
            r matches Ok(v) ==> old(self).gives(sp_create_column(old(self).stream(), old(self).state()), query_view(v), *final(self)),
            r matches Err(e) ==> sp_create_column(old(self).stream(), old(self).state()) == Err::<(QueryV, PState), Seq<char>>(e@),
    {
        match self.pop_expect(TokenKind::LParen) {
            Ok(_) => {},
            Err(e) => return Err(e),
        }
        let t = match self.parsetype() {
            Ok(v) => v,
            Err(e) => return Err(e),
        };
        let s = match self.opt_compresstype() {
            Ok(v) => v,
            Err(e) => return Err(e),
        };
        match self.pop_expect(TokenKind::RParen) {
            Ok(_) => {},
            Err(e) => return Err(e),
        }
        let (name, expr) = match self.singleassign() {
            Ok(v) => v,
            Err(e) => return Err(e),
        };
        match self.pop_expect(TokenKind::IntoKw) {
            Ok(_) => {},
            Err(e) => return Err(e),
        }
        let tname = match self.ident() {
            Ok(v) => v,
            Err(e) => return Err(e),
        };
        Ok(Query::Column(t, s, name, expr, tname))
    }

    /// What follows `CREATE AGGREGATE`.
    fn create_aggregate(&mut self) -> (r: Result<Query, String>)
        requires
            old(self).wf(),
        ensures
            final(self).stream() == old(self).stream(),
            final(self).wf(),
            r matches Ok(v) ==> old(self).gives(sp_create_aggregate(old(self).stream(), old(self).state()), query_view(v), *final(self)),
            r matches Err(e) ==> sp_create_aggregate(old(self).stream(), old(self).state()) == Err::<(QueryV, PState), Seq<char>>(e@),
    {
        let (name, expr) = match self.singleassign() {
            Ok(v) => v,
            Err(e) => return Err(e),
        };
        let init = match self.opt_clause(TokenKind::InitKw) {
            Ok(v) => v,
            Err(e) => return Err(e),
        };
        match self.pop_expect(TokenKind::IntoKw) {
            Ok(_) => {},
            Err(e) => return Err(e),
        }
        let tname = match self.ident() {
            Ok(v) => v,
            Err(e) => return Err(e),
        };
        Ok(Query::Aggregate(name, expr, init, tname))
    }

    /// What follows `CREATE`.
    fn create_query(&mut self) -> (r: Result<Query, String>)
        requires
            old(self).wf(),
        ensures
            final(self).stream() == old(self).stream(),
            final(self).wf(),
            r matches Ok(v) ==> old(self).gives(sp_create(old(self).stream(), old(self).state()), query_view(v), *final(self)),
            r matches Err(e) ==> sp_create(old(self).stream(), old(self).state()) == Err::<(QueryV, PState), Seq<char>>(e@),
    {
        let t = match self.pop() {
            Ok(t) => t,
            Err(e) => return Err(e),
        };
        match t.kind {
            TokenKind::TableKw => {
                let tname = match self.ident() {
                    Ok(v) => v,
                    Err(e) => return Err(e),
                };
                match self.pop_expect(TokenKind::LParen) {
                    Ok(_) => {},
                    Err(e) => return Err(e),
                }
                let clist = match self.collist() {
                    Ok(v) => v,
                    Err(e) => return Err(e),
                };
                match self.pop_expect(TokenKind::RParen) {
                    Ok(_) => {},
                    Err(e) => return Err(e),
                }
                Ok(Query::CreateTable(tname, clist))
            },
            TokenKind::CompKw => {
                let (name, expr) = match self.singleassign() {
                    Ok(v) => v,
                    Err(e) => return Err(e),
                };
                match self.pop_expect(TokenKind::IntoKw) {
                    Ok(_) => {},
                    Err(e) => return Err(e),
                }
                let table_name = match self.ident() {
                    Ok(v) => v,
                    Err(e) => return Err(e),
                };
                Ok(Query::Comp(name, expr, table_name))
            },
            TokenKind::ColumnKw => self.create_column(),
            TokenKind::AggregateKw => self.create_aggregate(),
            TokenKind::ConstKw => {
                let (name, expr) = match self.singleassign() {
                    Ok(v) => v,
                    Err(e) => return Err(e),
                };
                Ok(Query::Const(name, expr))
            },
            _ => Err(self.unexpected_here()),
        }
    }

    /// A query, chosen by its first token.
    pub(crate) fn query(&mut self) -> (r: Result<Query, String>)
        requires
            old(self).wf(),
        ensures
            final(self).stream() == old(self).stream(),
            final(self).wf(),
            r matches Ok(v) ==> old(self).gives(sp_query(old(self).stream(), old(self).state()), query_view(v), *final(self)),
            r matches Err(e) ==> sp_query(old(self).stream(), old(self).state()) == Err::<(QueryV, PState), Seq<char>>(e@),
    {
        let t = match self.pop() {
            Ok(t) => t,
            Err(e) => return Err(e),
        };
        match t.kind {
            TokenKind::SelectKw => self.select_query(),
            TokenKind::InsertKw => self.insert_query(),
            TokenKind::CompressKw => self.compress_query(),
            TokenKind::ScriptKw => self.script_query(),
            TokenKind::ExitKw => Ok(Query::Exit),
            TokenKind::ImportKw => match self.csv_target(TokenKind::IntoKw) {
                Ok((cpath, tname)) => Ok(Query::ImportCSV(cpath, tname)),
                Err(e) => Err(e),
            },
            TokenKind::ExportKw => match self.csv_target(TokenKind::FromKw) {
                Ok((cpath, tname)) => Ok(Query::ExportCSV(cpath, tname)),
                Err(e) => Err(e),
            },
            TokenKind::CreateKw => self.create_query(),
            _ => Err(self.unexpected_here()),
        }
    }
}

} // verus!
