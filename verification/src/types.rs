//! The values, expressions and queries of SQLScript.
use vstd::prelude::*;
use std::rc::Rc;
use crate::num::Num;
use crate::env::Frame;

verus! {

/// A SQL query.
#[derive(Clone)]
pub enum Query {
    /// `SELECT * | f, .. FROM t [WHERE e] [ORDER BY f [ASC|DESC]] [LIMIT e]`
    Select(Option<IdentList>, String, Option<Expr>, Option<(String, SortType)>, Option<Expr>),
    /// `INSERT INTO t [(f, ..)] VALUES (e, ..)`
    Insert(String, Option<IdentList>, ExprList),
    /// `SELECT AGGREGATE name FROM t`
    SelectAggregate(String, String),
    /// `SELECT COMP name FROM t`
    SelectComp(String, String),
    /// `CREATE CONST name = e`
    Const(String, Expr),
    /// `CREATE AGGREGATE name = e [INIT e] INTO t`
    Aggregate(String, Expr, Option<Expr>, String),
    /// `CREATE COMP name = e INTO t`
    Comp(String, Expr, String),
    /// `CREATE COLUMN (type [compression]) name = e INTO t`
    Column(ColType, Option<CompressType>, String, Expr, String),
    /// `CREATE TABLE t (f type [compression], ..)`
    CreateTable(String, ColList),
    /// `COMPRESS t (f, ..) (strategy, ..) | strategy`
    Compress(String, IdentList, CompressList),
    /// `SCRIPT e [FROM t]`
    Script(Expr, Option<String>),
    /// `EXIT`
    Exit,
    /// `IMPORT CSV path INTO t`
    ImportCSV(String, String),
    /// `EXPORT CSV path FROM t`
    ExportCSV(String, String),
}

/// A SQLScript expression.
#[derive(Clone)]
pub enum Expr {
    /// A binary operation.
    BopExpr(Rc<Expr>, BopType, Rc<Expr>),
    /// A unary operation.
    UopExpr(UopType, Rc<Expr>),
    /// A block `{x = e; ..; e}`.
    BlockExpr(Block),
    /// A literal value.
    ValExpr(Lit),
    /// A variable.
    IdentExpr(String),
    /// A call `f(e, ..)`.
    CallExpr(Rc<Expr>, ExprList),
    /// A function `fun x, .. -> e`.
    FunExpr(IdentList, Rc<Expr>),
    /// `if e then e else e`
    CondExpr(Rc<Expr>, Rc<Expr>, Rc<Expr>),
    /// A tuple `[e, ..]`.
    TupExpr(ExprList),
}

/// A block: assignments followed by an expression.
#[derive(Clone)]
pub enum Block {
    /// The block's final expression.
    ExprBlock(Rc<Expr>),
    /// `ident = expr; rest`
    StmtBlock(String, Rc<Expr>, Rc<Block>),
}

/// A literal as written in a script. A number literal keeps its decimal
/// digits exactly as written (`[0-9]+` or `[0-9]+.[0-9]+`).
#[derive(PartialEq, Eq, Debug, Clone)]
pub enum Lit {
    /// A number literal.
    Num(String),
    /// A string literal, without its quotes.
    Str(String),
    /// `true` or `false`.
    Bool(bool),
    /// `undefined`.
    Undef,
    /// `null`.
    Null,
}

/// A SQLScript value.
#[derive(Clone)]
pub enum Val {
    /// A number.
    NumVal(Num),
    /// A string.
    StrVal(String),
    /// A boolean.
    BoolVal(bool),
    /// `undefined`.
    UndefVal,
    /// `null`.
    NullVal,
    /// A function with the variables it captured, its parameters and its body.
    ClosureVal(Frame, IdentList, Rc<Expr>),
    /// A tuple.
    TupVal(Vec<Rc<Val>>),
}

/// Binary operators.
#[derive(PartialEq, Eq, Debug, Clone, Copy, Structural)]
pub enum BopType {
    PlusBop,
    MinusBop,
    TimesBop,
    DivBop,
    ModBop,
    GtBop,
    GteBop,
    LtBop,
    LteBop,
    EqBop,
    StrEqBop,
    LogOrBop,
    LogAndBop,
    DotBop,
}

/// Unary operators.
#[derive(PartialEq, Eq, Debug, Clone, Copy, Structural)]
pub enum UopType {
    /// `-x`
    NegUop,
    /// `!x`
    NotUop,
    /// `+x`
    NumUop,
    /// `&x`
    StrUop,
    /// `?x`
    BoolUop,
    /// `^x`
    CeilUop,
    /// `_x`
    FloorUop,
}

/// The type of a column.
#[derive(PartialEq, Eq, Debug, Clone, Copy, Structural)]
pub enum ColType {
    Number,
    String,
    Boolean,
}

/// How a column is stored.
#[derive(PartialEq, Eq, Debug, Clone, Copy, Structural)]
pub enum CompressType {
    Uncompressed,
    RunLength,
    BitMap,
    Xor,
}

/// A storage scheme for a column, as the storage layer names them.
#[derive(PartialEq, Eq, Debug, Clone, Copy, Structural)]
pub enum CompressionStrategy {
    Uncompressed,
    RunLength,
    Bitmap,
    Xor,
}

/// Sort direction of `ORDER BY`.
#[derive(PartialEq, Eq, Debug, Clone, Copy, Structural)]
pub enum SortType {
    Ascending,
    Descending,
}

/// The columns of a `CREATE TABLE`: name, type and optional compression.
pub type ColList = Vec<(String, ColType, Option<CompressType>)>;

/// A list of expressions.
pub type ExprList = Vec<Rc<Expr>>;

/// A list of identifiers.
pub type IdentList = Vec<String>;

/// A list of compression strategies.
pub type CompressList = Vec<CompressType>;

/// The name of a compression strategy, as written in queries.
pub fn str_of_ctype(c: CompressType) -> (r: String)
    ensures
        r@ == ctype_name(c),
{
    match c {
        CompressType::Uncompressed => String::from_str("none"),
        CompressType::RunLength => String::from_str("runlen"),
        CompressType::BitMap => String::from_str("bitmap"),
        CompressType::Xor => String::from_str("xor"),
    }
}

/// The name of a compression strategy.
pub open spec fn ctype_name(c: CompressType) -> Seq<char> {
    match c {
        CompressType::Uncompressed => "none"@,
        CompressType::RunLength => "runlen"@,
        CompressType::BitMap => "bitmap"@,
        CompressType::Xor => "xor"@,
    }
}



/// A literal as plain values.
pub enum LitV {
    Num(Seq<char>),
    Str(Seq<char>),
    Bool(bool),
    Undef,
    Null,
}

/// An expression as plain values.
pub enum ExprV {
    Bop(Box<ExprV>, BopType, Box<ExprV>),
    Uop(UopType, Box<ExprV>),
    Block(Box<BlockV>),
    Val(LitV),
    Ident(Seq<char>),
    Call(Box<ExprV>, Seq<ExprV>),
    Fun(Seq<Seq<char>>, Box<ExprV>),
    Cond(Box<ExprV>, Box<ExprV>, Box<ExprV>),
    Tup(Seq<ExprV>),
}

/// A block as plain values.
pub enum BlockV {
    Expr(Box<ExprV>),
    Stmt(Seq<char>, Box<ExprV>, Box<BlockV>),
}

impl View for Lit {
    type V = LitV;

    open spec fn view(&self) -> LitV {
        match self {
            Lit::Num(s) => LitV::Num(s@),
            Lit::Str(s) => LitV::Str(s@),
            Lit::Bool(b) => LitV::Bool(*b),
            Lit::Undef => LitV::Undef,
            Lit::Null => LitV::Null,
        }
    }
}

/// The names of a list of identifiers.
pub open spec fn idents_view(v: Seq<String>) -> Seq<Seq<char>> {
    v.map_values(|s: String| s@)
}

/// An expression as plain values.
pub open spec fn expr_view(e: Expr) -> ExprV
    decreases e, 0int,
{
    match e {
        Expr::BopExpr(a, op, b) => ExprV::Bop(Box::new(expr_view(*a)), op, Box::new(expr_view(*b))),
        Expr::UopExpr(op, a) => ExprV::Uop(op, Box::new(expr_view(*a))),
        Expr::BlockExpr(b) => ExprV::Block(Box::new(block_view(b))),
        Expr::ValExpr(l) => ExprV::Val(l@),
        Expr::IdentExpr(s) => ExprV::Ident(s@),
        Expr::CallExpr(f, args) => ExprV::Call(Box::new(expr_view(*f)), exprs_view(args@)),
        Expr::FunExpr(params, body) => ExprV::Fun(idents_view(params@), Box::new(expr_view(*body))),
        Expr::CondExpr(a, b, c) => ExprV::Cond(
            Box::new(expr_view(*a)),
            Box::new(expr_view(*b)),
            Box::new(expr_view(*c)),
        ),
        Expr::TupExpr(items) => ExprV::Tup(exprs_view(items@)),
    }
}

/// A list of expressions as plain values.
pub open spec fn exprs_view(s: Seq<Rc<Expr>>) -> Seq<ExprV>
    decreases s, 1int,
{
    if s.len() == 0 {
        Seq::empty()
    } else {
        seq![expr_view(*s[0])] + exprs_view(s.drop_first())
    }
}

/// The plain view of a list of expressions has the list's length, and at each
/// index the view of the expression there.
pub proof fn lemma_exprs_view(s: Seq<Rc<Expr>>)
    ensures
        exprs_view(s).len() == s.len(),
        forall|i: int| 0 <= i < s.len() ==> #[trigger] exprs_view(s)[i] == expr_view(*s[i]),
    decreases s.len(),
{
    if s.len() > 0 {
        lemma_exprs_view(s.drop_first());
        assert forall|i: int| 0 <= i < s.len() implies #[trigger] exprs_view(s)[i] == expr_view(*s[i]) by {
            if i > 0 {
                assert(s.drop_first()[i - 1] == s[i]);
            }
        }
    }
}

/// A block as plain values.
pub open spec fn block_view(b: Block) -> BlockV
    decreases b, 0int,
{
    match b {
        Block::ExprBlock(e) => BlockV::Expr(Box::new(expr_view(*e))),
        Block::StmtBlock(id, e, rest) => BlockV::Stmt(id@, Box::new(expr_view(*e)), Box::new(block_view(*rest))),
    }
}

/// An optional expression as plain values.
pub open spec fn opt_expr_view(e: Option<Expr>) -> Option<ExprV> {
    match e {
        Some(x) => Some(expr_view(x)),
        None => None,
    }
}

/// An optional list of identifiers as plain values.
pub open spec fn opt_idents_view(v: Option<IdentList>) -> Option<Seq<Seq<char>>> {
    match v {
        Some(x) => Some(idents_view(x@)),
        None => None,
    }
}

/// The columns of a `CREATE TABLE` as plain values.
pub open spec fn cols_view(v: Seq<(String, ColType, Option<CompressType>)>) -> Seq<(Seq<char>, ColType, Option<CompressType>)> {
    v.map_values(|c: (String, ColType, Option<CompressType>)| (c.0@, c.1, c.2))
}

/// A query as plain values.
pub enum QueryV {
    Select(Option<Seq<Seq<char>>>, Seq<char>, Option<ExprV>, Option<(Seq<char>, SortType)>, Option<ExprV>),
    Insert(Seq<char>, Option<Seq<Seq<char>>>, Seq<ExprV>),
    SelectAggregate(Seq<char>, Seq<char>),
    SelectComp(Seq<char>, Seq<char>),
    Const(Seq<char>, ExprV),
    Aggregate(Seq<char>, ExprV, Option<ExprV>, Seq<char>),
    Comp(Seq<char>, ExprV, Seq<char>),
    Column(ColType, Option<CompressType>, Seq<char>, ExprV, Seq<char>),
    CreateTable(Seq<char>, Seq<(Seq<char>, ColType, Option<CompressType>)>),
    Compress(Seq<char>, Seq<Seq<char>>, Seq<CompressType>),
    Script(ExprV, Option<Seq<char>>),
    Exit,
    ImportCSV(Seq<char>, Seq<char>),
    ExportCSV(Seq<char>, Seq<char>),
}

/// A query as plain values.
pub open spec fn query_view(q: Query) -> QueryV {
    match q {
        Query::Select(f, t, w, s, l) => QueryV::Select(
            opt_idents_view(f),
            t@,
            opt_expr_view(w),
            match s {
                Some((n, d)) => Some((n@, d)),
                None => None,
            },
            opt_expr_view(l),
        ),
        Query::Insert(t, f, v) => QueryV::Insert(t@, opt_idents_view(f), exprs_view(v@)),
        Query::SelectAggregate(a, t) => QueryV::SelectAggregate(a@, t@),
        Query::SelectComp(a, t) => QueryV::SelectComp(a@, t@),
        Query::Const(n, e) => QueryV::Const(n@, expr_view(e)),
        Query::Aggregate(n, e, i, t) => QueryV::Aggregate(n@, expr_view(e), opt_expr_view(i), t@),
        Query::Comp(n, e, t) => QueryV::Comp(n@, expr_view(e), t@),
        Query::Column(ty, c, n, e, t) => QueryV::Column(ty, c, n@, expr_view(e), t@),
        Query::CreateTable(n, cols) => QueryV::CreateTable(n@, cols_view(cols@)),
        Query::Compress(t, f, c) => QueryV::Compress(t@, idents_view(f@), c@),
        Query::Script(e, t) => QueryV::Script(
            expr_view(e),
            match t {
                Some(x) => Some(x@),
                None => None,
            },
        ),
        Query::Exit => QueryV::Exit,
        Query::ImportCSV(c, t) => QueryV::ImportCSV(c@, t@),
        Query::ExportCSV(c, t) => QueryV::ExportCSV(c@, t@),
    }
}
} // verus!
