//! The SQLScript parser. Each procedure gives what the function of the same
//! name in `grammar` says, from where the parser stands.
use vstd::prelude::*;
use std::rc::Rc;
use crate::lexer::{Lexer, Token, TokenKind, TokenValue, TokenView, lex_from, lemma_lex_from_bounds, byte_pos};
use crate::types::{
    BopType,
    UopType,
    ColType,
    CompressType,
    SortType,
    Lit,
    LitV,
    Expr,
    Block,
    Query,
    ExprList,
    IdentList,
    ColList,
    CompressList,
    ExprV,
    BlockV,
    QueryV,
    expr_view,
    exprs_view,
    block_view,
    idents_view,
    cols_view,
    query_view,
    lemma_exprs_view,
};
use crate::grammar::{
    PState,
    Parsed,
    measure,
    smaller,
    unexpected,
    unexpected_msg,
    sp_pop,
    sp_pop_expect,
    after_pop_expect,
    sp_peek_ahead,
    l1_bop,
    l2_bop,
    l3_bop,
    l4_bop,
    uop_of,
    sp_ident,
    sp_identlist_rest,
    sp_identlist,
    sp_value,
    sp_parsetype,
    sp_compresstype,
    sp_compresslist_rest,
    sp_compresslist,
    sp_opt_compresstype,
    sp_coldef,
    sp_collist_rest,
    sp_collist,
    sp_block,
    sp_fun,
    sp_cond,
    sp_expr,
    sp_expr_rest,
    sp_operand,
    sp_l2_rest,
    sp_l3_rest,
    sp_l4_rest,
    sp_l2,
    sp_l3,
    sp_l4,
    sp_l5,
    sp_l6,
    sp_l7,
    sp_l8,
    sp_exprlist_rest,
    sp_exprlist,
    sp_singleassign,
    sp_opt_clause,
    sp_sort_clause,
    sp_select,
    sp_insert,
    sp_compress,
    sp_script,
    sp_csv,
    sp_create_column,
    sp_create_aggregate,
    sp_create,
    sp_query,
    first_state,
    sp_parse,
    sp_parse_script,
};
use crate::decimal::decimal_string;

verus! {

/// `Unexpected token at N`.
fn unexpected_at(pos: usize) -> (r: String)
    ensures
        r@ == unexpected_msg(pos as int),
{
    let mut m = String::from_str("Unexpected token at ");
    let d = decimal_string(pos);
    m.append(d.as_str());
    m
}

/// The elements of `v` in the opposite order.
pub(crate) fn reversed<T>(v: Vec<T>) -> (r: Vec<T>)
    ensures
        r@ == v@.reverse(),
{
    let ghost orig = v@;
    let mut v = v;
    let mut r: Vec<T> = Vec::new();
    while v.len() > 0
        invariant
            r@.len() + v@.len() == orig.len(),
            v@ == orig.subrange(0, v@.len() as int),
            forall|i: int| 0 <= i < r@.len() ==> r@[i] == orig[orig.len() - 1 - i],
        decreases v.len(),
    {
        let x = v.pop().unwrap();
        r.push(x);
    }
    assert(r@ =~= orig.reverse());
    r
}

/// A parser over one query.
pub struct Parser {
    lexer: Lexer,
    token: Token,
}

impl Parser {
    /// The text being parsed.
    pub closed spec fn stream(&self) -> Seq<char> {
        self.lexer.stream_view()
    }

    /// Where the parser stands.
    pub closed spec fn state(&self) -> PState {
        PState { pos: self.lexer.pos_view(), tok: self.token@ }
    }

    /// The lexer's position lies within the text.
    pub closed spec fn wf(&self) -> bool {
        &&& 0 <= self.lexer.pos_view() <= self.lexer.stream_view().len()
        &&& self.lexer.byte_pos_view() == byte_pos(self.lexer.stream_view(), self.lexer.pos_view())
    }

    /// `res` is `v` with the parser, from `self`, ending as `after`, and no
    /// input was given back.
    pub open spec fn gives<T>(self, res: Parsed<T>, v: T, after: Parser) -> bool {
        &&& res == Ok::<(T, PState), Seq<char>>((v, after.state()))
        &&& measure(self.stream(), after.state()) <= measure(self.stream(), self.state())
    }

    /// A parser at the start of `stream`, before any token has been read.
    pub fn new(stream: String) -> (r: Parser)
        ensures
            r.stream() == stream@,
            r.state().pos == 0,
            r.wf(),
    {
        let lexer = Lexer::new(stream);
        Parser {
            lexer: lexer,
            token: Token { kind: TokenKind::Dot, value: TokenValue::Nothing, start: 0, end: 0 },
        }
    }

    /// Reads the first token of the text, from its start.
    fn start(&mut self) -> (r: Result<(), String>)
        ensures
            final(self).stream() == old(self).stream(),
            final(self).wf(),
            r is Ok ==> first_state(old(self).stream()) == Ok::<PState, Seq<char>>(final(self).state()),
            r matches Err(e) ==> first_state(old(self).stream()) == Err::<PState, Seq<char>>(e@),
    {
        self.lexer.reset();
        proof {
            lemma_lex_from_bounds(self.lexer.stream_view(), 0);
        }
        self.token = match self.lexer.produce() {
            Ok(t) => t,
            Err(s) => return Err(s),
        };
        Ok(())
    }

    /// Parses the text as a query, from its start. What follows the query
    /// is not read.
    pub fn parse(&mut self) -> (r: Result<Query, String>)
        ensures
            final(self).stream() == old(self).stream(),
            r matches Ok(q) ==> sp_parse(old(self).stream()) == Ok::<QueryV, Seq<char>>(query_view(q)),
            r matches Err(e) ==> sp_parse(old(self).stream()) == Err::<QueryV, Seq<char>>(e@),
    {
        match self.start() {
            Ok(()) => {},
            Err(e) => return Err(e),
        }
        self.query()
    }

    /// Parses the text as a script (a block), from its start. What follows
    /// the block is not read.
    pub fn parse_script(&mut self) -> (r: Result<Block, String>)
        ensures
            final(self).stream() == old(self).stream(),
            r matches Ok(b) ==> sp_parse_script(old(self).stream()) == Ok::<BlockV, Seq<char>>(block_view(b)),
            r matches Err(e) ==> sp_parse_script(old(self).stream()) == Err::<BlockV, Seq<char>>(e@),
    {
        match self.start() {
            Ok(()) => {},
            Err(e) => return Err(e),
        }
        self.block()
    }

    /// The current token.
    pub(crate) fn peek(&self) -> (r: &Token)
        ensures
            r@ == self.state().tok,
    {
        &self.token
    }

    /// The error for an unexpected token at the lexer's position.
    pub(crate) fn unexpected_here(&self) -> (r: String)
        requires
            self.wf(),
        ensures
            r@ == unexpected(self.stream(), self.state().pos),
    {
        unexpected_at(self.lexer.get_pos())
    }

    /// The token after the current one; on success the parser has not moved.
    fn peek_ahead(&mut self) -> (r: Result<Token, String>)
        requires
            old(self).wf(),
        ensures
            final(self).stream() == old(self).stream(),
            final(self).wf(),
            r matches Ok(t) ==> sp_peek_ahead(old(self).stream(), old(self).state()) == Ok::<
                TokenView,
                Seq<char>,
            >(t@) && final(self).state() == old(self).state(),
            r matches Err(e) ==> sp_peek_ahead(old(self).stream(), old(self).state()) == Err::<
                TokenView,
                Seq<char>,
            >(e@),
    {
        proof {
            lemma_lex_from_bounds(self.lexer.stream_view(), self.lexer.pos_view());
        }
        let pos_save = self.lexer.mark();
        let next_token = match self.lexer.produce() {
            Ok(t) => t,
            Err(e) => return Err(e),
        };
        self.lexer.restore(pos_save);
        Ok(next_token)
    }

    /// The operator of lowest precedence at the current token, if any.
    fn peek_l1_bop(&self) -> (r: Option<BopType>)
        ensures
            r == l1_bop(self.state().tok.kind),
    {
        match self.peek().kind {
            TokenKind::LogAndKw => Some(BopType::LogAndBop),
            TokenKind::LogOrKw => Some(BopType::LogOrBop),
            _ => None,
        }
    }

    /// The comparison at the current token, if any.
    fn peek_l2_bop(&self) -> (r: Option<BopType>)
        ensures
            r == l2_bop(self.state().tok.kind),
    {
        match self.peek().kind {
            TokenKind::Gt => Some(BopType::GtBop),
            TokenKind::Gte => Some(BopType::GteBop),
            TokenKind::Lt => Some(BopType::LtBop),
            TokenKind::Lte => Some(BopType::LteBop),
            TokenKind::Eq => Some(BopType::EqBop),
            TokenKind::StrEq => Some(BopType::StrEqBop),
            _ => None,
        }
    }

    /// `+` or `-` at the current token, if there.
    fn peek_l3_bop(&self) -> (r: Option<BopType>)
        ensures
            r == l3_bop(self.state().tok.kind),
    {
        match self.peek().kind {
            TokenKind::PlusKw => Some(BopType::PlusBop),
            TokenKind::MinusKw => Some(BopType::MinusBop),
            _ => None,
        }
    }

    /// `*`, `/` or `%` at the current token, if there.
    fn peek_l4_bop(&self) -> (r: Option<BopType>)
        ensures
            r == l4_bop(self.state().tok.kind),
    {
        match self.peek().kind {
            TokenKind::TimesKw => Some(BopType::TimesBop),
            TokenKind::DivKw => Some(BopType::DivBop),
            TokenKind::Percent => Some(BopType::ModBop),
            _ => None,
        }
    }

    /// The prefix operator at the current token, if any.
    fn peek_uop(&self) -> (r: Option<UopType>)
        ensures
            r == uop_of(self.state().tok.kind),
    {
        match self.peek().kind {
            TokenKind::MinusKw => Some(UopType::NegUop),
            TokenKind::NotKw => Some(UopType::NotUop),
            TokenKind::PlusKw => Some(UopType::NumUop),
            TokenKind::Ampersand => Some(UopType::StrUop),
            TokenKind::Question => Some(UopType::BoolUop),
            TokenKind::Carrot => Some(UopType::CeilUop),
            TokenKind::Underscore => Some(UopType::FloorUop),
            _ => None,
        }
    }

    /// Consumes the current token and returns it.
    pub(crate) fn pop(&mut self) -> (r: Result<Token, String>)
        requires
            old(self).wf(),
        ensures
            final(self).stream() == old(self).stream(),
            final(self).wf(),
            r matches Ok(t) ==> sp_pop(old(self).stream(), old(self).state()) == Ok::<
                (TokenView, PState),
                Seq<char>,
            >((t@, final(self).state())),
            measure(final(self).stream(), final(self).state()) <= measure(
                old(self).stream(),
                old(self).state(),
            ),
            r matches Ok(t) && t.kind != TokenKind::EOF ==> smaller(
                old(self).stream(),
                final(self).state(),
                old(self).state(),
            ),
            r matches Err(e) ==> sp_pop(old(self).stream(), old(self).state()) == Err::<
                (TokenView, PState),
                Seq<char>,
            >(e@),
            r is Err ==> final(self).state() == (PState {
                pos: lex_from(old(self).stream(), old(self).state().pos).1,
                tok: old(self).state().tok,
            }),
    {
        proof {
            lemma_lex_from_bounds(self.lexer.stream_view(), self.lexer.pos_view());
        }
        match self.lexer.produce() {
            Ok(t) => {
                let mut old_token = t;
                std::mem::swap(&mut self.token, &mut old_token);
                Ok(old_token)
            },
            Err(s) => Err(s),
        }
    }

    /// Consumes the current token if it is of kind `kind`.
    pub(crate) fn pop_expect(&mut self, kind: TokenKind) -> (r: Result<Token, String>)
        requires
            old(self).wf(),
            kind != TokenKind::EOF,
        ensures
            final(self).stream() == old(self).stream(),
            final(self).wf(),
            final(self).state() == after_pop_expect(old(self).stream(), old(self).state(), kind),
            measure(final(self).stream(), final(self).state()) <= measure(
                old(self).stream(),
                old(self).state(),
            ),
            r matches Ok(t) ==> sp_pop_expect(old(self).stream(), old(self).state(), kind) == Ok::<
                (TokenView, PState),
                Seq<char>,
            >((t@, final(self).state())) && smaller(
                old(self).stream(),
                final(self).state(),
                old(self).state(),
            ),
            r matches Err(e) ==> sp_pop_expect(old(self).stream(), old(self).state(), kind) == Err::<
                (TokenView, PState),
                Seq<char>,
            >(e@),
    {
        if self.token.kind != kind {
            Err(unexpected_at(self.lexer.get_pos()))
        } else {
            self.pop()
        }
    }

    /// An identifier.
    pub(crate) fn ident(&mut self) -> (r: Result<String, String>)
        requires
            old(self).wf(),
        ensures
            final(self).stream() == old(self).stream(),
            final(self).wf(),
            r matches Ok(v) ==> old(self).gives(sp_ident(old(self).stream(), old(self).state()), v@, *final(self)),
            r matches Err(e) ==> sp_ident(old(self).stream(), old(self).state()) == Err::<(Seq<char>, PState), Seq<char>>(e@),
    {
        match self.peek().kind {
            TokenKind::Identifier => {
                let t = match self.pop() {
                    Ok(t) => t,
                    Err(e) => return Err(e),
                };
                match t.value {
                    TokenValue::String(x) => Ok(x),
                    _ => Err(unexpected_at(self.lexer.get_pos())),
                }
            },
            _ => Err(unexpected_at(self.lexer.get_pos())),
        }
    }

    /// The rest of a list of identifiers, last one first.
    fn identlist_rest(&mut self) -> (r: Result<IdentList, String>)
        requires
            old(self).wf(),
        ensures
            final(self).stream() == old(self).stream(),
            final(self).wf(),
            r matches Ok(v) ==> old(self).gives(
                sp_identlist_rest(old(self).stream(), old(self).state()),
                idents_view(v@),
                *final(self),
            ),
            r matches Err(e) ==> sp_identlist_rest(old(self).stream(), old(self).state()) == Err::<
                (Seq<Seq<char>>, PState),
                Seq<char>,
            >(e@),
        decreases measure(old(self).stream(), old(self).state()),
    {
        let val = match self.ident() {
            Ok(v) => v,
            Err(e) => return Err(e),
        };
        match self.peek().kind {
            TokenKind::Comma => {
                match self.pop() {
                    Ok(_) => {},
                    Err(e) => return Err(e),
                }
                let mut next_vec = match self.identlist_rest() {
                    Ok(v) => v,
                    Err(e) => return Err(e),
                };
                let ghost before = next_vec@;
                next_vec.push(val);
                assert(idents_view(next_vec@) =~= idents_view(before).push(val@));
                Ok(next_vec)
            },
            _ => {
                let new_vec = vec![val];
                assert(idents_view(new_vec@) =~= seq![val@]);
                Ok(new_vec)
            },
        }
    }

    /// A comma-separated list of identifiers.
    pub(crate) fn identlist(&mut self) -> (r: Result<IdentList, String>)
        requires
            old(self).wf(),
        ensures
            final(self).stream() == old(self).stream(),
            final(self).wf(),
            r matches Ok(v) ==> old(self).gives(
                sp_identlist(old(self).stream(), old(self).state()),
                idents_view(v@),
                *final(self),
            ),
            r matches Err(e) ==> sp_identlist(old(self).stream(), old(self).state()) == Err::<
                (Seq<Seq<char>>, PState),
                Seq<char>,
            >(e@),
    {
        let val = match self.ident() {
            Ok(v) => v,
            Err(e) => return Err(e),
        };
        match self.peek().kind {
            TokenKind::Comma => {
                match self.pop() {
                    Ok(_) => {},
                    Err(e) => return Err(e),
                }
                let mut next_vec = match self.identlist_rest() {
                    Ok(v) => v,
                    Err(e) => return Err(e),
                };
                let ghost before = next_vec@;
                next_vec.push(val);
                let out = reversed(next_vec);
                assert(idents_view(out@) =~= idents_view(before).push(val@).reverse());
                Ok(out)
            },
            _ => {
                let new_vec = vec![val];
                assert(idents_view(new_vec@) =~= seq![val@]);
                Ok(new_vec)
            },
        }
    }

    /// A literal value.
    fn value(&mut self) -> (r: Result<Lit, String>)
        requires
            old(self).wf(),
        ensures
            final(self).stream() == old(self).stream(),
            final(self).wf(),
            r matches Ok(v) ==> old(self).gives(sp_value(old(self).stream(), old(self).state()), v@, *final(self)),
            r matches Err(e) ==> sp_value(old(self).stream(), old(self).state()) == Err::<(LitV, PState), Seq<char>>(e@),
    {
        let token = match self.pop() {
            Ok(t) => t,
            Err(e) => return Err(e),
        };
        match token.value {
            TokenValue::Number(x) => Ok(Lit::Num(x)),
            TokenValue::Boolean(x) => Ok(Lit::Bool(x)),
            TokenValue::String(x) => match token.kind {
                TokenKind::String => Ok(Lit::Str(x)),
                _ => Err(unexpected_at(self.lexer.get_pos())),
            },
            TokenValue::Nothing => match token.kind {
                TokenKind::UndefinedKw => Ok(Lit::Undef),
                TokenKind::NullKw => Ok(Lit::Null),
                _ => Err(unexpected_at(self.lexer.get_pos())),
            },
            _ => Err(unexpected_at(self.lexer.get_pos())),
        }
    }

    /// A column type.
    pub(crate) fn parsetype(&mut self) -> (r: Result<ColType, String>)
        requires
            old(self).wf(),
        ensures
            final(self).stream() == old(self).stream(),
            final(self).wf(),
            r matches Ok(v) ==> old(self).gives(sp_parsetype(old(self).stream(), old(self).state()), v, *final(self)),
            r matches Err(e) ==> sp_parsetype(old(self).stream(), old(self).state()) == Err::<(ColType, PState), Seq<char>>(e@),
    {
        match self.pop() {
            Ok(t) => match t.value {
                TokenValue::Type(x) => Ok(x),
                _ => Err(unexpected_at(self.lexer.get_pos())),
            },
            Err(e) => Err(e),
        }
    }

    /// A compression strategy.
    pub(crate) fn compresstype(&mut self) -> (r: Result<CompressType, String>)
        requires
            old(self).wf(),
        ensures
            final(self).stream() == old(self).stream(),
            final(self).wf(),
            r matches Ok(v) ==> old(self).gives(sp_compresstype(old(self).stream(), old(self).state()), v, *final(self)),
            r matches Err(e) ==> sp_compresstype(old(self).stream(), old(self).state()) == Err::<(CompressType, PState), Seq<char>>(e@),
    {
        match self.pop() {
            Ok(t) => match t.value {
                TokenValue::CompressionType(x) => Ok(x),
                _ => Err(unexpected_at(self.lexer.get_pos())),
            },
            Err(e) => Err(e),
        }
    }

    /// The rest of a list of compression strategies, last one first.
    fn compresslist_rest(&mut self) -> (r: Result<CompressList, String>)
        requires
            old(self).wf(),
        ensures
            final(self).stream() == old(self).stream(),
            final(self).wf(),
            r matches Ok(v) ==> old(self).gives(sp_compresslist_rest(old(self).stream(), old(self).state()), v@, *final(self)),
            r matches Err(e) ==> sp_compresslist_rest(old(self).stream(), old(self).state()) == Err::<(Seq<CompressType>, PState), Seq<char>>(e@),
        decreases measure(old(self).stream(), old(self).state()),
    {
        let t = match self.compresstype() {
            Ok(t) => t,
            Err(e) => return Err(e),
        };
        match self.peek().kind {
            TokenKind::Comma => {
                match self.pop() {
                    Ok(_) => {},
                    Err(e) => return Err(e),
                }
                let mut rest = match self.compresslist_rest() {
                    Ok(v) => v,
                    Err(e) => return Err(e),
                };
                rest.push(t);
                Ok(rest)
            },
            _ => {
                let v = vec![t];
                assert(v@ =~= seq![t]);
                Ok(v)
            },
        }
    }

    /// A comma-separated list of compression strategies.
    pub(crate) fn compresslist(&mut self) -> (r: Result<CompressList, String>)
        requires
            old(self).wf(),
        ensures
            final(self).stream() == old(self).stream(),
            final(self).wf(),
            r matches Ok(v) ==> old(self).gives(sp_compresslist(old(self).stream(), old(self).state()), v@, *final(self)),
            r matches Err(e) ==> sp_compresslist(old(self).stream(), old(self).state()) == Err::<(Seq<CompressType>, PState), Seq<char>>(e@),
    {
        let t = match self.compresstype() {
            Ok(t) => t,
            Err(e) => return Err(e),
        };
        match self.peek().kind {
            TokenKind::Comma => {
                match self.pop() {
                    Ok(_) => {},
                    Err(e) => return Err(e),
                }
                let mut rest = match self.compresslist_rest() {
                    Ok(v) => v,
                    Err(e) => return Err(e),
                };
                rest.push(t);
                Ok(reversed(rest))
            },
            _ => {
                let v = vec![t];
                assert(v@ =~= seq![t]);
                Ok(v)
            },
        }
    }

    /// A column's optional compression strategy.
    pub(crate) fn opt_compresstype(&mut self) -> (r: Result<Option<CompressType>, String>)
        requires
            old(self).wf(),
        ensures
            final(self).stream() == old(self).stream(),
            final(self).wf(),
            r matches Ok(v) ==> old(self).gives(sp_opt_compresstype(old(self).stream(), old(self).state()), v, *final(self)),
            r matches Err(e) ==> sp_opt_compresstype(old(self).stream(), old(self).state()) == Err::<(Option<CompressType>, PState), Seq<char>>(e@),
    {
        match self.peek().kind {
            TokenKind::CompressType => match self.compresstype() {
                Ok(c) => Ok(Some(c)),
                Err(e) => Err(e),
            },
            _ => Ok(None),
        }
    }

    /// The rest of the columns of a `CREATE TABLE`, last one first.
    fn collist_rest(&mut self) -> (r: Result<ColList, String>)
        requires
            old(self).wf(),
        ensures
            final(self).stream() == old(self).stream(),
            final(self).wf(),
            r matches Ok(v) ==> old(self).gives(sp_collist_rest(old(self).stream(), old(self).state()), cols_view(v@), *final(self)),
            r matches Err(e) ==> sp_collist_rest(old(self).stream(), old(self).state()) == Err::<(Seq<(Seq<char>, ColType, Option<CompressType>)>, PState), Seq<char>>(e@),
        decreases measure(old(self).stream(), old(self).state()),
    {
        let colname = match self.ident() {
            Ok(v) => v,
            Err(e) => return Err(e),
        };
        let t = match self.parsetype() {
            Ok(v) => v,
            Err(e) => return Err(e),
        };
        let s = match self.opt_compresstype() {
            Ok(v) => v,
            Err(e) => return Err(e),
        };
        match self.peek().kind {
            TokenKind::Comma => {
                match self.pop() {
                    Ok(_) => {},
                    Err(e) => return Err(e),
                }
                let mut rest = match self.collist_rest() {
                    Ok(v) => v,
                    Err(e) => return Err(e),
                };
                let ghost before = rest@;
                rest.push((colname, t, s));
                assert(cols_view(rest@) =~= cols_view(before).push((colname@, t, s)));
                Ok(rest)
            },
            _ => {
                let v = vec![(colname, t, s)];
                assert(cols_view(v@) =~= seq![(colname@, t, s)]);
                Ok(v)
            },
        }
    }

    /// The columns of a `CREATE TABLE`.
    pub(crate) fn collist(&mut self) -> (r: Result<ColList, String>)
        requires
            old(self).wf(),
        ensures
            final(self).stream() == old(self).stream(),
            final(self).wf(),
            r matches Ok(v) ==> old(self).gives(sp_collist(old(self).stream(), old(self).state()), cols_view(v@), *final(self)),
            r matches Err(e) ==> sp_collist(old(self).stream(), old(self).state()) == Err::<(Seq<(Seq<char>, ColType, Option<CompressType>)>, PState), Seq<char>>(e@),
    {
        let colname = match self.ident() {
            Ok(v) => v,
            Err(e) => return Err(e),
        };
        let t = match self.parsetype() {
            Ok(v) => v,
            Err(e) => return Err(e),
        };
        let s = match self.opt_compresstype() {
            Ok(v) => v,
            Err(e) => return Err(e),
        };
        match self.peek().kind {
            TokenKind::Comma => {
                match self.pop() {
                    Ok(_) => {},
                    Err(e) => return Err(e),
                }
                let mut rest = match self.collist_rest() {
                    Ok(v) => v,
                    Err(e) => return Err(e),
                };
                let ghost before = rest@;
                rest.push((colname, t, s));
                let out = reversed(rest);
                assert(cols_view(out@) =~= cols_view(before).push((colname@, t, s)).reverse());
                Ok(out)
            },
            _ => {
                let v = vec![(colname, t, s)];
                assert(cols_view(v@) =~= seq![(colname@, t, s)]);
                Ok(v)
            },
        }
    }

    /// A block: `x = e;` statements, then an expression.
    pub(crate) fn block(&mut self) -> (r: Result<Block, String>)
        requires
            old(self).wf(),
        ensures
            final(self).stream() == old(self).stream(),
            final(self).wf(),
            r matches Ok(v) ==> old(self).gives(sp_block(old(self).stream(), old(self).state()), block_view(v), *final(self)),
            r matches Err(e) ==> sp_block(old(self).stream(), old(self).state()) == Err::<(BlockV, PState), Seq<char>>(e@),
        decreases measure(old(self).stream(), old(self).state()), 11int,
    {
        let next = match self.peek_ahead() {
            Ok(t) => t,
            Err(e) => return Err(e),
        };
        match next.kind {
            TokenKind::AssignKw => {
                let ident_val: String = match &self.token.value {
                    TokenValue::String(x) => x.clone(),
                    _ => return Err(unexpected_at(self.lexer.get_pos())),
                };
                let _ident = match self.pop() {
                    Ok(t) => t,
                    Err(e) => return Err(e),
                };
                let _assign = match self.pop() {
                    Ok(t) => t,
                    Err(e) => return Err(e),
                };
                let expr = match self.expr() {
                    Ok(v) => v,
                    Err(e) => return Err(e),
                };
                match self.pop_expect(TokenKind::SemiKw) {
                    Ok(_) => {},
                    Err(e) => return Err(e),
                }
                let rest = match self.block() {
                    Ok(v) => v,
                    Err(e) => return Err(e),
                };
                Ok(Block::StmtBlock(ident_val, Rc::new(expr), Rc::new(rest)))
            },
            _ => {
                let expr = match self.expr() {
                    Ok(v) => v,
                    Err(e) => return Err(e),
                };
                Ok(Block::ExprBlock(Rc::new(expr)))
            },
        }
    }

    /// A function `fun x, .. -> e`, the current token being `fun`.
    fn fun_expr(&mut self) -> (r: Result<Expr, String>)
        requires
            old(self).wf(),
        ensures
            final(self).stream() == old(self).stream(),
            final(self).wf(),
            r matches Ok(v) ==> old(self).gives(sp_fun(old(self).stream(), old(self).state()), expr_view(v), *final(self)),
            r matches Err(e) ==> sp_fun(old(self).stream(), old(self).state()) == Err::<(ExprV, PState), Seq<char>>(e@),
        decreases measure(old(self).stream(), old(self).state()), 9int,
    {
        match self.pop() {
            Ok(_) => {},
            Err(e) => return Err(e),
        }
        let paramlist = match self.peek().kind {
            TokenKind::Arrow => {
                let v: IdentList = Vec::new();
                assert(idents_view(v@) =~= Seq::<Seq<char>>::empty());
                v
            },
            _ => match self.identlist() {
                Ok(v) => v,
                Err(e) => return Err(e),
            },
        };
        match self.pop_expect(TokenKind::Arrow) {
            Ok(_) => {},
            Err(e) => return Err(e),
        }
        let body = match self.expr() {
            Ok(v) => v,
            Err(e) => return Err(e),
        };
        Ok(Expr::FunExpr(paramlist, Rc::new(body)))
    }

    /// A conditional `if e then e else e`, the current token being `if`.
    fn cond_expr(&mut self) -> (r: Result<Expr, String>)
        requires
            old(self).wf(),
            old(self).state().tok.kind == TokenKind::IfKw,
        ensures
            final(self).stream() == old(self).stream(),
            final(self).wf(),
            r matches Ok(v) ==> old(self).gives(sp_cond(old(self).stream(), old(self).state()), expr_view(v), *final(self)),
            r matches Err(e) ==> sp_cond(old(self).stream(), old(self).state()) == Err::<(ExprV, PState), Seq<char>>(e@),
        decreases measure(old(self).stream(), old(self).state()), 9int,
    {
        let _if = match self.pop() {
            Ok(t) => t,
            Err(e) => return Err(e),
        };
        let if_expr = match self.expr() {
            Ok(v) => v,
            Err(e) => return Err(e),
        };
        match self.pop_expect(TokenKind::ThenKw) {
            Ok(_) => {},
            Err(e) => return Err(e),
        }
        let then_expr = match self.expr() {
            Ok(v) => v,
            Err(e) => return Err(e),
        };
        match self.pop_expect(TokenKind::ElseKw) {
            Ok(_) => {},
            Err(e) => return Err(e),
        }
        let else_expr = match self.expr() {
            Ok(v) => v,
            Err(e) => return Err(e),
        };
        Ok(Expr::CondExpr(Rc::new(if_expr), Rc::new(then_expr), Rc::new(else_expr)))
    }

    /// An operand of `&&` and `||`: a function, a conditional or a comparison.
    fn operand(&mut self) -> (r: Result<Expr, String>)
        requires
            old(self).wf(),
        ensures
            final(self).stream() == old(self).stream(),
            final(self).wf(),
            r matches Ok(v) ==> old(self).gives(sp_operand(old(self).stream(), old(self).state()), expr_view(v), *final(self)),
            r matches Err(e) ==> sp_operand(old(self).stream(), old(self).state()) == Err::<(ExprV, PState), Seq<char>>(e@),
        decreases measure(old(self).stream(), old(self).state()), 10int,
    {
        match self.peek().kind {
            TokenKind::FunKw => self.fun_expr(),
            TokenKind::IfKw => self.cond_expr(),
            _ => self.expr_level_2(),
        }
    }

    /// An expression: functions, conditionals and comparisons joined by `&&`
    /// and `||`, grouping to the left.
    pub(crate) fn expr(&mut self) -> (r: Result<Expr, String>)
        requires
            old(self).wf(),
        ensures
            final(self).stream() == old(self).stream(),
            final(self).wf(),
            r matches Ok(v) ==> old(self).gives(sp_expr(old(self).stream(), old(self).state()), expr_view(v), *final(self)),
            r matches Err(e) ==> sp_expr(old(self).stream(), old(self).state()) == Err::<(ExprV, PState), Seq<char>>(e@),
        decreases measure(old(self).stream(), old(self).state()), 10int,
    {
        let first = match self.peek().kind {
            TokenKind::FunKw => match self.fun_expr() {
                Ok(v) => v,
                Err(e) => return Err(e),
            },
            TokenKind::IfKw => match self.cond_expr() {
                Ok(v) => v,
                Err(e) => return Err(e),
            },
            _ => match self.expr_level_2() {
                Ok(v) => v,
                Err(e) => return Err(e),
            },
        };
        let ghost s = self.stream();
        let mut acc = first;
        loop
            invariant
                self.wf(),
                self.stream() == s,
                s == old(self).stream(),
                measure(s, self.state()) <= measure(s, old(self).state()),
                sp_expr(s, old(self).state()) == sp_expr_rest(s, expr_view(acc), self.state()),
            decreases measure(s, self.state()),
        {
            match self.peek_l1_bop() {
                None => return Ok(acc),
                Some(bop) => {
                    let _op = match self.pop() {
                        Ok(t) => t,
                        Err(e) => return Err(e),
                    };
                    let rhs = match self.operand() {
                        Ok(v) => v,
                        Err(e) => return Err(e),
                    };
                    acc = Expr::BopExpr(Rc::new(acc), bop, Rc::new(rhs));
                },
            }
        }
    }

    /// Comparisons, grouping to the left.
    fn expr_level_2(&mut self) -> (r: Result<Expr, String>)
        requires
            old(self).wf(),
        ensures
            final(self).stream() == old(self).stream(),
            final(self).wf(),
            r matches Ok(v) ==> old(self).gives(sp_l2(old(self).stream(), old(self).state()), expr_view(v), *final(self)),
            r matches Err(e) ==> sp_l2(old(self).stream(), old(self).state()) == Err::<(ExprV, PState), Seq<char>>(e@),
        decreases measure(old(self).stream(), old(self).state()), 8int,
    {
        let first = match self.expr_level_3() {
            Ok(v) => v,
            Err(e) => return Err(e),
        };
        let ghost s = self.stream();
        let mut acc = first;
        loop
            invariant
                self.wf(),
                self.stream() == s,
                s == old(self).stream(),
                measure(s, self.state()) <= measure(s, old(self).state()),
                sp_l2(s, old(self).state()) == sp_l2_rest(s, expr_view(acc), self.state()),
            decreases measure(s, self.state()),
        {
            match self.peek_l2_bop() {
                None => return Ok(acc),
                Some(bop) => {
                    let _op = match self.pop() {
                        Ok(t) => t,
                        Err(e) => return Err(e),
                    };
                    let rhs = match self.expr_level_3() {
                        Ok(v) => v,
                        Err(e) => return Err(e),
                    };
                    acc = Expr::BopExpr(Rc::new(acc), bop, Rc::new(rhs));
                },
            }
        }
    }

    /// Sums and differences, grouping to the left.
    fn expr_level_3(&mut self) -> (r: Result<Expr, String>)
        requires
            old(self).wf(),
        ensures
            final(self).stream() == old(self).stream(),
            final(self).wf(),
            r matches Ok(v) ==> old(self).gives(sp_l3(old(self).stream(), old(self).state()), expr_view(v), *final(self)),
            r matches Err(e) ==> sp_l3(old(self).stream(), old(self).state()) == Err::<(ExprV, PState), Seq<char>>(e@),
        decreases measure(old(self).stream(), old(self).state()), 7int,
    {
        let first = match self.expr_level_4() {
            Ok(v) => v,
            Err(e) => return Err(e),
        };
        let ghost s = self.stream();
        let mut acc = first;
        loop
            invariant
                self.wf(),
                self.stream() == s,
                s == old(self).stream(),
                measure(s, self.state()) <= measure(s, old(self).state()),
                sp_l3(s, old(self).state()) == sp_l3_rest(s, expr_view(acc), self.state()),
            decreases measure(s, self.state()),
        {
            match self.peek_l3_bop() {
                None => return Ok(acc),
                Some(bop) => {
                    let _op = match self.pop() {
                        Ok(t) => t,
                        Err(e) => return Err(e),
                    };
                    let rhs = match self.expr_level_4() {
                        Ok(v) => v,
                        Err(e) => return Err(e),
                    };
                    acc = Expr::BopExpr(Rc::new(acc), bop, Rc::new(rhs));
                },
            }
        }
    }

    /// Products, quotients and remainders, grouping to the left.
    fn expr_level_4(&mut self) -> (r: Result<Expr, String>)
        requires
            old(self).wf(),
        ensures
            final(self).stream() == old(self).stream(),
            final(self).wf(),
            r matches Ok(v) ==> old(self).gives(sp_l4(old(self).stream(), old(self).state()), expr_view(v), *final(self)),
            r matches Err(e) ==> sp_l4(old(self).stream(), old(self).state()) == Err::<(ExprV, PState), Seq<char>>(e@),
        decreases measure(old(self).stream(), old(self).state()), 6int,
    {
        let first = match self.expr_level_5() {
            Ok(v) => v,
            Err(e) => return Err(e),
        };
        let ghost s = self.stream();
        let mut acc = first;
        loop
            invariant
                self.wf(),
                self.stream() == s,
                s == old(self).stream(),
                measure(s, self.state()) <= measure(s, old(self).state()),
                sp_l4(s, old(self).state()) == sp_l4_rest(s, expr_view(acc), self.state()),
            decreases measure(s, self.state()),
        {
            match self.peek_l4_bop() {
                None => return Ok(acc),
                Some(bop) => {
                    let _op = match self.pop() {
                        Ok(t) => t,
                        Err(e) => return Err(e),
                    };
                    let rhs = match self.expr_level_5() {
                        Ok(v) => v,
                        Err(e) => return Err(e),
                    };
                    acc = Expr::BopExpr(Rc::new(acc), bop, Rc::new(rhs));
                },
            }
        }
    }

    /// Prefix operators.
    fn expr_level_5(&mut self) -> (r: Result<Expr, String>)
        requires
            old(self).wf(),
        ensures
            final(self).stream() == old(self).stream(),
            final(self).wf(),
            r matches Ok(v) ==> old(self).gives(sp_l5(old(self).stream(), old(self).state()), expr_view(v), *final(self)),
            r matches Err(e) ==> sp_l5(old(self).stream(), old(self).state()) == Err::<(ExprV, PState), Seq<char>>(e@),
        decreases measure(old(self).stream(), old(self).state()), 5int,
    {
        match self.peek_uop() {
            Some(u) => {
                let _op = match self.pop() {
                    Ok(t) => t,
                    Err(e) => return Err(e),
                };
                let expr = match self.expr_level_5() {
                    Ok(v) => v,
                    Err(e) => return Err(e),
                };
                Ok(Expr::UopExpr(u, Rc::new(expr)))
            },
            None => self.expr_level_6(),
        }
    }

    /// Calls. A missing closing parenthesis is not reported.
    #[verifier::rlimit(40)]
    #[verifier::spinoff_prover]
    fn expr_level_6(&mut self) -> (r: Result<Expr, String>)
        requires
            old(self).wf(),
        ensures
            final(self).stream() == old(self).stream(),
            final(self).wf(),
            r matches Ok(v) ==> old(self).gives(sp_l6(old(self).stream(), old(self).state()), expr_view(v), *final(self)),
            r matches Err(e) ==> sp_l6(old(self).stream(), old(self).state()) == Err::<(ExprV, PState), Seq<char>>(e@),
        decreases measure(old(self).stream(), old(self).state()), 4int,
    {
        let ghost s = self.stream();
        let ghost st0 = self.state();
        let first = match self.expr_level_7() {
            Ok(v) => v,
            Err(e) => return Err(e),
        };
        let ghost st1 = self.state();
        match self.peek().kind {
            TokenKind::LParen => {
                let _lparen = match self.pop() {
                    Ok(t) => t,
                    Err(e) => return Err(e),
                };
                let ghost st2 = self.state();
                assert(smaller(s, st2, st0));
                let elist = match self.peek().kind {
                    TokenKind::RParen => {
                        let v: ExprList = Vec::new();
                        v
                    },
                    _ => match self.exprlist() {
                        Ok(v) => v,
                        Err(e) => return Err(e),
                    },
                };
                let ghost st3 = self.state();
                let ghost args: Parsed<Seq<ExprV>> = if st2.tok.kind == TokenKind::RParen {
                    Ok((Seq::empty(), st2))
                } else {
                    sp_exprlist(s, st2)
                };
                assert(args == Ok::<(Seq<ExprV>, PState), Seq<char>>((exprs_view(elist@), st3)));
                let _ = self.pop_expect(TokenKind::RParen);
                assert(self.state() == after_pop_expect(s, st3, TokenKind::RParen));
                Ok(Expr::CallExpr(Rc::new(first), elist))
            },
            _ => Ok(first),
        }
    }

    /// Member access.
    fn expr_level_7(&mut self) -> (r: Result<Expr, String>)
        requires
            old(self).wf(),
        ensures
            final(self).stream() == old(self).stream(),
            final(self).wf(),
            r matches Ok(v) ==> old(self).gives(sp_l7(old(self).stream(), old(self).state()), expr_view(v), *final(self)),
            r matches Err(e) ==> sp_l7(old(self).stream(), old(self).state()) == Err::<(ExprV, PState), Seq<char>>(e@),
        decreases measure(old(self).stream(), old(self).state()), 3int,
    {
        let first = match self.expr_level_8() {
            Ok(v) => v,
            Err(e) => return Err(e),
        };
        match self.peek().kind {
            TokenKind::Dot => {
                let _dot = match self.pop() {
                    Ok(t) => t,
                    Err(e) => return Err(e),
                };
                let rhs = match self.expr_level_7() {
                    Ok(v) => v,
                    Err(e) => return Err(e),
                };
                Ok(Expr::BopExpr(Rc::new(first), BopType::DotBop, Rc::new(rhs)))
            },
            _ => Ok(first),
        }
    }

    /// Identifiers, blocks in braces (a missing closing brace is not
    /// reported), parenthesised expressions, tuples and literals.
    #[verifier::rlimit(100)]
    #[verifier::spinoff_prover]
    fn expr_level_8(&mut self) -> (r: Result<Expr, String>)
        requires
            old(self).wf(),
        ensures
            final(self).stream() == old(self).stream(),
            final(self).wf(),
            r matches Ok(v) ==> old(self).gives(sp_l8(old(self).stream(), old(self).state()), expr_view(v), *final(self)),
            r matches Err(e) ==> sp_l8(old(self).stream(), old(self).state()) == Err::<(ExprV, PState), Seq<char>>(e@),
        decreases measure(old(self).stream(), old(self).state()), 2int,
    {
        let ghost s = self.stream();
        let ghost st0 = self.state();
        match self.peek().kind {
            TokenKind::Identifier => {
                let t = match self.pop() {
                    Ok(t) => t,
                    Err(e) => return Err(e),
                };
                match t.value {
                    TokenValue::String(x) => Ok(Expr::IdentExpr(x)),
                    _ => Err(unexpected_at(self.lexer.get_pos())),
                }
            },
            TokenKind::LCBracket => {
                let _open = match self.pop() {
                    Ok(t) => t,
                    Err(e) => return Err(e),
                };
                let ghost st1 = self.state();
                assert(smaller(s, st1, st0));
                let script = match self.block() {
                    Ok(v) => v,
                    Err(e) => return Err(e),
                };
                let ghost st2 = self.state();
                assert(sp_block(s, st1) == Ok::<(BlockV, PState), Seq<char>>((block_view(script), st2)));
                let _ = self.pop_expect(TokenKind::RCBracket);
                assert(self.state() == after_pop_expect(s, st2, TokenKind::RCBracket));
                Ok(Expr::BlockExpr(script))
            },
            TokenKind::LParen => {
                let _open = match self.pop() {
                    Ok(t) => t,
                    Err(e) => return Err(e),
                };
                let ghost st1 = self.state();
                assert(smaller(s, st1, st0));
                let expr = match self.expr() {
                    Ok(v) => v,
                    Err(e) => return Err(e),
                };
                match self.pop_expect(TokenKind::RParen) {
                    Ok(_) => {},
                    Err(e) => return Err(e),
                }
                Ok(expr)
            },
            TokenKind::LBracket => {
                let _open = match self.pop() {
                    Ok(t) => t,
                    Err(e) => return Err(e),
                };
                let ghost st1 = self.state();
                assert(smaller(s, st1, st0));
                let exprlist = match self.exprlist() {
                    Ok(v) => v,
                    Err(e) => return Err(e),
                };
                match self.pop_expect(TokenKind::RBracket) {
                    Ok(_) => {},
                    Err(e) => return Err(e),
                }
                Ok(Expr::TupExpr(exprlist))
            },
            _ => match self.value() {
                Ok(v) => Ok(Expr::ValExpr(v)),
                Err(e) => Err(e),
            },
        }
    }

    /// The rest of a list of expressions, last one first.
    fn exprlist_rest(&mut self) -> (r: Result<ExprList, String>)
        requires
            old(self).wf(),
        ensures
            final(self).stream() == old(self).stream(),
            final(self).wf(),
            r matches Ok(v) ==> old(self).gives(sp_exprlist_rest(old(self).stream(), old(self).state()), exprs_view(v@), *final(self)),
            r matches Err(e) ==> sp_exprlist_rest(old(self).stream(), old(self).state()) == Err::<(Seq<ExprV>, PState), Seq<char>>(e@),
        decreases measure(old(self).stream(), old(self).state()), 11int,
    {
        let expr = match self.expr() {
            Ok(v) => v,
            Err(e) => return Err(e),
        };
        match self.peek().kind {
            TokenKind::Comma => {
                let _comma = match self.pop() {
                    Ok(t) => t,
                    Err(e) => return Err(e),
                };
                let mut rest = match self.exprlist_rest() {
                    Ok(v) => v,
                    Err(e) => return Err(e),
                };
                let ghost before = rest@;
                rest.push(Rc::new(expr));
                proof {
                    lemma_exprs_view(before);
                    lemma_exprs_view(rest@);
                    assert(exprs_view(rest@) =~= exprs_view(before).push(expr_view(expr)));
                }
                Ok(rest)
            },
            _ => {
                let v = vec![Rc::new(expr)];
                proof {
                    lemma_exprs_view(v@);
                    assert(exprs_view(v@) =~= seq![expr_view(expr)]);
                }
                Ok(v)
            },
        }
    }

    /// A comma-separated list of expressions.
    pub(crate) fn exprlist(&mut self) -> (r: Result<ExprList, String>)
        requires
            old(self).wf(),
        ensures
            final(self).stream() == old(self).stream(),
            final(self).wf(),
            r matches Ok(v) ==> old(self).gives(sp_exprlist(old(self).stream(), old(self).state()), exprs_view(v@), *final(self)),
            r matches Err(e) ==> sp_exprlist(old(self).stream(), old(self).state()) == Err::<(Seq<ExprV>, PState), Seq<char>>(e@),
        decreases measure(old(self).stream(), old(self).state()), 11int,
    {
        let expr = match self.expr() {
            Ok(v) => v,
            Err(e) => return Err(e),
        };
        match self.peek().kind {
            TokenKind::Comma => {
                let _comma = match self.pop() {
                    Ok(t) => t,
                    Err(e) => return Err(e),
                };
                let mut rest = match self.exprlist_rest() {
                    Ok(v) => v,
                    Err(e) => return Err(e),
                };
                let ghost before = rest@;
                rest.push(Rc::new(expr));
                let out = reversed(rest);
                proof {
                    lemma_exprs_view(before);
                    lemma_exprs_view(out@);
                    assert(exprs_view(out@) =~= exprs_view(before).push(expr_view(expr)).reverse());
                }
                Ok(out)
            },
            _ => {
                let v = vec![Rc::new(expr)];
                proof {
                    lemma_exprs_view(v@);
                    assert(exprs_view(v@) =~= seq![expr_view(expr)]);
                }
                Ok(v)
            },
        }
    }
}

} // verus!
