//! The SQLScript grammar, read as functions over the lexer's token stream.
//!
//! The parser is recursive descent with one token of look-ahead (two in
//! `block`). Each function below says what one of its procedures returns from
//! a given position: the parsed value and where the parser then stands, or
//! the error it stops with. Errors are `Lexing error` (from the lexer) or
//! `Unexpected token at N`, `N` being the lexer's position at that moment.
use vstd::prelude::*;
use crate::lexer::{TokenKind, TokenView, TokenValueView, lex_from, byte_pos, fixed_pattern};
use crate::types::{
    BopType,
    UopType,
    ColType,
    CompressType,
    SortType,
    LitV,
    ExprV,
    BlockV,
    QueryV,
};
use crate::decimal::decimal;

verus! {

/// Where the parser stands: the lexer's position and the current token.
pub struct PState {
    pub pos: int,
    pub tok: TokenView,
}

/// What a parsing procedure gives: a value and the state after it, or an error.
pub type Parsed<T> = Result<(T, PState), Seq<char>>;

/// How much input is left: twice the characters after the lexer's position,
/// plus one while the current token is not the end of input. Every token that
/// the parser consumes makes it smaller.
pub open spec fn measure(s: Seq<char>, st: PState) -> int {
    let rest = if 0 <= st.pos <= s.len() {
        s.len() - st.pos
    } else {
        0
    };
    2 * rest + if st.tok.kind == TokenKind::EOF {
        0int
    } else {
        1int
    }
}

/// `st2` has less input left than `st`.
pub open spec fn smaller(s: Seq<char>, st2: PState, st: PState) -> bool {
    measure(s, st2) < measure(s, st)
}

/// The error for a token the grammar does not allow, the lexer being at byte
/// offset `b`.
pub open spec fn unexpected_msg(b: int) -> Seq<char> {
    "Unexpected token at "@ + decimal(b as nat)
}

/// The error for a token the grammar does not allow, the lexer being at
/// character `pos` of the query `s`.
pub open spec fn unexpected(s: Seq<char>, pos: int) -> Seq<char> {
    unexpected_msg(byte_pos(s, pos))
}

/// The error the lexer reports where no token rule matches.
pub open spec fn lexing_error() -> Seq<char> {
    "Lexing error"@
}

/// The error of a recursive call that would not consume input. No procedure
/// ever returns it: each recursive call follows a consumed token.
pub open spec fn no_progress() -> Seq<char> {
    Seq::empty()
}

/// Consumes the current token: returns it, and the next token becomes current.
pub open spec fn sp_pop(s: Seq<char>, st: PState) -> Parsed<TokenView> {
    match lex_from(s, st.pos).0 {
        Some(t) => Ok((st.tok, PState { pos: lex_from(s, st.pos).1, tok: t })),
        None => Err(lexing_error()),
    }
}

/// Consumes the current token if it is of kind `k`; an error otherwise.
pub open spec fn sp_pop_expect(s: Seq<char>, st: PState, k: TokenKind) -> Parsed<TokenView> {
    if st.tok.kind != k {
        Err(unexpected(s, st.pos))
    } else {
        sp_pop(s, st)
    }
}

/// Where the parser stands after trying to consume a token of kind `k`,
/// whether or not that succeeded.
pub open spec fn after_pop_expect(s: Seq<char>, st: PState, k: TokenKind) -> PState {
    if st.tok.kind != k {
        st
    } else {
        match lex_from(s, st.pos).0 {
            Some(t) => PState { pos: lex_from(s, st.pos).1, tok: t },
            None => PState { pos: lex_from(s, st.pos).1, tok: st.tok },
        }
    }
}

/// The token after the current one, without consuming anything.
pub open spec fn sp_peek_ahead(s: Seq<char>, st: PState) -> Result<TokenView, Seq<char>> {
    match lex_from(s, st.pos).0 {
        Some(t) => Ok(t),
        None => Err(lexing_error()),
    }
}

/// The operators of lowest precedence: `&&`, `||`.
pub open spec fn l1_bop(k: TokenKind) -> Option<BopType> {
    match k {
        TokenKind::LogAndKw => Some(BopType::LogAndBop),
        TokenKind::LogOrKw => Some(BopType::LogOrBop),
        _ => None,
    }
}

/// Comparisons: `>`, `>=`, `<`, `<=`, `==`, `===`.
pub open spec fn l2_bop(k: TokenKind) -> Option<BopType> {
    match k {
        TokenKind::Gt => Some(BopType::GtBop),
        TokenKind::Gte => Some(BopType::GteBop),
        TokenKind::Lt => Some(BopType::LtBop),
        TokenKind::Lte => Some(BopType::LteBop),
        TokenKind::Eq => Some(BopType::EqBop),
        TokenKind::StrEq => Some(BopType::StrEqBop),
        _ => None,
    }
}

/// `+` and `-`.
pub open spec fn l3_bop(k: TokenKind) -> Option<BopType> {
    match k {
        TokenKind::PlusKw => Some(BopType::PlusBop),
        TokenKind::MinusKw => Some(BopType::MinusBop),
        _ => None,
    }
}

/// `*`, `/` and `%`.
pub open spec fn l4_bop(k: TokenKind) -> Option<BopType> {
    match k {
        TokenKind::TimesKw => Some(BopType::TimesBop),
        TokenKind::DivKw => Some(BopType::DivBop),
        TokenKind::Percent => Some(BopType::ModBop),
        _ => None,
    }
}

/// Prefix operators: `-`, `!`, `+`, `&`, `?`, `^`, `_`.
pub open spec fn uop_of(k: TokenKind) -> Option<UopType> {
    match k {
        TokenKind::MinusKw => Some(UopType::NegUop),
        TokenKind::NotKw => Some(UopType::NotUop),
        TokenKind::PlusKw => Some(UopType::NumUop),
        TokenKind::Ampersand => Some(UopType::StrUop),
        TokenKind::Question => Some(UopType::BoolUop),
        TokenKind::Carrot => Some(UopType::CeilUop),
        TokenKind::Underscore => Some(UopType::FloorUop),
        _ => None,
    }
}

/// How each binary operator is written, as a lexer pattern (see
/// `fixed_pattern`).
pub open spec fn bop_pattern(b: BopType) -> Seq<char> {
    match b {
        BopType::PlusBop => r"^\+"@,
        BopType::MinusBop => r"^-"@,
        BopType::TimesBop => r"^\*"@,
        BopType::DivBop => r"^/"@,
        BopType::ModBop => r"^%"@,
        BopType::GtBop => r"^>"@,
        BopType::GteBop => r"^>="@,
        BopType::LtBop => r"^<"@,
        BopType::LteBop => r"^<="@,
        BopType::EqBop => r"^=="@,
        BopType::StrEqBop => r"^==="@,
        BopType::LogOrBop => r"^\|\|"@,
        BopType::LogAndBop => r"^&&"@,
        BopType::DotBop => r"^\."@,
    }
}

/// How each prefix operator is written, as a lexer pattern.
pub open spec fn uop_pattern(u: UopType) -> Seq<char> {
    match u {
        UopType::NegUop => r"^-"@,
        UopType::NotUop => r"^!"@,
        UopType::NumUop => r"^\+"@,
        UopType::StrUop => r"^&"@,
        UopType::BoolUop => r"^\?"@,
        UopType::CeilUop => r"^\^"@,
        UopType::FloorUop => r"^_"@,
    }
}

/// Token `k` stands for the binary operator `b` at one of the precedence
/// levels.
pub open spec fn stands_for(k: TokenKind, b: BopType) -> bool {
    ||| l1_bop(k) == Some(b)
    ||| l2_bop(k) == Some(b)
    ||| l3_bop(k) == Some(b)
    ||| l4_bop(k) == Some(b)
}

/// Each operator token is read as the operator it is written as, and no two
/// tokens are read as the same operator: `%` is the remainder, `/` the
/// quotient and `*` the product; `<=` is "at most" and `<` "less than".
pub proof fn law_operator_tokens()
    ensures
        forall|k: TokenKind, b: BopType| #[trigger] stands_for(k, b) ==> fixed_pattern(k) == Some(bop_pattern(b)),
        forall|k1: TokenKind, k2: TokenKind, b: BopType| #[trigger] stands_for(k1, b) && #[trigger] stands_for(k2, b) ==> k1 == k2,
        forall|k: TokenKind| #[trigger] uop_of(k) is Some ==> fixed_pattern(k) == Some(uop_pattern(uop_of(k)->0)),
        forall|k1: TokenKind, k2: TokenKind| #[trigger] uop_of(k1) is Some && uop_of(k1) == #[trigger] uop_of(k2) ==> k1 == k2,
{
}

/// An identifier.
pub open spec fn sp_ident(s: Seq<char>, st: PState) -> Parsed<Seq<char>> {
    if st.tok.kind == TokenKind::Identifier {
        match sp_pop(s, st) {
            Err(e) => Err(e),
            Ok((t, st1)) => match t.value {
                TokenValueView::String(x) => Ok((x, st1)),
                _ => Err(unexpected(s, st1.pos)),
            },
        }
    } else {
        Err(unexpected(s, st.pos))
    }
}

/// The rest of a comma-separated list of identifiers, last one first.
pub open spec fn sp_identlist_rest(s: Seq<char>, st: PState) -> Parsed<Seq<Seq<char>>>
    decreases measure(s, st),
{
    match sp_ident(s, st) {
        Err(e) => Err(e),
        Ok((v, st1)) => if st1.tok.kind == TokenKind::Comma {
            match sp_pop(s, st1) {
                Err(e) => Err(e),
                Ok((_, st2)) => if smaller(s, st2, st) {
                    match sp_identlist_rest(s, st2) {
                        Err(e) => Err(e),
                        Ok((rest, st3)) => Ok((rest.push(v), st3)),
                    }
                } else {
                    Err(no_progress())
                },
            }
        } else {
            Ok((seq![v], st1))
        },
    }
}

/// A comma-separated list of identifiers.
pub open spec fn sp_identlist(s: Seq<char>, st: PState) -> Parsed<Seq<Seq<char>>> {
    match sp_ident(s, st) {
        Err(e) => Err(e),
        Ok((v, st1)) => if st1.tok.kind == TokenKind::Comma {
            match sp_pop(s, st1) {
                Err(e) => Err(e),
                Ok((_, st2)) => match sp_identlist_rest(s, st2) {
                    Err(e) => Err(e),
                    Ok((rest, st3)) => Ok((rest.push(v).reverse(), st3)),
                },
            }
        } else {
            Ok((seq![v], st1))
        },
    }
}

/// A literal value.
pub open spec fn sp_value(s: Seq<char>, st: PState) -> Parsed<LitV> {
    match sp_pop(s, st) {
        Err(e) => Err(e),
        Ok((t, st1)) => match t.value {
            TokenValueView::Number(x) => Ok((LitV::Num(x), st1)),
            TokenValueView::Boolean(b) => Ok((LitV::Bool(b), st1)),
            TokenValueView::String(x) => if t.kind == TokenKind::String {
                Ok((LitV::Str(x), st1))
            } else {
                Err(unexpected(s, st1.pos))
            },
            TokenValueView::Nothing => if t.kind == TokenKind::UndefinedKw {
                Ok((LitV::Undef, st1))
            } else if t.kind == TokenKind::NullKw {
                Ok((LitV::Null, st1))
            } else {
                Err(unexpected(s, st1.pos))
            },
            _ => Err(unexpected(s, st1.pos)),
        },
    }
}

/// A column type: `num`, `str` or `bool`.
pub open spec fn sp_parsetype(s: Seq<char>, st: PState) -> Parsed<ColType> {
    match sp_pop(s, st) {
        Err(e) => Err(e),
        Ok((t, st1)) => match t.value {
            TokenValueView::Type(x) => Ok((x, st1)),
            _ => Err(unexpected(s, st1.pos)),
        },
    }
}

/// A compression strategy: `none`, `runlen`, `bitmap` or `xor`.
pub open spec fn sp_compresstype(s: Seq<char>, st: PState) -> Parsed<CompressType> {
    match sp_pop(s, st) {
        Err(e) => Err(e),
        Ok((t, st1)) => match t.value {
            TokenValueView::CompressionType(x) => Ok((x, st1)),
            _ => Err(unexpected(s, st1.pos)),
        },
    }
}

/// The rest of a list of compression strategies, last one first.
pub open spec fn sp_compresslist_rest(s: Seq<char>, st: PState) -> Parsed<Seq<CompressType>>
    decreases measure(s, st),
{
    match sp_compresstype(s, st) {
        Err(e) => Err(e),
        Ok((c, st1)) => if st1.tok.kind == TokenKind::Comma {
            match sp_pop(s, st1) {
                Err(e) => Err(e),
                Ok((_, st2)) => if smaller(s, st2, st) {
                    match sp_compresslist_rest(s, st2) {
                        Err(e) => Err(e),
                        Ok((rest, st3)) => Ok((rest.push(c), st3)),
                    }
                } else {
                    Err(no_progress())
                },
            }
        } else {
            Ok((seq![c], st1))
        },
    }
}

/// A comma-separated list of compression strategies.
pub open spec fn sp_compresslist(s: Seq<char>, st: PState) -> Parsed<Seq<CompressType>> {
    match sp_compresstype(s, st) {
        Err(e) => Err(e),
        Ok((c, st1)) => if st1.tok.kind == TokenKind::Comma {
            match sp_pop(s, st1) {
                Err(e) => Err(e),
                Ok((_, st2)) => match sp_compresslist_rest(s, st2) {
                    Err(e) => Err(e),
                    Ok((rest, st3)) => Ok((rest.push(c).reverse(), st3)),
                },
            }
        } else {
            Ok((seq![c], st1))
        },
    }
}

/// A column's optional compression strategy.
pub open spec fn sp_opt_compresstype(s: Seq<char>, st: PState) -> Parsed<Option<CompressType>> {
    if st.tok.kind == TokenKind::CompressType {
        match sp_compresstype(s, st) {
            Err(e) => Err(e),
            Ok((c, st1)) => Ok((Some(c), st1)),
        }
    } else {
        Ok((None, st))
    }
}

/// One column of a `CREATE TABLE`: name, type, optional compression.
pub open spec fn sp_coldef(s: Seq<char>, st: PState) -> Parsed<(Seq<char>, ColType, Option<CompressType>)> {
    match sp_ident(s, st) {
        Err(e) => Err(e),
        Ok((name, st1)) => match sp_parsetype(s, st1) {
            Err(e) => Err(e),
            Ok((t, st2)) => match sp_opt_compresstype(s, st2) {
                Err(e) => Err(e),
                Ok((c, st3)) => Ok(((name, t, c), st3)),
            },
        },
    }
}

/// The rest of the columns of a `CREATE TABLE`, last one first.
pub open spec fn sp_collist_rest(s: Seq<char>, st: PState) -> Parsed<Seq<(Seq<char>, ColType, Option<CompressType>)>>
    decreases measure(s, st),
{
    match sp_coldef(s, st) {
        Err(e) => Err(e),
        Ok((c, st1)) => if st1.tok.kind == TokenKind::Comma {
            match sp_pop(s, st1) {
                Err(e) => Err(e),
                Ok((_, st2)) => if smaller(s, st2, st) {
                    match sp_collist_rest(s, st2) {
                        Err(e) => Err(e),
                        Ok((rest, st3)) => Ok((rest.push(c), st3)),
                    }
                } else {
                    Err(no_progress())
                },
            }
        } else {
            Ok((seq![c], st1))
        },
    }
}

/// The columns of a `CREATE TABLE`.
pub open spec fn sp_collist(s: Seq<char>, st: PState) -> Parsed<Seq<(Seq<char>, ColType, Option<CompressType>)>> {
    match sp_coldef(s, st) {
        Err(e) => Err(e),
        Ok((c, st1)) => if st1.tok.kind == TokenKind::Comma {
            match sp_pop(s, st1) {
                Err(e) => Err(e),
                Ok((_, st2)) => match sp_collist_rest(s, st2) {
                    Err(e) => Err(e),
                    Ok((rest, st3)) => Ok((rest.push(c).reverse(), st3)),
                },
            }
        } else {
            Ok((seq![c], st1))
        },
    }
}

/// A block: `x = e;` statements, then an expression. A statement is told
/// apart from an expression by the token after the current one being `=`.
pub open spec fn sp_block(s: Seq<char>, st: PState) -> Parsed<BlockV>
    decreases measure(s, st), 11int,
{
    match sp_peek_ahead(s, st) {
        Err(e) => Err(e),
        Ok(next) => if next.kind == TokenKind::AssignKw {
            match st.tok.value {
                TokenValueView::String(id) => match sp_pop(s, st) {
                    Err(e) => Err(e),
                    Ok((_, st1)) => match sp_pop(s, st1) {
                        Err(e) => Err(e),
                        Ok((_, st2)) => if smaller(s, st2, st) {
                            match sp_expr(s, st2) {
                                Err(e) => Err(e),
                                Ok((e, st3)) => match sp_pop_expect(s, st3, TokenKind::SemiKw) {
                                    Err(e) => Err(e),
                                    Ok((_, st4)) => if smaller(s, st4, st) {
                                        match sp_block(s, st4) {
                                            Err(e) => Err(e),
                                            Ok((b, st5)) => Ok((BlockV::Stmt(id, Box::new(e), Box::new(b)), st5)),
                                        }
                                    } else {
                                        Err(no_progress())
                                    },
                                },
                            }
                        } else {
                            Err(no_progress())
                        },
                    },
                },
                _ => Err(unexpected(s, st.pos)),
            }
        } else {
            match sp_expr(s, st) {
                Err(e) => Err(e),
                Ok((e, st1)) => Ok((BlockV::Expr(Box::new(e)), st1)),
            }
        },
    }
}

/// A function `fun x, .. -> e`, the current token being `fun`.
pub open spec fn sp_fun(s: Seq<char>, st: PState) -> Parsed<ExprV>
    decreases measure(s, st), 9int,
{
    match sp_pop(s, st) {
        Err(e) => Err(e),
        Ok((_, st1)) => {
            let params: Parsed<Seq<Seq<char>>> = if st1.tok.kind == TokenKind::Arrow {
                Ok((Seq::empty(), st1))
            } else {
                sp_identlist(s, st1)
            };
            match params {
                Err(e) => Err(e),
                Ok((ps, st2)) => match sp_pop_expect(s, st2, TokenKind::Arrow) {
                    Err(e) => Err(e),
                    Ok((_, st3)) => if smaller(s, st3, st) {
                        match sp_expr(s, st3) {
                            Err(e) => Err(e),
                            Ok((body, st4)) => Ok((ExprV::Fun(ps, Box::new(body)), st4)),
                        }
                    } else {
                        Err(no_progress())
                    },
                },
            }
        },
    }
}

/// A conditional `if e then e else e`, the current token being `if`.
pub open spec fn sp_cond(s: Seq<char>, st: PState) -> Parsed<ExprV>
    decreases measure(s, st), 9int,
{
    match sp_pop(s, st) {
        Err(e) => Err(e),
        Ok((_, st1)) => if smaller(s, st1, st) {
            match sp_expr(s, st1) {
                Err(e) => Err(e),
                Ok((c, st2)) => match sp_pop_expect(s, st2, TokenKind::ThenKw) {
                    Err(e) => Err(e),
                    Ok((_, st3)) => if smaller(s, st3, st) {
                        match sp_expr(s, st3) {
                            Err(e) => Err(e),
                            Ok((a, st4)) => match sp_pop_expect(s, st4, TokenKind::ElseKw) {
                                Err(e) => Err(e),
                                Ok((_, st5)) => if smaller(s, st5, st) {
                                    match sp_expr(s, st5) {
                                        Err(e) => Err(e),
                                        Ok((b, st6)) => Ok(
                                            (ExprV::Cond(Box::new(c), Box::new(a), Box::new(b)), st6),
                                        ),
                                    }
                                } else {
                                    Err(no_progress())
                                },
                            },
                        }
                    } else {
                        Err(no_progress())
                    },
                },
            }
        } else {
            Err(no_progress())
        },
    }
}

/// An operand of `&&` and `||`: a function, a conditional, or a comparison.
pub open spec fn sp_operand(s: Seq<char>, st: PState) -> Parsed<ExprV>
    decreases measure(s, st), 10int,
{
    if st.tok.kind == TokenKind::FunKw {
        sp_fun(s, st)
    } else if st.tok.kind == TokenKind::IfKw {
        sp_cond(s, st)
    } else {
        sp_l2(s, st)
    }
}

/// An expression: operands (see `sp_operand`) joined by `&&` and `||`,
/// grouping to the left.
pub open spec fn sp_expr(s: Seq<char>, st: PState) -> Parsed<ExprV>
    decreases measure(s, st), 10int,
{
    let first: Parsed<ExprV> = if st.tok.kind == TokenKind::FunKw {
        sp_fun(s, st)
    } else if st.tok.kind == TokenKind::IfKw {
        sp_cond(s, st)
    } else {
        sp_l2(s, st)
    };
    match first {
        Err(e) => Err(e),
        Ok((f, st1)) => if measure(s, st1) <= measure(s, st) {
            sp_expr_rest(s, f, st1)
        } else {
            Err(no_progress())
        },
    }
}

/// The rest of a chain of `&&` and `||` after `acc`, at state `st`: each
/// further operand joins the chain on the left (`a && b || c` is
/// `(a && b) || c`).
pub open spec fn sp_expr_rest(s: Seq<char>, acc: ExprV, st: PState) -> Parsed<ExprV>
    decreases measure(s, st), 9int,
{
    match l1_bop(st.tok.kind) {
        None => Ok((acc, st)),
        Some(b) => match sp_pop(s, st) {
            Err(e) => Err(e),
            Ok((_, st2)) => if smaller(s, st2, st) {
                match sp_operand(s, st2) {
                    Err(e) => Err(e),
                    Ok((r, st3)) => if smaller(s, st3, st) {
                        sp_expr_rest(s, ExprV::Bop(Box::new(acc), b, Box::new(r)), st3)
                    } else {
                        Err(no_progress())
                    },
                }
            } else {
                Err(no_progress())
            },
        },
    }
}

/// Comparisons, grouping to the left.
pub open spec fn sp_l2(s: Seq<char>, st: PState) -> Parsed<ExprV>
    decreases measure(s, st), 8int,
{
    match sp_l3(s, st) {
        Err(e) => Err(e),
        Ok((f, st1)) => if measure(s, st1) <= measure(s, st) {
            sp_l2_rest(s, f, st1)
        } else {
            Err(no_progress())
        },
    }
}

/// The rest of a chain of comparisons after `acc`, at state `st`.
pub open spec fn sp_l2_rest(s: Seq<char>, acc: ExprV, st: PState) -> Parsed<ExprV>
    decreases measure(s, st), 7int,
{
    match l2_bop(st.tok.kind) {
        None => Ok((acc, st)),
        Some(b) => match sp_pop(s, st) {
            Err(e) => Err(e),
            Ok((_, st2)) => if smaller(s, st2, st) {
                match sp_l3(s, st2) {
                    Err(e) => Err(e),
                    Ok((r, st3)) => if smaller(s, st3, st) {
                        sp_l2_rest(s, ExprV::Bop(Box::new(acc), b, Box::new(r)), st3)
                    } else {
                        Err(no_progress())
                    },
                }
            } else {
                Err(no_progress())
            },
        },
    }
}

/// Sums and differences, grouping to the left (`a - b - c` is `(a - b) - c`).
pub open spec fn sp_l3(s: Seq<char>, st: PState) -> Parsed<ExprV>
    decreases measure(s, st), 7int,
{
    match sp_l4(s, st) {
        Err(e) => Err(e),
        Ok((f, st1)) => if measure(s, st1) <= measure(s, st) {
            sp_l3_rest(s, f, st1)
        } else {
            Err(no_progress())
        },
    }
}

/// The rest of a chain of sums and differences after `acc`, at state `st`.
pub open spec fn sp_l3_rest(s: Seq<char>, acc: ExprV, st: PState) -> Parsed<ExprV>
    decreases measure(s, st), 6int,
{
    match l3_bop(st.tok.kind) {
        None => Ok((acc, st)),
        Some(b) => match sp_pop(s, st) {
            Err(e) => Err(e),
            Ok((_, st2)) => if smaller(s, st2, st) {
                match sp_l4(s, st2) {
                    Err(e) => Err(e),
                    Ok((r, st3)) => if smaller(s, st3, st) {
                        sp_l3_rest(s, ExprV::Bop(Box::new(acc), b, Box::new(r)), st3)
                    } else {
                        Err(no_progress())
                    },
                }
            } else {
                Err(no_progress())
            },
        },
    }
}

/// Products, quotients and remainders, grouping to the left.
pub open spec fn sp_l4(s: Seq<char>, st: PState) -> Parsed<ExprV>
    decreases measure(s, st), 6int,
{
    match sp_l5(s, st) {
        Err(e) => Err(e),
        Ok((f, st1)) => if measure(s, st1) <= measure(s, st) {
            sp_l4_rest(s, f, st1)
        } else {
            Err(no_progress())
        },
    }
}

/// The rest of a chain of products, quotients and remainders after `acc`,
/// at state `st`.
pub open spec fn sp_l4_rest(s: Seq<char>, acc: ExprV, st: PState) -> Parsed<ExprV>
    decreases measure(s, st), 5int,
{
    match l4_bop(st.tok.kind) {
        None => Ok((acc, st)),
        Some(b) => match sp_pop(s, st) {
            Err(e) => Err(e),
            Ok((_, st2)) => if smaller(s, st2, st) {
                match sp_l5(s, st2) {
                    Err(e) => Err(e),
                    Ok((r, st3)) => if smaller(s, st3, st) {
                        sp_l4_rest(s, ExprV::Bop(Box::new(acc), b, Box::new(r)), st3)
                    } else {
                        Err(no_progress())
                    },
                }
            } else {
                Err(no_progress())
            },
        },
    }
}

/// Prefix operators.
pub open spec fn sp_l5(s: Seq<char>, st: PState) -> Parsed<ExprV>
    decreases measure(s, st), 5int,
{
    match uop_of(st.tok.kind) {
        Some(u) => match sp_pop(s, st) {
            Err(e) => Err(e),
            Ok((_, st1)) => if smaller(s, st1, st) {
                match sp_l5(s, st1) {
                    Err(e) => Err(e),
                    Ok((e, st2)) => Ok((ExprV::Uop(u, Box::new(e)), st2)),
                }
            } else {
                Err(no_progress())
            },
        },
        None => sp_l6(s, st),
    }
}

/// A call `e(e, ..)`. A missing closing parenthesis is not reported.
pub open spec fn sp_l6(s: Seq<char>, st: PState) -> Parsed<ExprV>
    decreases measure(s, st), 4int,
{
    match sp_l7(s, st) {
        Err(e) => Err(e),
        Ok((f, st1)) => if st1.tok.kind == TokenKind::LParen {
            match sp_pop(s, st1) {
                Err(e) => Err(e),
                Ok((_, st2)) => {
                    let args: Parsed<Seq<ExprV>> = if st2.tok.kind == TokenKind::RParen {
                        Ok((Seq::empty(), st2))
                    } else if smaller(s, st2, st) {
                        sp_exprlist(s, st2)
                    } else {
                        Err(no_progress())
                    };
                    match args {
                        Err(e) => Err(e),
                        Ok((a, st3)) => Ok(
                            (ExprV::Call(Box::new(f), a), after_pop_expect(s, st3, TokenKind::RParen)),
                        ),
                    }
                },
            }
        } else {
            Ok((f, st1))
        },
    }
}

/// Member access `e.e`, grouping to the right.
pub open spec fn sp_l7(s: Seq<char>, st: PState) -> Parsed<ExprV>
    decreases measure(s, st), 3int,
{
    match sp_l8(s, st) {
        Err(e) => Err(e),
        Ok((f, st1)) => if st1.tok.kind == TokenKind::Dot {
            match sp_pop(s, st1) {
                Err(e) => Err(e),
                Ok((_, st2)) => if smaller(s, st2, st) {
                    match sp_l7(s, st2) {
                        Err(e) => Err(e),
                        Ok((r, st3)) => Ok((ExprV::Bop(Box::new(f), BopType::DotBop, Box::new(r)), st3)),
                    }
                } else {
                    Err(no_progress())
                },
            }
        } else {
            Ok((f, st1))
        },
    }
}

/// An identifier, a block in braces (a missing closing brace is not
/// reported), an expression in parentheses, a tuple in brackets, or a literal.
pub open spec fn sp_l8(s: Seq<char>, st: PState) -> Parsed<ExprV>
    decreases measure(s, st), 2int,
{
    if st.tok.kind == TokenKind::Identifier {
        match sp_pop(s, st) {
            Err(e) => Err(e),
            Ok((t, st1)) => match t.value {
                TokenValueView::String(x) => Ok((ExprV::Ident(x), st1)),
                _ => Err(unexpected(s, st1.pos)),
            },
        }
    } else if st.tok.kind == TokenKind::LCBracket {
        match sp_pop(s, st) {
            Err(e) => Err(e),
            Ok((_, st1)) => if smaller(s, st1, st) {
                match sp_block(s, st1) {
                    Err(e) => Err(e),
                    Ok((b, st2)) => Ok(
                        (ExprV::Block(Box::new(b)), after_pop_expect(s, st2, TokenKind::RCBracket)),
                    ),
                }
            } else {
                Err(no_progress())
            },
        }
    } else if st.tok.kind == TokenKind::LParen {
        match sp_pop(s, st) {
            Err(e) => Err(e),
            Ok((_, st1)) => if smaller(s, st1, st) {
                match sp_expr(s, st1) {
                    Err(e) => Err(e),
                    Ok((e, st2)) => match sp_pop_expect(s, st2, TokenKind::RParen) {
                        Err(e) => Err(e),
                        Ok((_, st3)) => Ok((e, st3)),
                    },
                }
            } else {
                Err(no_progress())
            },
        }
    } else if st.tok.kind == TokenKind::LBracket {
        match sp_pop(s, st) {
            Err(e) => Err(e),
            Ok((_, st1)) => if smaller(s, st1, st) {
                match sp_exprlist(s, st1) {
                    Err(e) => Err(e),
                    Ok((l, st2)) => match sp_pop_expect(s, st2, TokenKind::RBracket) {
                        Err(e) => Err(e),
                        Ok((_, st3)) => Ok((ExprV::Tup(l), st3)),
                    },
                }
            } else {
                Err(no_progress())
            },
        }
    } else {
        match sp_value(s, st) {
            Err(e) => Err(e),
            Ok((v, st1)) => Ok((ExprV::Val(v), st1)),
        }
    }
}

/// The rest of a comma-separated list of expressions, last one first.
pub open spec fn sp_exprlist_rest(s: Seq<char>, st: PState) -> Parsed<Seq<ExprV>>
    decreases measure(s, st), 11int,
{
    match sp_expr(s, st) {
        Err(e) => Err(e),
        Ok((e, st1)) => if st1.tok.kind == TokenKind::Comma {
            match sp_pop(s, st1) {
                Err(e) => Err(e),
                Ok((_, st2)) => if smaller(s, st2, st) {
                    match sp_exprlist_rest(s, st2) {
                        Err(e) => Err(e),
                        Ok((rest, st3)) => Ok((rest.push(e), st3)),
                    }
                } else {
                    Err(no_progress())
                },
            }
        } else {
            Ok((seq![e], st1))
        },
    }
}

/// A comma-separated list of expressions.
pub open spec fn sp_exprlist(s: Seq<char>, st: PState) -> Parsed<Seq<ExprV>>
    decreases measure(s, st), 11int,
{
    match sp_expr(s, st) {
        Err(e) => Err(e),
        Ok((e, st1)) => if st1.tok.kind == TokenKind::Comma {
            match sp_pop(s, st1) {
                Err(e) => Err(e),
                Ok((_, st2)) => if smaller(s, st2, st) {
                    match sp_exprlist_rest(s, st2) {
                        Err(e) => Err(e),
                        Ok((rest, st3)) => Ok((rest.push(e).reverse(), st3)),
                    }
                } else {
                    Err(no_progress())
                },
            }
        } else {
            Ok((seq![e], st1))
        },
    }
}

/// An assignment `x = e`.
pub open spec fn sp_singleassign(s: Seq<char>, st: PState) -> Parsed<(Seq<char>, ExprV)> {
    match sp_ident(s, st) {
        Err(e) => Err(e),
        Ok((id, st1)) => match sp_pop_expect(s, st1, TokenKind::AssignKw) {
            Err(e) => Err(e),
            Ok((_, st2)) => match sp_expr(s, st2) {
                Err(e) => Err(e),
                Ok((e, st3)) => Ok(((id, e), st3)),
            },
        },
    }
}

/// An optional `WHERE e` or `LIMIT e` clause, introduced by a token of kind `k`.
pub open spec fn sp_opt_clause(s: Seq<char>, st: PState, k: TokenKind) -> Parsed<Option<ExprV>> {
    if st.tok.kind == k {
        match sp_pop(s, st) {
            Err(e) => Err(e),
            Ok((_, st1)) => match sp_expr(s, st1) {
                Err(e) => Err(e),
                Ok((e, st2)) => Ok((Some(e), st2)),
            },
        }
    } else {
        Ok((None, st))
    }
}

/// An optional `ORDER BY f [ASC|DESC]` clause; ascending where no direction is given.
pub open spec fn sp_sort_clause(s: Seq<char>, st: PState) -> Parsed<Option<(Seq<char>, SortType)>> {
    if st.tok.kind == TokenKind::SortKw {
        match sp_pop(s, st) {
            Err(e) => Err(e),
            Ok((_, st1)) => match sp_pop_expect(s, st1, TokenKind::ByKw) {
                Err(e) => Err(e),
                Ok((_, st2)) => match sp_ident(s, st2) {
                    Err(e) => Err(e),
                    Ok((id, st3)) => if st3.tok.kind == TokenKind::SortType {
                        match sp_pop(s, st3) {
                            Err(e) => Err(e),
                            Ok((t, st4)) => match t.value {
                                TokenValueView::SortType(d) => Ok((Some((id, d)), st4)),
                                _ => Err(unexpected(s, st4.pos)),
                            },
                        }
                    } else {
                        Ok((Some((id, SortType::Ascending)), st3))
                    },
                },
            },
        }
    } else {
        Ok((None, st))
    }
}

/// What follows `SELECT`: `AGGREGATE a FROM t`, `COMP c FROM t`, or
/// `* | f, .. FROM t` with optional `WHERE`, `ORDER BY` and `LIMIT` clauses.
pub open spec fn sp_select(s: Seq<char>, st: PState) -> Parsed<QueryV> {
    if st.tok.kind == TokenKind::AggregateKw || st.tok.kind == TokenKind::CompKw {
        match sp_pop(s, st) {
            Err(e) => Err(e),
            Ok((_, st1)) => match sp_ident(s, st1) {
                Err(e) => Err(e),
                Ok((a, st2)) => match sp_pop_expect(s, st2, TokenKind::FromKw) {
                    Err(e) => Err(e),
                    Ok((_, st3)) => match sp_ident(s, st3) {
                        Err(e) => Err(e),
                        Ok((t, st4)) => if st.tok.kind == TokenKind::AggregateKw {
                            Ok((QueryV::SelectAggregate(a, t), st4))
                        } else {
                            Ok((QueryV::SelectComp(a, t), st4))
                        },
                    },
                },
            },
        }
    } else {
        let fields: Parsed<Option<Seq<Seq<char>>>> = if st.tok.kind == TokenKind::TimesKw {
            match sp_pop(s, st) {
                Err(e) => Err(e),
                Ok((_, st1)) => Ok((None, st1)),
            }
        } else {
            match sp_identlist(s, st) {
                Err(e) => Err(e),
                Ok((l, st1)) => Ok((Some(l), st1)),
            }
        };
        match fields {
            Err(e) => Err(e),
            Ok((f, st1)) => match sp_pop_expect(s, st1, TokenKind::FromKw) {
                Err(e) => Err(e),
                Ok((_, st2)) => match sp_ident(s, st2) {
                    Err(e) => Err(e),
                    Ok((t, st3)) => match sp_opt_clause(s, st3, TokenKind::WhereKw) {
                        Err(e) => Err(e),
                        Ok((w, st4)) => match sp_sort_clause(s, st4) {
                            Err(e) => Err(e),
                            Ok((o, st5)) => match sp_opt_clause(s, st5, TokenKind::LimitKw) {
                                Err(e) => Err(e),
                                Ok((l, st6)) => Ok((QueryV::Select(f, t, w, o, l), st6)),
                            },
                        },
                    },
                },
            },
        }
    }
}

/// What follows `INSERT`: `INTO t [(f, ..)] VALUES (e, ..)`.
pub open spec fn sp_insert(s: Seq<char>, st: PState) -> Parsed<QueryV> {
    match sp_pop_expect(s, st, TokenKind::IntoKw) {
        Err(e) => Err(e),
        Ok((_, st1)) => match sp_ident(s, st1) {
            Err(e) => Err(e),
            Ok((t, st2)) => {
                let cols: Parsed<Option<Seq<Seq<char>>>> = if st2.tok.kind == TokenKind::LParen {
                    match sp_pop(s, st2) {
                        Err(e) => Err(e),
                        Ok((_, st3)) => match sp_identlist(s, st3) {
                            Err(e) => Err(e),
                            Ok((l, st4)) => match sp_pop_expect(s, st4, TokenKind::RParen) {
                                Err(e) => Err(e),
                                Ok((_, st5)) => Ok((Some(l), st5)),
                            },
                        },
                    }
                } else {
                    Ok((None, st2))
                };
                match cols {
                    Err(e) => Err(e),
                    Ok((c, st3)) => match sp_pop_expect(s, st3, TokenKind::ValuesKw) {
                        Err(e) => Err(e),
                        Ok((_, st4)) => match sp_pop_expect(s, st4, TokenKind::LParen) {
                            Err(e) => Err(e),
                            Ok((_, st5)) => match sp_exprlist(s, st5) {
                                Err(e) => Err(e),
                                Ok((v, st6)) => match sp_pop_expect(s, st6, TokenKind::RParen) {
                                    Err(e) => Err(e),
                                    Ok((_, st7)) => Ok((QueryV::Insert(t, c, v), st7)),
                                },
                            },
                        },
                    },
                }
            },
        },
    }
}

/// What follows `COMPRESS`: `t (f, ..)` then either `(strategy, ..)` or one
/// strategy for every field.
pub open spec fn sp_compress(s: Seq<char>, st: PState) -> Parsed<QueryV> {
    match sp_ident(s, st) {
        Err(e) => Err(e),
        Ok((t, st1)) => match sp_pop_expect(s, st1, TokenKind::LParen) {
            Err(e) => Err(e),
            Ok((_, st2)) => match sp_identlist(s, st2) {
                Err(e) => Err(e),
                Ok((fs, st3)) => match sp_pop_expect(s, st3, TokenKind::RParen) {
                    Err(e) => Err(e),
                    Ok((_, st4)) => {
                        let strats: Parsed<Seq<CompressType>> = if st4.tok.kind == TokenKind::LParen {
                            match sp_pop(s, st4) {
                                Err(e) => Err(e),
                                Ok((_, st5)) => match sp_compresslist(s, st5) {
                                    Err(e) => Err(e),
                                    Ok((l, st6)) => match sp_pop_expect(s, st6, TokenKind::RParen) {
                                        Err(e) => Err(e),
                                        Ok((_, st7)) => Ok((l, st7)),
                                    },
                                },
                            }
                        } else {
                            match sp_compresstype(s, st4) {
                                Err(e) => Err(e),
                                Ok((c, st5)) => Ok((Seq::new(fs.len(), |i: int| c), st5)),
                            }
                        };
                        match strats {
                            Err(e) => Err(e),
                            Ok((c, st5)) => Ok((QueryV::Compress(t, fs, c), st5)),
                        }
                    },
                },
            },
        },
    }
}

/// What follows `SCRIPT`: a block, then optionally `FROM t`.
pub open spec fn sp_script(s: Seq<char>, st: PState) -> Parsed<QueryV> {
    match sp_block(s, st) {
        Err(e) => Err(e),
        Ok((b, st1)) => if st1.tok.kind == TokenKind::FromKw {
            match sp_pop(s, st1) {
                Err(e) => Err(e),
                Ok((_, st2)) => match sp_ident(s, st2) {
                    Err(e) => Err(e),
                    Ok((t, st3)) => Ok((QueryV::Script(ExprV::Block(Box::new(b)), Some(t)), st3)),
                },
            }
        } else {
            Ok((QueryV::Script(ExprV::Block(Box::new(b)), None), st1))
        },
    }
}

/// What follows `IMPORT` (with `INTO`) or `EXPORT` (with `FROM`): `CSV path k t`.
pub open spec fn sp_csv(s: Seq<char>, st: PState, k: TokenKind) -> Parsed<(Seq<char>, Seq<char>)> {
    match sp_pop_expect(s, st, TokenKind::CSVKw) {
        Err(e) => Err(e),
        Ok((_, st1)) => match sp_ident(s, st1) {
            Err(e) => Err(e),
            Ok((p, st2)) => match sp_pop_expect(s, st2, k) {
                Err(e) => Err(e),
                Ok((_, st3)) => match sp_ident(s, st3) {
                    Err(e) => Err(e),
                    Ok((t, st4)) => Ok(((p, t), st4)),
                },
            },
        },
    }
}

/// What follows `CREATE COLUMN`: `(type [strategy]) name = e INTO t`.
pub open spec fn sp_create_column(s: Seq<char>, st: PState) -> Parsed<QueryV> {
    match sp_pop_expect(s, st, TokenKind::LParen) {
        Err(e) => Err(e),
        Ok((_, st1)) => match sp_parsetype(s, st1) {
            Err(e) => Err(e),
            Ok((ty, st2)) => match sp_opt_compresstype(s, st2) {
                Err(e) => Err(e),
                Ok((c, st3)) => match sp_pop_expect(s, st3, TokenKind::RParen) {
                    Err(e) => Err(e),
                    Ok((_, st4)) => match sp_singleassign(s, st4) {
                        Err(e) => Err(e),
                        Ok(((n, e), st5)) => match sp_pop_expect(s, st5, TokenKind::IntoKw) {
                            Err(e) => Err(e),
                            Ok((_, st6)) => match sp_ident(s, st6) {
                                Err(e) => Err(e),
                                Ok((t, st7)) => Ok((QueryV::Column(ty, c, n, e, t), st7)),
                            },
                        },
                    },
                },
            },
        },
    }
}

/// What follows `CREATE AGGREGATE`: `name = e [INIT e] INTO t`.
pub open spec fn sp_create_aggregate(s: Seq<char>, st: PState) -> Parsed<QueryV> {
    match sp_singleassign(s, st) {
        Err(e) => Err(e),
        Ok(((n, e), st1)) => match sp_opt_clause(s, st1, TokenKind::InitKw) {
            Err(e) => Err(e),
            Ok((i, st2)) => match sp_pop_expect(s, st2, TokenKind::IntoKw) {
                Err(e) => Err(e),
                Ok((_, st3)) => match sp_ident(s, st3) {
                    Err(e) => Err(e),
                    Ok((t, st4)) => Ok((QueryV::Aggregate(n, e, i, t), st4)),
                },
            },
        },
    }
}

/// In `CREATE AGGREGATE n = e [INIT i] INTO t` nothing is lost: a parsed
/// aggregate has the name and update expression of the assignment, an
/// initial expression exactly when the assignment is followed by `INIT`, and
/// then it is the expression parsed after `INIT`.
pub proof fn law_aggregate_init(s: Seq<char>, st: PState)
    ensures
        sp_create_aggregate(s, st) is Ok ==> {
            let q = sp_create_aggregate(s, st)->Ok_0.0;
            let a = sp_singleassign(s, st);
            let st1 = a->Ok_0.1;
            &&& a is Ok
            &&& q is Aggregate
            &&& q->Aggregate_0 == a->Ok_0.0.0
            &&& q->Aggregate_1 == a->Ok_0.0.1
            &&& (q->Aggregate_2 is Some <==> st1.tok.kind == TokenKind::InitKw)
            &&& q->Aggregate_2 is Some ==> ({
                let p = sp_pop(s, st1);
                &&& p is Ok
                &&& sp_expr(s, p->Ok_0.1) is Ok
                &&& q->Aggregate_2->0 == sp_expr(s, p->Ok_0.1)->Ok_0.0
            })
        },
{
}

/// What follows `CREATE`: `TABLE`, `COMP`, `COLUMN`, `AGGREGATE` or `CONST`.
pub open spec fn sp_create(s: Seq<char>, st: PState) -> Parsed<QueryV> {
    match sp_pop(s, st) {
        Err(e) => Err(e),
        Ok((k, st1)) => match k.kind {
            TokenKind::TableKw => match sp_ident(s, st1) {
                Err(e) => Err(e),
                Ok((t, st2)) => match sp_pop_expect(s, st2, TokenKind::LParen) {
                    Err(e) => Err(e),
                    Ok((_, st3)) => match sp_collist(s, st3) {
                        Err(e) => Err(e),
                        Ok((cols, st4)) => match sp_pop_expect(s, st4, TokenKind::RParen) {
                            Err(e) => Err(e),
                            Ok((_, st5)) => Ok((QueryV::CreateTable(t, cols), st5)),
                        },
                    },
                },
            },
            TokenKind::CompKw => match sp_singleassign(s, st1) {
                Err(e) => Err(e),
                Ok(((n, e), st2)) => match sp_pop_expect(s, st2, TokenKind::IntoKw) {
                    Err(e) => Err(e),
                    Ok((_, st3)) => match sp_ident(s, st3) {
                        Err(e) => Err(e),
                        Ok((t, st4)) => Ok((QueryV::Comp(n, e, t), st4)),
                    },
                },
            },
            TokenKind::ColumnKw => sp_create_column(s, st1),
            TokenKind::AggregateKw => sp_create_aggregate(s, st1),
            TokenKind::ConstKw => match sp_singleassign(s, st1) {
                Err(e) => Err(e),
                Ok(((n, e), st2)) => Ok((QueryV::Const(n, e), st2)),
            },
            _ => Err(unexpected(s, st1.pos)),
        },
    }
}

/// A query, chosen by its first token.
pub open spec fn sp_query(s: Seq<char>, st: PState) -> Parsed<QueryV> {
    match sp_pop(s, st) {
        Err(e) => Err(e),
        Ok((k, st1)) => match k.kind {
            TokenKind::SelectKw => sp_select(s, st1),
            TokenKind::InsertKw => sp_insert(s, st1),
            TokenKind::CompressKw => sp_compress(s, st1),
            TokenKind::ScriptKw => sp_script(s, st1),
            TokenKind::ExitKw => Ok((QueryV::Exit, st1)),
            TokenKind::ImportKw => match sp_csv(s, st1, TokenKind::IntoKw) {
                Err(e) => Err(e),
                Ok(((p, t), st2)) => Ok((QueryV::ImportCSV(p, t), st2)),
            },
            TokenKind::ExportKw => match sp_csv(s, st1, TokenKind::FromKw) {
                Err(e) => Err(e),
                Ok(((p, t), st2)) => Ok((QueryV::ExportCSV(p, t), st2)),
            },
            TokenKind::CreateKw => sp_create(s, st1),
            _ => Err(unexpected(s, st1.pos)),
        },
    }
}

/// The state after reading the first token of `s`, or the lexer's error.
pub open spec fn first_state(s: Seq<char>) -> Result<PState, Seq<char>> {
    match lex_from(s, 0).0 {
        Some(t) => Ok(PState { pos: lex_from(s, 0).1, tok: t }),
        None => Err(lexing_error()),
    }
}

/// What parsing `s` as a query gives. Tokens after the query are not read.
pub open spec fn sp_parse(s: Seq<char>) -> Result<QueryV, Seq<char>> {
    match first_state(s) {
        Err(e) => Err(e),
        Ok(st) => match sp_query(s, st) {
            Err(e) => Err(e),
            Ok((q, _)) => Ok(q),
        },
    }
}

/// What parsing `s` as a script (a block) gives. Tokens after the block are
/// not read.
pub open spec fn sp_parse_script(s: Seq<char>) -> Result<BlockV, Seq<char>> {
    match first_state(s) {
        Err(e) => Err(e),
        Ok(st) => match sp_block(s, st) {
            Err(e) => Err(e),
            Ok((b, _)) => Ok(b),
        },
    }
}

} // verus!
