//! A lexer for plain arithmetic scripts (integers, decimals, booleans,
//! strings, identifiers, `+ - * /`, `=`, `;` and parentheses), and the token
//! cursor of a parser over it. At each position the lexer takes the longest
//! match among its token rules, the first rule winning among equally long
//! ones.
use vstd::prelude::*;
use std::rc::Rc;
use crate::regex_match::{regex_find, regex_first_match};
use crate::lexer::{byte_pos, byte_offset};

verus! {

/// The kinds of tokens.
#[derive(Clone, Copy, PartialEq, Eq, Debug, Structural)]
pub enum TokenKind {
    EOF,
    PlusKw,
    MinusKw,
    TimesKw,
    DivKw,
    AssignKw,
    SemiKw,
    Integer,
    Float,
    Identifier,
    Boolean,
    String,
    LParen,
    RParen,
}

/// The value a token carries.
#[derive(Clone, PartialEq, Eq, Debug)]
pub enum TokenValue {
    /// No value.
    Nothing,
    /// A decimal number, its text as written.
    Float(String),
    /// An identifier, or a string literal without its quotes.
    String(String),
    Integer(i64),
    Boolean(bool),
}

/// A token value with its text as characters.
pub enum TokenValueView {
    Nothing,
    Float(Seq<char>),
    String(Seq<char>),
    Integer(i64),
    Boolean(bool),
}

impl View for TokenValue {
    type V = TokenValueView;

    open spec fn view(&self) -> TokenValueView {
        match self {
            TokenValue::Nothing => TokenValueView::Nothing,
            TokenValue::Float(s) => TokenValueView::Float(s@),
            TokenValue::String(s) => TokenValueView::String(s@),
            TokenValue::Integer(n) => TokenValueView::Integer(*n),
            TokenValue::Boolean(b) => TokenValueView::Boolean(*b),
        }
    }
}

/// A token: its kind, its value, and where it starts and ends (byte offsets).
#[derive(Clone, Debug)]
pub struct Token {
    pub kind: TokenKind,
    pub value: TokenValue,
    pub start: usize,
    pub end: usize,
}

/// A token as plain values.
pub struct TokenView {
    pub kind: TokenKind,
    pub value: TokenValueView,
    pub start: int,
    pub end: int,
}

impl View for Token {
    type V = TokenView;

    open spec fn view(&self) -> TokenView {
        TokenView { kind: self.kind, value: self.value@, start: self.start as int, end: self.end as int }
    }
}

/// How a rule turns its matched text into a value.
#[derive(Clone, Copy, PartialEq, Eq, Structural)]
pub enum RuleValue {
    NoValue,
    Bool,
    Int,
    FloatText,
    Ident,
    StringLit,
}

/// The character is a decimal digit.
pub open spec fn is_digit(c: char) -> bool {
    '0' <= c && c <= '9'
}

/// The value of a decimal digit.
pub open spec fn digit_value(c: char) -> int {
    c as int - '0' as int
}

/// Reading the digits `d` after the value `acc` so far, the way `str::parse`
/// reads an `i64`: each character must be a digit, and the value may never
/// leave the range of `i64` (a negative number grows downwards).
pub open spec fn parse_digits(d: Seq<char>, neg: bool, acc: int) -> Result<int, Seq<char>>
    decreases d.len(),
{
    if d.len() == 0 {
        Ok(acc)
    } else if !is_digit(d[0]) {
        Err("invalid digit found in string"@)
    } else {
        let a = if neg {
            acc * 10 - digit_value(d[0])
        } else {
            acc * 10 + digit_value(d[0])
        };
        if a > i64::MAX {
            Err("number too large to fit in target type"@)
        } else if a < i64::MIN {
            Err("number too small to fit in target type"@)
        } else {
            parse_digits(d.drop_first(), neg, a)
        }
    }
}

/// The `i64` that `t` is in decimal (an optional sign, then digits), or why
/// it is none.
pub open spec fn parse_int(t: Seq<char>) -> Result<i64, Seq<char>> {
    if t.len() == 0 {
        Err("cannot parse integer from empty string"@)
    } else {
        let signed = t[0] == '-' || t[0] == '+';
        let d = if signed {
            t.drop_first()
        } else {
            t
        };
        if d.len() == 0 {
            Err("invalid digit found in string"@)
        } else {
            match parse_digits(d, t[0] == '-', 0) {
                Ok(v) => Ok(v as i64),
                Err(e) => Err(e),
            }
        }
    }
}

/// The value a rule gives to its matched text, or why it has none.
pub open spec fn rule_value(vk: RuleValue, text: Seq<char>) -> Result<TokenValueView, Seq<char>> {
    match vk {
        RuleValue::NoValue => Ok(TokenValueView::Nothing),
        RuleValue::Bool => Ok(TokenValueView::Boolean(text == "true"@)),
        RuleValue::Int => match parse_int(text) {
            Ok(n) => Ok(TokenValueView::Integer(n)),
            Err(e) => Err(e),
        },
        RuleValue::FloatText => Ok(TokenValueView::Float(text)),
        RuleValue::Ident => Ok(TokenValueView::String(text)),
        RuleValue::StringLit => Ok(TokenValueView::String(
            if text.len() >= 2 {
                text.subrange(1, text.len() - 1)
            } else {
                Seq::empty()
            },
        )),
    }
}

/// The number of token rules.
pub const CALC_RULES: usize = 14;

/// Rule `i`: the kind of token it makes (none for whitespace), its pattern,
/// and how it makes the token's value.
pub open spec fn calc_rule(i: int) -> (Option<TokenKind>, Seq<char>, RuleValue) {
    if i == 0 {
        (Some(TokenKind::Boolean), r"^(false)|(true)"@, RuleValue::Bool)
    } else if i == 1 {
        (Some(TokenKind::AssignKw), r"^="@, RuleValue::NoValue)
    } else if i == 2 {
        (Some(TokenKind::SemiKw), r"^;"@, RuleValue::NoValue)
    } else if i == 3 {
        (Some(TokenKind::LParen), r"^\("@, RuleValue::NoValue)
    } else if i == 4 {
        (Some(TokenKind::RParen), r"^\)"@, RuleValue::NoValue)
    } else if i == 5 {
        (Some(TokenKind::PlusKw), r"^\+"@, RuleValue::NoValue)
    } else if i == 6 {
        (Some(TokenKind::MinusKw), r"^-"@, RuleValue::NoValue)
    } else if i == 7 {
        (Some(TokenKind::TimesKw), r"^\*"@, RuleValue::NoValue)
    } else if i == 8 {
        (Some(TokenKind::DivKw), r"^/"@, RuleValue::NoValue)
    } else if i == 9 {
        (Some(TokenKind::Integer), r"^(-?)[0-9]+"@, RuleValue::Int)
    } else if i == 10 {
        (Some(TokenKind::Float), r"^(-?)[0-9]+\.[0-9]+"@, RuleValue::FloatText)
    } else if i == 11 {
        (Some(TokenKind::Identifier), r"^[a-zA-Z][a-zA-Z0-9]*"@, RuleValue::Ident)
    } else if i == 12 {
        (Some(TokenKind::String), r"^'[^']*'"@, RuleValue::StringLit)
    } else {
        (None, r"^[ \t]+"@, RuleValue::NoValue)
    }
}

/// The pattern of each token kind of arithmetic scripts that is written one
/// fixed way (operators and punctuation): its text, anchored at the start
/// (with a backslash before characters that regular expressions treat
/// specially). `None` for the kinds whose text varies.
pub open spec fn calc_fixed_pattern(k: TokenKind) -> Option<Seq<char>> {
    match k {
        TokenKind::AssignKw => Some(r"^="@),
        TokenKind::SemiKw => Some(r"^;"@),
        TokenKind::LParen => Some(r"^\("@),
        TokenKind::RParen => Some(r"^\)"@),
        TokenKind::PlusKw => Some(r"^\+"@),
        TokenKind::MinusKw => Some(r"^-"@),
        TokenKind::TimesKw => Some(r"^\*"@),
        TokenKind::DivKw => Some(r"^/"@),
        _ => None,
    }
}

/// Each operator and punctuation mark of arithmetic scripts is lexed as its
/// own kind: a rule that gives such a kind matches exactly that kind's text,
/// every such kind has a rule, and no other rule gives it. So `*` gives
/// `TimesKw` and `/` gives `DivKw`.
pub proof fn law_calc_fixed_tokens()
    ensures
        forall|i: int| #![trigger calc_rule(i)] 0 <= i < CALC_RULES && calc_rule(i).0 is Some && calc_fixed_pattern(calc_rule(i).0->0) is Some
            ==> calc_rule(i).1 == calc_fixed_pattern(calc_rule(i).0->0)->0,
        forall|k: TokenKind| #[trigger] calc_fixed_pattern(k) is Some ==> exists|i: int| 0 <= i < CALC_RULES && #[trigger] calc_rule(i).0 == Some(k),
        forall|i: int, j: int| #![trigger calc_rule(i), calc_rule(j)] 0 <= i < CALC_RULES && 0 <= j < CALC_RULES && calc_rule(i).0 is Some
            && calc_fixed_pattern(calc_rule(i).0->0) is Some && calc_rule(i).0 == calc_rule(j).0 ==> i == j,
{
    assert forall|k: TokenKind| #[trigger] calc_fixed_pattern(k) is Some implies exists|i: int| 0 <= i < CALC_RULES && #[trigger] calc_rule(i).0 == Some(k) by {
        match k {
            TokenKind::AssignKw => assert(calc_rule(1).0 == Some(k)),
            TokenKind::SemiKw => assert(calc_rule(2).0 == Some(k)),
            TokenKind::LParen => assert(calc_rule(3).0 == Some(k)),
            TokenKind::RParen => assert(calc_rule(4).0 == Some(k)),
            TokenKind::PlusKw => assert(calc_rule(5).0 == Some(k)),
            TokenKind::MinusKw => assert(calc_rule(6).0 == Some(k)),
            TokenKind::TimesKw => assert(calc_rule(7).0 == Some(k)),
            TokenKind::DivKw => assert(calc_rule(8).0 == Some(k)),
            _ => {},
        }
    }
}


fn rule(i: usize) -> (r: (Option<TokenKind>, &'static str, RuleValue))
    requires
        i < CALC_RULES,
    ensures
        r.0 == calc_rule(i as int).0,
        r.1@ == calc_rule(i as int).1,
        r.2 == calc_rule(i as int).2,
{
    match i {
        0 => (Some(TokenKind::Boolean), r"^(false)|(true)", RuleValue::Bool),
        1 => (Some(TokenKind::AssignKw), r"^=", RuleValue::NoValue),
        2 => (Some(TokenKind::SemiKw), r"^;", RuleValue::NoValue),
        3 => (Some(TokenKind::LParen), r"^\(", RuleValue::NoValue),
        4 => (Some(TokenKind::RParen), r"^\)", RuleValue::NoValue),
        5 => (Some(TokenKind::PlusKw), r"^\+", RuleValue::NoValue),
        6 => (Some(TokenKind::MinusKw), r"^-", RuleValue::NoValue),
        7 => (Some(TokenKind::TimesKw), r"^\*", RuleValue::NoValue),
        8 => (Some(TokenKind::DivKw), r"^/", RuleValue::NoValue),
        9 => (Some(TokenKind::Integer), r"^(-?)[0-9]+", RuleValue::Int),
        10 => (Some(TokenKind::Float), r"^(-?)[0-9]+\.[0-9]+", RuleValue::FloatText),
        11 => (Some(TokenKind::Identifier), r"^[a-zA-Z][a-zA-Z0-9]*", RuleValue::Ident),
        12 => (Some(TokenKind::String), r"^'[^']*'", RuleValue::StringLit),
        _ => (None, r"^[ \t]+", RuleValue::NoValue),
    }
}


/// The length of what rule `i` matches in `rest` (0 when it matches nothing).
pub open spec fn calc_match_len(i: int, rest: Seq<char>) -> int {
    match regex_first_match(calc_rule(i).1, rest) {
        Some((_pre, m)) => m.len() as int,
        None => 0,
    }
}

/// Among the first `k` rules, the first one with the longest match in `rest`,
/// and that length; `(-1, 0)` when none matches anything.
pub open spec fn calc_best(rest: Seq<char>, k: int) -> (int, int)
    decreases k,
{
    if k <= 0 {
        (-1, 0)
    } else {
        let (b, l) = calc_best(rest, k - 1);
        if calc_match_len(k - 1, rest) > l {
            (k - 1, calc_match_len(k - 1, rest))
        } else {
            (b, l)
        }
    }
}

/// The first error among the first `k` rules: a rule that, when it became the
/// longest match so far, could not make its token's value.
pub open spec fn calc_value_error(rest: Seq<char>, k: int) -> Option<Seq<char>>
    decreases k,
{
    if k <= 0 {
        None
    } else {
        match calc_value_error(rest, k - 1) {
            Some(e) => Some(e),
            None => {
                let j = k - 1;
                if calc_match_len(j, rest) > calc_best(rest, j).1 && calc_rule(j).0 is Some {
                    match rule_value(calc_rule(j).2, regex_first_match(calc_rule(j).1, rest).unwrap().1) {
                        Err(e) => Some(e),
                        Ok(_) => None,
                    }
                } else {
                    None
                }
            },
        }
    }
}

/// The end-of-input token of a script.
pub open spec fn calc_eof(s: Seq<char>) -> TokenView {
    TokenView {
        kind: TokenKind::EOF,
        value: TokenValueView::Nothing,
        start: byte_pos(s, s.len() as int),
        end: byte_pos(s, s.len() as int),
    }
}

/// The next token from position `pos` of `s`, and the position after it; an
/// error where no rule matches (`Lexing error`) or where a matched number is
/// not an `i64`.
pub open spec fn calc_lex_from(s: Seq<char>, pos: int) -> (Result<TokenView, Seq<char>>, int)
    decreases s.len() - pos,
{
    if pos >= s.len() || pos < 0 {
        (Ok(calc_eof(s)), pos)
    } else {
        let rest = s.subrange(pos, s.len() as int);
        match calc_value_error(rest, CALC_RULES as int) {
            Some(e) => (Err(e), pos),
            None => {
                let (b, l) = calc_best(rest, CALC_RULES as int);
                if l <= 0 || pos + l > s.len() {
                    (Err("Lexing error"@), pos)
                } else {
                    let (pre, m) = regex_first_match(calc_rule(b).1, rest).unwrap();
                    match calc_rule(b).0 {
                        None => if pos + l >= s.len() {
                            (Ok(calc_eof(s)), pos + l)
                        } else {
                            calc_lex_from(s, pos + l)
                        },
                        Some(k) => (
                            Ok(TokenView {
                                kind: k,
                                value: rule_value(calc_rule(b).2, m)->Ok_0,
                                start: byte_pos(s, pos + pre.len()),
                                end: byte_pos(s, pos + pre.len() + m.len()),
                            }),
                            pos + l,
                        ),
                    }
                }
            },
        }
    }
}

proof fn lemma_calc_best_range(rest: Seq<char>, k: int)
    requires
        0 <= k <= CALC_RULES,
    ensures
        calc_best(rest, k).1 >= 0,
        calc_best(rest, k).1 > 0 ==> 0 <= calc_best(rest, k).0 < k && calc_match_len(calc_best(rest, k).0, rest) == calc_best(rest, k).1,
    decreases k,
{
    if k > 0 {
        lemma_calc_best_range(rest, k - 1);
    }
}

/// Reads `text` as an `i64` the way `str::parse` does.
pub fn parse_i64(text: &str) -> (r: Result<i64, String>)
    ensures
        match r {
            Ok(n) => parse_int(text@) == Ok::<i64, Seq<char>>(n),
            Err(e) => parse_int(text@) == Err::<i64, Seq<char>>(e@),
        },
{
    let n = text.unicode_len();
    if n == 0 {
        return Err(String::from_str("cannot parse integer from empty string"));
    }
    let first = text.get_char(0);
    let neg = first == '-';
    let start: usize = if first == '-' || first == '+' { 1 } else { 0 };
    if start == n {
        return Err(String::from_str("invalid digit found in string"));
    }
    let ghost t = text@;
    let ghost d = if start == 1 { t.drop_first() } else { t };
    let mut acc: i128 = 0;
    let mut i: usize = start;
    assert(d =~= t.subrange(start as int, n as int));
    assert(t[0] == first);
    let ghost whole = match parse_digits(d, neg, 0) {
        Ok(v) => Ok::<i64, Seq<char>>(v as i64),
        Err(e) => Err::<i64, Seq<char>>(e),
    };
    assert(parse_int(t) == whole);
    while i < n
        invariant
            parse_int(t) == whole,
            whole == (match parse_digits(d, neg, 0) {
                Ok(v) => Ok::<i64, Seq<char>>(v as i64),
                Err(e) => Err::<i64, Seq<char>>(e),
            }),
            t == text@,
            n == t.len(),
            start <= i <= n,
            d == t.subrange(start as int, n as int),
            i64::MIN <= acc <= i64::MAX,
            parse_digits(d, neg, 0) == parse_digits(t.subrange(i as int, n as int), neg, acc as int),
        decreases n - i,
    {
        let c = text.get_char(i);
        assert(t.subrange(i as int, n as int)[0] == c);
        assert(t.subrange(i as int, n as int).drop_first() =~= t.subrange(i + 1, n as int));
        if !('0' <= c && c <= '9') {
            return Err(String::from_str("invalid digit found in string"));
        }
        let dv = (c as u32 - '0' as u32) as i128;
        let a: i128 = if neg { acc * 10 - dv } else { acc * 10 + dv };
        if a > i64::MAX as i128 {
            return Err(String::from_str("number too large to fit in target type"));
        }
        if a < i64::MIN as i128 {
            return Err(String::from_str("number too small to fit in target type"));
        }
        acc = a;
        i += 1;
    }
    assert(t.subrange(n as int, n as int) =~= Seq::<char>::empty());
    Ok(acc as i64)
}

/// The value rule kind `vk` makes of the matched text `text`.
fn make_value(vk: RuleValue, text: &String) -> (r: Result<TokenValue, String>)
    ensures
        match r {
            Ok(v) => rule_value(vk, text@) == Ok::<TokenValueView, Seq<char>>(v@),
            Err(e) => rule_value(vk, text@) == Err::<TokenValueView, Seq<char>>(e@),
        },
{
    match vk {
        RuleValue::NoValue => Ok(TokenValue::Nothing),
        RuleValue::Bool => Ok(TokenValue::Boolean(*text == String::from_str("true"))),
        RuleValue::Int => match parse_i64(text.as_str()) {
            Ok(n) => Ok(TokenValue::Integer(n)),
            Err(e) => Err(e),
        },
        RuleValue::FloatText => Ok(TokenValue::Float(text.clone())),
        RuleValue::Ident => Ok(TokenValue::String(text.clone())),
        RuleValue::StringLit => {
            let n = text.as_str().unicode_len();
            if n >= 2 {
                Ok(TokenValue::String(String::from_str(text.as_str().substring_char(1, n - 1))))
            } else {
                Ok(TokenValue::String(String::new()))
            }
        },
    }
}

/// A lexer over one script.
pub struct Lexer {
    stream: String,
    pos: usize,
}

impl Lexer {
    /// The script being split.
    pub closed spec fn stream_view(&self) -> Seq<char> {
        self.stream@
    }

    /// The current position, in characters.
    pub closed spec fn pos_view(&self) -> int {
        self.pos as int
    }

    /// A lexer at the start of `stream`.
    pub fn new(stream: String) -> (r: Lexer)
        ensures
            r.stream_view() == stream@,
            r.pos_view() == 0,
    {
        Lexer { stream: stream, pos: 0 }
    }

    /// The next token, skipping whitespace; an end-of-input token once the
    /// script is used up. Where no rule matches, or a matched integer is not
    /// an `i64`, an error.
    pub fn produce(&mut self) -> (r: Result<Token, String>)
        ensures
            final(self).stream_view() == old(self).stream_view(),
            final(self).pos_view() == calc_lex_from(old(self).stream_view(), old(self).pos_view()).1,
            match r {
                Ok(t) => calc_lex_from(old(self).stream_view(), old(self).pos_view()).0 == Ok::<TokenView, Seq<char>>(t@),
                Err(e) => calc_lex_from(old(self).stream_view(), old(self).pos_view()).0 == Err::<TokenView, Seq<char>>(e@),
            },
        decreases old(self).stream_view().len() - old(self).pos_view(),
    {
        let stream_len = self.stream.as_str().unicode_len();
        if self.pos < stream_len {
            let rest = self.stream.as_str().substring_char(self.pos, stream_len);
            let ghost stream = self.stream@;
            let mut longest_token: Option<Token> = None;
            let mut longest_token_len: usize = 0;
            let mut i: usize = 0;
            while i < CALC_RULES
                invariant
                    stream == self.stream@,
                    stream_len == stream.len(),
                    self.pos < stream_len,
                    rest@ == stream.subrange(self.pos as int, stream_len as int),
                    i <= CALC_RULES,
                    calc_value_error(rest@, i as int) is None,
                    calc_best(rest@, i as int) == (
                        if longest_token_len == 0 { -1 } else { calc_best(rest@, i as int).0 },
                        longest_token_len as int,
                    ),
                    longest_token_len <= rest@.len(),
                    longest_token_len > 0 ==> ({
                        let b = calc_best(rest@, i as int).0;
                        let (pre, m) = regex_first_match(calc_rule(b).1, rest@).unwrap();
                        &&& regex_first_match(calc_rule(b).1, rest@) is Some
                        &&& match calc_rule(b).0 {
                            None => longest_token is None,
                            Some(k) => rule_value(calc_rule(b).2, m) is Ok && (longest_token matches Some(t) && t@ == TokenView {
                                kind: k,
                                value: rule_value(calc_rule(b).2, m)->Ok_0,
                                start: self.pos + pre.len(),
                                end: self.pos + pre.len() + m.len(),
                            } && self.pos + pre.len() + m.len() <= stream_len),
                        }
                    }),
                decreases CALC_RULES - i,
            {
                let (kind, pattern, vk) = rule(i);
                match regex_find(pattern, rest) {
                    Some((pre, mat)) => {
                        let mat_len = mat.as_str().unicode_len();
                        if mat_len > longest_token_len {
                            let pre_len = pre.as_str().unicode_len();
                            match kind {
                                Some(k) => {
                                    let value = match make_value(vk, &mat) {
                                        Ok(v) => v,
                                        Err(e) => {
                                            assert(calc_value_error(rest@, i + 1) == Some(e@));
                                            proof {
                                                lemma_value_error_stays(rest@, i + 1, CALC_RULES as int);
                                            }
                                            return Err(e);
                                        },
                                    };
                                    longest_token = Some(Token {
                                        kind: k,
                                        value: value,
                                        start: pre_len + self.pos,
                                        end: pre_len + mat_len + self.pos,
                                    });
                                },
                                None => {
                                    longest_token = None;
                                },
                            }
                            longest_token_len = mat_len;
                        }
                    },
                    None => {},
                }
                i += 1;
            }
            proof {
                lemma_calc_best_range(rest@, CALC_RULES as int);
            }
            if longest_token_len == 0 {
                return Err(String::from_str("Lexing error"));
            }
            self.pos = self.pos + longest_token_len;
            match longest_token {
                Some(token) => {
                    let start = byte_offset(&self.stream, token.start);
                    let end = byte_offset(&self.stream, token.end);
                    Ok(Token { kind: token.kind, value: token.value, start: start, end: end })
                },
                None => {
                    if self.pos >= stream_len {
                        let e = byte_offset(&self.stream, stream_len);
                        return Ok(Token { kind: TokenKind::EOF, value: TokenValue::Nothing, start: e, end: e });
                    }
                    self.produce()
                },
            }
        } else {
            let e = byte_offset(&self.stream, stream_len);
            Ok(Token { kind: TokenKind::EOF, value: TokenValue::Nothing, start: e, end: e })
        }
    }

    /// Goes back to the start of the script.
    pub fn reset(&mut self)
        ensures
            final(self).stream_view() == old(self).stream_view(),
            final(self).pos_view() == 0,
    {
        self.pos = 0;
    }
}

/// Once an error is found among the first `j` rules, it is the error among
/// the first `k` rules for any `k` past `j`.
proof fn lemma_value_error_stays(rest: Seq<char>, j: int, k: int)
    requires
        0 <= j <= k,
        calc_value_error(rest, j) is Some,
    ensures
        calc_value_error(rest, k) == calc_value_error(rest, j),
    decreases k - j,
{
    if k > j {
        lemma_value_error_stays(rest, j, k - 1);
    }
}

/// A script: statements binding names, then an expression.
pub enum Script {
    /// The script's final expression.
    ExprScript(Expr),
    /// `ident = expr; rest`
    StmtScript(Val, Expr, Rc<Script>),
}

/// An arithmetic expression.
pub enum Expr {
    /// A binary operation.
    BopExpr(Rc<Expr>, BopType, Rc<Expr>),
    /// A value.
    ValExpr(Val),
}

/// A value written in a script.
pub enum Val {
    IntVal(i64),
    BoolVal(bool),
    StrVal(String),
    IdentVal(String),
}

/// The arithmetic operators.
#[derive(PartialEq, Eq, Debug, Clone, Copy, Structural)]
pub enum BopType {
    Plus,
    Minus,
    Times,
    Div,
}

/// The token cursor of a parser: the lexer and the current token.
pub struct Parser {
    lexer: Lexer,
    token: Token,
}

impl Parser {
    /// The script being parsed.
    pub closed spec fn stream(&self) -> Seq<char> {
        self.lexer.stream_view()
    }

    /// The lexer's position, just after the current token.
    pub closed spec fn pos(&self) -> int {
        self.lexer.pos_view()
    }

    /// The current token.
    pub closed spec fn current(&self) -> TokenView {
        self.token@
    }

    /// A parser whose current token is the first token of `stream`; the
    /// lexer's error when there is none.
    pub fn new(stream: String) -> (r: Result<Parser, String>)
        ensures
            match r {
                Ok(p) => p.stream() == stream@ && calc_lex_from(stream@, 0).0 == Ok::<TokenView, Seq<char>>(p.current())
                    && p.pos() == calc_lex_from(stream@, 0).1,
                Err(e) => calc_lex_from(stream@, 0).0 == Err::<TokenView, Seq<char>>(e@),
            },
    {
        let mut lexer = Lexer::new(stream);
        let token = match lexer.produce() {
            Ok(t) => t,
            Err(e) => return Err(e),
        };
        Ok(Parser { lexer: lexer, token: token })
    }

    /// The current token.
    pub fn peek(&self) -> (r: &Token)
        ensures
            r@ == self.current(),
    {
        &self.token
    }

    /// Consumes the current token and returns it; the lexer's error when
    /// there is no next token (and then the current token stays).
    pub fn pop(&mut self) -> (r: Result<Token, String>)
        ensures
            final(self).stream() == old(self).stream(),
            final(self).pos() == calc_lex_from(old(self).stream(), old(self).pos()).1,
            match r {
                Ok(t) => t@ == old(self).current() && calc_lex_from(old(self).stream(), old(self).pos()).0
                    == Ok::<TokenView, Seq<char>>(final(self).current()),
                Err(e) => calc_lex_from(old(self).stream(), old(self).pos()).0 == Err::<TokenView, Seq<char>>(e@)
                    && final(self).current() == old(self).current(),
            },
    {
        match self.lexer.produce() {
            Ok(t) => {
                let mut old_token = t;
                std::mem::swap(&mut self.token, &mut old_token);
                Ok(old_token)
            },
            Err(e) => Err(e),
        }
    }

    /// The current token, if it is of kind `kind`; `Parsing error` otherwise.
    pub fn peek_expect(&self, kind: TokenKind) -> (r: Result<&Token, String>)
        ensures
            match r {
                Ok(t) => t@ == self.current() && self.current().kind == kind,
                Err(e) => self.current().kind != kind && e@ == "Parsing error"@,
            },
    {
        let token = self.peek();
        if token.kind != kind {
            return Err(String::from_str("Parsing error"));
        }
        Ok(token)
    }

    /// Consumes the current token, then checks that it was of kind `kind`
    /// (`Parsing error` if not; the token is consumed either way).
    pub fn pop_expect(&mut self, kind: TokenKind) -> (r: Result<Token, String>)
        ensures
            final(self).stream() == old(self).stream(),
            final(self).pos() == calc_lex_from(old(self).stream(), old(self).pos()).1,
            calc_lex_from(old(self).stream(), old(self).pos()).0 is Ok ==> calc_lex_from(old(self).stream(), old(self).pos()).0
                == Ok::<TokenView, Seq<char>>(final(self).current()),
            match r {
                Ok(t) => t@ == old(self).current() && old(self).current().kind == kind,
                Err(e) => match calc_lex_from(old(self).stream(), old(self).pos()).0 {
                    Err(le) => e@ == le,
                    Ok(_) => old(self).current().kind != kind && e@ == "Parsing error"@,
                },
            },
    {
        let token = match self.pop() {
            Ok(t) => t,
            Err(e) => return Err(e),
        };
        if token.kind != kind {
            return Err(String::from_str("Parsing error"));
        }
        Ok(token)
    }
}

} // verus!
