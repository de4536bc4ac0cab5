//! The SQLScript lexer: splits a query into tokens, taking at each position
//! the longest match among its token rules.
use vstd::prelude::*;
use vstd::utf8::encode_utf8;
use crate::types::{ColType, CompressType, SortType};
use crate::regex_match::{regex_find, regex_first_match};

verus! {

/// The kinds of tokens.
#[derive(Clone, Copy, PartialEq, Eq, Debug, Structural)]
pub enum TokenKind {
    EOF,
    PlusKw,
    MinusKw,
    TimesKw,
    DivKw,
    Percent,
    Gt,
    Gte,
    Lt,
    Lte,
    Eq,
    LogOrKw,
    LogAndKw,
    StrEq,
    NotKw,
    Colon,
    Question,
    Dot,
    Ampersand,
    Carrot,
    Underscore,
    Arrow,
    FunKw,
    IfKw,
    ThenKw,
    ElseKw,
    AssignKw,
    SemiKw,
    Comma,
    UndefinedKw,
    NullKw,
    Number,
    Identifier,
    Boolean,
    String,
    LParen,
    RParen,
    LCBracket,
    RCBracket,
    LBracket,
    RBracket,
    SelectKw,
    FromKw,
    WhereKw,
    InsertKw,
    IntoKw,
    ValuesKw,
    AggregateKw,
    ColumnKw,
    ConstKw,
    CreateKw,
    TableKw,
    LimitKw,
    SortKw,
    ByKw,
    SortType,
    InitKw,
    CompKw,
    CompressKw,
    CompressType,
    ScriptKw,
    ExitKw,
    ImportKw,
    ExportKw,
    CSVKw,
    NumberKw,
    StrKw,
    BoolKw,
}

/// The value a token carries.
#[derive(Clone, PartialEq, Eq, Debug)]
pub enum TokenValue {
    /// No value.
    Nothing,
    /// A number literal, its digits as written.
    Number(String),
    /// An identifier, or a string literal without its quotes.
    String(String),
    Boolean(bool),
    Type(ColType),
    SortType(SortType),
    CompressionType(CompressType),
}

/// A token value with its text as characters.
pub enum TokenValueView {
    Nothing,
    Number(Seq<char>),
    String(Seq<char>),
    Boolean(bool),
    Type(ColType),
    SortType(SortType),
    CompressionType(CompressType),
}

impl View for TokenValue {
    type V = TokenValueView;

    open spec fn view(&self) -> TokenValueView {
        match self {
            TokenValue::Nothing => TokenValueView::Nothing,
            TokenValue::Number(s) => TokenValueView::Number(s@),
            TokenValue::String(s) => TokenValueView::String(s@),
            TokenValue::Boolean(b) => TokenValueView::Boolean(*b),
            TokenValue::Type(t) => TokenValueView::Type(*t),
            TokenValue::SortType(t) => TokenValueView::SortType(*t),
            TokenValue::CompressionType(t) => TokenValueView::CompressionType(*t),
        }
    }
}

/// A token: its kind, its value, and where it starts and ends in the query
/// (byte offsets).
#[derive(Clone, Debug)]
pub struct Token {
    pub kind: TokenKind,
    pub value: TokenValue,
    pub start: usize,
    pub end: usize,
}

/// A token as plain values.
pub struct TokenView {
    pub kind: TokenKind,
    pub value: TokenValueView,
    pub start: int,
    pub end: int,
}

impl View for Token {
    type V = TokenView;

    open spec fn view(&self) -> TokenView {
        TokenView {
            kind: self.kind,
            value: self.value@,
            start: self.start as int,
            end: self.end as int,
        }
    }
}

/// How a token rule turns the matched text into a value.
#[derive(Clone, Copy, PartialEq, Eq, Structural)]
pub enum ValueKind {
    NoValue,
    NumberText,
    Ident,
    Bool,
    StringLit,
    NumType,
    StrType,
    BoolType,
    Sort,
    CompressNone,
    CompressXor,
    CompressBitmap,
    CompressRunlen,
}

/// The value a rule gives to its matched text.
pub open spec fn value_view(vk: ValueKind, text: Seq<char>) -> TokenValueView {
    match vk {
        ValueKind::NoValue => TokenValueView::Nothing,
        ValueKind::NumberText => TokenValueView::Number(text),
        ValueKind::Ident => TokenValueView::String(text),
        ValueKind::Bool => TokenValueView::Boolean(text == "true"@),
        ValueKind::StringLit => TokenValueView::String(
            if text.len() >= 2 {
                text.subrange(1, text.len() - 1)
            } else {
                Seq::empty()
            },
        ),
        ValueKind::NumType => TokenValueView::Type(ColType::Number),
        ValueKind::StrType => TokenValueView::Type(ColType::String),
        ValueKind::BoolType => TokenValueView::Type(ColType::Boolean),
        ValueKind::Sort => TokenValueView::SortType(
            if text == "ASC"@ {
                SortType::Ascending
            } else {
                SortType::Descending
            },
        ),
        ValueKind::CompressNone => TokenValueView::CompressionType(CompressType::Uncompressed),
        ValueKind::CompressXor => TokenValueView::CompressionType(CompressType::Xor),
        ValueKind::CompressBitmap => TokenValueView::CompressionType(CompressType::BitMap),
        ValueKind::CompressRunlen => TokenValueView::CompressionType(CompressType::RunLength),
    }
}

/// The value a rule gives to its matched text.
fn make_value(vk: ValueKind, text: &String) -> (r: TokenValue)
    ensures
        r@ == value_view(vk, text@),
{
    match vk {
        ValueKind::NoValue => TokenValue::Nothing,
        ValueKind::NumberText => TokenValue::Number(text.clone()),
        ValueKind::Ident => TokenValue::String(text.clone()),
        ValueKind::Bool => TokenValue::Boolean(*text == String::from_str("true")),
        ValueKind::StringLit => {
            let n = text.as_str().unicode_len();
            if n >= 2 {
                TokenValue::String(String::from_str(text.as_str().substring_char(1, n - 1)))
            } else {
                TokenValue::String(String::new())
            }
        },
        ValueKind::NumType => TokenValue::Type(ColType::Number),
        ValueKind::StrType => TokenValue::Type(ColType::String),
        ValueKind::BoolType => TokenValue::Type(ColType::Boolean),
        ValueKind::Sort => TokenValue::SortType(
            if *text == String::from_str("ASC") {
                SortType::Ascending
            } else {
                SortType::Descending
            },
        ),
        ValueKind::CompressNone => TokenValue::CompressionType(CompressType::Uncompressed),
        ValueKind::CompressXor => TokenValue::CompressionType(CompressType::Xor),
        ValueKind::CompressBitmap => TokenValue::CompressionType(CompressType::BitMap),
        ValueKind::CompressRunlen => TokenValue::CompressionType(CompressType::RunLength),
    }
}

/// The number of token rules.
pub const NUM_RULES: usize = 74;

pub open spec fn rule_spec(i: int) -> (Option<TokenKind>, Seq<char>, ValueKind) {
    if i == 0 {
        (Some(TokenKind::Boolean), r"^true"@, ValueKind::Bool)
    } else if i == 1 {
        (Some(TokenKind::Boolean), r"^false"@, ValueKind::Bool)
    } else if i == 2 {
        (Some(TokenKind::IfKw), r"^if"@, ValueKind::NoValue)
    } else if i == 3 {
        (Some(TokenKind::ThenKw), r"^then"@, ValueKind::NoValue)
    } else if i == 4 {
        (Some(TokenKind::ElseKw), r"^else"@, ValueKind::NoValue)
    } else if i == 5 {
        (Some(TokenKind::SelectKw), r"^SELECT"@, ValueKind::NoValue)
    } else if i == 6 {
        (Some(TokenKind::FromKw), r"^FROM"@, ValueKind::NoValue)
    } else if i == 7 {
        (Some(TokenKind::WhereKw), r"^WHERE"@, ValueKind::NoValue)
    } else if i == 8 {
        (Some(TokenKind::InsertKw), r"^INSERT"@, ValueKind::NoValue)
    } else if i == 9 {
        (Some(TokenKind::IntoKw), r"^INTO"@, ValueKind::NoValue)
    } else if i == 10 {
        (Some(TokenKind::ValuesKw), r"^VALUES"@, ValueKind::NoValue)
    } else if i == 11 {
        (Some(TokenKind::AggregateKw), r"^AGGREGATE"@, ValueKind::NoValue)
    } else if i == 12 {
        (Some(TokenKind::ColumnKw), r"^COLUMN"@, ValueKind::NoValue)
    } else if i == 13 {
        (Some(TokenKind::ConstKw), r"^CONST"@, ValueKind::NoValue)
    } else if i == 14 {
        (Some(TokenKind::CreateKw), r"^CREATE"@, ValueKind::NoValue)
    } else if i == 15 {
        (Some(TokenKind::TableKw), r"^TABLE"@, ValueKind::NoValue)
    } else if i == 16 {
        (Some(TokenKind::LimitKw), r"^LIMIT"@, ValueKind::NoValue)
    } else if i == 17 {
        (Some(TokenKind::SortKw), r"^ORDER"@, ValueKind::NoValue)
    } else if i == 18 {
        (Some(TokenKind::SortType), r"^ASC"@, ValueKind::Sort)
    } else if i == 19 {
        (Some(TokenKind::SortType), r"^DESC"@, ValueKind::Sort)
    } else if i == 20 {
        (Some(TokenKind::ByKw), r"^BY"@, ValueKind::NoValue)
    } else if i == 21 {
        (Some(TokenKind::InitKw), r"^INIT"@, ValueKind::NoValue)
    } else if i == 22 {
        (Some(TokenKind::CompKw), r"^COMP"@, ValueKind::NoValue)
    } else if i == 23 {
        (Some(TokenKind::CompressKw), r"^COMPRESS"@, ValueKind::NoValue)
    } else if i == 24 {
        (Some(TokenKind::ScriptKw), r"^SCRIPT"@, ValueKind::NoValue)
    } else if i == 25 {
        (Some(TokenKind::ExitKw), r"^EXIT"@, ValueKind::NoValue)
    } else if i == 26 {
        (Some(TokenKind::ImportKw), r"^IMPORT"@, ValueKind::NoValue)
    } else if i == 27 {
        (Some(TokenKind::ExportKw), r"^EXPORT"@, ValueKind::NoValue)
    } else if i == 28 {
        (Some(TokenKind::CSVKw), r"^CSV"@, ValueKind::NoValue)
    } else if i == 29 {
        (Some(TokenKind::CompressType), r"^none"@, ValueKind::CompressNone)
    } else if i == 30 {
        (Some(TokenKind::CompressType), r"^bitmap"@, ValueKind::CompressBitmap)
    } else if i == 31 {
        (Some(TokenKind::CompressType), r"^xor"@, ValueKind::CompressXor)
    } else if i == 32 {
        (Some(TokenKind::CompressType), r"^runlen"@, ValueKind::CompressRunlen)
    } else if i == 33 {
        (Some(TokenKind::NumberKw), r"^num"@, ValueKind::NumType)
    } else if i == 34 {
        (Some(TokenKind::StrKw), r"^str"@, ValueKind::StrType)
    } else if i == 35 {
        (Some(TokenKind::BoolKw), r"^bool"@, ValueKind::BoolType)
    } else if i == 36 {
        (Some(TokenKind::UndefinedKw), r"^undefined"@, ValueKind::NoValue)
    } else if i == 37 {
        (Some(TokenKind::NullKw), r"^null"@, ValueKind::NoValue)
    } else if i == 38 {
        (Some(TokenKind::Gte), r"^>="@, ValueKind::NoValue)
    } else if i == 39 {
        (Some(TokenKind::Gt), r"^>"@, ValueKind::NoValue)
    } else if i == 40 {
        (Some(TokenKind::Lte), r"^<="@, ValueKind::NoValue)
    } else if i == 41 {
        (Some(TokenKind::Lt), r"^<"@, ValueKind::NoValue)
    } else if i == 42 {
        (Some(TokenKind::Eq), r"^=="@, ValueKind::NoValue)
    } else if i == 43 {
        (Some(TokenKind::StrEq), r"^==="@, ValueKind::NoValue)
    } else if i == 44 {
        (Some(TokenKind::LogOrKw), r"^\|\|"@, ValueKind::NoValue)
    } else if i == 45 {
        (Some(TokenKind::LogAndKw), r"^&&"@, ValueKind::NoValue)
    } else if i == 46 {
        (Some(TokenKind::NotKw), r"^!"@, ValueKind::NoValue)
    } else if i == 47 {
        (Some(TokenKind::Arrow), r"^->"@, ValueKind::NoValue)
    } else if i == 48 {
        (Some(TokenKind::FunKw), r"^fun"@, ValueKind::NoValue)
    } else if i == 49 {
        (Some(TokenKind::AssignKw), r"^="@, ValueKind::NoValue)
    } else if i == 50 {
        (Some(TokenKind::SemiKw), r"^;"@, ValueKind::NoValue)
    } else if i == 51 {
        (Some(TokenKind::Comma), r"^,"@, ValueKind::NoValue)
    } else if i == 52 {
        (Some(TokenKind::LParen), r"^\("@, ValueKind::NoValue)
    } else if i == 53 {
        (Some(TokenKind::RParen), r"^\)"@, ValueKind::NoValue)
    } else if i == 54 {
        (Some(TokenKind::LCBracket), r"^\{"@, ValueKind::NoValue)
    } else if i == 55 {
        (Some(TokenKind::RCBracket), r"^\}"@, ValueKind::NoValue)
    } else if i == 56 {
        (Some(TokenKind::LBracket), r"^\["@, ValueKind::NoValue)
    } else if i == 57 {
        (Some(TokenKind::RBracket), r"^\]"@, ValueKind::NoValue)
    } else if i == 58 {
        (Some(TokenKind::PlusKw), r"^\+"@, ValueKind::NoValue)
    } else if i == 59 {
        (Some(TokenKind::MinusKw), r"^-"@, ValueKind::NoValue)
    } else if i == 60 {
        (Some(TokenKind::TimesKw), r"^\*"@, ValueKind::NoValue)
    } else if i == 61 {
        (Some(TokenKind::DivKw), r"^/"@, ValueKind::NoValue)
    } else if i == 62 {
        (Some(TokenKind::Percent), r"^%"@, ValueKind::NoValue)
    } else if i == 63 {
        (Some(TokenKind::Question), r"^\?"@, ValueKind::NoValue)
    } else if i == 64 {
        (Some(TokenKind::Colon), r"^:"@, ValueKind::NoValue)
    } else if i == 65 {
        (Some(TokenKind::Dot), r"^\."@, ValueKind::NoValue)
    } else if i == 66 {
        (Some(TokenKind::Ampersand), r"^&"@, ValueKind::NoValue)
    } else if i == 67 {
        (Some(TokenKind::Carrot), r"^\^"@, ValueKind::NoValue)
    } else if i == 68 {
        (Some(TokenKind::Underscore), r"^_"@, ValueKind::NoValue)
    } else if i == 69 {
        (Some(TokenKind::Number), r"^[0-9]+\.[0-9]+"@, ValueKind::NumberText)
    } else if i == 70 {
        (Some(TokenKind::Number), r"^[0-9]+"@, ValueKind::NumberText)
    } else if i == 71 {
        (Some(TokenKind::Identifier), r"^[a-zA-Z]([a-zA-Z0-9]|_)*"@, ValueKind::Ident)
    } else if i == 72 {
        (Some(TokenKind::String), r"^'[^']*'"@, ValueKind::StringLit)
    } else {
        (None, r"^[ \t]+"@, ValueKind::NoValue)
    }
}

/// The pattern of each token kind that is written one fixed way (keywords,
/// operators and punctuation): the text of the token, anchored at the start
/// (with a backslash before characters that regular expressions treat
/// specially). `None` for the kinds whose text varies.
pub open spec fn fixed_pattern(k: TokenKind) -> Option<Seq<char>> {
    match k {
        TokenKind::IfKw => Some(r"^if"@),
        TokenKind::ThenKw => Some(r"^then"@),
        TokenKind::ElseKw => Some(r"^else"@),
        TokenKind::SelectKw => Some(r"^SELECT"@),
        TokenKind::FromKw => Some(r"^FROM"@),
        TokenKind::WhereKw => Some(r"^WHERE"@),
        TokenKind::InsertKw => Some(r"^INSERT"@),
        TokenKind::IntoKw => Some(r"^INTO"@),
        TokenKind::ValuesKw => Some(r"^VALUES"@),
        TokenKind::AggregateKw => Some(r"^AGGREGATE"@),
        TokenKind::ColumnKw => Some(r"^COLUMN"@),
        TokenKind::ConstKw => Some(r"^CONST"@),
        TokenKind::CreateKw => Some(r"^CREATE"@),
        TokenKind::TableKw => Some(r"^TABLE"@),
        TokenKind::LimitKw => Some(r"^LIMIT"@),
        TokenKind::SortKw => Some(r"^ORDER"@),
        TokenKind::ByKw => Some(r"^BY"@),
        TokenKind::InitKw => Some(r"^INIT"@),
        TokenKind::CompKw => Some(r"^COMP"@),
        TokenKind::CompressKw => Some(r"^COMPRESS"@),
        TokenKind::ScriptKw => Some(r"^SCRIPT"@),
        TokenKind::ExitKw => Some(r"^EXIT"@),
        TokenKind::ImportKw => Some(r"^IMPORT"@),
        TokenKind::ExportKw => Some(r"^EXPORT"@),
        TokenKind::CSVKw => Some(r"^CSV"@),
        TokenKind::NumberKw => Some(r"^num"@),
        TokenKind::StrKw => Some(r"^str"@),
        TokenKind::BoolKw => Some(r"^bool"@),
        TokenKind::UndefinedKw => Some(r"^undefined"@),
        TokenKind::NullKw => Some(r"^null"@),
        TokenKind::Gte => Some(r"^>="@),
        TokenKind::Gt => Some(r"^>"@),
        TokenKind::Lte => Some(r"^<="@),
        TokenKind::Lt => Some(r"^<"@),
        TokenKind::Eq => Some(r"^=="@),
        TokenKind::StrEq => Some(r"^==="@),
        TokenKind::LogOrKw => Some(r"^\|\|"@),
        TokenKind::LogAndKw => Some(r"^&&"@),
        TokenKind::NotKw => Some(r"^!"@),
        TokenKind::Arrow => Some(r"^->"@),
        TokenKind::FunKw => Some(r"^fun"@),
        TokenKind::AssignKw => Some(r"^="@),
        TokenKind::SemiKw => Some(r"^;"@),
        TokenKind::Comma => Some(r"^,"@),
        TokenKind::LParen => Some(r"^\("@),
        TokenKind::RParen => Some(r"^\)"@),
        TokenKind::LCBracket => Some(r"^\{"@),
        TokenKind::RCBracket => Some(r"^\}"@),
        TokenKind::LBracket => Some(r"^\["@),
        TokenKind::RBracket => Some(r"^\]"@),
        TokenKind::PlusKw => Some(r"^\+"@),
        TokenKind::MinusKw => Some(r"^-"@),
        TokenKind::TimesKw => Some(r"^\*"@),
        TokenKind::DivKw => Some(r"^/"@),
        TokenKind::Percent => Some(r"^%"@),
        TokenKind::Question => Some(r"^\?"@),
        TokenKind::Colon => Some(r"^:"@),
        TokenKind::Dot => Some(r"^\."@),
        TokenKind::Ampersand => Some(r"^&"@),
        TokenKind::Carrot => Some(r"^\^"@),
        TokenKind::Underscore => Some(r"^_"@),
        _ => None,
    }
}

/// Each keyword, operator and punctuation mark is lexed as its own kind: a
/// rule that gives such a kind matches exactly that kind's text, and every
/// such kind has a rule. So the text `<=` gives `Lte` and `<` gives `Lt`,
/// `*` gives `TimesKw` and `/` gives `DivKw`: no two of these texts give the
/// same kind.
pub proof fn law_fixed_tokens()
    ensures
        forall|i: int| #![trigger rule_spec(i)] 0 <= i < NUM_RULES && rule_spec(i).0 is Some && fixed_pattern(rule_spec(i).0->0) is Some
            ==> rule_spec(i).1 == fixed_pattern(rule_spec(i).0->0)->0,
        forall|k: TokenKind| #[trigger] fixed_pattern(k) is Some ==> exists|i: int| 0 <= i < NUM_RULES && #[trigger] rule_spec(i).0 == Some(k),
        forall|i: int, j: int| #![trigger rule_spec(i), rule_spec(j)] 0 <= i < NUM_RULES && 0 <= j < NUM_RULES && rule_spec(i).0 is Some
            && fixed_pattern(rule_spec(i).0->0) is Some && rule_spec(i).0 == rule_spec(j).0 ==> i == j,
{
    assert forall|k: TokenKind| #[trigger] fixed_pattern(k) is Some implies exists|i: int| 0 <= i < NUM_RULES && #[trigger] rule_spec(i).0 == Some(k) by {
        match k {
            TokenKind::IfKw => assert(rule_spec(2).0 == Some(k)),
            TokenKind::ThenKw => assert(rule_spec(3).0 == Some(k)),
            TokenKind::ElseKw => assert(rule_spec(4).0 == Some(k)),
            TokenKind::SelectKw => assert(rule_spec(5).0 == Some(k)),
            TokenKind::FromKw => assert(rule_spec(6).0 == Some(k)),
            TokenKind::WhereKw => assert(rule_spec(7).0 == Some(k)),
            TokenKind::InsertKw => assert(rule_spec(8).0 == Some(k)),
            TokenKind::IntoKw => assert(rule_spec(9).0 == Some(k)),
            TokenKind::ValuesKw => assert(rule_spec(10).0 == Some(k)),
            TokenKind::AggregateKw => assert(rule_spec(11).0 == Some(k)),
            TokenKind::ColumnKw => assert(rule_spec(12).0 == Some(k)),
            TokenKind::ConstKw => assert(rule_spec(13).0 == Some(k)),
            TokenKind::CreateKw => assert(rule_spec(14).0 == Some(k)),
            TokenKind::TableKw => assert(rule_spec(15).0 == Some(k)),
            TokenKind::LimitKw => assert(rule_spec(16).0 == Some(k)),
            TokenKind::SortKw => assert(rule_spec(17).0 == Some(k)),
            TokenKind::ByKw => assert(rule_spec(20).0 == Some(k)),
            TokenKind::InitKw => assert(rule_spec(21).0 == Some(k)),
            TokenKind::CompKw => assert(rule_spec(22).0 == Some(k)),
            TokenKind::CompressKw => assert(rule_spec(23).0 == Some(k)),
            TokenKind::ScriptKw => assert(rule_spec(24).0 == Some(k)),
            TokenKind::ExitKw => assert(rule_spec(25).0 == Some(k)),
            TokenKind::ImportKw => assert(rule_spec(26).0 == Some(k)),
            TokenKind::ExportKw => assert(rule_spec(27).0 == Some(k)),
            TokenKind::CSVKw => assert(rule_spec(28).0 == Some(k)),
            TokenKind::NumberKw => assert(rule_spec(33).0 == Some(k)),
            TokenKind::StrKw => assert(rule_spec(34).0 == Some(k)),
            TokenKind::BoolKw => assert(rule_spec(35).0 == Some(k)),
            TokenKind::UndefinedKw => assert(rule_spec(36).0 == Some(k)),
            TokenKind::NullKw => assert(rule_spec(37).0 == Some(k)),
            TokenKind::Gte => assert(rule_spec(38).0 == Some(k)),
            TokenKind::Gt => assert(rule_spec(39).0 == Some(k)),
            TokenKind::Lte => assert(rule_spec(40).0 == Some(k)),
            TokenKind::Lt => assert(rule_spec(41).0 == Some(k)),
            TokenKind::Eq => assert(rule_spec(42).0 == Some(k)),
            TokenKind::StrEq => assert(rule_spec(43).0 == Some(k)),
            TokenKind::LogOrKw => assert(rule_spec(44).0 == Some(k)),
            TokenKind::LogAndKw => assert(rule_spec(45).0 == Some(k)),
            TokenKind::NotKw => assert(rule_spec(46).0 == Some(k)),
            TokenKind::Arrow => assert(rule_spec(47).0 == Some(k)),
            TokenKind::FunKw => assert(rule_spec(48).0 == Some(k)),
            TokenKind::AssignKw => assert(rule_spec(49).0 == Some(k)),
            TokenKind::SemiKw => assert(rule_spec(50).0 == Some(k)),
            TokenKind::Comma => assert(rule_spec(51).0 == Some(k)),
            TokenKind::LParen => assert(rule_spec(52).0 == Some(k)),
            TokenKind::RParen => assert(rule_spec(53).0 == Some(k)),
            TokenKind::LCBracket => assert(rule_spec(54).0 == Some(k)),
            TokenKind::RCBracket => assert(rule_spec(55).0 == Some(k)),
            TokenKind::LBracket => assert(rule_spec(56).0 == Some(k)),
            TokenKind::RBracket => assert(rule_spec(57).0 == Some(k)),
            TokenKind::PlusKw => assert(rule_spec(58).0 == Some(k)),
            TokenKind::MinusKw => assert(rule_spec(59).0 == Some(k)),
            TokenKind::TimesKw => assert(rule_spec(60).0 == Some(k)),
            TokenKind::DivKw => assert(rule_spec(61).0 == Some(k)),
            TokenKind::Percent => assert(rule_spec(62).0 == Some(k)),
            TokenKind::Question => assert(rule_spec(63).0 == Some(k)),
            TokenKind::Colon => assert(rule_spec(64).0 == Some(k)),
            TokenKind::Dot => assert(rule_spec(65).0 == Some(k)),
            TokenKind::Ampersand => assert(rule_spec(66).0 == Some(k)),
            TokenKind::Carrot => assert(rule_spec(67).0 == Some(k)),
            TokenKind::Underscore => assert(rule_spec(68).0 == Some(k)),
            _ => {},
        }
    }
}


fn rule(i: usize) -> (r: (Option<TokenKind>, &'static str, ValueKind))
    requires
        i < NUM_RULES,
    ensures
        r.0 == rule_spec(i as int).0,
        r.1@ == rule_spec(i as int).1,
        r.2 == rule_spec(i as int).2,
{
    match i {
        0 => (Some(TokenKind::Boolean), r"^true", ValueKind::Bool),
        1 => (Some(TokenKind::Boolean), r"^false", ValueKind::Bool),
        2 => (Some(TokenKind::IfKw), r"^if", ValueKind::NoValue),
        3 => (Some(TokenKind::ThenKw), r"^then", ValueKind::NoValue),
        4 => (Some(TokenKind::ElseKw), r"^else", ValueKind::NoValue),
        5 => (Some(TokenKind::SelectKw), r"^SELECT", ValueKind::NoValue),
        6 => (Some(TokenKind::FromKw), r"^FROM", ValueKind::NoValue),
        7 => (Some(TokenKind::WhereKw), r"^WHERE", ValueKind::NoValue),
        8 => (Some(TokenKind::InsertKw), r"^INSERT", ValueKind::NoValue),
        9 => (Some(TokenKind::IntoKw), r"^INTO", ValueKind::NoValue),
        10 => (Some(TokenKind::ValuesKw), r"^VALUES", ValueKind::NoValue),
        11 => (Some(TokenKind::AggregateKw), r"^AGGREGATE", ValueKind::NoValue),
        12 => (Some(TokenKind::ColumnKw), r"^COLUMN", ValueKind::NoValue),
        13 => (Some(TokenKind::ConstKw), r"^CONST", ValueKind::NoValue),
        14 => (Some(TokenKind::CreateKw), r"^CREATE", ValueKind::NoValue),
        15 => (Some(TokenKind::TableKw), r"^TABLE", ValueKind::NoValue),
        16 => (Some(TokenKind::LimitKw), r"^LIMIT", ValueKind::NoValue),
        17 => (Some(TokenKind::SortKw), r"^ORDER", ValueKind::NoValue),
        18 => (Some(TokenKind::SortType), r"^ASC", ValueKind::Sort),
        19 => (Some(TokenKind::SortType), r"^DESC", ValueKind::Sort),
        20 => (Some(TokenKind::ByKw), r"^BY", ValueKind::NoValue),
        21 => (Some(TokenKind::InitKw), r"^INIT", ValueKind::NoValue),
        22 => (Some(TokenKind::CompKw), r"^COMP", ValueKind::NoValue),
        23 => (Some(TokenKind::CompressKw), r"^COMPRESS", ValueKind::NoValue),
        24 => (Some(TokenKind::ScriptKw), r"^SCRIPT", ValueKind::NoValue),
        25 => (Some(TokenKind::ExitKw), r"^EXIT", ValueKind::NoValue),
        26 => (Some(TokenKind::ImportKw), r"^IMPORT", ValueKind::NoValue),
        27 => (Some(TokenKind::ExportKw), r"^EXPORT", ValueKind::NoValue),
        28 => (Some(TokenKind::CSVKw), r"^CSV", ValueKind::NoValue),
        29 => (Some(TokenKind::CompressType), r"^none", ValueKind::CompressNone),
        30 => (Some(TokenKind::CompressType), r"^bitmap", ValueKind::CompressBitmap),
        31 => (Some(TokenKind::CompressType), r"^xor", ValueKind::CompressXor),
        32 => (Some(TokenKind::CompressType), r"^runlen", ValueKind::CompressRunlen),
        33 => (Some(TokenKind::NumberKw), r"^num", ValueKind::NumType),
        34 => (Some(TokenKind::StrKw), r"^str", ValueKind::StrType),
        35 => (Some(TokenKind::BoolKw), r"^bool", ValueKind::BoolType),
        36 => (Some(TokenKind::UndefinedKw), r"^undefined", ValueKind::NoValue),
        37 => (Some(TokenKind::NullKw), r"^null", ValueKind::NoValue),
        38 => (Some(TokenKind::Gte), r"^>=", ValueKind::NoValue),
        39 => (Some(TokenKind::Gt), r"^>", ValueKind::NoValue),
        40 => (Some(TokenKind::Lte), r"^<=", ValueKind::NoValue),
        41 => (Some(TokenKind::Lt), r"^<", ValueKind::NoValue),
        42 => (Some(TokenKind::Eq), r"^==", ValueKind::NoValue),
        43 => (Some(TokenKind::StrEq), r"^===", ValueKind::NoValue),
        44 => (Some(TokenKind::LogOrKw), r"^\|\|", ValueKind::NoValue),
        45 => (Some(TokenKind::LogAndKw), r"^&&", ValueKind::NoValue),
        46 => (Some(TokenKind::NotKw), r"^!", ValueKind::NoValue),
        47 => (Some(TokenKind::Arrow), r"^->", ValueKind::NoValue),
        48 => (Some(TokenKind::FunKw), r"^fun", ValueKind::NoValue),
        49 => (Some(TokenKind::AssignKw), r"^=", ValueKind::NoValue),
        50 => (Some(TokenKind::SemiKw), r"^;", ValueKind::NoValue),
        51 => (Some(TokenKind::Comma), r"^,", ValueKind::NoValue),
        52 => (Some(TokenKind::LParen), r"^\(", ValueKind::NoValue),
        53 => (Some(TokenKind::RParen), r"^\)", ValueKind::NoValue),
        54 => (Some(TokenKind::LCBracket), r"^\{", ValueKind::NoValue),
        55 => (Some(TokenKind::RCBracket), r"^\}", ValueKind::NoValue),
        56 => (Some(TokenKind::LBracket), r"^\[", ValueKind::NoValue),
        57 => (Some(TokenKind::RBracket), r"^\]", ValueKind::NoValue),
        58 => (Some(TokenKind::PlusKw), r"^\+", ValueKind::NoValue),
        59 => (Some(TokenKind::MinusKw), r"^-", ValueKind::NoValue),
        60 => (Some(TokenKind::TimesKw), r"^\*", ValueKind::NoValue),
        61 => (Some(TokenKind::DivKw), r"^/", ValueKind::NoValue),
        62 => (Some(TokenKind::Percent), r"^%", ValueKind::NoValue),
        63 => (Some(TokenKind::Question), r"^\?", ValueKind::NoValue),
        64 => (Some(TokenKind::Colon), r"^:", ValueKind::NoValue),
        65 => (Some(TokenKind::Dot), r"^\.", ValueKind::NoValue),
        66 => (Some(TokenKind::Ampersand), r"^&", ValueKind::NoValue),
        67 => (Some(TokenKind::Carrot), r"^\^", ValueKind::NoValue),
        68 => (Some(TokenKind::Underscore), r"^_", ValueKind::NoValue),
        69 => (Some(TokenKind::Number), r"^[0-9]+\.[0-9]+", ValueKind::NumberText),
        70 => (Some(TokenKind::Number), r"^[0-9]+", ValueKind::NumberText),
        71 => (Some(TokenKind::Identifier), r"^[a-zA-Z]([a-zA-Z0-9]|_)*", ValueKind::Ident),
        72 => (Some(TokenKind::String), r"^'[^']*'", ValueKind::StringLit),
        _ => (None, r"^[ \t]+", ValueKind::NoValue),
    }
}


/// The length of what rule `i` matches in `rest` (0 when it matches nothing).
pub open spec fn match_len(i: int, rest: Seq<char>) -> int {
    match regex_first_match(rule_spec(i).1, rest) {
        Some((_pre, m)) => m.len() as int,
        None => 0,
    }
}

/// Among the first `k` rules, the first one with the longest match in `rest`,
/// and that length; `(-1, 0)` when none matches anything.
pub open spec fn best_rule(rest: Seq<char>, k: int) -> (int, int)
    decreases k,
{
    if k <= 0 {
        (-1, 0)
    } else {
        let (b, l) = best_rule(rest, k - 1);
        if match_len(k - 1, rest) > l {
            (k - 1, match_len(k - 1, rest))
        } else {
            (b, l)
        }
    }
}

/// The byte offset of character `p` of `stream`: the length of the UTF-8
/// encoding of the characters before it (as `str::len` gives it).
pub closed spec fn byte_pos(stream: Seq<char>, p: int) -> int {
    (encode_utf8(stream.subrange(0, p)).len() as usize) as int
}

/// The encoding of two texts one after the other is their encodings one
/// after the other.
proof fn lemma_encode_concat(x: Seq<char>, y: Seq<char>)
    ensures
        encode_utf8(x + y) == encode_utf8(x) + encode_utf8(y),
    decreases x.len(),
{
    if x.len() == 0 {
        assert(x + y =~= y);
        assert(encode_utf8(x) + encode_utf8(y) =~= encode_utf8(y));
    } else {
        assert((x + y)[0] == x[0]);
        assert((x + y).drop_first() =~= x.drop_first() + y);
        lemma_encode_concat(x.drop_first(), y);
        assert(encode_utf8(x + y) =~= encode_utf8(x) + encode_utf8(y));
    }
}

/// Each character takes at least one byte.
proof fn lemma_encode_len(x: Seq<char>)
    ensures
        encode_utf8(x).len() >= x.len(),
    decreases x.len(),
{
    if x.len() > 0 {
        lemma_encode_len(x.drop_first());
    }
}

/// Byte offsets grow with character positions: a later character starts at
/// a later byte, and no character starts past the end of the text (given
/// that the text's length in bytes fits in `usize`).
pub proof fn lemma_byte_pos_increasing(stream: Seq<char>, a: int, b: int)
    requires
        encode_utf8(stream).len() <= usize::MAX,
        0 <= a <= b <= stream.len(),
    ensures
        byte_pos(stream, a) <= byte_pos(stream, b) <= byte_pos(stream, stream.len() as int),
        a < b ==> byte_pos(stream, a) < byte_pos(stream, b),
        byte_pos(stream, b) == encode_utf8(stream.subrange(0, b)).len(),
{
    let n = stream.len() as int;
    let xa = stream.subrange(0, a);
    let xb = stream.subrange(0, b);
    lemma_encode_concat(xa, stream.subrange(a, b));
    assert(xa + stream.subrange(a, b) =~= xb);
    lemma_encode_len(stream.subrange(a, b));
    lemma_encode_concat(xb, stream.subrange(b, n));
    assert(xb + stream.subrange(b, n) =~= stream.subrange(0, n));
    assert(stream.subrange(0, n) =~= stream);
}

/// `q` is the byte offset of a character of `stream`, or of its end.
pub open spec fn at_char_start(stream: Seq<char>, q: int) -> bool {
    exists|k: int| 0 <= k <= stream.len() && byte_pos(stream, k) == q
}

/// The end-of-input token of a query.
pub open spec fn eof_token(stream: Seq<char>) -> TokenView {
    TokenView {
        kind: TokenKind::EOF,
        value: TokenValueView::Nothing,
        start: byte_pos(stream, stream.len() as int),
        end: byte_pos(stream, stream.len() as int),
    }
}

/// The next token from position `pos` of `stream`, and the position after it:
/// the longest match among the rules (the first rule among equally long
/// ones), skipping matches of whitespace; `None` where no rule matches.
pub open spec fn lex_from(stream: Seq<char>, pos: int) -> (Option<TokenView>, int)
    decreases stream.len() - pos,
{
    if pos >= stream.len() || pos < 0 {
        (Some(eof_token(stream)), pos)
    } else {
        let rest = stream.subrange(pos, stream.len() as int);
        let (b, l) = best_rule(rest, NUM_RULES as int);
        if l <= 0 || pos + l > stream.len() {
            (None, pos)
        } else {
            let (pre, m) = regex_first_match(rule_spec(b).1, rest).unwrap();
            match rule_spec(b).0 {
                None => if pos + l >= stream.len() {
                    (Some(eof_token(stream)), pos + l)
                } else {
                    lex_from(stream, pos + l)
                },
                Some(k) => (
                    Some(
                        TokenView {
                            kind: k,
                            value: value_view(rule_spec(b).2, m),
                            start: byte_pos(stream, pos + pre.len()),
                            end: byte_pos(stream, pos + pre.len() + m.len()),
                        },
                    ),
                    pos + l,
                ),
            }
        }
    }
}

proof fn lemma_best_rule_range(rest: Seq<char>, k: int)
    requires
        0 <= k <= NUM_RULES,
    ensures
        best_rule(rest, k).1 >= 0,
        best_rule(rest, k).1 > 0 ==> 0 <= best_rule(rest, k).0 < k && match_len(best_rule(rest, k).0, rest) == best_rule(rest, k).1,
    decreases k,
{
    if k > 0 {
        lemma_best_rule_range(rest, k - 1);
    }
}

/// The lexer never moves backwards nor past the end of the query, moves
/// forward with every token it reads before the end, and gives the
/// end-of-input token at the end.
pub proof fn lemma_lex_from_bounds(s: Seq<char>, pos: int)
    requires
        0 <= pos <= s.len(),
    ensures
        pos <= lex_from(s, pos).1 <= s.len(),
        pos < s.len() && lex_from(s, pos).0 is Some ==> pos < lex_from(s, pos).1,
        pos == s.len() ==> lex_from(s, pos) == (Some(eof_token(s)), pos),
    decreases s.len() - pos,
{
    if pos < s.len() {
        let rest = s.subrange(pos, s.len() as int);
        lemma_best_rule_range(rest, NUM_RULES as int);
        let (b, l) = best_rule(rest, NUM_RULES as int);
        if l > 0 && pos + l <= s.len() {
            if rule_spec(b).0 is None && pos + l < s.len() {
                lemma_lex_from_bounds(s, pos + l);
            }
        }
    }
}

/// A lexer over one query.
pub struct Lexer {
    stream: String,
    pos: usize,
    bpos: usize,
}

/// The byte offset of character `p` of `s`.
pub(crate) fn byte_offset(s: &String, p: usize) -> (r: usize)
    requires
        p <= s@.len(),
    ensures
        r == byte_pos(s@, p as int),
{
    s.as_str().substring_char(0, p).len()
}

impl Lexer {
    /// The query being split.
    pub closed spec fn stream_view(&self) -> Seq<char> {
        self.stream@
    }

    /// The current position, in characters.
    pub closed spec fn pos_view(&self) -> int {
        self.pos as int
    }

    /// The current position, in bytes.
    pub closed spec fn byte_pos_view(&self) -> int {
        self.bpos as int
    }

    /// The query's length in bytes.
    pub closed spec fn byte_len_view(&self) -> int {
        byte_pos(self.stream@, self.stream@.len() as int)
    }

    /// The query's length in bytes fits in `usize` (as it does for any
    /// string in memory).
    pub closed spec fn stream_fits(&self) -> bool {
        encode_utf8(self.stream@).len() <= usize::MAX
    }

    /// Byte offsets of a query whose length fits grow with character
    /// positions.
    pub proof fn lemma_positions(&self, a: int, b: int)
        requires
            self.stream_fits(),
            0 <= a <= b <= self.stream_view().len(),
        ensures
            byte_pos(self.stream_view(), a) <= byte_pos(self.stream_view(), b) <= self.byte_len_view(),
            a < b ==> byte_pos(self.stream_view(), a) < byte_pos(self.stream_view(), b),
    {
        lemma_byte_pos_increasing(self.stream@, a, b);
    }

    /// The query's length in bytes.
    pub fn byte_len(&self) -> (r: usize)
        ensures
            r == self.byte_len_view(),
    {
        byte_offset(&self.stream, self.stream.as_str().unicode_len())
    }

    /// The byte position is the start of a character of the query (the
    /// character position then being that character), or past the query's
    /// end (the character position then being the end).
    pub open spec fn synced(&self) -> bool {
        ||| self.pos_view() <= self.stream_view().len() && self.byte_pos_view() == byte_pos(
            self.stream_view(),
            self.pos_view(),
        )
        ||| self.byte_pos_view() > byte_pos(self.stream_view(), self.stream_view().len() as int)
            && self.pos_view() == self.stream_view().len()
    }

    /// A lexer at the start of `stream`.
    pub fn new(stream: String) -> (r: Lexer)
        ensures
            r.stream_view() == stream@,
            r.pos_view() == 0,
            r.byte_pos_view() == 0,
            r.byte_pos_view() == byte_pos(stream@, 0),
            r.synced(),
            r.stream_fits(),
    {
        assert(stream@.subrange(0, 0) =~= Seq::<char>::empty());
        let bytes = stream.as_str().as_bytes();
        let _n = bytes.len();
        Lexer { stream: stream, pos: 0, bpos: 0 }
    }

    /// The next token: the longest match among the token rules from the
    /// current position (the first rule wins among equally long matches),
    /// skipping whitespace; an end-of-input token once the query is used up.
    /// Where no rule matches, an error, and the position does not move.
    /// Token positions are byte offsets.
    pub fn produce(&mut self) -> (r: Result<Token, String>)
        requires
            old(self).synced(),
        ensures
            final(self).stream_view() == old(self).stream_view(),
            final(self).synced(),
            final(self).stream_fits() == old(self).stream_fits(),
            final(self).pos_view() == lex_from(old(self).stream_view(), old(self).pos_view()).1,
            final(self).byte_pos_view() == (if final(self).pos_view() == old(self).pos_view() {
                old(self).byte_pos_view()
            } else {
                byte_pos(old(self).stream_view(), final(self).pos_view())
            }),
            r matches Ok(t) ==> lex_from(old(self).stream_view(), old(self).pos_view()).0 == Some(t@),
            r matches Err(e) ==> lex_from(old(self).stream_view(), old(self).pos_view()).0 is None && e@ == "Lexing error"@,
        decreases old(self).stream_view().len() - old(self).pos_view(),
    {
        let stream_len = self.stream.as_str().unicode_len();
        if self.pos < stream_len {
            let rest = self.stream.as_str().substring_char(self.pos, stream_len);
            let ghost stream = self.stream@;
            let mut longest_token: Option<Token> = None;
            let mut longest_token_len: usize = 0;
            let mut i: usize = 0;
            while i < NUM_RULES
                invariant
                    stream == self.stream@,
                    stream_len == stream.len(),
                    self.pos < stream_len,
                    rest@ == stream.subrange(self.pos as int, stream_len as int),
                    i <= NUM_RULES,
                    best_rule(rest@, i as int) == (
                        if longest_token_len == 0 { -1 } else { best_rule(rest@, i as int).0 },
                        longest_token_len as int,
                    ),
                    longest_token_len <= rest@.len(),
                    longest_token_len > 0 ==> ({
                        let b = best_rule(rest@, i as int).0;
                        let (pre, m) = regex_first_match(rule_spec(b).1, rest@).unwrap();
                        &&& regex_first_match(rule_spec(b).1, rest@) is Some
                        &&& match rule_spec(b).0 {
                            None => longest_token is None,
                            Some(k) => longest_token matches Some(t) && t@ == TokenView {
                                kind: k,
                                value: value_view(rule_spec(b).2, m),
                                start: self.pos + pre.len(),
                                end: self.pos + pre.len() + m.len(),
                            } && self.pos + pre.len() + m.len() <= stream_len,
                        }
                    }),
                decreases NUM_RULES - i,
            {
                let (kind, pattern, vk) = rule(i);
                match regex_find(pattern, rest) {
                    Some((pre, mat)) => {
                        let mat_len = mat.as_str().unicode_len();
                        if mat_len > longest_token_len {
                            let pre_len = pre.as_str().unicode_len();
                            match kind {
                                Some(k) => {
                                    longest_token = Some(Token {
                                        kind: k,
                                        value: make_value(vk, &mat),
                                        start: pre_len + self.pos,
                                        end: pre_len + mat_len + self.pos,
                                    });
                                },
                                None => {
                                    longest_token = None;
                                },
                            }
                            longest_token_len = mat_len;
                        }
                    },
                    None => {},
                }
                i += 1;
            }
            proof {
                lemma_best_rule_range(rest@, NUM_RULES as int);
            }
            if longest_token_len == 0 {
                return Err(String::from_str("Lexing error"));
            }
            self.pos = self.pos + longest_token_len;
            self.bpos = byte_offset(&self.stream, self.pos);
            match longest_token {
                Some(token) => {
                    let start = byte_offset(&self.stream, token.start);
                    let end = byte_offset(&self.stream, token.end);
                    Ok(Token { kind: token.kind, value: token.value, start: start, end: end })
                },
                None => {
                    if self.pos >= stream_len {
                        let e = byte_offset(&self.stream, stream_len);
                        return Ok(Token { kind: TokenKind::EOF, value: TokenValue::Nothing, start: e, end: e });
                    }
                    self.produce()
                },
            }
        } else {
            let e = byte_offset(&self.stream, stream_len);
            Ok(Token { kind: TokenKind::EOF, value: TokenValue::Nothing, start: e, end: e })
        }
    }

    /// Goes back to the start of the query.
    pub fn reset(&mut self)
        ensures
            final(self).stream_view() == old(self).stream_view(),
            final(self).pos_view() == 0,
            final(self).byte_pos_view() == 0,
            final(self).byte_pos_view() == byte_pos(old(self).stream_view(), 0),
            final(self).synced(),
            final(self).stream_fits() == old(self).stream_fits(),
    {
        assert(self.stream@.subrange(0, 0) =~= Seq::<char>::empty());
        self.pos = 0;
        self.bpos = 0;
    }

    /// Moves to byte position `pos`. Unless `pos` is the start of a
    /// character of the query or past its end, no token can be read there.
    pub fn set_pos(&mut self, pos: usize)
        ensures
            final(self).stream_view() == old(self).stream_view(),
            final(self).byte_pos_view() == pos,
            final(self).synced() <==> (pos > byte_pos(old(self).stream_view(), old(self).stream_view().len() as int)
                || at_char_start(old(self).stream_view(), pos as int)),
            final(self).stream_fits() == old(self).stream_fits(),
            old(self).stream_fits() && old(self).synced() && pos == old(self).byte_pos_view() ==> final(self).pos_view()
                == old(self).pos_view(),
    {
        proof {
            if self.stream_fits() && self.synced() && pos == self.byte_pos_view() && self.pos_view() <= self.stream_view().len() {
                assert forall|j: int| 0 <= j <= self.stream_view().len() && j != self.pos_view() implies byte_pos(self.stream_view(), j) != pos by {
                    if j < self.pos_view() {
                        lemma_byte_pos_increasing(self.stream@, j, self.pos_view());
                    } else {
                        lemma_byte_pos_increasing(self.stream@, self.pos_view(), j);
                    }
                }
            }
        }
        let n = self.stream.as_str().unicode_len();
        let mut k: usize = 0;
        let mut found = false;
        while k < n && !found
            invariant
                n == self.stream@.len(),
                k <= n,
                found ==> byte_pos(self.stream@, k as int) == pos,
                !found ==> forall|j: int| 0 <= j < k ==> byte_pos(self.stream@, j) != pos,
            decreases n - k, if found { 0int } else { 1int },
        {
            if byte_offset(&self.stream, k) == pos {
                found = true;
            } else {
                k += 1;
            }
        }
        if !found && byte_offset(&self.stream, n) == pos {
            found = true;
        }
        self.bpos = pos;
        if found {
            self.pos = k;
        } else {
            self.pos = n;
        }
    }

    /// The current position, in bytes.
    pub fn get_pos(&self) -> (r: usize)
        ensures
            r == self.byte_pos_view(),
    {
        self.bpos
    }

    /// The current position in characters, and in bytes.
    pub(crate) fn mark(&self) -> (r: (usize, usize))
        ensures
            r.0 == self.pos_view(),
            r.1 == self.byte_pos_view(),
    {
        (self.pos, self.bpos)
    }

    /// Returns to a position that `mark` gave.
    pub(crate) fn restore(&mut self, m: (usize, usize))
        ensures
            final(self).stream_view() == old(self).stream_view(),
            final(self).pos_view() == m.0,
            final(self).byte_pos_view() == m.1,
            final(self).stream_fits() == old(self).stream_fits(),
    {
        self.pos = m.0;
        self.bpos = m.1;
    }

    /// The part of the query from the current position on. The position
    /// must be the start of a character of the query or its end (`synced`,
    /// and `get_pos() <= byte_len()`).
    pub fn remaining_stream(&self) -> (r: &str)
        requires
            self.synced(),
            self.byte_pos_view() <= self.byte_len_view(),
        ensures
            r@ == self.stream_view().subrange(self.pos_view(), self.stream_view().len() as int),
    {
        let n = self.stream.as_str().unicode_len();
        self.stream.as_str().substring_char(self.pos, n)
    }
}

} // verus!
