//! The token data model: token kinds, payload values, positioned tokens,
//! and the error raised for an out-of-range integer literal.

use vstd::prelude::*;

verus! {

/// Classification of a token: the end-of-input marker, the three literal
/// forms, one tag per reserved keyword, one tag per operator or
/// punctuation symbol, and a catch-all for unrecognized symbol text.
#[derive(Debug, Clone, Copy, PartialEq, Eq, Hash, Structural)]
pub enum Kind {
    Eof,
    Name,
    UnsignedInteger,
    String,
    // Reserved keywords.
    Program,
    Var,
    Array,
    Of,
    Begin,
    End,
    If,
    Then,
    Else,
    Procedure,
    Return,
    Call,
    While,
    DO,
    Not,
    Or,
    Div,
    And,
    Char,
    Integer,
    Boolean,
    Read,
    Write,
    Readln,
    Writeln,
    True,
    False,
    Break,
    // Operators and punctuation.
    Plus,
    Minus,
    Star,
    Equal,
    NotEq,
    Less,
    LessEq,
    Great,
    GreatEq,
    LParen,
    RParen,
    LBracket,
    RBracket,
    Assign,
    Dot,
    Comma,
    Colon,
    Semicolon,
    // Anything the symbol table cannot classify.
    Unknown,
}

/// The payload a token carries: absent for keywords, recognized operators
/// and the end-of-input marker; a 32-bit value for integer literals; owned
/// text for identifiers, string literals and unrecognized symbols.
#[derive(Debug, Clone, PartialEq, Eq, Hash)]
pub enum TokenValue {
    Absent,
    Integer(u32),
    String(String),
}

/// A classified, positioned unit of lexical meaning.  `start` and `end`
/// are byte offsets into the UTF-8 source text, a half-open range
/// `[start, end)`; the end-of-input token has `start == end` equal to
/// the source's byte length.
#[derive(Debug, Clone, PartialEq, Eq, Hash)]
pub struct Token {
    pub kind: Kind,
    pub start: usize,
    pub end: usize,
    pub value: TokenValue,
}

/// The one unrecoverable scan condition: an unsigned integer literal at
/// the byte span `[start, end)` whose value exceeds the 32-bit range.
/// Every other
/// irregularity is reported as data (an `Unknown` token) or silently
/// absorbed, so the scan itself never fails for any other reason.
#[derive(Debug, Clone, Copy, PartialEq, Eq, Hash, Structural)]
pub enum ScanError {
    IntegerOverflow { start: usize, end: usize },
}

/// Mathematical image of a `TokenValue`: text payloads become character
/// sequences.
#[verifier::ext_equal]
pub ghost enum ValueModel {
    Absent,
    Int(u32),
    Text(Seq<char>),
}

/// Mathematical image of a `Token`.
#[verifier::ext_equal]
pub ghost struct TokenModel {
    pub kind: Kind,
    pub start: int,
    pub end: int,
    pub value: ValueModel,
}

impl View for TokenValue {
    type V = ValueModel;

    open spec fn view(&self) -> ValueModel {
        match self {
            TokenValue::Absent => ValueModel::Absent,
            TokenValue::Integer(n) => ValueModel::Int(*n),
            TokenValue::String(s) => ValueModel::Text(s@),
        }
    }
}

impl View for Token {
    type V = TokenModel;

    open spec fn view(&self) -> TokenModel {
        TokenModel {
            kind: self.kind,
            start: self.start as int,
            end: self.end as int,
            value: self.value@,
        }
    }
}

/// Mathematical image of a whole token vector.
pub open spec fn tokens_model(v: Seq<Token>) -> Seq<TokenModel> {
    v.map_values(|t: Token| t@)
}

/// Appending a token to a vector appends its image to the vector's image.
pub proof fn lemma_tokens_model_push(v: Seq<Token>, t: Token)
    ensures
        tokens_model(v.push(t)) == tokens_model(v).push(t@),
{
    assert(tokens_model(v.push(t)) =~= tokens_model(v).push(t@));
}

} // verus!
