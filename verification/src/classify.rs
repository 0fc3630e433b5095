//! Character classification and the two closed lookup tables: reserved
//! words and operator/punctuation symbols.

use vstd::prelude::*;
use vstd::string::{StrSliceExecFns, StringExecFns};

use crate::token::Kind;

verus! {

/// Whitespace discarded between tokens.
pub open spec fn is_whitespace(c: char) -> bool {
    c == ' ' || c == '\t' || c == '\n' || c == '\r'
}

/// An ASCII letter, the first character of an identifier or keyword.
pub open spec fn is_letter(c: char) -> bool {
    ('a' <= c && c <= 'z') || ('A' <= c && c <= 'Z')
}

/// An ASCII digit.
pub open spec fn is_digit(c: char) -> bool {
    '0' <= c && c <= '9'
}

/// A character that may continue an identifier or keyword.
pub open spec fn is_alnum(c: char) -> bool {
    is_letter(c) || is_digit(c)
}

/// A character that begins inter-token filler: whitespace, a
/// brace-delimited comment, or a `/* ... */` comment.  Every `/` starts a
/// comment, whether or not a `*` follows.
pub open spec fn is_filler_start(c: char) -> bool {
    is_whitespace(c) || c == '{' || c == '/'
}

/// A symbol that is complete after its first character: no longer symbol
/// begins with it.
pub open spec fn is_single_symbol(c: char) -> bool {
    c == '+' || c == '-' || c == '*' || c == '=' || c == '(' || c == ')' || c == '[' || c == ']'
        || c == '.' || c == ',' || c == ';'
}

/// A character that forms part of some known symbol: the single-character
/// symbols together with the first characters of two-character ones.
pub open spec fn is_symbol_char(c: char) -> bool {
    is_single_symbol(c) || c == '<' || c == '>' || c == ':'
}

/// The keyword table.  Text is a keyword only if its length lies between
/// 2 and 10 characters and it matches a reserved word exactly
/// (case-sensitive, lowercase); everything else is a plain identifier.
pub open spec fn keyword_kind(text: Seq<char>) -> Kind {
    if text.len() == 1 || text.len() > 10 {
        Kind::Name
    } else if text == "program"@ {
        Kind::Program
    } else if text == "var"@ {
        Kind::Var
    } else if text == "array"@ {
        Kind::Array
    } else if text == "of"@ {
        Kind::Of
    } else if text == "begin"@ {
        Kind::Begin
    } else if text == "end"@ {
        Kind::End
    } else if text == "if"@ {
        Kind::If
    } else if text == "then"@ {
        Kind::Then
    } else if text == "else"@ {
        Kind::Else
    } else if text == "procedure"@ {
        Kind::Procedure
    } else if text == "return"@ {
        Kind::Return
    } else if text == "call"@ {
        Kind::Call
    } else if text == "while"@ {
        Kind::While
    } else if text == "do"@ {
        Kind::DO
    } else if text == "not"@ {
        Kind::Not
    } else if text == "or"@ {
        Kind::Or
    } else if text == "div"@ {
        Kind::Div
    } else if text == "and"@ {
        Kind::And
    } else if text == "char"@ {
        Kind::Char
    } else if text == "integer"@ {
        Kind::Integer
    } else if text == "boolean"@ {
        Kind::Boolean
    } else if text == "read"@ {
        Kind::Read
    } else if text == "write"@ {
        Kind::Write
    } else if text == "readln"@ {
        Kind::Readln
    } else if text == "writeln"@ {
        Kind::Writeln
    } else if text == "true"@ {
        Kind::True
    } else if text == "false"@ {
        Kind::False
    } else if text == "break"@ {
        Kind::Break
    } else {
        Kind::Name
    }
}

/// The symbol table for a lone character.
pub open spec fn single_symbol_kind(c: char) -> Kind {
    if c == '+' {
        Kind::Plus
    } else if c == '-' {
        Kind::Minus
    } else if c == '*' {
        Kind::Star
    } else if c == '=' {
        Kind::Equal
    } else if c == '<' {
        Kind::Less
    } else if c == '>' {
        Kind::Great
    } else if c == '(' {
        Kind::LParen
    } else if c == ')' {
        Kind::RParen
    } else if c == '[' {
        Kind::LBracket
    } else if c == ']' {
        Kind::RBracket
    } else if c == ':' {
        Kind::Colon
    } else if c == '.' {
        Kind::Dot
    } else if c == ',' {
        Kind::Comma
    } else if c == ';' {
        Kind::Semicolon
    } else {
        Kind::Unknown
    }
}

/// The symbol table for a two-character sequence: `<>`, `<=`, `>=`, `:=`.
pub open spec fn pair_symbol_kind(c0: char, c1: char) -> Kind {
    if c0 == '<' && c1 == '>' {
        Kind::NotEq
    } else if c0 == '<' && c1 == '=' {
        Kind::LessEq
    } else if c0 == '>' && c1 == '=' {
        Kind::GreatEq
    } else if c0 == ':' && c1 == '=' {
        Kind::Assign
    } else {
        Kind::Unknown
    }
}

/// The full symbol table: only symbols of length 1 or 2 exist in this
/// language; any other text is unrecognized.
pub open spec fn symbol_kind(text: Seq<char>) -> Kind {
    if text.len() == 1 {
        single_symbol_kind(text[0])
    } else if text.len() == 2 {
        pair_symbol_kind(text[0], text[1])
    } else {
        Kind::Unknown
    }
}

/// Numeric value of the digit character `c`.
pub open spec fn digit_val(c: char) -> int {
    c as int - '0' as int
}

/// Reads the digit character `c` at run time.
pub fn digit_value(c: char) -> (d: u32)
    requires
        is_digit(c),
    ensures
        d == digit_val(c),
        d <= 9,
{
    c as u32 - 48
}

/// Decides `is_whitespace` at run time.
pub fn whitespace_char(c: char) -> (b: bool)
    ensures
        b == is_whitespace(c),
{
    c == ' ' || c == '\t' || c == '\n' || c == '\r'
}

/// Decides `is_letter` at run time.
pub fn letter_char(c: char) -> (b: bool)
    ensures
        b == is_letter(c),
{
    ('a' <= c && c <= 'z') || ('A' <= c && c <= 'Z')
}

/// Decides `is_digit` at run time.
pub fn digit_char(c: char) -> (b: bool)
    ensures
        b == is_digit(c),
{
    '0' <= c && c <= '9'
}

/// Decides `is_alnum` at run time.
pub fn alnum_char(c: char) -> (b: bool)
    ensures
        b == is_alnum(c),
{
    letter_char(c) || digit_char(c)
}

/// Decides `is_single_symbol` at run time.
pub fn single_symbol_char(c: char) -> (b: bool)
    ensures
        b == is_single_symbol(c),
{
    c == '+' || c == '-' || c == '*' || c == '=' || c == '(' || c == ')' || c == '[' || c == ']'
        || c == '.' || c == ',' || c == ';'
}

/// Decides `is_symbol_char` at run time.
pub fn symbol_char(c: char) -> (b: bool)
    ensures
        b == is_symbol_char(c),
{
    single_symbol_char(c) || c == '<' || c == '>' || c == ':'
}

/// Classifies accumulated identifier text against the keyword table.
pub fn match_keyword(ident: &String) -> (k: Kind)
    ensures
        k == keyword_kind(ident@),
{
    let n = ident.as_str().unicode_len();
    if n == 1 || n > 10 {
        return Kind::Name;
    }
    if ident.eq(&String::from_str("program")) {
        return Kind::Program;
    }
    if ident.eq(&String::from_str("var")) {
        return Kind::Var;
    }
    if ident.eq(&String::from_str("array")) {
        return Kind::Array;
    }
    if ident.eq(&String::from_str("of")) {
        return Kind::Of;
    }
    if ident.eq(&String::from_str("begin")) {
        return Kind::Begin;
    }
    if ident.eq(&String::from_str("end")) {
        return Kind::End;
    }
    if ident.eq(&String::from_str("if")) {
        return Kind::If;
    }
    if ident.eq(&String::from_str("then")) {
        return Kind::Then;
    }
    if ident.eq(&String::from_str("else")) {
        return Kind::Else;
    }
    if ident.eq(&String::from_str("procedure")) {
        return Kind::Procedure;
    }
    if ident.eq(&String::from_str("return")) {
        return Kind::Return;
    }
    if ident.eq(&String::from_str("call")) {
        return Kind::Call;
    }
    if ident.eq(&String::from_str("while")) {
        return Kind::While;
    }
    if ident.eq(&String::from_str("do")) {
        return Kind::DO;
    }
    if ident.eq(&String::from_str("not")) {
        return Kind::Not;
    }
    if ident.eq(&String::from_str("or")) {
        return Kind::Or;
    }
    if ident.eq(&String::from_str("div")) {
        return Kind::Div;
    }
    if ident.eq(&String::from_str("and")) {
        return Kind::And;
    }
    if ident.eq(&String::from_str("char")) {
        return Kind::Char;
    }
    if ident.eq(&String::from_str("integer")) {
        return Kind::Integer;
    }
    if ident.eq(&String::from_str("boolean")) {
        return Kind::Boolean;
    }
    if ident.eq(&String::from_str("read")) {
        return Kind::Read;
    }
    if ident.eq(&String::from_str("write")) {
        return Kind::Write;
    }
    if ident.eq(&String::from_str("readln")) {
        return Kind::Readln;
    }
    if ident.eq(&String::from_str("writeln")) {
        return Kind::Writeln;
    }
    if ident.eq(&String::from_str("true")) {
        return Kind::True;
    }
    if ident.eq(&String::from_str("false")) {
        return Kind::False;
    }
    if ident.eq(&String::from_str("break")) {
        return Kind::Break;
    }
    Kind::Name
}

/// Classifies accumulated symbol text against the symbol table.
pub fn match_symbol(symbol: &String) -> (k: Kind)
    ensures
        k == symbol_kind(symbol@),
{
    let n = symbol.as_str().unicode_len();
    if n == 1 {
        let c = symbol.as_str().get_char(0);
        single_symbol(c)
    } else if n == 2 {
        let c0 = symbol.as_str().get_char(0);
        let c1 = symbol.as_str().get_char(1);
        pair_symbol(c0, c1)
    } else {
        Kind::Unknown
    }
}

/// Looks a lone character up in the symbol table.
pub fn single_symbol(c: char) -> (k: Kind)
    ensures
        k == single_symbol_kind(c),
{
    if c == '+' {
        Kind::Plus
    } else if c == '-' {
        Kind::Minus
    } else if c == '*' {
        Kind::Star
    } else if c == '=' {
        Kind::Equal
    } else if c == '<' {
        Kind::Less
    } else if c == '>' {
        Kind::Great
    } else if c == '(' {
        Kind::LParen
    } else if c == ')' {
        Kind::RParen
    } else if c == '[' {
        Kind::LBracket
    } else if c == ']' {
        Kind::RBracket
    } else if c == ':' {
        Kind::Colon
    } else if c == '.' {
        Kind::Dot
    } else if c == ',' {
        Kind::Comma
    } else if c == ';' {
        Kind::Semicolon
    } else {
        Kind::Unknown
    }
}

/// Looks a two-character sequence up in the symbol table.
pub fn pair_symbol(c0: char, c1: char) -> (k: Kind)
    ensures
        k == pair_symbol_kind(c0, c1),
{
    if c0 == '<' && c1 == '>' {
        Kind::NotEq
    } else if c0 == '<' && c1 == '=' {
        Kind::LessEq
    } else if c0 == '>' && c1 == '=' {
        Kind::GreatEq
    } else if c0 == ':' && c1 == '=' {
        Kind::Assign
    } else {
        Kind::Unknown
    }
}

} // verus!
