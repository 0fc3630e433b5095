//! End-to-end tests of the scanning engine: the full-source scan, one
//! test per stated property of the scanner, and the edge cases of each
//! sub-scanner.

use pascal_scan::{Kind, Lexer, ScanError, Token, TokenValue};

fn scan_all(source: &str) -> Vec<Token> {
    let mut lexer = Lexer::new(source);
    lexer.analyze().expect("scan should succeed")
}

#[test]
fn test_lexer() {
    let source = "
        {name}
        name1 name2name3
        {keyword}
        program var array
        of begin end
        if then else
        procedure return
        call while do
        not or div and
        char integer boolean
        read write readln writeln
        true false break
        {unsigned integer}
        0 1 9 255
        {string}
        'string'
        'string1''string2'
        {symbol}
        + - * = <> < <= > >=
        ( ) [ ] := . , : ;
        ";
    let mut lexer = Lexer::new(source);
    let tokens = lexer.analyze().expect("scan should succeed");

    let expected = vec![
        (Kind::Name, TokenValue::String("name1".to_string())),
        (Kind::Name, TokenValue::String("name2name3".to_string())),
        (Kind::Program, TokenValue::Absent),
        (Kind::Var, TokenValue::Absent),
        (Kind::Array, TokenValue::Absent),
        (Kind::Of, TokenValue::Absent),
        (Kind::Begin, TokenValue::Absent),
        (Kind::End, TokenValue::Absent),
        (Kind::If, TokenValue::Absent),
        (Kind::Then, TokenValue::Absent),
        (Kind::Else, TokenValue::Absent),
        (Kind::Procedure, TokenValue::Absent),
        (Kind::Return, TokenValue::Absent),
        (Kind::Call, TokenValue::Absent),
        (Kind::While, TokenValue::Absent),
        (Kind::DO, TokenValue::Absent),
        (Kind::Not, TokenValue::Absent),
        (Kind::Or, TokenValue::Absent),
        (Kind::Div, TokenValue::Absent),
        (Kind::And, TokenValue::Absent),
        (Kind::Char, TokenValue::Absent),
        (Kind::Integer, TokenValue::Absent),
        (Kind::Boolean, TokenValue::Absent),
        (Kind::Read, TokenValue::Absent),
        (Kind::Write, TokenValue::Absent),
        (Kind::Readln, TokenValue::Absent),
        (Kind::Writeln, TokenValue::Absent),
        (Kind::True, TokenValue::Absent),
        (Kind::False, TokenValue::Absent),
        (Kind::Break, TokenValue::Absent),
        (Kind::UnsignedInteger, TokenValue::Integer(0)),
        (Kind::UnsignedInteger, TokenValue::Integer(1)),
        (Kind::UnsignedInteger, TokenValue::Integer(9)),
        (Kind::UnsignedInteger, TokenValue::Integer(255)),
        (Kind::String, TokenValue::String("string".to_string())),
        (
            Kind::String,
            TokenValue::String("string1'string2".to_string()),
        ),
        (Kind::Plus, TokenValue::Absent),
        (Kind::Minus, TokenValue::Absent),
        (Kind::Star, TokenValue::Absent),
        (Kind::Equal, TokenValue::Absent),
        (Kind::NotEq, TokenValue::Absent),
        (Kind::Less, TokenValue::Absent),
        (Kind::LessEq, TokenValue::Absent),
        (Kind::Great, TokenValue::Absent),
        (Kind::GreatEq, TokenValue::Absent),
        (Kind::LParen, TokenValue::Absent),
        (Kind::RParen, TokenValue::Absent),
        (Kind::LBracket, TokenValue::Absent),
        (Kind::RBracket, TokenValue::Absent),
        (Kind::Assign, TokenValue::Absent),
        (Kind::Dot, TokenValue::Absent),
        (Kind::Comma, TokenValue::Absent),
        (Kind::Colon, TokenValue::Absent),
        (Kind::Semicolon, TokenValue::Absent),
        (Kind::Eof, TokenValue::Absent),
    ];

    for (i, token) in tokens.iter().enumerate() {
        println!("{:?}", token);
        assert_eq!(token.kind, expected[i].0);
        assert_eq!(token.value, expected[i].1);
    }
}

#[test]
fn full_scan_ends_with_one_eof() {
    let tokens = scan_all("");
    assert_eq!(tokens.len(), 1);
    assert_eq!(tokens[0].kind, Kind::Eof);
    assert_eq!((tokens[0].start, tokens[0].end), (0, 0));

    let tokens = scan_all("x y");
    let last = tokens.last().unwrap();
    assert_eq!(last.kind, Kind::Eof);
    assert_eq!((last.start, last.end), (3, 3));
    let eof_count = tokens.iter().filter(|t| t.kind == Kind::Eof).count();
    assert_eq!(eof_count, 1);
}

#[test]
fn spans_are_ordered_and_skip_filler() {
    let tokens = scan_all("  ab {x} cd ");
    assert_eq!(tokens.len(), 3);
    assert_eq!((tokens[0].start, tokens[0].end), (2, 4));
    assert_eq!((tokens[1].start, tokens[1].end), (9, 11));
    assert_eq!((tokens[2].start, tokens[2].end), (12, 12));
    for pair in tokens.windows(2) {
        assert!(pair[0].end <= pair[1].start);
    }
}

#[test]
fn every_keyword_round_trips() {
    let table = vec![
        ("program", Kind::Program),
        ("var", Kind::Var),
        ("array", Kind::Array),
        ("of", Kind::Of),
        ("begin", Kind::Begin),
        ("end", Kind::End),
        ("if", Kind::If),
        ("then", Kind::Then),
        ("else", Kind::Else),
        ("procedure", Kind::Procedure),
        ("return", Kind::Return),
        ("call", Kind::Call),
        ("while", Kind::While),
        ("do", Kind::DO),
        ("not", Kind::Not),
        ("or", Kind::Or),
        ("div", Kind::Div),
        ("and", Kind::And),
        ("char", Kind::Char),
        ("integer", Kind::Integer),
        ("boolean", Kind::Boolean),
        ("read", Kind::Read),
        ("write", Kind::Write),
        ("readln", Kind::Readln),
        ("writeln", Kind::Writeln),
        ("true", Kind::True),
        ("false", Kind::False),
        ("break", Kind::Break),
    ];
    for (word, kind) in table {
        let tokens = scan_all(word);
        assert_eq!(tokens.len(), 2, "keyword {}", word);
        assert_eq!(tokens[0].kind, kind, "keyword {}", word);
        assert_eq!(tokens[0].value, TokenValue::Absent, "keyword {}", word);
        assert_eq!((tokens[0].start, tokens[0].end), (0, word.len()));
        assert_eq!(tokens[1].kind, Kind::Eof);
    }
}

#[test]
fn short_and_long_names_are_never_keywords() {
    let tokens = scan_all("a");
    assert_eq!(tokens[0].kind, Kind::Name);
    assert_eq!(tokens[0].value, TokenValue::String("a".to_string()));

    let tokens = scan_all("verylongname1");
    assert_eq!(tokens[0].kind, Kind::Name);
    assert_eq!(
        tokens[0].value,
        TokenValue::String("verylongname1".to_string())
    );
}

#[test]
fn doubled_quote_collapses_to_one() {
    let tokens = scan_all("'ab''cd'");
    assert_eq!(tokens.len(), 2);
    assert_eq!(tokens[0].kind, Kind::String);
    assert_eq!(tokens[0].value, TokenValue::String("ab'cd".to_string()));
    assert_eq!((tokens[0].start, tokens[0].end), (0, 8));
}

#[test]
fn assign_is_one_token() {
    let tokens = scan_all(":=");
    assert_eq!(tokens.len(), 2);
    assert_eq!(tokens[0].kind, Kind::Assign);
    assert_eq!((tokens[0].start, tokens[0].end), (0, 2));
}

#[test]
fn colon_before_plain_character_stands_alone() {
    let tokens = scan_all(":a");
    assert_eq!(tokens.len(), 3);
    assert_eq!(tokens[0].kind, Kind::Colon);
    assert_eq!((tokens[0].start, tokens[0].end), (0, 1));
    assert_eq!(tokens[1].kind, Kind::Name);
    assert_eq!(tokens[1].value, TokenValue::String("a".to_string()));
}

#[test]
fn colon_before_symbol_character_is_munched() {
    // Maximal munch: a symbol-forming character after `:` is taken into
    // the same buffer, so `:;` is one unrecognized token, not two.
    let tokens = scan_all(":;");
    assert_eq!(tokens.len(), 2);
    assert_eq!(tokens[0].kind, Kind::Unknown);
    assert_eq!(tokens[0].value, TokenValue::String(":;".to_string()));
}

#[test]
fn integer_overflow_aborts_the_scan() {
    let mut lexer = Lexer::new("99999999999");
    let result = lexer.analyze();
    assert_eq!(
        result,
        Err(ScanError::IntegerOverflow { start: 0, end: 11 })
    );
}

#[test]
fn integer_range_boundary() {
    let tokens = scan_all("4294967295");
    assert_eq!(tokens[0].kind, Kind::UnsignedInteger);
    assert_eq!(tokens[0].value, TokenValue::Integer(4294967295));

    let mut lexer = Lexer::new("x 4294967296");
    let result = lexer.analyze();
    assert_eq!(
        result,
        Err(ScanError::IntegerOverflow { start: 2, end: 12 })
    );
}

#[test]
fn comments_scan_to_zero_tokens() {
    let tokens = scan_all("/* a * b */");
    assert_eq!(tokens.len(), 1);
    assert_eq!(tokens[0].kind, Kind::Eof);

    let tokens = scan_all("{ c }");
    assert_eq!(tokens.len(), 1);
    assert_eq!(tokens[0].kind, Kind::Eof);
}

#[test]
fn lone_slash_opens_a_comment() {
    // Every `/` opens a slash-style comment, whether or not a `*`
    // follows: a lone one absorbs the remainder of the input.
    let tokens = scan_all("/ x y z");
    assert_eq!(tokens.len(), 1);
    assert_eq!(tokens[0].kind, Kind::Eof);
}

#[test]
fn unterminated_comment_absorbs_the_rest() {
    let tokens = scan_all("a { never closed");
    assert_eq!(tokens.len(), 2);
    assert_eq!(tokens[0].kind, Kind::Name);
    assert_eq!(tokens[1].kind, Kind::Eof);
}

#[test]
fn end_to_end_statement() {
    let tokens = scan_all("x := 1 + 2;");
    let kinds: Vec<Kind> = tokens.iter().map(|t| t.kind).collect();
    assert_eq!(
        kinds,
        vec![
            Kind::Name,
            Kind::Assign,
            Kind::UnsignedInteger,
            Kind::Plus,
            Kind::UnsignedInteger,
            Kind::Semicolon,
            Kind::Eof,
        ]
    );
    assert_eq!(tokens[0].value, TokenValue::String("x".to_string()));
    assert_eq!(tokens[2].value, TokenValue::Integer(1));
    assert_eq!(tokens[4].value, TokenValue::Integer(2));
    assert_eq!((tokens[0].start, tokens[0].end), (0, 1));
    assert_eq!((tokens[1].start, tokens[1].end), (2, 4));
    assert_eq!((tokens[2].start, tokens[2].end), (5, 6));
    assert_eq!((tokens[3].start, tokens[3].end), (7, 8));
    assert_eq!((tokens[4].start, tokens[4].end), (9, 10));
    assert_eq!((tokens[5].start, tokens[5].end), (10, 11));
    assert_eq!((tokens[6].start, tokens[6].end), (11, 11));
}

#[test]
fn unterminated_string_absorbs_the_rest() {
    let tokens = scan_all("'abc");
    assert_eq!(tokens.len(), 2);
    assert_eq!(tokens[0].kind, Kind::String);
    assert_eq!(tokens[0].value, TokenValue::String("abc".to_string()));
    assert_eq!((tokens[0].start, tokens[0].end), (0, 4));
}

#[test]
fn string_with_trailing_escaped_quote_at_end_of_input() {
    // `'a''` ends the input inside the literal: the doubled quote first
    // collapses, then the pending quote is stripped from the value.
    let tokens = scan_all("'a''");
    assert_eq!(tokens.len(), 2);
    assert_eq!(tokens[0].kind, Kind::String);
    assert_eq!(tokens[0].value, TokenValue::String("a".to_string()));
}

#[test]
fn eof_token_repeats_at_the_same_offset() {
    let mut lexer = Lexer::new("a ");
    let first = lexer.read_next_token().unwrap();
    assert_eq!(first.kind, Kind::Name);
    let eof1 = lexer.read_next_token().unwrap();
    let eof2 = lexer.read_next_token().unwrap();
    assert_eq!(eof1.kind, Kind::Eof);
    assert_eq!(eof2.kind, Kind::Eof);
    assert_eq!((eof1.start, eof1.end), (2, 2));
    assert_eq!((eof2.start, eof2.end), (2, 2));
}

#[test]
fn unrecognized_symbol_becomes_a_token() {
    let tokens = scan_all("@");
    assert_eq!(tokens.len(), 2);
    assert_eq!(tokens[0].kind, Kind::Unknown);
    assert_eq!(tokens[0].value, TokenValue::String("@".to_string()));
}

#[test]
fn offsets_count_bytes_not_characters() {
    // `é` is two bytes in UTF-8: the unrecognized token spans both and
    // the end-of-input token sits at the byte length.
    let tokens = scan_all("é");
    assert_eq!(tokens.len(), 2);
    assert_eq!(tokens[0].kind, Kind::Unknown);
    assert_eq!(tokens[0].value, TokenValue::String("é".to_string()));
    assert_eq!((tokens[0].start, tokens[0].end), (0, 2));
    assert_eq!((tokens[1].start, tokens[1].end), (2, 2));
}

#[test]
fn string_span_counts_bytes() {
    // 'héllo' is eight bytes with its quotes; the name after it starts
    // at byte nine.
    let tokens = scan_all("'héllo' x");
    assert_eq!(tokens.len(), 3);
    assert_eq!(tokens[0].kind, Kind::String);
    assert_eq!(tokens[0].value, TokenValue::String("héllo".to_string()));
    assert_eq!((tokens[0].start, tokens[0].end), (0, 8));
    assert_eq!(tokens[1].kind, Kind::Name);
    assert_eq!((tokens[1].start, tokens[1].end), (9, 10));
    assert_eq!((tokens[2].start, tokens[2].end), (10, 10));
}

#[test]
fn comment_with_multibyte_text_keeps_byte_offsets() {
    let tokens = scan_all("{ é } x");
    assert_eq!(tokens.len(), 2);
    assert_eq!(tokens[0].kind, Kind::Name);
    assert_eq!((tokens[0].start, tokens[0].end), (7, 8));
    assert_eq!((tokens[1].start, tokens[1].end), (8, 8));
}

#[test]
fn after_full_scan_next_token_is_eof() {
    let mut lexer = Lexer::new("a {b} é");
    let tokens = lexer.analyze().unwrap();
    let last = tokens.last().unwrap();
    assert_eq!(last.kind, Kind::Eof);
    let again = lexer.read_next_token().unwrap();
    assert_eq!(again.kind, Kind::Eof);
    assert_eq!((again.start, again.end), (last.start, last.end));
}
