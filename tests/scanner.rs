use rlox::errors::Error;
use rlox::run;
use rlox::scanner::Scanner;
use rlox::tokens::{Literal, Token, TokenType};

fn scanned(src: &str) -> Scanner {
    let mut scanner = Scanner::new(src.to_string());
    scanner.scan();
    scanner
}

fn kinds(tokens: &[Token]) -> Vec<TokenType> {
    tokens.iter().map(|t| t.token_type).collect()
}

fn number_of(t: &Token) -> f64 {
    match &t.literal {
        Some(Literal::Number(n)) => std::str::from_utf8(n).unwrap().parse::<f64>().unwrap(),
        other => panic!("not a number literal: {:?}", other),
    }
}

#[test]
fn test_scanner() {
    let mut scanner = Scanner::new("1 + 2".to_string());
    scanner.scan();
    assert_eq!(scanner.tokens.len(), 4);
    println!("{:?}", scanner.tokens);
}

#[test]
fn test_scanner_string() {
    let mut scanner = Scanner::new("\"hello\"".to_string());
    scanner.scan();
    assert_eq!(scanner.tokens.len(), 2);
    println!("{:?}", scanner.tokens);
}

#[test]
fn test_scanner_string_error() {
    let mut scanner = Scanner::new("\"hello".to_string());
    scanner.scan();
    assert_eq!(scanner.tokens.len(), 1);
    assert_eq!(scanner.error, true);
    println!("{:?}", scanner.tokens);
}

#[test]
fn test_scanner_number() {
    let mut scanner = Scanner::new("1.0".to_string());
    scanner.scan();
    assert_eq!(scanner.tokens.len(), 2);
    println!("{:?}", scanner.tokens);
}

#[test]
fn test_scanner_multiline() {
    let mut scanner = Scanner::new("1 + 2\n3 + 4".to_string());
    scanner.scan();
    assert_eq!(scanner.tokens.len(), 7);
    println!("{:?}", scanner.tokens);
}

#[test]
fn sum_tokens_in_detail() {
    let s = scanned("1 + 2");
    assert_eq!(kinds(&s.tokens), vec![TokenType::Number, TokenType::Plus, TokenType::Number, TokenType::EOF]);
    assert_eq!(number_of(&s.tokens[0]), 1.0);
    assert_eq!(number_of(&s.tokens[2]), 2.0);
    assert_eq!(s.tokens[1].lexeme, b"+".to_vec());
    assert!(s.tokens[3].lexeme.is_empty());
    assert!(!s.error);
    assert!(s.errors.is_empty());
    assert_eq!(s.tokens().len(), 4);
    assert!(s.errors().is_empty());
    assert!(!s.has_error());
}

#[test]
fn string_literal_is_decoded() {
    let s = scanned("\"hello\"");
    assert_eq!(kinds(&s.tokens), vec![TokenType::String, TokenType::EOF]);
    match &s.tokens[0].literal {
        Some(Literal::String(text)) => assert_eq!(text, "hello"),
        other => panic!("unexpected literal {:?}", other),
    }
    assert_eq!(s.tokens[0].lexeme, b"\"hello\"".to_vec());
}

#[test]
fn non_ascii_string_literal_is_decoded() {
    let s = scanned("\"h\u{e9}llo\"");
    match &s.tokens[0].literal {
        Some(Literal::String(text)) => assert_eq!(text, "h\u{e9}llo"),
        other => panic!("unexpected literal {:?}", other),
    }
}

#[test]
fn unterminated_string_reports_its_line() {
    let s = scanned("\"hello");
    assert_eq!(kinds(&s.tokens), vec![TokenType::EOF]);
    assert!(s.error);
    assert_eq!(s.errors, vec![Error::UnterminatedString { line: 1 }]);
}

#[test]
fn decimal_number_value() {
    let s = scanned("1.0");
    assert_eq!(kinds(&s.tokens), vec![TokenType::Number, TokenType::EOF]);
    assert_eq!(number_of(&s.tokens[0]), 1.0);
    let s = scanned("12.375");
    assert_eq!(number_of(&s.tokens[0]), 12.375);
}

#[test]
fn trailing_dot_is_not_part_of_number() {
    let s = scanned("1.");
    assert_eq!(kinds(&s.tokens), vec![TokenType::Number, TokenType::Dot, TokenType::EOF]);
    assert_eq!(number_of(&s.tokens[0]), 1.0);
    let s = scanned("1.x");
    assert_eq!(kinds(&s.tokens), vec![TokenType::Number, TokenType::Dot, TokenType::Identifier, TokenType::EOF]);
}

#[test]
fn second_line_tokens_carry_line_two() {
    let s = scanned("1 + 2\n3 + 4");
    assert_eq!(s.tokens.len(), 7);
    let lines: Vec<u64> = s.tokens.iter().map(|t| t.line).collect();
    assert_eq!(lines, vec![1, 1, 1, 2, 2, 2, 2]);
    assert_eq!(
        kinds(&s.tokens),
        vec![
            TokenType::Number,
            TokenType::Plus,
            TokenType::Number,
            TokenType::Number,
            TokenType::Plus,
            TokenType::Number,
            TokenType::EOF
        ]
    );
}

#[test]
fn two_scans_are_identical() {
    let src = "var x = \"a\nb\" + 3.5; // note\nprint x >= 2 @";
    let a = scanned(src);
    let b = scanned(src);
    assert_eq!(format!("{:?}", a.tokens), format!("{:?}", b.tokens));
    assert_eq!(a.errors, b.errors);
    assert_eq!(a.error, b.error);
}

#[test]
fn reserved_words_scan_to_their_kinds() {
    let table = [
        ("and", TokenType::And),
        ("class", TokenType::Class),
        ("else", TokenType::Else),
        ("false", TokenType::False),
        ("for", TokenType::For),
        ("fun", TokenType::Fun),
        ("if", TokenType::If),
        ("nil", TokenType::Nil),
        ("or", TokenType::Or),
        ("print", TokenType::Print),
        ("return", TokenType::Return),
        ("this", TokenType::This),
        ("true", TokenType::True),
        ("var", TokenType::Var),
        ("while", TokenType::While),
    ];
    for (word, kind) in table {
        let s = scanned(word);
        assert_eq!(kinds(&s.tokens), vec![kind, TokenType::EOF], "{}", word);
        assert_eq!(s.tokens[0].lexeme, word.as_bytes().to_vec());
    }
}

#[test]
fn other_words_are_identifiers() {
    for word in ["And", "classy", "_x", "x1", "whiles", "fo", "returned", "super"] {
        let s = scanned(word);
        assert_eq!(kinds(&s.tokens), vec![TokenType::Identifier, TokenType::EOF], "{}", word);
        assert_eq!(s.tokens[0].lexeme, word.as_bytes().to_vec());
    }
}

#[test]
fn lone_operator_at_end_is_single_variant() {
    let cases = [
        ("=", TokenType::Equal),
        ("!", TokenType::Bang),
        ("<", TokenType::Less),
        (">", TokenType::Greater),
    ];
    for (src, kind) in cases {
        let s = scanned(src);
        assert_eq!(kinds(&s.tokens), vec![kind, TokenType::EOF], "{}", src);
        assert!(!s.error);
    }
}

#[test]
fn compound_operators() {
    let s = scanned("== != <= >= = ! < >");
    assert_eq!(
        kinds(&s.tokens),
        vec![
            TokenType::EqualEqual,
            TokenType::BangEqual,
            TokenType::LessEqual,
            TokenType::GreaterEqual,
            TokenType::Equal,
            TokenType::Bang,
            TokenType::Less,
            TokenType::Greater,
            TokenType::EOF
        ]
    );
    assert_eq!(s.tokens[0].lexeme, b"==".to_vec());
}

#[test]
fn single_character_tokens() {
    let s = scanned("(){},.-+;*/");
    assert_eq!(
        kinds(&s.tokens),
        vec![
            TokenType::LeftParen,
            TokenType::RightParen,
            TokenType::LeftBrace,
            TokenType::RightBrace,
            TokenType::Comma,
            TokenType::Dot,
            TokenType::Minus,
            TokenType::Plus,
            TokenType::Semicolon,
            TokenType::Star,
            TokenType::Slash,
            TokenType::EOF
        ]
    );
}

#[test]
fn comment_runs_to_end_of_line() {
    let s = scanned("1 // a comment + 2\n3");
    assert_eq!(kinds(&s.tokens), vec![TokenType::Number, TokenType::Number, TokenType::EOF]);
    assert_eq!(s.tokens[1].line, 2);
    assert_eq!(s.tokens[2].line, 2);
}

#[test]
fn unrecognized_character_is_skipped() {
    let s = scanned("1 @ 2\n#");
    assert_eq!(kinds(&s.tokens), vec![TokenType::Number, TokenType::Number, TokenType::EOF]);
    assert!(s.error);
    assert_eq!(
        s.errors,
        vec![
            Error::UnrecognizedCharacter { character: b'@', line: 1 },
            Error::UnrecognizedCharacter { character: b'#', line: 2 }
        ]
    );
}

#[test]
fn multiline_string_counts_lines() {
    let s = scanned("\"a\nb\" x");
    assert_eq!(kinds(&s.tokens), vec![TokenType::String, TokenType::Identifier, TokenType::EOF]);
    assert_eq!(s.tokens[0].line, 1);
    assert_eq!(s.tokens[1].line, 2);
    assert_eq!(s.tokens[2].line, 2);
}

#[test]
fn empty_source_gives_only_end_marker() {
    let s = scanned("");
    assert_eq!(kinds(&s.tokens), vec![TokenType::EOF]);
    assert_eq!(s.tokens[0].line, 1);
    assert!(!s.error);
}

#[test]
fn run_scans_valid_bytes() {
    let s = run(b"print 1;".to_vec()).unwrap();
    assert_eq!(
        kinds(&s.tokens),
        vec![TokenType::Print, TokenType::Number, TokenType::Semicolon, TokenType::EOF]
    );
}

#[test]
fn run_rejects_invalid_utf8() {
    assert!(run(vec![b'"', 0xff, b'"']).is_none());
}
