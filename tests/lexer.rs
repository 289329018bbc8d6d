use teeny_tiny::emit::Emitter;
use teeny_tiny::lex::{tokenize, LexError, Lexer, Token, TokenType};

fn kinds_and_texts(src: &str) -> Vec<(TokenType, String)> {
    tokenize(src.to_string())
        .unwrap()
        .into_iter()
        .map(|t| (t.kind, t.text))
        .collect()
}

#[test]
fn tokenizing_twice_gives_the_same_tokens() {
    let src = "LET a = 1\nWHILE a <= 10 REPEAT\nPRINT \"x\"\nENDWHILE\n";
    assert_eq!(kinds_and_texts(src), kinds_and_texts(src));
    assert_eq!(
        tokenize("1.".to_string()).map(|v| v.len()),
        tokenize("1.".to_string()).map(|v| v.len())
    );
}

#[test]
fn token_sequence_of_a_statement() {
    let got = kinds_and_texts("IF x >= 10 THEN # note\n");
    let want = vec![
        (TokenType::IF, "IF".to_string()),
        (TokenType::IDENT, "x".to_string()),
        (TokenType::GTEQ, ">=".to_string()),
        (TokenType::NUMBER, "10".to_string()),
        (TokenType::THEN, "THEN".to_string()),
        (TokenType::NEWLINE, "\n".to_string()),
        (TokenType::NEWLINE, "\n".to_string()),
        (TokenType::EOF, "".to_string()),
    ];
    assert_eq!(got, want);
}

#[test]
fn operators_one_and_two_characters() {
    let got: Vec<TokenType> = kinds_and_texts("= == < <= > >= != + - * /")
        .into_iter()
        .map(|(k, _)| k)
        .collect();
    assert_eq!(
        got,
        vec![
            TokenType::EQ,
            TokenType::EQEQ,
            TokenType::LT,
            TokenType::LTEQ,
            TokenType::GT,
            TokenType::GTEQ,
            TokenType::NOTEQ,
            TokenType::PLUS,
            TokenType::MINUS,
            TokenType::ASTERISK,
            TokenType::SLASH,
            TokenType::NEWLINE,
            TokenType::EOF,
        ]
    );
}

#[test]
fn keywords_are_case_sensitive() {
    let got = kinds_and_texts("print PRINT Label LABEL ENDWHILEx");
    assert_eq!(got[0], (TokenType::IDENT, "print".to_string()));
    assert_eq!(got[1], (TokenType::PRINT, "PRINT".to_string()));
    assert_eq!(got[2], (TokenType::IDENT, "Label".to_string()));
    assert_eq!(got[3], (TokenType::LABEL, "LABEL".to_string()));
    assert_eq!(got[4], (TokenType::IDENT, "ENDWHILEx".to_string()));
}

#[test]
fn keyword_lookup() {
    assert_eq!(Token::check_if_keyword(&"WHILE".to_string()), Some(TokenType::WHILE));
    assert_eq!(Token::check_if_keyword(&"REPEAT".to_string()), Some(TokenType::REPEAT));
    assert_eq!(Token::check_if_keyword(&"while".to_string()), None);
    assert_eq!(Token::check_if_keyword(&"EOF".to_string()), None);
    assert_eq!(Token::check_if_keyword(&"PLUS".to_string()), None);
    assert_eq!(TokenType::ENDIF.name(), "ENDIF");
}

#[test]
fn identifiers_take_letters_and_digits() {
    let got = kinds_and_texts("abc12 x9y éa");
    assert_eq!(got[0], (TokenType::IDENT, "abc12".to_string()));
    assert_eq!(got[1], (TokenType::IDENT, "x9y".to_string()));
    assert_eq!(got[2], (TokenType::IDENT, "éa".to_string()));
}

#[test]
fn numbers_and_strings() {
    let got = kinds_and_texts("12.50 7 \"a b!\"");
    assert_eq!(got[0], (TokenType::NUMBER, "12.50".to_string()));
    assert_eq!(got[1], (TokenType::NUMBER, "7".to_string()));
    assert_eq!(got[2], (TokenType::STRING, "\"a b!\"".to_string()));
}

#[test]
fn lexical_errors() {
    assert_eq!(tokenize("3.x".to_string()).err(), Some(LexError::IllegalNumber));
    assert_eq!(tokenize("!x".to_string()).err(), Some(LexError::ExpectedNotEq));
    assert_eq!(tokenize("\"tab\there\"".to_string()).err(), Some(LexError::IllegalStringChar));
    assert_eq!(tokenize("@".to_string()).err(), Some(LexError::UnknownToken('@')));
}

#[test]
fn end_of_input_repeats() {
    let mut lexer = Lexer::new("x".to_string());
    assert_eq!(lexer.get_token().unwrap().kind, TokenType::IDENT);
    assert_eq!(lexer.get_token().unwrap().kind, TokenType::NEWLINE);
    for _ in 0..3 {
        let t = lexer.get_token().unwrap();
        assert_eq!(t.kind, TokenType::EOF);
        assert_eq!(t.text, "");
    }
}

#[test]
fn token_new_keeps_fields() {
    let t = Token::new("abc".to_string(), TokenType::IDENT);
    assert_eq!(t.text, "abc");
    assert_eq!(t.kind, TokenType::IDENT);
}

#[test]
fn emitter_regions() {
    let mut e = Emitter::new("out.c");
    e.emit("a");
    e.emit_line("b");
    e.header_line("h");
    e.emit("c");
    assert_eq!(e.finalize(), "h\nab\nc");
    assert_eq!(e.full_path(), "out.c");
    assert_eq!(Emitter::new("x.c").finalize(), "");
}
