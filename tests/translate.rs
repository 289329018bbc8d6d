use teeny_tiny::emit::Emitter;
use teeny_tiny::lex::{LexError, TokenType};
use teeny_tiny::parse::{translate, Parser, TranslateError};
use teeny_tiny::lex::Lexer;

const OPEN: &str = "#include <stdio.h>\nint main(void){\n";
const CLOSE: &str = "return 0;\n}\n";

fn run(src: &str) -> Result<String, TranslateError> {
    translate(src.to_string())
}

/// The text between the fixed opening (with any declarations) and the fixed closing.
fn body_of(out: &str) -> &str {
    assert!(out.starts_with(OPEN));
    assert!(out.ends_with(CLOSE));
    let mut rest = &out[OPEN.len()..out.len() - CLOSE.len()];
    while rest.starts_with("float ") {
        rest = &rest[rest.find('\n').unwrap() + 1..];
    }
    rest
}

#[test]
fn print_string_round_trip() {
    let out = run("PRINT \"HELLO\"\n").unwrap();
    assert_eq!(out, format!("{}printf(\"HELLO\\n\");\n{}", OPEN, CLOSE));
}

#[test]
fn let_then_print_declares_and_assigns() {
    let out = run("LET x = 1\nPRINT x\n").unwrap();
    assert_eq!(
        out,
        "#include <stdio.h>\nint main(void){\nfloat x;\nx = 1;\nprintf(\"%.2f\\n\", (float)(x));\nreturn 0;\n}\n"
    );
}

#[test]
fn if_statement_guard_and_block() {
    let out = run("IF 1 > 0 THEN\nPRINT \"yes\"\nENDIF\n").unwrap();
    assert_eq!(body_of(&out), "if((1>0)){\nprintf(\"yes\\n\");\n}\n");
}

#[test]
fn goto_without_label_fails_at_the_end() {
    assert_eq!(run("GOTO a\n"), Err(TranslateError::UndeclaredLabel("a".to_string())));
}

#[test]
fn goto_failure_comes_after_whole_program() {
    // The statements after the GOTO are still translated: a later fault wins.
    assert_eq!(
        run("GOTO a\nPRINT y\n"),
        Err(TranslateError::UndefinedVariable("y".to_string()))
    );
}

#[test]
fn malformed_number_is_a_lexical_fault() {
    assert_eq!(run("LET x = 1.\n"), Err(TranslateError::Lex(LexError::IllegalNumber)));
}

#[test]
fn read_before_assignment_fails() {
    assert_eq!(run("PRINT y\n"), Err(TranslateError::UndefinedVariable("y".to_string())));
    assert_eq!(
        run("LET x = y\n"),
        Err(TranslateError::UndefinedVariable("y".to_string()))
    );
    assert_eq!(
        run("PRINT x\nLET x = 1\n"),
        Err(TranslateError::UndefinedVariable("x".to_string()))
    );
}

#[test]
fn input_then_read_is_allowed() {
    let out = run("INPUT n\nPRINT n * 2\n").unwrap();
    assert_eq!(
        out,
        format!(
            "#include <stdio.h>\nint main(void){{\nfloat n;\n{}{}",
            "if(0 == scanf(\"%f\", &n)) {\nn = 0;\nscanf(\"%*s\");\n}\nprintf(\"%.2f\\n\", (float)(n*2));\n",
            CLOSE
        )
    );
}

#[test]
fn labels_declared_after_goto_are_accepted() {
    let out = run("GOTO a\nLABEL a\n").unwrap();
    assert_eq!(body_of(&out), "goto a;\na:\n");
    let out = run("LABEL a\nGOTO a\n").unwrap();
    assert_eq!(body_of(&out), "a:\ngoto a;\n");
}

#[test]
fn first_undeclared_label_is_reported() {
    assert_eq!(
        run("GOTO b\nGOTO c\nLABEL c\n"),
        Err(TranslateError::UndeclaredLabel("b".to_string()))
    );
}

#[test]
fn duplicate_label_fails() {
    assert_eq!(
        run("LABEL a\nLABEL a\n"),
        Err(TranslateError::LabelExists("a".to_string()))
    );
}

#[test]
fn nested_blocks_balance_braces() {
    let src = "LET i = 0\nWHILE i < 3 REPEAT\nIF i == 1 THEN\nPRINT i\nENDIF\nLET i = i + 1\nENDWHILE\n";
    let out = run(src).unwrap();
    let opens = out.matches("{\n").count();
    let closes = out.matches("}\n").count();
    assert_eq!(opens, 3);
    assert_eq!(opens, closes);
    assert_eq!(
        body_of(&out),
        "i = 0;\nwhile((i<3)){\nif((i==1)){\nprintf(\"%.2f\\n\", (float)(i));\n}\ni = i+1;\n}\n"
    );
}

#[test]
fn chained_comparison_kept_as_written() {
    let out = run("LET a = 1\nIF a < 2 <= 3 != -a THEN\nENDIF\n").unwrap();
    assert_eq!(body_of(&out), "a = 1;\nif((a<2<=3!=-a)){\n}\n");
}

#[test]
fn arithmetic_passes_through() {
    let out = run("LET a = -2 + 3 * 4 / +5 - 6.25\n").unwrap();
    assert_eq!(body_of(&out), "a = -2+3*4/+5-6.25;\n");
}

#[test]
fn leading_blank_lines_and_comments() {
    let out = run("\n\n# a comment\nPRINT \"hi\"\n\n\n").unwrap();
    assert_eq!(body_of(&out), "printf(\"hi\\n\");\n");
}

#[test]
fn empty_program() {
    assert_eq!(run("").unwrap(), format!("{}{}", OPEN, CLOSE));
}

#[test]
fn comparison_needs_an_operator() {
    assert_eq!(
        run("IF 1 THEN\nENDIF\n"),
        Err(TranslateError::ExpectedComparison("THEN".to_string()))
    );
}

#[test]
fn invalid_statement() {
    assert_eq!(
        run("THEN\n"),
        Err(TranslateError::InvalidStatement("THEN".to_string(), TokenType::THEN))
    );
    assert_eq!(
        run("x\n"),
        Err(TranslateError::InvalidStatement("x".to_string(), TokenType::IDENT))
    );
}

#[test]
fn unexpected_token_in_expression() {
    assert_eq!(
        run("LET x = \"s\"\n"),
        Err(TranslateError::UnexpectedToken("\"s\"".to_string()))
    );
}

#[test]
fn expected_token_kind() {
    assert_eq!(
        run("LET x 1\n"),
        Err(TranslateError::Expected { expected: TokenType::EQ, got: TokenType::NUMBER })
    );
    assert_eq!(
        run("PRINT 1 PRINT\n"),
        Err(TranslateError::Expected { expected: TokenType::NEWLINE, got: TokenType::PRINT })
    );
    assert_eq!(
        run("IF 1 > 0 THEN\nPRINT 1\n"),
        Err(TranslateError::InvalidStatement("".to_string(), TokenType::EOF))
    );
}

#[test]
fn lexical_faults() {
    assert_eq!(run("PRINT \"a%d\"\n"), Err(TranslateError::Lex(LexError::IllegalStringChar)));
    assert_eq!(run("PRINT \"a\\n\"\n"), Err(TranslateError::Lex(LexError::IllegalStringChar)));
    assert_eq!(run("PRINT \"open\n"), Err(TranslateError::Lex(LexError::IllegalStringChar)));
    assert_eq!(run("IF 1 ! 2 THEN\n"), Err(TranslateError::Lex(LexError::ExpectedNotEq)));
    assert_eq!(run("LET x = 1 ^ 2\n"), Err(TranslateError::Lex(LexError::UnknownToken('^'))));
}

#[test]
fn parser_over_given_lexer_and_emitter() {
    let lexer = Lexer::new("LET x = 2\n".to_string());
    let emitter = Emitter::new("out.c");
    let mut parser = Parser::new(lexer, emitter).unwrap();
    parser.program().unwrap();
    assert_eq!(parser.emitter().full_path(), "out.c");
    assert_eq!(
        parser.output(),
        "#include <stdio.h>\nint main(void){\nfloat x;\nx = 2;\nreturn 0;\n}\n"
    );
}

#[test]
fn parser_new_reports_lexical_fault_while_filling_window() {
    let lexer = Lexer::new("PRINT ?\n".to_string());
    let r = Parser::new(lexer, Emitter::new("out.c"));
    assert!(matches!(r, Err(TranslateError::Lex(LexError::UnknownToken('?')))));
}

#[test]
fn guarded_read_inside_loop_balances() {
    let out = run("INPUT n\nWHILE n > 0 REPEAT\nINPUT n\nENDWHILE\n").unwrap();
    let opens = out.matches("{\n").count();
    let closes = out.matches("}\n").count();
    assert_eq!(opens, 4);
    assert_eq!(closes, 4);
}

#[test]
fn braces_in_strings_are_not_markers() {
    let out = run("PRINT \"{\"\nPRINT \"}}\"\n").unwrap();
    assert_eq!(body_of(&out), "printf(\"{\\n\");\nprintf(\"}}\\n\");\n");
    assert_eq!(out.matches("{\n").count(), out.matches("}\n").count());
}

#[test]
fn repeated_assignment_declares_once() {
    let out = run("LET x = 1\nLET x = x + 1\nINPUT x\n").unwrap();
    assert_eq!(out.matches("float x;").count(), 1);
    assert!(out.starts_with("#include <stdio.h>\nint main(void){\nfloat x;\nx = 1;\n"));
}

#[test]
fn label_inside_block_is_declared_for_earlier_goto() {
    let out = run("GOTO top\nIF 1 == 1 THEN\nLABEL top\nENDIF\n").unwrap();
    assert_eq!(body_of(&out), "goto top;\nif((1==1)){\ntop:\n}\n");
}

#[test]
fn unclosed_block_fails() {
    assert_eq!(
        run("WHILE 1 < 2 REPEAT\n"),
        Err(TranslateError::InvalidStatement("".to_string(), TokenType::EOF))
    );
}
