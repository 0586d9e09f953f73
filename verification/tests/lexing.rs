use zo_lexer::classifier::classify;
use zo_lexer::classifier::classify_with_diagnostics;
use zo_lexer::classifier::is_identifier;
use zo_lexer::classifier::is_keyword;
use zo_lexer::classifier::tokenizer;
use zo_lexer::parse_int::parse_i64_word;
use zo_lexer::splitter::split_words_into_vec;
use zo_lexer::token::Diagnostic;
use zo_lexer::token::DiagnosticKind;
use zo_lexer::token::TextSpan;
use zo_lexer::token::Token;
use zo_lexer::token::TokenKind;

fn tok(kind: TokenKind, size: usize, index: usize) -> Token {
    Token {
        kind,
        span: TextSpan { size, index },
    }
}

fn words(items: &[&str]) -> Vec<String> {
    items.iter().map(|w| String::from(*w)).collect()
}

#[test]
fn whitespace_only_yields_no_tokens() {
    assert_eq!(tokenizer(String::from("   \t\r\n  ")), vec![]);
    assert_eq!(tokenizer(String::from("")), vec![]);
    assert_eq!(tokenizer(String::from("\n")), vec![]);
}

#[test]
fn int_literal_carries_exact_value() {
    let tokens = tokenizer(String::from("9000"));
    assert_eq!(tokens[0], tok(TokenKind::IntLiteral(9000), 8, 0));
    // the word does not start with a letter, so the operator rule also runs
    // and falls back to Unidentified
    assert_eq!(tokens[1], tok(TokenKind::Unidentified, 4, 0));
    assert_eq!(tokens.len(), 2);
}

#[test]
fn int_literal_signs_and_zeros() {
    assert_eq!(tokenizer(String::from("-42"))[0], tok(TokenKind::IntLiteral(-42), 8, 0));
    assert_eq!(tokenizer(String::from("+7"))[0], tok(TokenKind::IntLiteral(7), 8, 0));
    assert_eq!(tokenizer(String::from("007"))[0], tok(TokenKind::IntLiteral(7), 8, 0));
}

#[test]
fn int_literal_bounds() {
    let min = tokenizer(String::from("-9223372036854775808"));
    assert_eq!(min[0], tok(TokenKind::IntLiteral(i64::MIN), 8, 0));
    let max = tokenizer(String::from("9223372036854775807"));
    assert_eq!(max[0], tok(TokenKind::IntLiteral(i64::MAX), 8, 0));
    // one past the top does not parse; only the operator fallback fires
    let over = tokenizer(String::from("9223372036854775808"));
    assert_eq!(over, vec![tok(TokenKind::Unidentified, 19, 0)]);
}

#[test]
fn parse_i64_word_exact() {
    assert_eq!(parse_i64_word("123"), Some(123));
    assert_eq!(parse_i64_word("-0"), Some(0));
    assert_eq!(parse_i64_word(""), None);
    assert_eq!(parse_i64_word("+"), None);
    assert_eq!(parse_i64_word("--1"), None);
    assert_eq!(parse_i64_word("12a"), None);
    assert_eq!(parse_i64_word("00000000000000000000009"), Some(9));
}

#[test]
fn func_and_name() {
    let tokens = tokenizer(String::from("func foo"));
    assert_eq!(
        tokens,
        vec![
            tok(TokenKind::Func, 4, 0),
            tok(TokenKind::FuncName(String::from("foo")), 3, 1),
        ]
    );
}

#[test]
fn let_and_const_names() {
    assert_eq!(
        tokenizer(String::from("let x")),
        vec![
            tok(TokenKind::Let, 3, 0),
            tok(TokenKind::VariableName(String::from("x")), 1, 1),
        ]
    );
    assert_eq!(
        tokenizer(String::from("const x")),
        vec![
            tok(TokenKind::ConstKeyword, 5, 0),
            tok(TokenKind::VariableName(String::from("x")), 1, 1),
        ]
    );
}

#[test]
fn colon_string_span_comes_from_colon() {
    let tokens = tokenizer(String::from(": String"));
    assert_eq!(tokens[0], tok(TokenKind::TypeOf, 1, 0));
    // size is the colon's length, index is the consumed type word's position
    assert_eq!(tokens[1], tok(TokenKind::String(String::from(":")), 1, 1));
    assert_eq!(tokens.len(), 2);
}

#[test]
fn colon_number_and_char() {
    assert_eq!(
        tokenizer(String::from(": Number")),
        vec![tok(TokenKind::TypeOf, 1, 0), tok(TokenKind::Number, 1, 1)]
    );
    assert_eq!(
        tokenizer(String::from(": Char")),
        vec![tok(TokenKind::TypeOf, 1, 0), tok(TokenKind::Char, 1, 1)]
    );
    assert_eq!(
        tokenizer(String::from(": Foo")),
        vec![tok(TokenKind::TypeOf, 1, 0), tok(TokenKind::Unidentified, 1, 1)]
    );
}

#[test]
fn colon_as_last_word_consumes_nothing() {
    assert_eq!(tokenizer(String::from(":")), vec![tok(TokenKind::TypeOf, 1, 0)]);
}

#[test]
fn func_alone_reports_missing_name() {
    let (tokens, diags) = classify_with_diagnostics(&words(&["func"]));
    assert_eq!(
        tokens,
        vec![tok(TokenKind::Func, 4, 0), tok(TokenKind::Unidentified, 0, 1)]
    );
    assert_eq!(
        diags,
        vec![Diagnostic { kind: DiagnosticKind::MissingFunctionName, index: 0 }]
    );
}

#[test]
fn let_and_const_alone_report_missing_variable() {
    let (tokens, diags) = classify_with_diagnostics(&words(&["let"]));
    assert_eq!(
        tokens,
        vec![tok(TokenKind::Let, 3, 0), tok(TokenKind::Unidentified, 0, 1)]
    );
    assert_eq!(
        diags,
        vec![Diagnostic { kind: DiagnosticKind::MissingVariableName, index: 0 }]
    );
    let (tokens, diags) = classify_with_diagnostics(&words(&["a", "const"]));
    assert_eq!(tokens[1], tok(TokenKind::ConstKeyword, 5, 1));
    assert_eq!(tokens[2], tok(TokenKind::Unidentified, 0, 2));
    assert_eq!(
        diags,
        vec![Diagnostic { kind: DiagnosticKind::MissingVariableName, index: 1 }]
    );
}

#[test]
fn compound_consumes_whatever_follows() {
    assert_eq!(
        tokenizer(String::from("func (")),
        vec![
            tok(TokenKind::Func, 4, 0),
            tok(TokenKind::FuncName(String::from("(")), 1, 1),
        ]
    );
    assert_eq!(
        tokenizer(String::from("let 5")),
        vec![
            tok(TokenKind::Let, 3, 0),
            tok(TokenKind::VariableName(String::from("5")), 1, 1),
        ]
    );
}

#[test]
fn punctuation_kinds_in_isolation() {
    assert_eq!(classify(&words(&["("])), vec![tok(TokenKind::LeftParen, 1, 0)]);
    assert_eq!(classify(&words(&[")"])), vec![tok(TokenKind::RightParen, 1, 0)]);
    // the curly mapping is deliberately swapped: pinned as observed behaviour
    assert_eq!(classify(&words(&["{"])), vec![tok(TokenKind::RightCurly, 1, 0)]);
    assert_eq!(classify(&words(&["}"])), vec![tok(TokenKind::LeftCurly, 1, 0)]);
    assert_eq!(classify(&words(&[";"])), vec![tok(TokenKind::SemiColon, 1, 0)]);
    assert_eq!(classify(&words(&[":"])), vec![tok(TokenKind::TypeOf, 1, 0)]);
    assert_eq!(classify(&words(&["::"])), vec![tok(TokenKind::SpecialType, 2, 0)]);
    assert_eq!(classify(&words(&["=>"])), vec![tok(TokenKind::ArrowFunction, 2, 0)]);
    assert_eq!(classify(&words(&["="])), vec![tok(TokenKind::Equals, 1, 0)]);
}

#[test]
fn punctuation_runs_split_one_word_each() {
    assert_eq!(split_words_into_vec(String::from("( ) { } ; : ::")).len(), 7);
    assert_eq!(split_words_into_vec(String::from(";;;")), vec![String::from(";;;")]);
    assert_eq!(
        split_words_into_vec(String::from(";:")),
        vec![String::from(";"), String::from(":")]
    );
    assert_eq!(
        split_words_into_vec(String::from("(())")),
        vec![String::from("(("), String::from("))")]
    );
    assert_eq!(
        split_words_into_vec(String::from("a(b")),
        vec![String::from("a"), String::from("("), String::from("b")]
    );
}

#[test]
fn multi_character_punctuation_run_is_unidentified() {
    assert_eq!(classify(&words(&["(("])), vec![tok(TokenKind::Unidentified, 2, 0)]);
}

#[test]
fn splitting_is_idempotent_on_single_words() {
    for source in ["foo bar", "func main ( ) { }", "x => y ; ::"] {
        let first = split_words_into_vec(String::from(source));
        for word in first {
            let again = split_words_into_vec(word.clone());
            assert_eq!(again, vec![word]);
        }
    }
}

#[test]
fn unicode_whitespace_separates_words() {
    assert_eq!(
        split_words_into_vec(String::from("a\u{a0}b\u{2003}c")),
        vec![String::from("a"), String::from("b"), String::from("c")]
    );
    assert_eq!(tokenizer(String::from("\u{2028}\u{3000} ")), vec![]);
}

#[test]
fn arrow_stays_inside_ordinary_words() {
    assert_eq!(
        split_words_into_vec(String::from("x=>y")),
        vec![String::from("x=>y")]
    );
    assert_eq!(
        split_words_into_vec(String::from("x => y")),
        vec![String::from("x"), String::from("=>"), String::from("y")]
    );
}

#[test]
fn all_simple_keywords() {
    assert_eq!(
        tokenizer(String::from("if else true false return")),
        vec![
            tok(TokenKind::If, 2, 0),
            tok(TokenKind::Else, 4, 1),
            tok(TokenKind::True, 4, 2),
            tok(TokenKind::False, 5, 3),
            tok(TokenKind::EndOfFunctionKeyWord, 6, 4),
        ]
    );
}

#[test]
fn unknown_alphabetic_word_is_unidentified() {
    assert_eq!(tokenizer(String::from("bazz")), vec![tok(TokenKind::Unidentified, 4, 0)]);
}

#[test]
fn keyword_and_identifier_split_on_first_character() {
    assert!(is_keyword("func"));
    assert!(is_keyword("zebra"));
    assert!(!is_keyword("5x"));
    assert!(!is_keyword("::"));
    assert!(is_identifier("::"));
    assert!(is_identifier("=>"));
    assert!(!is_identifier("func"));
}

#[test]
fn alphabetic_test_is_unicode_wide() {
    assert!(is_keyword("\u{e9}tage"));
    assert!(!is_identifier("\u{e9}tage"));
    assert!(is_keyword("\u{3bb}"));
    // a word starting with a non-ASCII letter takes the keyword branch and
    // falls back to Unidentified, with no operator token after it
    assert_eq!(
        tokenizer(String::from("\u{e9}tage")),
        vec![tok(TokenKind::Unidentified, 5, 0)]
    );
}

#[test]
fn display_text_of_kinds() {
    assert_eq!(TokenKind::SemiColon.display_text(), "SemiColon");
    assert_eq!(TokenKind::EndOfFunctionKeyWord.display_text(), "return");
    assert_eq!(TokenKind::ConstKeyword.display_text(), "const");
    assert_eq!(TokenKind::Let.display_text(), "let");
    assert_eq!(TokenKind::If.display_text(), "if");
    assert_eq!(TokenKind::Else.display_text(), "else");
    assert_eq!(TokenKind::True.display_text(), "true");
    assert_eq!(TokenKind::False.display_text(), "false");
    assert_eq!(TokenKind::Func.display_text(), "func");
    assert_eq!(TokenKind::ArrowFunction.display_text(), "=>");
    assert_eq!(TokenKind::LeftParen.display_text(), "(");
    assert_eq!(TokenKind::RightParen.display_text(), ")");
    assert_eq!(TokenKind::LeftCurly.display_text(), "{");
    assert_eq!(TokenKind::RightCurly.display_text(), "}");
    assert_eq!(TokenKind::Unidentified.display_text(), "");
    assert_eq!(TokenKind::SpecialType.display_text(), "::");
    assert_eq!(TokenKind::TypeOf.display_text(), ":");
    assert_eq!(TokenKind::Equals.display_text(), "=");
    assert_eq!(TokenKind::Char.display_text(), "char");
    assert_eq!(TokenKind::Number.display_text(), "number");
    assert_eq!(TokenKind::FuncName(String::from("foo")).display_text(), "foo");
    assert_eq!(TokenKind::VariableName(String::from("x")).display_text(), "x");
    assert_eq!(TokenKind::String(String::from(":")).display_text(), ":");
}

#[test]
fn display_text_of_int_literals() {
    assert_eq!(TokenKind::IntLiteral(0).display_text(), "0");
    assert_eq!(TokenKind::IntLiteral(5).display_text(), "5");
    assert_eq!(TokenKind::IntLiteral(-123).display_text(), "-123");
    assert_eq!(TokenKind::IntLiteral(10).display_text(), "10");
    assert_eq!(
        TokenKind::IntLiteral(i64::MIN).display_text(),
        "-9223372036854775808"
    );
    assert_eq!(
        TokenKind::IntLiteral(i64::MAX).display_text(),
        "9223372036854775807"
    );
}

#[test]
fn whole_declaration_lexes_in_order() {
    let tokens = tokenizer(String::from("func main ( ) { let x = 5 ; }"));
    assert_eq!(
        tokens,
        vec![
            tok(TokenKind::Func, 4, 0),
            tok(TokenKind::FuncName(String::from("main")), 4, 1),
            tok(TokenKind::LeftParen, 1, 2),
            tok(TokenKind::RightParen, 1, 3),
            tok(TokenKind::RightCurly, 1, 4),
            tok(TokenKind::Let, 3, 5),
            tok(TokenKind::VariableName(String::from("x")), 1, 6),
            tok(TokenKind::Equals, 1, 7),
            tok(TokenKind::IntLiteral(5), 8, 8),
            tok(TokenKind::Unidentified, 1, 8),
            tok(TokenKind::SemiColon, 1, 9),
            tok(TokenKind::LeftCurly, 1, 10),
        ]
    );
}
