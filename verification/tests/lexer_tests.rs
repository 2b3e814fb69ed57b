use toyc::token::LexError;
use toyc::token::Token;
use toyc::lexer::tokeniser;

#[test]
fn lexes_integer_declaration_and_print() {
    let tokens = tokeniser(String::from("int x = 5;\nprint(x);\n")).unwrap();
    assert_eq!(
        tokens,
        vec![
            Token::LetInt,
            Token::VarName(String::from("x")),
            Token::EqualsTo,
            Token::Number(String::from("5"), 5),
            Token::Semicolon,
            Token::NewLine,
            Token::Print,
            Token::LParen,
            Token::Parameters(String::from("x")),
            Token::RParen,
            Token::Semicolon,
            Token::NewLine,
        ]
    );
}

#[test]
fn lexes_string_declaration() {
    let tokens = tokeniser(String::from("string s = \"text\";\n")).unwrap();
    assert_eq!(
        tokens,
        vec![
            Token::LetString,
            Token::VarName(String::from("s")),
            Token::EqualsTo,
            Token::DblQuote,
            Token::Strings(String::from("text")),
            Token::DblQuote,
            Token::Semicolon,
            Token::NewLine,
        ]
    );
}

#[test]
fn lexes_boolean_literal_declaration() {
    let tokens = tokeniser(String::from("bool b = true;\n")).unwrap();
    assert_eq!(
        tokens,
        vec![
            Token::LetBool,
            Token::VarName(String::from("b")),
            Token::EqualsTo,
            Token::Boolean(true),
            Token::Semicolon,
            Token::NewLine,
        ]
    );
}

#[test]
fn keeps_spaces_and_quotes_inside_parameter_lists() {
    let tokens = tokeniser(String::from("print(\"hi there\");\n")).unwrap();
    assert_eq!(
        tokens,
        vec![
            Token::Print,
            Token::LParen,
            Token::Parameters(String::from("\"hi there\"")),
            Token::RParen,
            Token::Semicolon,
            Token::NewLine,
        ]
    );
}

#[test]
fn comment_runs_to_end_of_line() {
    let tokens = tokeniser(String::from("# a comment, with; stuff\nint x = 1;\n")).unwrap();
    assert_eq!(tokens[0], Token::Comment(String::from("# a comment, with; stuff")));
    assert_eq!(tokens[1], Token::NewLine);
    assert_eq!(tokens[2], Token::LetInt);
}

#[test]
fn number_with_leading_zeros_keeps_canonical_text() {
    let tokens = tokeniser(String::from("int x = 007;\n")).unwrap();
    assert_eq!(tokens[3], Token::Number(String::from("7"), 7));
}

#[test]
fn number_of_only_zeros_is_zero() {
    let tokens = tokeniser(String::from("int x = 000;\n")).unwrap();
    assert_eq!(tokens[3], Token::Number(String::from("0"), 0));
}

#[test]
fn declared_name_resolves_to_same_kind_later() {
    let tokens = tokeniser(String::from("int x = 5;\nx;\n")).unwrap();
    assert_eq!(tokens[6], Token::VarName(String::from("x")));
}

#[test]
fn declared_function_name_resolves_to_function_kind() {
    let tokens = tokeniser(String::from("proc foo(int a) {\nfoo(1);\n")).unwrap();
    assert_eq!(tokens[1], Token::FuncName(String::from("foo")));
    assert_eq!(tokens[7], Token::FuncName(String::from("foo")));
}

#[test]
fn undeclared_identifier_is_rejected() {
    assert_eq!(
        tokeniser(String::from("y;\n")),
        Err(LexError::UnknownIdentifier)
    );
}

#[test]
fn unsupported_character_is_rejected() {
    assert_eq!(
        tokeniser(String::from("int x = 5 @\n")),
        Err(LexError::InvalidCharacter)
    );
}

#[test]
fn integer_overflowing_target_type_is_no_number() {
    assert_eq!(
        tokeniser(String::from("int x = 99999999999;\n")),
        Err(LexError::UnknownIdentifier)
    );
}

#[test]
fn empty_input_lexes_to_no_tokens() {
    assert_eq!(tokeniser(String::new()), Ok(vec![]));
}

#[test]
fn trailing_buffer_without_terminator_is_dropped() {
    let tokens = tokeniser(String::from("int x")).unwrap();
    assert_eq!(tokens, vec![Token::LetInt]);
}

#[test]
fn equality_operator_lexes_as_one_token() {
    let tokens = tokeniser(String::from("int x = 1;\nint y = 2;\nbool b = x == y;\n")).unwrap();
    assert_eq!(
        &tokens[12..],
        &[
            Token::LetBool,
            Token::VarName(String::from("b")),
            Token::EqualsTo,
            Token::VarName(String::from("x")),
            Token::Equality,
            Token::VarName(String::from("y")),
            Token::Semicolon,
            Token::NewLine,
        ]
    );
}
