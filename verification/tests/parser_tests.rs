use toyc::token::ParseError;
use toyc::token::Token;
use toyc::syntax::FunctionCall;
use toyc::syntax::FunctionDeclare;
use toyc::syntax::Parsed;
use toyc::syntax::VariableDeclare;
use toyc::lexer::tokeniser;
use toyc::parser::parser;

#[test]
fn parses_integer_declaration() {
    let tokens = tokeniser(String::from("int x = 5;\n")).unwrap();
    let parsed = parser(tokens).unwrap();
    assert_eq!(
        parsed,
        vec![Parsed::VariableDeclare(VariableDeclare {
            type_class: String::from("i32"),
            name: String::from("x"),
            value: String::from("5"),
        })]
    );
}

#[test]
fn integer_value_expression_concatenates_without_whitespace() {
    let tokens = tokeniser(String::from("int x = 1;\nint y = x + 2 * 3;\n")).unwrap();
    let parsed = parser(tokens).unwrap();
    assert_eq!(
        parsed[1],
        Parsed::VariableDeclare(VariableDeclare {
            type_class: String::from("i32"),
            name: String::from("y"),
            value: String::from("x+2*3"),
        })
    );
}

#[test]
fn parses_string_declaration_whole_token() {
    let tokens = tokeniser(String::from("string s = \"some text\";\n")).unwrap();
    let parsed = parser(tokens).unwrap();
    assert_eq!(
        parsed,
        vec![Parsed::VariableDeclare(VariableDeclare {
            type_class: String::from("String"),
            name: String::from("s"),
            value: String::from("some text"),
        })]
    );
}

#[test]
fn parses_boolean_comparison_value() {
    let tokens = tokeniser(String::from("int x = 1;\nint y = 2;\nbool b = x == y;\n")).unwrap();
    let parsed = parser(tokens).unwrap();
    assert_eq!(
        parsed[2],
        Parsed::VariableDeclare(VariableDeclare {
            type_class: String::from("bool"),
            name: String::from("b"),
            value: String::from("x==y"),
        })
    );
}

#[test]
fn boolean_comparison_keeps_number_operands() {
    let tokens = tokeniser(String::from("int x = 1;\nbool b = x == 5;\n")).unwrap();
    let parsed = parser(tokens).unwrap();
    assert_eq!(
        parsed[1],
        Parsed::VariableDeclare(VariableDeclare {
            type_class: String::from("bool"),
            name: String::from("b"),
            value: String::from("x==5"),
        })
    );
}

#[test]
fn boolean_comparison_of_two_numbers() {
    let tokens = vec![
        Token::LetBool,
        Token::VarName(String::from("b")),
        Token::EqualsTo,
        Token::Number(String::from("3"), 3),
        Token::Equality,
        Token::Number(String::from("4"), 4),
        Token::Semicolon,
    ];
    let parsed = parser(tokens).unwrap();
    assert_eq!(
        parsed,
        vec![Parsed::VariableDeclare(VariableDeclare {
            type_class: String::from("bool"),
            name: String::from("b"),
            value: String::from("3==4"),
        })]
    );
}

#[test]
fn parses_function_declaration_and_call() {
    let tokens = tokeniser(String::from("proc foo(int a) {\nfoo(1);\n")).unwrap();
    let parsed = parser(tokens).unwrap();
    assert_eq!(
        parsed,
        vec![
            Parsed::FunctionDeclare(FunctionDeclare {
                name: String::from("foo"),
                parameters: String::from("int a"),
            }),
            Parsed::FunctionCall(FunctionCall {
                name: String::from("foo"),
                parameters: String::from("1"),
            }),
        ]
    );
}

#[test]
fn comment_only_line_produces_no_node() {
    let tokens = tokeniser(String::from("# nothing here\n")).unwrap();
    assert_eq!(parser(tokens), Ok(vec![]));
}

#[test]
fn block_close_parses_standalone() {
    let tokens = tokeniser(String::from("}\n")).unwrap();
    assert_eq!(parser(tokens), Ok(vec![Parsed::RSquirly(String::from("}"))]));
}

#[test]
fn if_with_open_brace_parses() {
    let parsed = parser(vec![
        Token::If,
        Token::Parameters(String::from("x==1")),
        Token::LSquirly,
    ])
    .unwrap();
    assert_eq!(parsed, vec![Parsed::If(String::from("x==1"))]);
}

#[test]
fn if_without_open_brace_is_dropped_silently() {
    let parsed = parser(vec![Token::If, Token::Parameters(String::from("x==1"))]).unwrap();
    assert_eq!(parsed, vec![]);
}

#[test]
fn or_if_and_else_parse() {
    let parsed = parser(vec![
        Token::OrIf,
        Token::Parameters(String::from("x==2")),
        Token::LSquirly,
        Token::NewLine,
        Token::Else,
    ])
    .unwrap();
    assert_eq!(
        parsed,
        vec![Parsed::OrIf(String::from("x==2")), Parsed::Else]
    );
}

#[test]
fn declaration_without_assignment_is_invalid_syntax() {
    let tokens = tokeniser(String::from("int x 5;\n")).unwrap();
    assert_eq!(parser(tokens), Err(ParseError::InvalidSyntax));
}

#[test]
fn declaration_without_terminator_is_invalid_syntax() {
    let tokens = tokeniser(String::from("int x = 5\n")).unwrap();
    assert_eq!(parser(tokens), Err(ParseError::InvalidSyntax));
}

#[test]
fn string_declaration_without_assignment_is_invalid_syntax() {
    let tokens = vec![
        Token::LetString,
        Token::VarName(String::from("s")),
        Token::Strings(String::from("t")),
    ];
    assert_eq!(parser(tokens), Err(ParseError::InvalidSyntax));
}

#[test]
fn bool_declaration_without_assignment_is_invalid_syntax() {
    let tokens = vec![
        Token::LetBool,
        Token::VarName(String::from("b")),
        Token::Boolean(true),
    ];
    assert_eq!(parser(tokens), Err(ParseError::InvalidSyntax));
}

#[test]
fn call_without_open_paren_is_invalid_syntax() {
    let tokens = vec![Token::FuncName(String::from("f")), Token::Semicolon];
    assert_eq!(parser(tokens), Err(ParseError::InvalidSyntax));
}

#[test]
fn empty_token_stream_parses_to_no_nodes() {
    assert_eq!(parser(vec![]), Ok(vec![]));
}

#[test]
fn print_collects_parameter_text() {
    let tokens = tokeniser(String::from("print(\"hello world\");\n")).unwrap();
    let parsed = parser(tokens).unwrap();
    assert_eq!(parsed, vec![Parsed::Print(String::from("\"hello world\""))]);
}
