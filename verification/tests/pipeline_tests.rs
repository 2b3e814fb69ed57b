use toyc::token::Token;
use toyc::lexer::handle_ending_value;
use toyc::lexer::tokeniser;
use toyc::parser::parser;
use toyc::syntax::Parsed;
use toyc::syntax::VariableDeclare;
use toyc::generator::generator;

fn transpile(source: &str) -> String {
    let tokens = tokeniser(String::from(source)).unwrap();
    let parsed = parser(tokens).unwrap();
    generator(parsed)
}

#[test]
fn integer_declaration_and_print_end_to_end() {
    let tokens = tokeniser(String::from("int x = 5;\nprint(x);\n")).unwrap();
    assert!(matches!(tokens[0], Token::LetInt));
    assert!(matches!(tokens[6], Token::Print));
    let parsed = parser(tokens).unwrap();
    assert_eq!(
        parsed,
        vec![
            Parsed::VariableDeclare(VariableDeclare {
                type_class: String::from("i32"),
                name: String::from("x"),
                value: String::from("5"),
            }),
            Parsed::Print(String::from("x")),
        ]
    );
    assert_eq!(generator(parsed), "let x: i32 = 5;\nprintln!(x);");
}

#[test]
fn string_declaration_end_to_end() {
    assert_eq!(
        transpile("string s = \"text\";\n"),
        "let s: String = String::from(\"text\");\n"
    );
}

#[test]
fn boolean_declarations_end_to_end() {
    assert_eq!(transpile("bool b = true;\n"), "let b: bool = true;");
    assert_eq!(transpile("bool b = false;\n"), "let b: bool = false;");
}

#[test]
fn boolean_comparison_end_to_end() {
    assert_eq!(
        transpile("int x = 1;\nint y = 2;\nbool b = x == y;\n"),
        "let x: i32 = 1;\nlet y: i32 = 2;\nlet b: bool = x==y;"
    );
}

#[test]
fn boolean_comparison_with_number_operand_end_to_end() {
    assert_eq!(
        transpile("int x = 1;\nbool b = x == 5;\n"),
        "let x: i32 = 1;\nlet b: bool = x==5;"
    );
}

#[test]
fn comment_line_contributes_nothing() {
    assert_eq!(transpile("# just a note\nint x = 1;\n"), "let x: i32 = 1;\n");
    assert_eq!(transpile("# only a comment\n"), "");
}

#[test]
fn function_declaration_call_and_close_end_to_end() {
    assert_eq!(
        transpile("proc greet(stringname) {\ngreet(\"hi\");\n}\n"),
        "fn greet(name: String) {greet(String::from(\"hi\"));}"
    );
}

#[test]
fn expression_declaration_end_to_end() {
    assert_eq!(
        transpile("int x = 1;\nint y = x + 2 * 3;\n"),
        "let x: i32 = 1;\nlet y: i32 = x+2*3;\n"
    );
}

#[test]
fn reducer_classifies_after_declaration_keyword() {
    let mut tokens = vec![Token::LetInt];
    let mut buffer = String::from("count");
    let mut making_string: usize = 0;
    let mut making_params: usize = 0;
    let mut making_comment = false;
    let r = handle_ending_value(
        &mut tokens,
        &mut buffer,
        &mut making_string,
        &mut making_params,
        &mut making_comment,
    );
    assert_eq!(r, Ok(()));
    assert_eq!(
        tokens,
        vec![Token::LetInt, Token::VarName(String::from("count"))]
    );
    assert_eq!(buffer, "");
}

#[test]
fn reducer_emits_keyword_and_number_tokens() {
    let mut tokens = vec![];
    let mut buffer = String::from("print");
    let mut making_string: usize = 0;
    let mut making_params: usize = 0;
    let mut making_comment = false;
    handle_ending_value(
        &mut tokens,
        &mut buffer,
        &mut making_string,
        &mut making_params,
        &mut making_comment,
    )
    .unwrap();
    assert_eq!(tokens, vec![Token::Print]);
    let mut buffer = String::from("042");
    handle_ending_value(
        &mut tokens,
        &mut buffer,
        &mut making_string,
        &mut making_params,
        &mut making_comment,
    )
    .unwrap();
    assert_eq!(
        tokens,
        vec![Token::Print, Token::Number(String::from("42"), 42)]
    );
}
