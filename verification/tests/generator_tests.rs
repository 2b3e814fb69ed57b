use toyc::syntax::FunctionCall;
use toyc::syntax::FunctionDeclare;
use toyc::syntax::Parsed;
use toyc::syntax::VariableDeclare;
use toyc::generator::generator;

fn int_decl(name: &str, value: &str) -> Parsed {
    Parsed::VariableDeclare(VariableDeclare {
        type_class: String::from("i32"),
        name: String::from(name),
        value: String::from(value),
    })
}

#[test]
fn generates_integer_declaration() {
    assert_eq!(generator(vec![int_decl("x", "5")]), "let x: i32 = 5;\n");
}

#[test]
fn generates_string_declaration() {
    let node = Parsed::VariableDeclare(VariableDeclare {
        type_class: String::from("String"),
        name: String::from("s"),
        value: String::from("text"),
    });
    assert_eq!(generator(vec![node]), "let s: String = String::from(\"text\");\n");
}

#[test]
fn generates_boolean_declaration_without_newline() {
    let node = Parsed::VariableDeclare(VariableDeclare {
        type_class: String::from("bool"),
        name: String::from("b"),
        value: String::from("true"),
    });
    assert_eq!(generator(vec![node]), "let b: bool = true;");
}

#[test]
fn generates_boolean_comparison_text_exactly() {
    let node = Parsed::VariableDeclare(VariableDeclare {
        type_class: String::from("bool"),
        name: String::from("b"),
        value: String::from("x==y"),
    });
    assert_eq!(generator(vec![node]), "let b: bool = x==y;");
}

#[test]
fn unknown_declared_type_generates_nothing() {
    let node = Parsed::VariableDeclare(VariableDeclare {
        type_class: String::from("f64"),
        name: String::from("x"),
        value: String::from("1"),
    });
    assert_eq!(generator(vec![node]), "");
}

#[test]
fn translates_function_declaration_parameters() {
    let node = Parsed::FunctionDeclare(FunctionDeclare {
        name: String::from("foo"),
        parameters: String::from("inta, stringb"),
    });
    assert_eq!(generator(vec![node]), "fn foo(a: i32, b: String) {");
}

#[test]
fn translates_all_three_parameter_types_in_order() {
    let node = Parsed::FunctionDeclare(FunctionDeclare {
        name: String::from("f"),
        parameters: String::from("inta, stringb, boolc"),
    });
    assert_eq!(generator(vec![node]), "fn f(a: i32, b: String, c: bool) {");
}

#[test]
fn sanitise_params_translates_the_fixed_mapping() {
    let fd = FunctionDeclare {
        name: String::from("foo"),
        parameters: String::from("inta, stringb"),
    };
    let changes = vec![
        (String::from("string"), String::from("String")),
        (String::from("int"), String::from("i32")),
        (String::from("bool"), String::from("bool")),
    ];
    assert_eq!(fd.sanitise_params(changes), "a: i32, b: String");
}

#[test]
fn sanitise_params_with_no_match_is_empty() {
    let fd = FunctionDeclare {
        name: String::from("foo"),
        parameters: String::from("x, y"),
    };
    let changes = vec![(String::from("int"), String::from("i32"))];
    assert_eq!(fd.sanitise_params(changes), "");
}

#[test]
fn call_arguments_without_quotes_pass_through_verbatim() {
    let node = Parsed::FunctionCall(FunctionCall {
        name: String::from("foo"),
        parameters: String::from("x, 1"),
    });
    assert_eq!(generator(vec![node]), "foo(x, 1);");
}

#[test]
fn call_quote_pair_becomes_string_constructor() {
    let node = Parsed::FunctionCall(FunctionCall {
        name: String::from("foo"),
        parameters: String::from("\"hi\""),
    });
    assert_eq!(generator(vec![node]), "foo(String::from(\"hi\"));");
}

#[test]
fn call_with_several_quote_pairs_converts_each_independently() {
    let node = Parsed::FunctionCall(FunctionCall {
        name: String::from("f"),
        parameters: String::from("\"a\",x,\"b\""),
    });
    assert_eq!(
        generator(vec![node]),
        "f(String::from(\"a\"),x,String::from(\"b\"));"
    );
}

#[test]
fn call_text_after_unmatched_quote_is_dropped() {
    let node = Parsed::FunctionCall(FunctionCall {
        name: String::from("f"),
        parameters: String::from("x,\"abc"),
    });
    assert_eq!(generator(vec![node]), "f(x,String::from(\");");
}

#[test]
fn generates_print_invocation() {
    assert_eq!(
        generator(vec![Parsed::Print(String::from("\"{}\", x"))]),
        "println!(\"{}\", x);"
    );
}

#[test]
fn generates_control_flow_fragments() {
    let nodes = vec![
        Parsed::If(String::from("x==1")),
        Parsed::OrIf(String::from("x==2")),
        Parsed::Else,
        Parsed::RSquirly(String::from("}")),
    ];
    assert_eq!(generator(nodes), "if x==1 {else if x==2 {else {}");
}

#[test]
fn empty_node_list_generates_empty_text() {
    assert_eq!(generator(vec![]), "");
}

#[test]
fn concatenates_fragments_in_node_order() {
    let nodes = vec![int_decl("a", "1"), int_decl("b", "2")];
    assert_eq!(generator(nodes), "let a: i32 = 1;\nlet b: i32 = 2;\n");
}
