//! Laws of the pipeline: properties of the lexer, parser and generator
//! that hold for all inputs, each stated over the spec models and proved
//! once and for all.

use vstd::prelude::*;

use crate::token::TokenModel;
use crate::syntax::NodeModel;
use crate::syntax::VariableDeclareModel;
use crate::parser::ScanRec;
use crate::parser::init_scan;
use crate::parser::int_step;
use crate::parser::int_fold_from;
use crate::parser::string_fold_from;
use crate::parser::bool_fold_from;
use crate::parser::line_nodes;
use crate::parser::parse_spec;
use crate::parser::parse_lines;
use crate::parser::split_lines;
use crate::parser::lemma_first_nl_is;
use crate::parser::prepend;
use crate::generator::gen_node;
use crate::generator::gen_spec;
use crate::generator::rw_from;
use crate::generator::rewrite_spec;
use crate::lexer::LexState;
use crate::lexer::init_state;
use crate::lexer::stepped;
use crate::lexer::buffered;
use crate::lexer::lex_from;
use crate::lexer::lex_spec;
use crate::lexer::lemma_lex_from_app;
use crate::lexer::digits_val;
use crate::lexer::strip_zeros;
use crate::lexer::is_digit_char;
use crate::lexer::is_letter_char;
use crate::lexer::flushed;
use crate::lexer::emitted;
use crate::lexer::history_kind;
use crate::lexer::is_int_literal;
use crate::token::LexError;
use crate::generator::occurs_at;
use crate::generator::find_sub;
use crate::generator::contains_sub;
use crate::generator::is_ws_char;
use crate::generator::trim_spec;
use crate::generator::split_second;
use crate::generator::sanitise_change;
use crate::generator::sanitise_one;
use crate::generator::sanitise_elems;
use crate::generator::sanitise_spec;
use crate::generator::comma_split;
use crate::generator::fixed_changes;
use crate::generator::lemma_find_sub_is;
use crate::generator::lemma_find_sub_props;
use crate::generator::lemma_first_comma_is;
use crate::generator::lemma_first_comma_bounds;
use crate::generator::lemma_trim_start_skip;
use crate::generator::lemma_trim_end_take;
use crate::generator::first_comma;

verus! {

/// A token that contributes its text to an integer declaration's value
/// expression once the declared name has been found and the assignment
/// seen.
pub open spec fn is_value_tok(t: TokenModel) -> bool {
    match t {
        TokenModel::Number(_, _) => true,
        TokenModel::VarName(_) => true,
        TokenModel::Plus => true,
        TokenModel::Minus => true,
        TokenModel::Multiply => true,
        TokenModel::Divide => true,
        TokenModel::LParen => true,
        TokenModel::RParen => true,
        _ => false,
    }
}

/// The text a value token contributes.
pub open spec fn value_text(t: TokenModel) -> Seq<char> {
    match t {
        TokenModel::Number(text, _) => text,
        TokenModel::VarName(n) => n,
        TokenModel::Plus => "+"@,
        TokenModel::Minus => "-"@,
        TokenModel::Multiply => "*"@,
        TokenModel::Divide => "/"@,
        TokenModel::LParen => "("@,
        TokenModel::RParen => ")"@,
        _ => Seq::empty(),
    }
}

/// The concatenation of the texts of a run of value tokens, with no
/// whitespace between them.
pub open spec fn concat_texts(ts: Seq<TokenModel>) -> Seq<char>
    decreases ts.len(),
{
    if ts.len() == 0 {
        Seq::empty()
    } else {
        value_text(ts[0]) + concat_texts(ts.drop_first())
    }
}

/// Scanning a run of value tokens closed by a semicolon appends exactly
/// their concatenated texts to the value.
proof fn lemma_int_scan_values(line: Seq<TokenModel>, j: int, st: ScanRec)
    requires
        0 <= j < line.len(),
        st.found,
        st.assigned,
        !st.semicoloned,
        line[line.len() - 1] is Semicolon,
        forall|k: int| j <= k < line.len() - 1 ==> is_value_tok(#[trigger] line[k]),
    ensures
        int_fold_from(line, j, st) == (ScanRec {
            value: st.value + concat_texts(line.subrange(j, line.len() - 1)),
            semicoloned: true,
            ..st
        }),
    decreases line.len() - j,
{
    if j == line.len() - 1 {
        let st2 = int_step(st, line[j]);
        assert(st2 == (ScanRec { semicoloned: true, ..st }));
        assert(int_fold_from(line, j, st) == int_fold_from(line, j + 1, st2));
        assert(int_fold_from(line, j + 1, st2) == st2);
        assert(line.subrange(j, j) =~= Seq::<TokenModel>::empty());
        assert(st.value + Seq::<char>::empty() =~= st.value);
    } else {
        let st2 = int_step(st, line[j]);
        assert(st2 == (ScanRec { value: st.value + value_text(line[j]), ..st }));
        assert(int_fold_from(line, j, st) == int_fold_from(line, j + 1, st2));
        lemma_int_scan_values(line, j + 1, st2);
        assert(line.subrange(j + 1, line.len() - 1) =~= line.subrange(
            j,
            line.len() - 1,
        ).drop_first());
        assert(line.subrange(j, line.len() - 1)[0] == line[j]);
        assert(st.value + (value_text(line[j]) + concat_texts(
            line.subrange(j + 1, line.len() - 1),
        )) =~= (st.value + value_text(line[j])) + concat_texts(
            line.subrange(j + 1, line.len() - 1),
        ));
    }
}

/// An integer declaration line — the `int` keyword, the declared name,
/// the assignment, any run of value tokens, the semicolon — parses to
/// exactly one node, whose value is the concatenation of the value
/// tokens' texts without whitespace; and that node generates exactly
/// `let <name>: i32 = <value>;` and a newline.
pub proof fn lemma_int_declaration(x: Seq<char>, etoks: Seq<TokenModel>)
    requires
        forall|k: int| 0 <= k < etoks.len() ==> is_value_tok(#[trigger] etoks[k]),
    ensures
        ({
            let line = seq![TokenModel::LetInt, TokenModel::VarName(x), TokenModel::EqualsTo]
                + etoks + seq![TokenModel::Semicolon];
            let node = NodeModel::VariableDeclare(
                VariableDeclareModel { type_class: "i32"@, name: x, value: concat_texts(etoks) },
            );
            line_nodes(line, 0) == Ok::<Seq<NodeModel>, crate::token::ParseError>(seq![node])
                && gen_node(node) == "let "@ + x + ": i32 = "@ + concat_texts(etoks) + ";\n"@
        }),
{
    let line = seq![TokenModel::LetInt, TokenModel::VarName(x), TokenModel::EqualsTo] + etoks
        + seq![TokenModel::Semicolon];
    let n = line.len() as int;
    assert(n == etoks.len() + 4);
    assert(line[0] == TokenModel::LetInt);
    assert(line[1] == TokenModel::VarName(x));
    assert(line[2] == TokenModel::EqualsTo);
    assert(line[n - 1] == TokenModel::Semicolon);
    assert(forall|k: int| 3 <= k < n - 1 ==> line[k] == etoks[k - 3]);
    let st0 = init_scan();
    let st1 = int_step(st0, line[1]);
    let st2 = int_step(st1, line[2]);
    assert(int_fold_from(line, 1, st0) == int_fold_from(line, 2, st1));
    assert(int_fold_from(line, 2, st1) == int_fold_from(line, 3, st2));
    assert(st2.found && st2.assigned && !st2.semicoloned);
    assert(st2.name == x);
    assert(st2.value == Seq::<char>::empty());
    lemma_int_scan_values(line, 3, st2);
    let sc = int_fold_from(line, 1, st0);
    assert(line.subrange(3, n - 1) =~= etoks);
    assert(Seq::<char>::empty() + concat_texts(etoks) =~= concat_texts(etoks));
    assert(sc.assigned && sc.semicoloned);
    assert(sc.name == x);
    assert(sc.value == concat_texts(etoks));
    reveal_strlit("i32");
    reveal_strlit("String");
    assert("i32"@.len() == 3);
    assert("String"@.len() == 6);
    assert("i32"@ != "String"@);
    let node = NodeModel::VariableDeclare(
        VariableDeclareModel { type_class: "i32"@, name: x, value: concat_texts(etoks) },
    );
    assert(line_nodes(line, 0) == Ok::<Seq<NodeModel>, crate::token::ParseError>(seq![node]));
    assert("let "@ + x + ": "@ + "i32"@ + " = "@ + concat_texts(etoks) + ";
"@ =~= "let "@ + x
        + ": i32 = "@ + concat_texts(etoks) + ";
"@) by {
        reveal_strlit(": ");
        reveal_strlit("i32");
        reveal_strlit(" = ");
        reveal_strlit(": i32 = ");
    }
}

/// A string declaration line — the `string` keyword, the declared name,
/// the assignment, the quoted literal, the semicolon — parses to exactly
/// one node whose value is the literal's text; and that node generates
/// exactly `let <name>: String = String::from("<text>");` and a newline.
pub proof fn lemma_string_declaration(s: Seq<char>, text: Seq<char>)
    ensures
        ({
            let line = seq![
                TokenModel::LetString,
                TokenModel::VarName(s),
                TokenModel::EqualsTo,
                TokenModel::DblQuote,
                TokenModel::Strings(text),
                TokenModel::DblQuote,
                TokenModel::Semicolon,
            ];
            let node = NodeModel::VariableDeclare(
                VariableDeclareModel { type_class: "String"@, name: s, value: text },
            );
            line_nodes(line, 0) == Ok::<Seq<NodeModel>, crate::token::ParseError>(seq![node])
                && gen_node(node) == "let "@ + s + ": String = String::from(\""@ + text
                + "\");\n"@
        }),
{
    let line = seq![
        TokenModel::LetString,
        TokenModel::VarName(s),
        TokenModel::EqualsTo,
        TokenModel::DblQuote,
        TokenModel::Strings(text),
        TokenModel::DblQuote,
        TokenModel::Semicolon,
    ];
    let st0 = init_scan();
    let st1 = crate::parser::string_step(st0, line[1]);
    let st2 = crate::parser::string_step(st1, line[2]);
    let st3 = crate::parser::string_step(st2, line[3]);
    let st4 = crate::parser::string_step(st3, line[4]);
    let st5 = crate::parser::string_step(st4, line[5]);
    let st6 = crate::parser::string_step(st5, line[6]);
    assert(string_fold_from(line, 1, st0) == string_fold_from(line, 2, st1));
    assert(string_fold_from(line, 2, st1) == string_fold_from(line, 3, st2));
    assert(string_fold_from(line, 3, st2) == string_fold_from(line, 4, st3));
    assert(string_fold_from(line, 4, st3) == string_fold_from(line, 5, st4));
    assert(string_fold_from(line, 5, st4) == string_fold_from(line, 6, st5));
    assert(string_fold_from(line, 6, st5) == string_fold_from(line, 7, st6));
    assert(string_fold_from(line, 7, st6) == st6);
    let sc = string_fold_from(line, 1, init_scan());
    assert(sc.assigned);
    assert(sc.name == s);
    assert(sc.value == text);
    let node = NodeModel::VariableDeclare(
        VariableDeclareModel { type_class: "String"@, name: s, value: text },
    );
    assert(line_nodes(line, 0) == Ok::<Seq<NodeModel>, crate::token::ParseError>(seq![node]));
    assert("let "@ + s + ": "@ + "String"@ + " = String::from(\""@ + text + "\");\n"@ =~= "let "@
        + s + ": String = String::from(\""@ + text + "\");\n"@) by {
        reveal_strlit(": ");
        reveal_strlit("String");
        reveal_strlit(" = String::from(\"");
        reveal_strlit(": String = String::from(\"");
    }
}

/// A boolean declaration line with a literal value parses to one node
/// whose value is `true` or `false`; and that node generates exactly
/// `let <name>: bool = <literal>;` with no trailing newline.
pub proof fn lemma_bool_declaration_literal(b: Seq<char>, v: bool)
    ensures
        ({
            let line = seq![
                TokenModel::LetBool,
                TokenModel::VarName(b),
                TokenModel::EqualsTo,
                TokenModel::Boolean(v),
                TokenModel::Semicolon,
            ];
            let node = NodeModel::VariableDeclare(
                VariableDeclareModel {
                    type_class: "bool"@,
                    name: b,
                    value: if v {
                        "true"@
                    } else {
                        "false"@
                    },
                },
            );
            line_nodes(line, 0) == Ok::<Seq<NodeModel>, crate::token::ParseError>(seq![node])
                && gen_node(node) == "let "@ + b + ": bool = "@ + (if v {
                "true"@
            } else {
                "false"@
            }) + ";"@
        }),
{
    let line = seq![
        TokenModel::LetBool,
        TokenModel::VarName(b),
        TokenModel::EqualsTo,
        TokenModel::Boolean(v),
        TokenModel::Semicolon,
    ];
    let st0 = init_scan();
    let st1 = crate::parser::bool_step(st0, line[1]);
    let st2 = crate::parser::bool_step(st1, line[2]);
    let st3 = crate::parser::bool_step(st2, line[3]);
    let st4 = crate::parser::bool_step(st3, line[4]);
    assert(bool_fold_from(line, 1, st0) == bool_fold_from(line, 2, st1));
    assert(bool_fold_from(line, 2, st1) == bool_fold_from(line, 3, st2));
    assert(bool_fold_from(line, 3, st2) == bool_fold_from(line, 4, st3));
    assert(bool_fold_from(line, 4, st3) == bool_fold_from(line, 5, st4));
    assert(bool_fold_from(line, 5, st4) == st4);
    let sc = bool_fold_from(line, 1, init_scan());
    assert(sc.assigned);
    assert(sc.name == b);
    assert(sc.value == (if v { "true"@ } else { "false"@ }));
    reveal_strlit("bool");
    reveal_strlit("i32");
    reveal_strlit("String");
    assert("bool"@.len() == 4);
    assert("i32"@.len() == 3);
    assert("String"@.len() == 6);
    assert("bool"@ != "String"@ && "bool"@ != "i32"@);
    let node = NodeModel::VariableDeclare(
        VariableDeclareModel {
            type_class: "bool"@,
            name: b,
            value: if v {
                "true"@
            } else {
                "false"@
            },
        },
    );
    assert(line_nodes(line, 0) == Ok::<Seq<NodeModel>, crate::token::ParseError>(seq![node]));
    assert("let "@ + b + ": "@ + "bool"@ + " = "@ + sc.value + ";"@ =~= "let "@ + b
        + ": bool = "@ + sc.value + ";"@) by {
        reveal_strlit(": ");
        reveal_strlit(" = ");
        reveal_strlit(": bool = ");
        reveal_strlit("bool");
    }
}

/// A boolean declaration line with an equality comparison parses to one
/// node whose value is the comparison text `<left>==<right>`; and that
/// node generates exactly `let <name>: bool = <left>==<right>;`.
/// A token that can stand as an operand of a boolean equality
/// comparison: a variable reference or a number literal.
pub open spec fn is_bool_operand(t: TokenModel) -> bool {
    match t {
        TokenModel::VarName(_) => true,
        TokenModel::Number(_, _) => true,
        _ => false,
    }
}

/// The text a boolean comparison operand contributes.
pub open spec fn bool_operand_text(t: TokenModel) -> Seq<char> {
    match t {
        TokenModel::VarName(n) => n,
        TokenModel::Number(text, _) => text,
        _ => Seq::empty(),
    }
}

/// A boolean declaration line with an equality comparison parses to one
/// node whose value is the operands' texts concatenated around `==` —
/// for variable and number operands alike; and that node generates
/// exactly `let <name>: bool = <left>==<right>;`.
pub proof fn lemma_bool_declaration_comparison(b: Seq<char>, l: TokenModel, r: TokenModel)
    requires
        is_bool_operand(l),
        is_bool_operand(r),
    ensures
        ({
            let line = seq![
                TokenModel::LetBool,
                TokenModel::VarName(b),
                TokenModel::EqualsTo,
                l,
                TokenModel::Equality,
                r,
                TokenModel::Semicolon,
            ];
            let value = bool_operand_text(l) + "=="@ + bool_operand_text(r);
            let node = NodeModel::VariableDeclare(
                VariableDeclareModel { type_class: "bool"@, name: b, value: value },
            );
            line_nodes(line, 0) == Ok::<Seq<NodeModel>, crate::token::ParseError>(seq![node])
                && gen_node(node) == "let "@ + b + ": bool = "@ + value + ";"@
        }),
{
    let line = seq![
        TokenModel::LetBool,
        TokenModel::VarName(b),
        TokenModel::EqualsTo,
        l,
        TokenModel::Equality,
        r,
        TokenModel::Semicolon,
    ];
    let value = bool_operand_text(l) + "=="@ + bool_operand_text(r);
    let st0 = init_scan();
    let st1 = crate::parser::bool_step(st0, line[1]);
    let st2 = crate::parser::bool_step(st1, line[2]);
    let st3 = crate::parser::bool_step(st2, line[3]);
    let st4 = crate::parser::bool_step(st3, line[4]);
    let st5 = crate::parser::bool_step(st4, line[5]);
    let st6 = crate::parser::bool_step(st5, line[6]);
    assert(st3.value == Seq::<char>::empty() + bool_operand_text(l));
    assert(bool_fold_from(line, 1, st0) == bool_fold_from(line, 2, st1));
    assert(bool_fold_from(line, 2, st1) == bool_fold_from(line, 3, st2));
    assert(bool_fold_from(line, 3, st2) == bool_fold_from(line, 4, st3));
    assert(bool_fold_from(line, 4, st3) == bool_fold_from(line, 5, st4));
    assert(bool_fold_from(line, 5, st4) == bool_fold_from(line, 6, st5));
    assert(bool_fold_from(line, 6, st5) == bool_fold_from(line, 7, st6));
    assert(bool_fold_from(line, 7, st6) == st6);
    let sc = bool_fold_from(line, 1, init_scan());
    assert(sc.assigned);
    assert(sc.name == b);
    assert(Seq::<char>::empty() + bool_operand_text(l) =~= bool_operand_text(l));
    assert(sc.value == value);
    reveal_strlit("bool");
    reveal_strlit("i32");
    reveal_strlit("String");
    assert("bool"@.len() == 4 && "i32"@.len() == 3 && "String"@.len() == 6);
    assert("bool"@ != "String"@ && "bool"@ != "i32"@);
    let node = NodeModel::VariableDeclare(
        VariableDeclareModel { type_class: "bool"@, name: b, value: value },
    );
    assert(line_nodes(line, 0) == Ok::<Seq<NodeModel>, crate::token::ParseError>(seq![node]));
    assert("let "@ + b + ": "@ + "bool"@ + " = "@ + sc.value + ";"@ =~= "let "@ + b
        + ": bool = "@ + sc.value + ";"@) by {
        reveal_strlit(": ");
        reveal_strlit(" = ");
        reveal_strlit(": bool = ");
        reveal_strlit("bool");
    }
}

/// A line consisting solely of a comment produces no syntax node, and a
/// parse with no nodes contributes nothing to the generated output.
pub proof fn lemma_comment_line(text: Seq<char>)
    ensures
        line_nodes(seq![TokenModel::Comment(text)], 0) == Ok::<
            Seq<NodeModel>,
            crate::token::ParseError,
        >(Seq::empty()),
        gen_spec(Seq::<NodeModel>::empty()) == Seq::<char>::empty(),
{
    let line = seq![TokenModel::Comment(text)];
    assert(line[0] == TokenModel::Comment(text));
    assert(line_nodes(line, 1) == Ok::<Seq<NodeModel>, crate::token::ParseError>(Seq::empty()));
    assert(line_nodes(line, 0) == line_nodes(line, 1));
}

/// No earlier `VarName` or `FuncName` token carries the name.
proof fn lemma_history_none(toks: Seq<TokenModel>, name: Seq<char>)
    requires
        forall|k: int|
            0 <= k < toks.len() ==> #[trigger] toks[k] != TokenModel::VarName(name) && toks[k]
                != TokenModel::FuncName(name),
    ensures
        history_kind(toks, name) == None::<TokenModel>,
    decreases toks.len(),
{
    if toks.len() > 0 {
        assert(forall|k: int|
            0 <= k < toks.drop_first().len() ==> #[trigger] toks.drop_first()[k] == toks[k + 1]);
        lemma_history_none(toks.drop_first(), name);
    }
}

/// The first earlier token carrying the name decides the kind the name
/// resolves to.
proof fn lemma_history_first(toks: Seq<TokenModel>, name: Seq<char>, k: int)
    requires
        0 <= k < toks.len(),
        toks[k] == TokenModel::VarName(name) || toks[k] == TokenModel::FuncName(name),
        forall|j: int|
            0 <= j < k ==> #[trigger] toks[j] != TokenModel::VarName(name) && toks[j]
                != TokenModel::FuncName(name),
    ensures
        history_kind(toks, name) == Some(toks[k]),
    decreases k,
{
    if k > 0 {
        assert(forall|j: int|
            0 <= j < toks.drop_first().len() ==> #[trigger] toks.drop_first()[j] == toks[j + 1]);
        lemma_history_first(toks.drop_first(), name, k - 1);
    }
}

/// The reducer state in which a buffered identifier is classified by the
/// name history alone: a non-empty buffer, outside comments, strings and
/// parameter lists, matching no integer literal, no keyword, and with no
/// classifying token just before it.
pub open spec fn history_position(st: LexState) -> bool {
    &&& st.buf.len() > 0
    &&& !st.making_comment
    &&& st.making_params == 0
    &&& !is_int_literal(st.buf)
    &&& st.buf != "="@
    &&& st.buf != "=="@
    &&& st.buf != "int"@
    &&& st.buf != "string"@
    &&& st.buf != "bool"@
    &&& st.buf != "proc"@
    &&& st.buf != "print"@
    &&& st.buf != "true"@
    &&& st.buf != "false"@
    &&& (st.toks.len() == 0 || !(st.toks.last() is LetInt || st.toks.last() is LetString
        || st.toks.last() is LetBool || st.toks.last() is Function || st.toks.last() is LParen
        || st.toks.last() is DblQuote))
}

/// An identifier that was never classified as a variable or function
/// name earlier in the token stream fails the scan with
/// `UnknownIdentifier`.
pub proof fn lemma_unknown_identifier(st: LexState)
    requires
        history_position(st),
        forall|k: int|
            0 <= k < st.toks.len() ==> #[trigger] st.toks[k] != TokenModel::VarName(st.buf)
                && st.toks[k] != TokenModel::FuncName(st.buf),
    ensures
        flushed(st) == Err::<LexState, LexError>(LexError::UnknownIdentifier),
{
    lemma_history_none(st.toks, st.buf);
}

/// An identifier that was classified earlier resolves to the same kind
/// it was first classified as: the first `VarName` or `FuncName` token
/// with that text decides, and the reducer emits a token of exactly that
/// kind.
pub proof fn lemma_known_identifier(st: LexState, k: int)
    requires
        history_position(st),
        0 <= k < st.toks.len(),
        st.toks[k] == TokenModel::VarName(st.buf) || st.toks[k] == TokenModel::FuncName(st.buf),
        forall|j: int|
            0 <= j < k ==> #[trigger] st.toks[j] != TokenModel::VarName(st.buf) && st.toks[j]
                != TokenModel::FuncName(st.buf),
    ensures
        flushed(st) == Ok::<LexState, LexError>(emitted(st, st.toks[k])),
{
    lemma_history_first(st.toks, st.buf, k);
}

/// The rewrite scan from a position past the end of a prefix behaves as
/// a fresh scan of the suffix alone.
proof fn lemma_rw_shift(prefix: Seq<char>, p: Seq<char>, i: int, inside: bool, start: int)
    requires
        0 <= start <= i <= p.len(),
    ensures
        rw_from(prefix + p, prefix.len() + i, inside, prefix.len() + start) == rw_from(
            p,
            i,
            inside,
            start,
        ),
    decreases p.len() - i,
{
    let full = prefix + p;
    let off = prefix.len() as int;
    if i == p.len() {
        if !inside {
            assert(full.subrange(off + start, full.len() as int) =~= p.subrange(
                start,
                p.len() as int,
            ));
        }
    } else {
        assert(full[off + i] == p[i]);
        if p[i] == '"' {
            lemma_rw_shift(prefix, p, i + 1, !inside, i + 1);
            assert(full.subrange(off + start, off + i) =~= p.subrange(start, i));
        } else {
            lemma_rw_shift(prefix, p, i + 1, inside, start);
        }
    }
}

/// Scanning outside quotes up to the next quote (or the end) passes the
/// run through verbatim.
proof fn lemma_rw_outside_until(p: Seq<char>, i: int, start: int, j: int)
    requires
        0 <= start <= i <= j <= p.len(),
        forall|k: int| i <= k < j ==> p[k] != '"',
        j == p.len() || p[j] == '"',
    ensures
        rw_from(p, i, false, start) == if j == p.len() {
            p.subrange(start, p.len() as int)
        } else {
            p.subrange(start, j) + "String::from(\""@ + rw_from(p, j + 1, true, j + 1)
        },
    decreases j - i,
{
    if i < j {
        lemma_rw_outside_until(p, i + 1, start, j);
    }
}

/// Scanning inside quotes up to the closing quote wraps the enclosed
/// text; with no closing quote it yields nothing.
proof fn lemma_rw_inside_until(p: Seq<char>, i: int, start: int, j: int)
    requires
        0 <= start <= i <= j <= p.len(),
        forall|k: int| i <= k < j ==> p[k] != '"',
        j == p.len() || p[j] == '"',
    ensures
        rw_from(p, i, true, start) == if j == p.len() {
            Seq::<char>::empty()
        } else {
            p.subrange(start, j) + "\")"@ + rw_from(p, j + 1, false, j + 1)
        },
    decreases j - i,
{
    if i < j {
        lemma_rw_inside_until(p, i + 1, start, j);
    }
}

/// Argument text with no double quote passes through the quote rewrite
/// untouched.
pub proof fn lemma_rewrite_no_quotes(u: Seq<char>)
    requires
        forall|k: int| 0 <= k < u.len() ==> u[k] != '"',
    ensures
        rewrite_spec(u) == u,
{
    lemma_rw_outside_until(u, 0, 0, u.len() as int);
    assert(u.subrange(0, u.len() as int) =~= u);
}

/// The quote rewrite is round-trip safe: each pair of double quotes is
/// independently converted to a quoted-string constructor wrapping
/// exactly the enclosed text, text outside quotes is untouched, and the
/// rest of the argument text is rewritten on its own — for any number of
/// quote pairs, including zero.
pub proof fn lemma_quote_round_trip(u: Seq<char>, m: Seq<char>, p: Seq<char>)
    requires
        forall|k: int| 0 <= k < u.len() ==> u[k] != '"',
        forall|k: int| 0 <= k < m.len() ==> m[k] != '"',
    ensures
        rewrite_spec(u + seq!['"'] + m + seq!['"'] + p) == u + "String::from(\""@ + m + "\")"@
            + rewrite_spec(p),
{
    let prefix = u + seq!['"'] + m + seq!['"'];
    let full = prefix + p;
    let j1 = u.len() as int;
    let j2 = u.len() + 1 + m.len();
    assert(full == u + seq!['"'] + m + seq!['"'] + p) by {
        assert((u + seq!['"'] + m + seq!['"']) + p =~= u + seq!['"'] + m + seq!['"'] + p);
    }
    assert(full[j1] == '"');
    assert(full[j2 as int] == '"');
    assert(forall|k: int| 0 <= k < j1 ==> full[k] == u[k]);
    assert(forall|k: int| j1 < k < j2 ==> full[k] == m[k - j1 - 1]);
    lemma_rw_outside_until(full, 0, 0, j1);
    lemma_rw_inside_until(full, j1 + 1, j1 + 1, j2 as int);
    lemma_rw_shift(prefix, p, 0, false, 0);
    assert(full.subrange(0, j1) =~= u);
    assert(full.subrange(j1 + 1, j2 as int) =~= m);
    assert(u + ("String::from(\""@ + (m + ("\")"@ + rw_from(p, 0, false, 0)))) =~= u
        + "String::from(\""@ + m + "\")"@ + rw_from(p, 0, false, 0));
    assert(rw_from(full, 0, false, 0) == u + "String::from(\""@ + m + "\")"@ + rw_from(
        p,
        0,
        false,
        0,
    ));
}

/// An occurrence in a suffix is an occurrence in the whole, shifted by
/// the prefix's length.
proof fn lemma_occurs_in_suffix(x: Seq<char>, y: Seq<char>, pat: Seq<char>, j: int)
    requires
        0 <= j,
    ensures
        occurs_at(y, pat, j) ==> occurs_at(x + y, pat, x.len() + j),
{
    if occurs_at(y, pat, j) {
        assert((x + y).subrange(x.len() + j, x.len() + j + pat.len()) =~= y.subrange(
            j,
            j + pat.len(),
        ));
    }
}

/// The parameter translation is determined, one element at a time, by
/// the fixed type mapping: a two-element parameter list whose first
/// element is the `int` keyword followed by a name and whose second is
/// the `string` keyword followed by a name translates to exactly
/// `<a>: i32, <b>: String` — order preserved, joined with `, `.
///
/// The names may not hold whitespace, commas, or stray occurrences of a
/// type keyword (an element is translated by the first keyword
/// occurrence it contains, so a name that spells one out would shift the
/// split).
pub proof fn lemma_param_translation(a: Seq<char>, b: Seq<char>)
    requires
        forall|k: int| 0 <= k < a.len() ==> !is_ws_char(#[trigger] a[k]) && a[k] != ',',
        forall|k: int| 0 <= k < b.len() ==> !is_ws_char(#[trigger] b[k]) && b[k] != ',',
        forall|k: int| k >= 1 ==> !occurs_at("int"@ + a, "int"@, k),
        !contains_sub("int"@ + a, "string"@),
        !contains_sub("int"@ + a, "bool"@),
        forall|k: int| k >= 1 ==> !occurs_at("string"@ + b, "string"@, k),
        !contains_sub("string"@ + b, "int"@),
        !contains_sub("string"@ + b, "bool"@),
    ensures
        sanitise_spec("int"@ + a + ", "@ + "string"@ + b, fixed_changes()) == a + ": i32, "@ + b
            + ": String"@,
{
    reveal_strlit("int");
    reveal_strlit("string");
    reveal_strlit("bool");
    reveal_strlit("i32");
    reveal_strlit("String");
    reveal_strlit(", ");
    reveal_strlit(": ");
    reveal_strlit(": i32, ");
    reveal_strlit(": String");
    let kw_int = "int"@;
    let kw_string = "string"@;
    let kw_bool = "bool"@;
    let params = kw_int + a + ", "@ + kw_string + b;
    let e1 = kw_int + a;
    let e2f = " "@ + kw_string + b;
    let e2 = kw_string + b;
    let changes = fixed_changes();
    assert(changes.len() == 3);
    assert(changes[0] == (kw_string, "String"@));
    assert(changes[1] == (kw_int, "i32"@));
    assert(changes[2] == (kw_bool, kw_bool));
    reveal_strlit(" ");

    // The comma splits the parameter text into the two elements.
    let kc = 3 + a.len() as int;
    assert(params[kc] == ',');
    assert(forall|j: int| 0 <= j < 3 ==> params[j] == kw_int[j]);
    assert(forall|j: int| 3 <= j < kc ==> params[j] == a[j - 3]);
    assert(forall|j: int| 0 <= j < kc ==> params[j] != ',');
    lemma_first_comma_is(params, kc);
    assert(params.take(kc) =~= e1);
    assert(params.skip(kc + 1) =~= e2f);
    assert(comma_split(params) == seq![e1] + comma_split(e2f));
    assert(forall|j: int| 0 <= j < e2f.len() ==> e2f[j] != ',');
    lemma_first_comma_bounds(e2f);
    assert(first_comma(e2f) == e2f.len());
    assert(comma_split(e2f) == seq![e2f]);
    assert(seq![e1] + seq![e2f] =~= seq![e1, e2f]);
    assert(comma_split(params) == seq![e1, e2f]);

    // The first element is already trimmed.
    assert(!is_ws_char(e1[0]));
    assert(!is_ws_char(e1[e1.len() - 1]));
    lemma_trim_start_skip(e1, 0);
    assert(e1.skip(0) =~= e1);
    lemma_trim_end_take(e1, e1.len() as int);
    assert(e1.take(e1.len() as int) =~= e1);
    assert(trim_spec(e1) == e1);

    // `int` occurs in the first element only at its head.
    assert(e1.subrange(0, 3) =~= kw_int);
    assert(occurs_at(e1, kw_int, 0));
    lemma_find_sub_is(e1, kw_int, 0);
    assert(find_sub(e1, kw_int) == 0);
    assert(contains_sub(e1, kw_int));
    lemma_find_sub_props(a, kw_int);
    if find_sub(a, kw_int) != -1 {
        lemma_occurs_in_suffix(kw_int, a, kw_int, find_sub(a, kw_int));
        assert(false);
    }
    assert(e1.skip(0 + kw_int.len() as int) =~= a);
    assert(split_second(e1, kw_int) == a);

    // The first element translates to `<a>: i32`.
    let acc1 = sanitise_change(e1, kw_int, "i32"@, Seq::<char>::empty());
    assert(acc1 == Seq::<char>::empty() + a + ": "@ + "i32"@);
    assert(sanitise_change(e1, kw_string, "String"@, Seq::<char>::empty())
        == Seq::<char>::empty());
    assert(sanitise_change(e1, kw_bool, kw_bool, acc1) == acc1);
    assert(sanitise_one(e1, changes, 0, Seq::<char>::empty()) == sanitise_one(
        e1,
        changes,
        1,
        Seq::<char>::empty(),
    ));
    assert(sanitise_one(e1, changes, 1, Seq::<char>::empty()) == sanitise_one(e1, changes, 2, acc1));
    assert(sanitise_one(e1, changes, 2, acc1) == sanitise_one(e1, changes, 3, acc1));
    assert(sanitise_one(e1, changes, 3, acc1) == acc1);

    // The second element trims to `string<b>`.
    assert(is_ws_char(e2f[0]));
    assert(!is_ws_char(e2f[1]));
    lemma_trim_start_skip(e2f, 1);
    assert(e2f.skip(1) =~= e2);
    assert(!is_ws_char(e2[e2.len() - 1]));
    lemma_trim_end_take(e2, e2.len() as int);
    assert(e2.take(e2.len() as int) =~= e2);
    assert(trim_spec(e2f) == e2);

    // `string` occurs in the second element only at its head.
    assert(e2.subrange(0, 6) =~= kw_string);
    assert(occurs_at(e2, kw_string, 0));
    lemma_find_sub_is(e2, kw_string, 0);
    assert(find_sub(e2, kw_string) == 0);
    assert(contains_sub(e2, kw_string));
    lemma_find_sub_props(b, kw_string);
    if find_sub(b, kw_string) != -1 {
        lemma_occurs_in_suffix(kw_string, b, kw_string, find_sub(b, kw_string));
        assert(false);
    }
    assert(e2.skip(0 + kw_string.len() as int) =~= b);
    assert(split_second(e2, kw_string) == b);

    // The second element appends `, <b>: String`.
    assert(acc1.len() > 0);
    let acc2 = sanitise_change(e2f, kw_string, "String"@, acc1);
    assert(acc2 == acc1 + ", "@ + b + ": "@ + "String"@);
    assert(sanitise_change(e2f, kw_int, "i32"@, acc2) == acc2);
    assert(sanitise_change(e2f, kw_bool, kw_bool, acc2) == acc2);
    assert(sanitise_one(e2f, changes, 0, acc1) == sanitise_one(e2f, changes, 1, acc2));
    assert(sanitise_one(e2f, changes, 1, acc2) == sanitise_one(e2f, changes, 2, acc2));
    assert(sanitise_one(e2f, changes, 2, acc2) == sanitise_one(e2f, changes, 3, acc2));
    assert(sanitise_one(e2f, changes, 3, acc2) == acc2);

    // Assemble the fold and flatten the text.
    assert(seq![e1, e2f][0] == e1);
    assert(seq![e1, e2f].drop_first() =~= seq![e2f]);
    assert(seq![e2f][0] == e2f);
    assert(seq![e2f].drop_first() =~= Seq::<Seq<char>>::empty());
    assert(sanitise_elems(seq![e1, e2f], changes, Seq::<char>::empty()) == sanitise_elems(
        seq![e2f],
        changes,
        acc1,
    ));
    assert(sanitise_elems(seq![e2f], changes, acc1) == sanitise_elems(
        Seq::<Seq<char>>::empty(),
        changes,
        acc2,
    ));
    assert(sanitise_elems(Seq::<Seq<char>>::empty(), changes, acc2) == acc2);
    assert(sanitise_spec(params, changes) == acc2);
    assert(acc2 =~= a + ": i32, "@ + b + ": String"@);
}

/// A token line closed by a single newline parses to exactly that
/// line's nodes.
pub proof fn lemma_single_line_parse(line: Seq<TokenModel>)
    requires
        forall|j: int| 0 <= j < line.len() ==> !(#[trigger] line[j] is NewLine),
    ensures
        parse_spec(line + seq![TokenModel::NewLine]) == line_nodes(line, 0),
{
    let ts = line + seq![TokenModel::NewLine];
    let k = line.len() as int;
    assert(ts[k] is NewLine);
    assert(forall|j: int| 0 <= j < k ==> ts[j] == line[j]);
    lemma_first_nl_is(ts, k);
    assert(ts.take(k) =~= line);
    assert(ts.skip(k + 1) =~= Seq::<TokenModel>::empty());
    assert(split_lines(ts) == seq![line] + split_lines(Seq::<TokenModel>::empty()));
    assert(seq![line] + Seq::<Seq<TokenModel>>::empty() =~= seq![line]);
    assert(seq![line][0] == line);
    assert(seq![line].drop_first() =~= Seq::<Seq<TokenModel>>::empty());
    assert(parse_lines(Seq::<Seq<TokenModel>>::empty()) == Ok::<
        Seq<NodeModel>,
        crate::token::ParseError,
    >(Seq::empty()));
    match line_nodes(line, 0) {
        Ok(ns) => {
            assert(parse_lines(seq![line]) == prepend(
                ns,
                Ok::<Seq<NodeModel>, crate::token::ParseError>(Seq::empty()),
            ));
            assert(ns + Seq::<NodeModel>::empty() =~= ns);
        },
        Err(_) => {},
    }
}

/// A single node generates exactly its own fragment.
pub proof fn lemma_gen_single(n: NodeModel)
    ensures
        gen_spec(seq![n]) == gen_node(n),
{
    assert(seq![n][0] == n);
    assert(seq![n].drop_first() =~= Seq::<NodeModel>::empty());
    assert(gen_spec(Seq::<NodeModel>::empty()) == Seq::<char>::empty());
    assert(gen_spec(seq![n]) == gen_node(n) + gen_spec(Seq::<NodeModel>::empty()));
    assert(gen_node(n) + Seq::<char>::empty() =~= gen_node(n));
}

/// A run of digits and letters only accumulates into the buffer.
proof fn lemma_lex_buffer_run(st: LexState, s: Seq<char>)
    requires
        !st.making_comment,
        forall|k: int| 0 <= k < s.len() ==> is_digit_char(#[trigger] s[k]) || is_letter_char(s[k]),
    ensures
        lex_from(st, s) == Ok::<LexState, LexError>(
            LexState {
                toks: st.toks,
                buf: st.buf + s,
                making_string: st.making_string,
                making_params: st.making_params,
                making_comment: st.making_comment,
            },
        ),
    decreases s.len(),
{
    if s.len() == 0 {
        assert(st.buf + s =~= st.buf);
    } else {
        assert(stepped(st, s[0]) == Ok::<LexState, LexError>(buffered(st, s[0])));
        lemma_lex_buffer_run(buffered(st, s[0]), s.drop_first());
        assert(st.buf + s =~= st.buf.push(s[0]) + s.drop_first());
    }
}

/// The letters of an identifier are no keyword text built from `=`.
proof fn lemma_letters_not_assign(x: Seq<char>)
    requires
        x.len() > 0,
        forall|k: int| 0 <= k < x.len() ==> is_letter_char(#[trigger] x[k]),
    ensures
        x != "="@,
        x != "=="@,
{
    reveal_strlit("=");
    reveal_strlit("==");
    if x == "="@ {
        assert(x[0] == '=');
    }
    if x == "=="@ {
        assert(x[0] == '=');
    }
}

/// An integer declaration in source text — the `int` keyword, a fresh
/// identifier, the assignment and a digit literal, closed by a semicolon
/// and a newline — lexes to exactly the declaration's token line: the
/// keyword, the name classified by its context, the assignment, the
/// number with its canonical text and value, the terminator and the line
/// boundary.
pub proof fn lemma_int_declaration_lexes(x: Seq<char>, d: Seq<char>)
    requires
        x.len() > 0,
        forall|k: int| 0 <= k < x.len() ==> is_letter_char(#[trigger] x[k]),
        x != "int"@,
        x != "string"@,
        x != "bool"@,
        x != "proc"@,
        x != "print"@,
        x != "true"@,
        x != "false"@,
        d.len() > 0,
        forall|k: int| 0 <= k < d.len() ==> is_digit_char(#[trigger] d[k]),
        digits_val(d) <= i32::MAX as int,
    ensures
        lex_spec("int "@ + x + " = "@ + d + ";\n"@) == Ok::<Seq<TokenModel>, LexError>(
            seq![
                TokenModel::LetInt,
                TokenModel::VarName(x),
                TokenModel::EqualsTo,
                TokenModel::Number(strip_zeros(d), digits_val(d)),
                TokenModel::Semicolon,
                TokenModel::NewLine,
            ],
        ),
{
    reveal_strlit("int ");
    reveal_strlit(" = ");
    reveal_strlit(";\n");
    reveal_strlit("=");
    reveal_strlit("==");
    reveal_strlit("int");
    reveal_strlit("string");
    reveal_strlit("bool");
    reveal_strlit("proc");
    reveal_strlit("print");
    reveal_strlit("true");
    reveal_strlit("false");
    lemma_letters_not_assign(x);
    let source = "int "@ + x + " = "@ + d + ";\n"@;

    // `int ` emits the declaration keyword.
    let a = seq!['i', 'n', 't', ' '];
    assert("int "@ =~= a);
    let s0 = init_state();
    let s1 = buffered(s0, 'i');
    let s2 = buffered(s1, 'n');
    let s3 = buffered(s2, 't');
    assert(stepped(s0, 'i') == Ok::<LexState, LexError>(s1));
    assert(stepped(s1, 'n') == Ok::<LexState, LexError>(s2));
    assert(stepped(s2, 't') == Ok::<LexState, LexError>(s3));
    assert(s3.buf =~= "int"@);
    assert(!is_digit_char(s3.buf[0]));
    assert(!is_int_literal(s3.buf));
    assert(s3.buf != "="@ && s3.buf != "=="@);
    let s4 = emitted(s3, TokenModel::LetInt);
    assert(flushed(s3) == Ok::<LexState, LexError>(s4));
    assert(stepped(s3, ' ') == Ok::<LexState, LexError>(s4));
    assert(a.drop_first() =~= seq!['n', 't', ' ']);
    assert(seq!['n', 't', ' '].drop_first() =~= seq!['t', ' ']);
    assert(seq!['t', ' '].drop_first() =~= seq![' ']);
    assert(seq![' '].drop_first() =~= Seq::<char>::empty());
    assert(lex_from(s0, a) == lex_from(s1, seq!['n', 't', ' ']));
    assert(lex_from(s1, seq!['n', 't', ' ']) == lex_from(s2, seq!['t', ' ']));
    assert(lex_from(s2, seq!['t', ' ']) == lex_from(s3, seq![' ']));
    assert(lex_from(s3, seq![' ']) == lex_from(s4, Seq::<char>::empty()));
    assert(lex_from(s0, a) == Ok::<LexState, LexError>(s4));

    // The identifier accumulates, and the following space classifies it
    // by the preceding declaration keyword.
    lemma_lex_buffer_run(s4, x);
    let s5 = LexState {
        toks: s4.toks,
        buf: s4.buf + x,
        making_string: 0,
        making_params: 0,
        making_comment: false,
    };
    assert(lex_from(s4, x) == Ok::<LexState, LexError>(s5));
    assert(s5.buf =~= x);
    assert(s5.buf == x);
    assert(!is_digit_char(s5.buf[0]));
    assert(!is_int_literal(s5.buf));
    assert(s5.toks.last() is LetInt);
    let s6 = emitted(s5, TokenModel::VarName(x));
    assert(flushed(s5) == Ok::<LexState, LexError>(s6));
    assert(stepped(s5, ' ') == Ok::<LexState, LexError>(s6));

    // ` = ` flushes the identifier and emits the assignment.
    let b = seq![' ', '=', ' '];
    assert(" = "@ =~= b);
    let s7 = buffered(s6, '=');
    assert(stepped(s6, '=') == Ok::<LexState, LexError>(s7));
    assert(s7.buf =~= "="@);
    assert(s7.buf == "="@);
    let s8 = emitted(s7, TokenModel::EqualsTo);
    assert(flushed(s7) == Ok::<LexState, LexError>(s8));
    assert(stepped(s7, ' ') == Ok::<LexState, LexError>(s8));
    assert(b.drop_first() =~= seq!['=', ' ']);
    assert(seq!['=', ' '].drop_first() =~= seq![' ']);
    assert(seq![' '].drop_first() =~= Seq::<char>::empty());
    assert(lex_from(s5, b) == lex_from(s6, seq!['=', ' ']));
    assert(lex_from(s6, seq!['=', ' ']) == lex_from(s7, seq![' ']));
    assert(lex_from(s7, seq![' ']) == lex_from(s8, Seq::<char>::empty()));
    assert(lex_from(s5, b) == Ok::<LexState, LexError>(s8));

    // The digits accumulate into the literal.
    lemma_lex_buffer_run(s8, d);
    let s9 = LexState {
        toks: s8.toks,
        buf: s8.buf + d,
        making_string: 0,
        making_params: 0,
        making_comment: false,
    };
    assert(lex_from(s8, d) == Ok::<LexState, LexError>(s9));
    assert(s9.buf =~= d);
    assert(s9.buf == d);
    assert(is_int_literal(d));

    // `;` emits the number and the terminator; the newline closes the line.
    let c = seq![';', '\n'];
    assert(";\n"@ =~= c);
    let s10 = emitted(s9, TokenModel::Number(strip_zeros(d), digits_val(d)));
    assert(flushed(s9) == Ok::<LexState, LexError>(s10));
    let s11 = LexState {
        toks: s10.toks.push(TokenModel::Semicolon),
        buf: s10.buf,
        making_string: 0,
        making_params: 0,
        making_comment: false,
    };
    assert(stepped(s9, ';') == Ok::<LexState, LexError>(s11));
    let s12 = LexState {
        toks: s11.toks.push(TokenModel::NewLine),
        buf: s11.buf,
        making_string: 0,
        making_params: 0,
        making_comment: false,
    };
    assert(flushed(s11) == Ok::<LexState, LexError>(s11));
    assert(stepped(s11, '\n') == Ok::<LexState, LexError>(s12));
    assert(c.drop_first() =~= seq!['\n']);
    assert(seq!['\n'].drop_first() =~= Seq::<char>::empty());
    assert(lex_from(s9, c) == lex_from(s11, seq!['\n']));
    assert(lex_from(s11, seq!['\n']) == lex_from(s12, Seq::<char>::empty()));
    assert(lex_from(s9, c) == Ok::<LexState, LexError>(s12));

    // Chain the pieces over the whole source.
    lemma_lex_from_app(s0, a, x + b + d + c);
    lemma_lex_from_app(s4, x, b + d + c);
    lemma_lex_from_app(s5, b, d + c);
    lemma_lex_from_app(s8, d, c);
    assert(source =~= a + (x + (b + (d + c))));
    assert(x + b + d + c =~= x + (b + (d + c)));
    assert(b + d + c =~= b + (d + c));
    assert(d + c =~= d + (c));
    assert(lex_from(s0, source) == Ok::<LexState, LexError>(s12));
    assert(s12.toks =~= seq![
        TokenModel::LetInt,
        TokenModel::VarName(x),
        TokenModel::EqualsTo,
        TokenModel::Number(strip_zeros(d), digits_val(d)),
        TokenModel::Semicolon,
        TokenModel::NewLine,
    ]);
}

/// Inside a string literal, every character but the closing quote
/// accumulates into the buffer.
proof fn lemma_lex_string_run(st: LexState, s: Seq<char>)
    requires
        !st.making_comment,
        st.making_string > 0,
        forall|k: int| 0 <= k < s.len() ==> #[trigger] s[k] != '"',
    ensures
        lex_from(st, s) == Ok::<LexState, LexError>(
            LexState {
                toks: st.toks,
                buf: st.buf + s,
                making_string: st.making_string,
                making_params: st.making_params,
                making_comment: st.making_comment,
            },
        ),
    decreases s.len(),
{
    if s.len() == 0 {
        assert(st.buf + s =~= st.buf);
    } else {
        assert(stepped(st, s[0]) == Ok::<LexState, LexError>(buffered(st, s[0])));
        lemma_lex_string_run(buffered(st, s[0]), s.drop_first());
        assert(st.buf + s =~= st.buf.push(s[0]) + s.drop_first());
    }
}

/// A string declaration in source text — the `string` keyword, a fresh
/// identifier, the assignment and a double-quoted literal, closed by a
/// semicolon and a newline — lexes to exactly the declaration's token
/// line: the keyword, the name, the assignment, the quote markers around
/// a single `Strings` token holding the literal's text verbatim, the
/// terminator and the line boundary.
///
/// The literal's text may not itself read as an integer literal or a
/// keyword: the end-of-token reducer classifies those first, even
/// between quotes.
pub proof fn lemma_string_declaration_lexes(x: Seq<char>, text: Seq<char>)
    requires
        x.len() > 0,
        forall|k: int| 0 <= k < x.len() ==> is_letter_char(#[trigger] x[k]),
        x != "int"@,
        x != "string"@,
        x != "bool"@,
        x != "proc"@,
        x != "print"@,
        x != "true"@,
        x != "false"@,
        text.len() > 0,
        forall|k: int| 0 <= k < text.len() ==> #[trigger] text[k] != '"',
        !is_int_literal(text),
        text != "="@,
        text != "=="@,
        text != "int"@,
        text != "string"@,
        text != "bool"@,
        text != "proc"@,
        text != "print"@,
        text != "true"@,
        text != "false"@,
    ensures
        lex_spec("string "@ + x + " = \""@ + text + "\";\n"@) == Ok::<Seq<TokenModel>, LexError>(
            seq![
                TokenModel::LetString,
                TokenModel::VarName(x),
                TokenModel::EqualsTo,
                TokenModel::DblQuote,
                TokenModel::Strings(text),
                TokenModel::DblQuote,
                TokenModel::Semicolon,
                TokenModel::NewLine,
            ],
        ),
{
    reveal_strlit("string ");
    reveal_strlit(" = \"");
    reveal_strlit("\";\n");
    reveal_strlit("=");
    reveal_strlit("==");
    reveal_strlit("int");
    reveal_strlit("string");
    reveal_strlit("bool");
    reveal_strlit("proc");
    reveal_strlit("print");
    reveal_strlit("true");
    reveal_strlit("false");
    lemma_letters_not_assign(x);
    let source = "string "@ + x + " = \""@ + text + "\";\n"@;

    // `string ` emits the declaration keyword.
    let a = seq!['s', 't', 'r', 'i', 'n', 'g', ' '];
    assert("string "@ =~= a);
    let s0 = init_state();
    let s1 = buffered(s0, 's');
    let s2 = buffered(s1, 't');
    let s3 = buffered(s2, 'r');
    let s4 = buffered(s3, 'i');
    let s5 = buffered(s4, 'n');
    let s6 = buffered(s5, 'g');
    assert(stepped(s0, 's') == Ok::<LexState, LexError>(s1));
    assert(stepped(s1, 't') == Ok::<LexState, LexError>(s2));
    assert(stepped(s2, 'r') == Ok::<LexState, LexError>(s3));
    assert(stepped(s3, 'i') == Ok::<LexState, LexError>(s4));
    assert(stepped(s4, 'n') == Ok::<LexState, LexError>(s5));
    assert(stepped(s5, 'g') == Ok::<LexState, LexError>(s6));
    assert(s6.buf =~= "string"@);
    assert(s6.buf == "string"@);
    assert(!is_digit_char(s6.buf[0]));
    assert(!is_int_literal(s6.buf));
    let s7 = emitted(s6, TokenModel::LetString);
    assert(flushed(s6) == Ok::<LexState, LexError>(s7));
    assert(stepped(s6, ' ') == Ok::<LexState, LexError>(s7));
    assert(a.drop_first() =~= seq!['t', 'r', 'i', 'n', 'g', ' ']);
    assert(seq!['t', 'r', 'i', 'n', 'g', ' '].drop_first() =~= seq!['r', 'i', 'n', 'g', ' ']);
    assert(seq!['r', 'i', 'n', 'g', ' '].drop_first() =~= seq!['i', 'n', 'g', ' ']);
    assert(seq!['i', 'n', 'g', ' '].drop_first() =~= seq!['n', 'g', ' ']);
    assert(seq!['n', 'g', ' '].drop_first() =~= seq!['g', ' ']);
    assert(seq!['g', ' '].drop_first() =~= seq![' ']);
    assert(seq![' '].drop_first() =~= Seq::<char>::empty());
    assert(lex_from(s0, a) == lex_from(s1, seq!['t', 'r', 'i', 'n', 'g', ' ']));
    assert(lex_from(s1, seq!['t', 'r', 'i', 'n', 'g', ' ']) == lex_from(
        s2,
        seq!['r', 'i', 'n', 'g', ' '],
    ));
    assert(lex_from(s2, seq!['r', 'i', 'n', 'g', ' ']) == lex_from(s3, seq!['i', 'n', 'g', ' ']));
    assert(lex_from(s3, seq!['i', 'n', 'g', ' ']) == lex_from(s4, seq!['n', 'g', ' ']));
    assert(lex_from(s4, seq!['n', 'g', ' ']) == lex_from(s5, seq!['g', ' ']));
    assert(lex_from(s5, seq!['g', ' ']) == lex_from(s6, seq![' ']));
    assert(lex_from(s6, seq![' ']) == lex_from(s7, Seq::<char>::empty()));
    assert(lex_from(s0, a) == Ok::<LexState, LexError>(s7));

    // The identifier accumulates; the space classifies it; ` = "` emits
    // the assignment and opens the string.
    lemma_lex_buffer_run(s7, x);
    let s8 = LexState {
        toks: s7.toks,
        buf: s7.buf + x,
        making_string: 0,
        making_params: 0,
        making_comment: false,
    };
    assert(lex_from(s7, x) == Ok::<LexState, LexError>(s8));
    assert(s8.buf =~= x);
    assert(s8.buf == x);
    assert(!is_digit_char(s8.buf[0]));
    assert(!is_int_literal(s8.buf));
    assert(s8.toks.last() is LetString);
    let s9 = emitted(s8, TokenModel::VarName(x));
    assert(flushed(s8) == Ok::<LexState, LexError>(s9));
    assert(stepped(s8, ' ') == Ok::<LexState, LexError>(s9));
    let b = seq![' ', '=', ' ', '"'];
    assert(" = \""@ =~= b);
    let s10 = buffered(s9, '=');
    assert(stepped(s9, '=') == Ok::<LexState, LexError>(s10));
    assert(s10.buf =~= "="@);
    assert(s10.buf == "="@);
    let s11 = emitted(s10, TokenModel::EqualsTo);
    assert(flushed(s10) == Ok::<LexState, LexError>(s11));
    assert(stepped(s10, ' ') == Ok::<LexState, LexError>(s11));
    let s12 = LexState {
        toks: s11.toks.push(TokenModel::DblQuote),
        buf: s11.buf,
        making_string: 1,
        making_params: 0,
        making_comment: false,
    };
    assert(stepped(s11, '"') == Ok::<LexState, LexError>(s12));
    assert(b.drop_first() =~= seq!['=', ' ', '"']);
    assert(seq!['=', ' ', '"'].drop_first() =~= seq![' ', '"']);
    assert(seq![' ', '"'].drop_first() =~= seq!['"']);
    assert(seq!['"'].drop_first() =~= Seq::<char>::empty());
    assert(lex_from(s8, b) == lex_from(s9, seq!['=', ' ', '"']));
    assert(lex_from(s9, seq!['=', ' ', '"']) == lex_from(s10, seq![' ', '"']));
    assert(lex_from(s10, seq![' ', '"']) == lex_from(s11, seq!['"']));
    assert(lex_from(s11, seq!['"']) == lex_from(s12, Seq::<char>::empty()));
    assert(lex_from(s8, b) == Ok::<LexState, LexError>(s12));

    // The literal's text accumulates inside the string.
    lemma_lex_string_run(s12, text);
    let s13 = LexState {
        toks: s12.toks,
        buf: s12.buf + text,
        making_string: 1,
        making_params: 0,
        making_comment: false,
    };
    assert(lex_from(s12, text) == Ok::<LexState, LexError>(s13));
    assert(s13.buf =~= text);
    assert(s13.buf == text);

    // `";` closes the string and terminates; the newline closes the line.
    let c = seq!['"', ';', '\n'];
    assert("\";\n"@ =~= c);
    assert(s13.toks.last() is DblQuote);
    let s14 = LexState {
        toks: s13.toks.push(TokenModel::Strings(text)).push(TokenModel::DblQuote),
        buf: Seq::empty(),
        making_string: 0,
        making_params: 0,
        making_comment: false,
    };
    assert(stepped(s13, '"') == Ok::<LexState, LexError>(s14));
    let s15 = LexState {
        toks: s14.toks.push(TokenModel::Semicolon),
        buf: Seq::empty(),
        making_string: 0,
        making_params: 0,
        making_comment: false,
    };
    assert(stepped(s14, ';') == Ok::<LexState, LexError>(s15));
    let s16 = LexState {
        toks: s15.toks.push(TokenModel::NewLine),
        buf: Seq::empty(),
        making_string: 0,
        making_params: 0,
        making_comment: false,
    };
    assert(stepped(s15, '\n') == Ok::<LexState, LexError>(s16));
    assert(c.drop_first() =~= seq![';', '\n']);
    assert(seq![';', '\n'].drop_first() =~= seq!['\n']);
    assert(seq!['\n'].drop_first() =~= Seq::<char>::empty());
    assert(lex_from(s13, c) == lex_from(s14, seq![';', '\n']));
    assert(lex_from(s14, seq![';', '\n']) == lex_from(s15, seq!['\n']));
    assert(lex_from(s15, seq!['\n']) == lex_from(s16, Seq::<char>::empty()));
    assert(lex_from(s13, c) == Ok::<LexState, LexError>(s16));

    // Chain the pieces over the whole source.
    lemma_lex_from_app(s0, a, x + b + text + c);
    lemma_lex_from_app(s7, x, b + text + c);
    lemma_lex_from_app(s8, b, text + c);
    lemma_lex_from_app(s12, text, c);
    assert(source =~= a + (x + (b + (text + c))));
    assert(x + b + text + c =~= x + (b + (text + c)));
    assert(b + text + c =~= b + (text + c));
    assert(lex_from(s0, source) == Ok::<LexState, LexError>(s16));
    assert(s16.toks =~= seq![
        TokenModel::LetString,
        TokenModel::VarName(x),
        TokenModel::EqualsTo,
        TokenModel::DblQuote,
        TokenModel::Strings(text),
        TokenModel::DblQuote,
        TokenModel::Semicolon,
        TokenModel::NewLine,
    ]);
}

/// A boolean declaration with a literal value in source text lexes to
/// exactly the declaration's token line: the keyword, the name, the
/// assignment, the `Boolean` token with the literal's value, the
/// terminator and the line boundary.
pub proof fn lemma_bool_declaration_lexes(x: Seq<char>, v: bool)
    requires
        x.len() > 0,
        forall|k: int| 0 <= k < x.len() ==> is_letter_char(#[trigger] x[k]),
        x != "int"@,
        x != "string"@,
        x != "bool"@,
        x != "proc"@,
        x != "print"@,
        x != "true"@,
        x != "false"@,
    ensures
        lex_spec("bool "@ + x + " = "@ + (if v { "true"@ } else { "false"@ }) + ";\n"@) == Ok::<
            Seq<TokenModel>,
            LexError,
        >(
            seq![
                TokenModel::LetBool,
                TokenModel::VarName(x),
                TokenModel::EqualsTo,
                TokenModel::Boolean(v),
                TokenModel::Semicolon,
                TokenModel::NewLine,
            ],
        ),
{
    reveal_strlit("bool ");
    reveal_strlit(" = ");
    reveal_strlit(";\n");
    reveal_strlit("=");
    reveal_strlit("==");
    reveal_strlit("int");
    reveal_strlit("string");
    reveal_strlit("bool");
    reveal_strlit("proc");
    reveal_strlit("print");
    reveal_strlit("true");
    reveal_strlit("false");
    lemma_letters_not_assign(x);
    let lit = if v {
        "true"@
    } else {
        "false"@
    };
    let source = "bool "@ + x + " = "@ + lit + ";\n"@;

    // `bool ` emits the declaration keyword.
    let a = seq!['b', 'o', 'o', 'l', ' '];
    assert("bool "@ =~= a);
    let s0 = init_state();
    let s1 = buffered(s0, 'b');
    let s2 = buffered(s1, 'o');
    let s3 = buffered(s2, 'o');
    let s4 = buffered(s3, 'l');
    assert(stepped(s0, 'b') == Ok::<LexState, LexError>(s1));
    assert(stepped(s1, 'o') == Ok::<LexState, LexError>(s2));
    assert(stepped(s2, 'o') == Ok::<LexState, LexError>(s3));
    assert(stepped(s3, 'l') == Ok::<LexState, LexError>(s4));
    assert(s4.buf =~= "bool"@);
    assert(s4.buf == "bool"@);
    assert(!is_digit_char(s4.buf[0]));
    assert(!is_int_literal(s4.buf));
    let s5 = emitted(s4, TokenModel::LetBool);
    assert(flushed(s4) == Ok::<LexState, LexError>(s5));
    assert(stepped(s4, ' ') == Ok::<LexState, LexError>(s5));
    assert(a.drop_first() =~= seq!['o', 'o', 'l', ' ']);
    assert(seq!['o', 'o', 'l', ' '].drop_first() =~= seq!['o', 'l', ' ']);
    assert(seq!['o', 'l', ' '].drop_first() =~= seq!['l', ' ']);
    assert(seq!['l', ' '].drop_first() =~= seq![' ']);
    assert(seq![' '].drop_first() =~= Seq::<char>::empty());
    assert(lex_from(s0, a) == lex_from(s1, seq!['o', 'o', 'l', ' ']));
    assert(lex_from(s1, seq!['o', 'o', 'l', ' ']) == lex_from(s2, seq!['o', 'l', ' ']));
    assert(lex_from(s2, seq!['o', 'l', ' ']) == lex_from(s3, seq!['l', ' ']));
    assert(lex_from(s3, seq!['l', ' ']) == lex_from(s4, seq![' ']));
    assert(lex_from(s4, seq![' ']) == lex_from(s5, Seq::<char>::empty()));
    assert(lex_from(s0, a) == Ok::<LexState, LexError>(s5));

    // The identifier accumulates; ` = ` classifies it and emits the
    // assignment.
    lemma_lex_buffer_run(s5, x);
    let s6 = LexState {
        toks: s5.toks,
        buf: s5.buf + x,
        making_string: 0,
        making_params: 0,
        making_comment: false,
    };
    assert(lex_from(s5, x) == Ok::<LexState, LexError>(s6));
    assert(s6.buf =~= x);
    assert(s6.buf == x);
    assert(!is_digit_char(s6.buf[0]));
    assert(!is_int_literal(s6.buf));
    assert(s6.toks.last() is LetBool);
    let s7 = emitted(s6, TokenModel::VarName(x));
    assert(flushed(s6) == Ok::<LexState, LexError>(s7));
    assert(stepped(s6, ' ') == Ok::<LexState, LexError>(s7));
    let b = seq![' ', '=', ' '];
    assert(" = "@ =~= b);
    let s8 = buffered(s7, '=');
    assert(stepped(s7, '=') == Ok::<LexState, LexError>(s8));
    assert(s8.buf =~= "="@);
    assert(s8.buf == "="@);
    let s9 = emitted(s8, TokenModel::EqualsTo);
    assert(flushed(s8) == Ok::<LexState, LexError>(s9));
    assert(stepped(s8, ' ') == Ok::<LexState, LexError>(s9));
    assert(b.drop_first() =~= seq!['=', ' ']);
    assert(seq!['=', ' '].drop_first() =~= seq![' ']);
    assert(lex_from(s6, b) == lex_from(s7, seq!['=', ' ']));
    assert(lex_from(s7, seq!['=', ' ']) == lex_from(s8, seq![' ']));
    assert(lex_from(s8, seq![' ']) == lex_from(s9, Seq::<char>::empty()));
    assert(lex_from(s6, b) == Ok::<LexState, LexError>(s9));

    // The literal accumulates.
    assert(forall|k: int| 0 <= k < lit.len() ==> is_letter_char(#[trigger] lit[k])) by {
        if v {
            assert(lit =~= seq!['t', 'r', 'u', 'e']);
        } else {
            assert(lit =~= seq!['f', 'a', 'l', 's', 'e']);
        }
    }
    lemma_lex_buffer_run(s9, lit);
    let s10 = LexState {
        toks: s9.toks,
        buf: s9.buf + lit,
        making_string: 0,
        making_params: 0,
        making_comment: false,
    };
    assert(lex_from(s9, lit) == Ok::<LexState, LexError>(s10));
    assert(s10.buf =~= lit);
    assert(s10.buf == lit);
    assert(!is_digit_char(s10.buf[0]));
    assert(!is_int_literal(s10.buf));

    // `;` classifies the literal and terminates; the newline closes the
    // line.
    let c = seq![';', '\n'];
    assert(";\n"@ =~= c);
    let s11 = emitted(s10, TokenModel::Boolean(v));
    assert(flushed(s10) == Ok::<LexState, LexError>(s11));
    let s12 = LexState {
        toks: s11.toks.push(TokenModel::Semicolon),
        buf: Seq::empty(),
        making_string: 0,
        making_params: 0,
        making_comment: false,
    };
    assert(stepped(s10, ';') == Ok::<LexState, LexError>(s12));
    let s13 = LexState {
        toks: s12.toks.push(TokenModel::NewLine),
        buf: Seq::empty(),
        making_string: 0,
        making_params: 0,
        making_comment: false,
    };
    assert(stepped(s12, '\n') == Ok::<LexState, LexError>(s13));
    assert(c.drop_first() =~= seq!['\n']);
    assert(seq!['\n'].drop_first() =~= Seq::<char>::empty());
    assert(lex_from(s10, c) == lex_from(s12, seq!['\n']));
    assert(lex_from(s12, seq!['\n']) == lex_from(s13, Seq::<char>::empty()));
    assert(lex_from(s10, c) == Ok::<LexState, LexError>(s13));

    // Chain the pieces over the whole source.
    lemma_lex_from_app(s0, a, x + b + lit + c);
    lemma_lex_from_app(s5, x, b + lit + c);
    lemma_lex_from_app(s6, b, lit + c);
    lemma_lex_from_app(s9, lit, c);
    assert(source =~= a + (x + (b + (lit + c))));
    assert(x + b + lit + c =~= x + (b + (lit + c)));
    assert(b + lit + c =~= b + (lit + c));
    assert(lex_from(s0, source) == Ok::<LexState, LexError>(s13));
    assert(s13.toks =~= seq![
        TokenModel::LetBool,
        TokenModel::VarName(x),
        TokenModel::EqualsTo,
        TokenModel::Boolean(v),
        TokenModel::Semicolon,
        TokenModel::NewLine,
    ]);
}

} // verus!
