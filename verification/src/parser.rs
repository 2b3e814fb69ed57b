//! Syntactic analysis: token stream to a flat list of syntax nodes.
//!
//! The token sequence is split into lines at `NewLine` tokens; each line is
//! processed independently, left to right. Declarations scan the rest of
//! their line for the declared name, the assignment, the terminator and
//! the value text; calls, prints and conditionals gather the `Parameters`
//! tokens that follow them. The whole pass is modelled by the spec
//! function [`parse_spec`]; [`parser`] is verified to return exactly what
//! it says.

use vstd::prelude::*;

use crate::token::ParseError;
use crate::token::Token;
use crate::token::TokenModel;
use crate::token::tokens_view;
use crate::syntax::FunctionCall;
use crate::syntax::FunctionCallModel;
use crate::syntax::FunctionDeclare;
use crate::syntax::FunctionDeclareModel;
use crate::syntax::NodeModel;
use crate::syntax::Parsed;
use crate::syntax::VariableDeclare;
use crate::syntax::VariableDeclareModel;
use crate::syntax::nodes_view;

verus! {

/// The index of the first `NewLine` token, or `ts.len()` if there is none.
pub open spec fn first_nl(ts: Seq<TokenModel>) -> int
    decreases ts.len(),
{
    if ts.len() == 0 {
        0
    } else if ts[0] is NewLine {
        0
    } else {
        1 + first_nl(ts.drop_first())
    }
}

/// `first_nl` points at a `NewLine` inside the sequence, or just past it.
pub proof fn lemma_first_nl_bounds(ts: Seq<TokenModel>)
    ensures
        0 <= first_nl(ts) <= ts.len(),
        first_nl(ts) < ts.len() ==> ts[first_nl(ts)] is NewLine,
        forall|j: int| 0 <= j < first_nl(ts) ==> !(#[trigger] ts[j] is NewLine),
    decreases ts.len(),
{
    if ts.len() > 0 && !(ts[0] is NewLine) {
        lemma_first_nl_bounds(ts.drop_first());
        assert forall|j: int| 0 <= j < first_nl(ts) implies !(#[trigger] ts[j] is NewLine) by {
            if j > 0 {
                assert(ts[j] == ts.drop_first()[j - 1]);
            }
        }
    }
}

/// The lines of the token stream: the segments between `NewLine` tokens,
/// without the `NewLine` tokens themselves. No trailing empty line is
/// kept for a stream that ends exactly at a newline.
pub open spec fn split_lines(ts: Seq<TokenModel>) -> Seq<Seq<TokenModel>>
    decreases ts.len(),
{
    let k = first_nl(ts);
    if !(0 <= k < ts.len()) {
        if ts.len() == 0 {
            Seq::empty()
        } else {
            seq![ts]
        }
    } else {
        seq![ts.take(k)] + split_lines(ts.skip(k + 1))
    }
}

/// The scan state of a variable declaration.
pub struct ScanRec {
    /// The declared name: the first `VarName` found.
    pub name: Seq<char>,
    /// Whether the declared name has been found yet.
    pub found: bool,
    /// The accumulated value-expression text.
    pub value: Seq<char>,
    /// Whether an assignment token has been seen.
    pub assigned: bool,
    /// Whether the terminating semicolon has been seen.
    pub semicoloned: bool,
}

/// The scan state a declaration scan starts from.
pub open spec fn init_scan() -> ScanRec {
    ScanRec {
        name: Seq::empty(),
        found: false,
        value: Seq::empty(),
        assigned: false,
        semicoloned: false,
    }
}

/// One token of an integer-declaration scan: the first `VarName` is the
/// declared name and later ones append to the value; `Number` and
/// operator tokens append to the value only between the assignment and
/// the terminator.
pub open spec fn int_step(st: ScanRec, t: TokenModel) -> ScanRec {
    match t {
        TokenModel::VarName(n) => if !st.found {
            ScanRec { name: n, found: true, ..st }
        } else {
            ScanRec { value: st.value + n, ..st }
        },
        TokenModel::EqualsTo => ScanRec { assigned: true, ..st },
        TokenModel::Semicolon => ScanRec { semicoloned: true, ..st },
        TokenModel::Number(text, _) => if st.assigned && !st.semicoloned {
            ScanRec { value: st.value + text, ..st }
        } else {
            st
        },
        TokenModel::Plus => int_op_step(st, "+"@),
        TokenModel::Minus => int_op_step(st, "-"@),
        TokenModel::Multiply => int_op_step(st, "*"@),
        TokenModel::Divide => int_op_step(st, "/"@),
        TokenModel::LParen => int_op_step(st, "("@),
        TokenModel::RParen => int_op_step(st, ")"@),
        _ => st,
    }
}

/// An operator token appends its text to the value between the
/// assignment and the terminator.
pub open spec fn int_op_step(st: ScanRec, text: Seq<char>) -> ScanRec {
    if st.assigned && !st.semicoloned {
        ScanRec { value: st.value + text, ..st }
    } else {
        st
    }
}

/// One token of a string-declaration scan: the value is taken whole from
/// a single `Strings` token.
pub open spec fn string_step(st: ScanRec, t: TokenModel) -> ScanRec {
    match t {
        TokenModel::VarName(n) => if !st.found {
            ScanRec { name: n, found: true, ..st }
        } else {
            ScanRec { value: st.value + n, ..st }
        },
        TokenModel::EqualsTo => ScanRec { assigned: true, ..st },
        TokenModel::Strings(v) => ScanRec { value: v, ..st },
        _ => st,
    }
}

/// One token of a boolean-declaration scan: the value is a `true`/`false`
/// literal, or an equality-comparison text built by concatenating the
/// operand tokens' texts around `==`.
pub open spec fn bool_step(st: ScanRec, t: TokenModel) -> ScanRec {
    match t {
        TokenModel::VarName(n) => if !st.found {
            ScanRec { name: n, found: true, ..st }
        } else {
            ScanRec { value: st.value + n, ..st }
        },
        TokenModel::EqualsTo => ScanRec { assigned: true, ..st },
        TokenModel::Equality => if st.assigned {
            ScanRec { value: st.value + "=="@, ..st }
        } else {
            st
        },
        TokenModel::Number(text, _) => if st.assigned {
            ScanRec { value: st.value + text, ..st }
        } else {
            st
        },
        TokenModel::Boolean(b) => if b {
            ScanRec { value: "true"@, ..st }
        } else {
            ScanRec { value: "false"@, ..st }
        },
        _ => st,
    }
}

/// The rest of an integer-declaration scan, from index `j` on.
pub open spec fn int_fold_from(line: Seq<TokenModel>, j: int, st: ScanRec) -> ScanRec
    decreases line.len() - j,
{
    if j < 0 || j >= line.len() {
        st
    } else {
        int_fold_from(line, j + 1, int_step(st, line[j]))
    }
}

/// The rest of a string-declaration scan, from index `j` on.
pub open spec fn string_fold_from(line: Seq<TokenModel>, j: int, st: ScanRec) -> ScanRec
    decreases line.len() - j,
{
    if j < 0 || j >= line.len() {
        st
    } else {
        string_fold_from(line, j + 1, string_step(st, line[j]))
    }
}

/// The rest of a boolean-declaration scan, from index `j` on.
pub open spec fn bool_fold_from(line: Seq<TokenModel>, j: int, st: ScanRec) -> ScanRec
    decreases line.len() - j,
{
    if j < 0 || j >= line.len() {
        st
    } else {
        bool_fold_from(line, j + 1, bool_step(st, line[j]))
    }
}

/// The scan state of a declaration header, call, print or conditional:
/// a name, gathered raw text, and one flag (opening parenthesis or brace
/// found).
pub struct GatherRec {
    pub name: Seq<char>,
    pub text: Seq<char>,
    pub flag: bool,
}

/// The gather state such a scan starts from.
pub open spec fn init_gather() -> GatherRec {
    GatherRec { name: Seq::empty(), text: Seq::empty(), flag: false }
}

/// One token of a function-declaration scan: the last `FuncName` names the
/// function, `Parameters` tokens append to the parameter text.
pub open spec fn fn_step(st: GatherRec, t: TokenModel) -> GatherRec {
    match t {
        TokenModel::FuncName(n) => GatherRec { name: n, ..st },
        TokenModel::Parameters(v) => GatherRec { text: st.text + v, ..st },
        _ => st,
    }
}

/// One token of a call scan: an `LParen` marks the call as genuine,
/// `Parameters` tokens append to the argument text.
pub open spec fn call_step(st: GatherRec, t: TokenModel) -> GatherRec {
    match t {
        TokenModel::LParen => GatherRec { flag: true, ..st },
        TokenModel::Parameters(v) => GatherRec { text: st.text + v, ..st },
        _ => st,
    }
}

/// One token of a print scan: `Parameters` tokens append to the body.
pub open spec fn print_step(st: GatherRec, t: TokenModel) -> GatherRec {
    match t {
        TokenModel::Parameters(v) => GatherRec { text: st.text + v, ..st },
        _ => st,
    }
}

/// One token of an `if`/`else if` scan: `Parameters` tokens append to the
/// condition, an `LSquirly` marks the block as opened.
pub open spec fn cond_step(st: GatherRec, t: TokenModel) -> GatherRec {
    match t {
        TokenModel::Parameters(v) => GatherRec { text: st.text + v, ..st },
        TokenModel::LSquirly => GatherRec { flag: true, ..st },
        _ => st,
    }
}

/// The rest of a function-declaration scan, from index `j` on.
pub open spec fn fn_fold_from(line: Seq<TokenModel>, j: int, st: GatherRec) -> GatherRec
    decreases line.len() - j,
{
    if j < 0 || j >= line.len() {
        st
    } else {
        fn_fold_from(line, j + 1, fn_step(st, line[j]))
    }
}

/// The rest of a call scan, from index `j` on.
pub open spec fn call_fold_from(line: Seq<TokenModel>, j: int, st: GatherRec) -> GatherRec
    decreases line.len() - j,
{
    if j < 0 || j >= line.len() {
        st
    } else {
        call_fold_from(line, j + 1, call_step(st, line[j]))
    }
}

/// The rest of a print scan, from index `j` on.
pub open spec fn print_fold_from(line: Seq<TokenModel>, j: int, st: GatherRec) -> GatherRec
    decreases line.len() - j,
{
    if j < 0 || j >= line.len() {
        st
    } else {
        print_fold_from(line, j + 1, print_step(st, line[j]))
    }
}

/// The rest of an `if`/`else if` scan, from index `j` on.
pub open spec fn cond_fold_from(line: Seq<TokenModel>, j: int, st: GatherRec) -> GatherRec
    decreases line.len() - j,
{
    if j < 0 || j >= line.len() {
        st
    } else {
        cond_fold_from(line, j + 1, cond_step(st, line[j]))
    }
}

/// Prefix `ns` onto the nodes of `r`, keeping an error.
pub open spec fn prepend(ns: Seq<NodeModel>, r: Result<Seq<NodeModel>, ParseError>) -> Result<
    Seq<NodeModel>,
    ParseError,
> {
    match r {
        Ok(rest) => Ok(ns + rest),
        Err(e) => Err(e),
    }
}

/// The nodes of one line, processing tokens from index `i` on.
///
/// A declaration or call consumes the rest of its line; `print`,
/// block-close and `else` emit a node and keep scanning; a malformed
/// `if`/`else if` (no opening brace) is dropped silently; a declaration
/// missing its assignment or terminator, or a call missing its opening
/// parenthesis, fails with `InvalidSyntax`.
pub open spec fn line_nodes(line: Seq<TokenModel>, i: int) -> Result<Seq<NodeModel>, ParseError>
    decreases line.len() - i,
{
    if i < 0 || i >= line.len() {
        Ok(Seq::empty())
    } else {
        match line[i] {
            TokenModel::RSquirly => prepend(
                seq![NodeModel::RSquirly("}"@)],
                line_nodes(line, i + 1),
            ),
            TokenModel::LetInt => {
                let sc = int_fold_from(line, i + 1, init_scan());
                if sc.assigned && sc.semicoloned {
                    Ok(
                        seq![
                            NodeModel::VariableDeclare(
                                VariableDeclareModel {
                                    type_class: "i32"@,
                                    name: sc.name,
                                    value: sc.value,
                                },
                            ),
                        ],
                    )
                } else {
                    Err(ParseError::InvalidSyntax)
                }
            },
            TokenModel::LetString => {
                let sc = string_fold_from(line, i + 1, init_scan());
                if sc.assigned {
                    Ok(
                        seq![
                            NodeModel::VariableDeclare(
                                VariableDeclareModel {
                                    type_class: "String"@,
                                    name: sc.name,
                                    value: sc.value,
                                },
                            ),
                        ],
                    )
                } else {
                    Err(ParseError::InvalidSyntax)
                }
            },
            TokenModel::LetBool => {
                let sc = bool_fold_from(line, i + 1, init_scan());
                if sc.assigned {
                    Ok(
                        seq![
                            NodeModel::VariableDeclare(
                                VariableDeclareModel {
                                    type_class: "bool"@,
                                    name: sc.name,
                                    value: sc.value,
                                },
                            ),
                        ],
                    )
                } else {
                    Err(ParseError::InvalidSyntax)
                }
            },
            TokenModel::Function => {
                let g = fn_fold_from(line, i + 1, init_gather());
                Ok(
                    seq![
                        NodeModel::FunctionDeclare(
                            FunctionDeclareModel { name: g.name, parameters: g.text },
                        ),
                    ],
                )
            },
            TokenModel::FuncName(name) => {
                if i > 0 && line[i - 1] is Function {
                    line_nodes(line, i + 1)
                } else {
                    let g = call_fold_from(line, i + 1, init_gather());
                    if g.flag {
                        Ok(
                            seq![
                                NodeModel::FunctionCall(
                                    FunctionCallModel { name: name, parameters: g.text },
                                ),
                            ],
                        )
                    } else {
                        Err(ParseError::InvalidSyntax)
                    }
                }
            },
            TokenModel::Print => {
                let g = print_fold_from(line, i + 1, init_gather());
                prepend(seq![NodeModel::Print(g.text)], line_nodes(line, i + 1))
            },
            TokenModel::If => {
                let g = cond_fold_from(line, i + 1, init_gather());
                if g.flag {
                    Ok(seq![NodeModel::If(g.text)])
                } else {
                    Ok(Seq::empty())
                }
            },
            TokenModel::OrIf => {
                let g = cond_fold_from(line, i + 1, init_gather());
                if g.flag {
                    Ok(seq![NodeModel::OrIf(g.text)])
                } else {
                    Ok(Seq::empty())
                }
            },
            TokenModel::Else => prepend(seq![NodeModel::Else], line_nodes(line, i + 1)),
            _ => line_nodes(line, i + 1),
        }
    }
}

/// The nodes of a sequence of lines, in order; the first bad line fails
/// the whole parse.
pub open spec fn parse_lines(lines: Seq<Seq<TokenModel>>) -> Result<Seq<NodeModel>, ParseError>
    decreases lines.len(),
{
    if lines.len() == 0 {
        Ok(Seq::empty())
    } else {
        match line_nodes(lines[0], 0) {
            Ok(ns) => prepend(ns, parse_lines(lines.drop_first())),
            Err(e) => Err(e),
        }
    }
}

/// What parsing the token stream yields: the nodes of its lines, in order.
pub open spec fn parse_spec(ts: Seq<TokenModel>) -> Result<Seq<NodeModel>, ParseError> {
    parse_lines(split_lines(ts))
}


/// The executable scan state of a variable declaration.
pub struct ScanAcc {
    pub name: String,
    pub found: bool,
    pub value: String,
    pub assigned: bool,
    pub semicoloned: bool,
}

impl View for ScanAcc {
    type V = ScanRec;

    open spec fn view(&self) -> ScanRec {
        ScanRec {
            name: self.name@,
            found: self.found,
            value: self.value@,
            assigned: self.assigned,
            semicoloned: self.semicoloned,
        }
    }
}

/// The executable gather state of a header, call, print or conditional.
pub struct GatherAcc {
    pub name: String,
    pub text: String,
    pub flag: bool,
}

impl View for GatherAcc {
    type V = GatherRec;

    open spec fn view(&self) -> GatherRec {
        GatherRec { name: self.name@, text: self.text@, flag: self.flag }
    }
}

/// The line `[start, end)` of the token stream, as token models.
pub open spec fn line_view(toks: Seq<Token>, start: int, end: int) -> Seq<TokenModel> {
    tokens_view(toks).subrange(start, end)
}

/// Scan the rest of an integer declaration.
fn scan_int(tokens: &Vec<Token>, start: usize, end: usize, rel: usize) -> (out: ScanAcc)
    requires
        start <= end <= tokens@.len(),
        rel <= end - start,
    ensures
        out@ == int_fold_from(line_view(tokens@, start as int, end as int), rel as int, init_scan()),
{
    let ghost line = line_view(tokens@, start as int, end as int);
    let mut acc = ScanAcc {
        name: String::new(),
        found: false,
        value: String::new(),
        assigned: false,
        semicoloned: false,
    };
    let mut j: usize = rel;
    while j < end - start
        invariant
            start <= end <= tokens@.len(),
            rel <= j <= end - start,
            line == line_view(tokens@, start as int, end as int),
            int_fold_from(line, j as int, acc@) == int_fold_from(line, rel as int, init_scan()),
        decreases end - start - j,
    {
        proof {
            assert(line[j as int] == tokens@[start + j as int]@);
        }
        let ghost pre = acc@;
        match &tokens[start + j] {
            Token::VarName(n) => {
                if !acc.found {
                    acc.name = n.clone();
                    acc.found = true;
                } else {
                    acc.value.append(n.as_str());
                }
            },
            Token::EqualsTo => {
                acc.assigned = true;
            },
            Token::Semicolon => {
                acc.semicoloned = true;
            },
            Token::Number(text, _) => {
                if acc.assigned && !acc.semicoloned {
                    acc.value.append(text.as_str());
                }
            },
            Token::Plus => {
                if acc.assigned && !acc.semicoloned {
                    acc.value.append("+");
                }
            },
            Token::Minus => {
                if acc.assigned && !acc.semicoloned {
                    acc.value.append("-");
                }
            },
            Token::Multiply => {
                if acc.assigned && !acc.semicoloned {
                    acc.value.append("*");
                }
            },
            Token::Divide => {
                if acc.assigned && !acc.semicoloned {
                    acc.value.append("/");
                }
            },
            Token::LParen => {
                if acc.assigned && !acc.semicoloned {
                    acc.value.append("(");
                }
            },
            Token::RParen => {
                if acc.assigned && !acc.semicoloned {
                    acc.value.append(")");
                }
            },
            _ => {},
        }
        assert(acc@ == int_step(pre, line[j as int]));
        j = j + 1;
    }
    acc
}

/// Scan the rest of a string declaration.
fn scan_string(tokens: &Vec<Token>, start: usize, end: usize, rel: usize) -> (out: ScanAcc)
    requires
        start <= end <= tokens@.len(),
        rel <= end - start,
    ensures
        out@ == string_fold_from(
            line_view(tokens@, start as int, end as int),
            rel as int,
            init_scan(),
        ),
{
    let ghost line = line_view(tokens@, start as int, end as int);
    let mut acc = ScanAcc {
        name: String::new(),
        found: false,
        value: String::new(),
        assigned: false,
        semicoloned: false,
    };
    let mut j: usize = rel;
    while j < end - start
        invariant
            start <= end <= tokens@.len(),
            rel <= j <= end - start,
            line == line_view(tokens@, start as int, end as int),
            string_fold_from(line, j as int, acc@) == string_fold_from(
                line,
                rel as int,
                init_scan(),
            ),
        decreases end - start - j,
    {
        proof {
            assert(line[j as int] == tokens@[start + j as int]@);
        }
        let ghost pre = acc@;
        match &tokens[start + j] {
            Token::VarName(n) => {
                if !acc.found {
                    acc.name = n.clone();
                    acc.found = true;
                } else {
                    acc.value.append(n.as_str());
                }
            },
            Token::EqualsTo => {
                acc.assigned = true;
            },
            Token::Strings(v) => {
                acc.value = v.clone();
            },
            _ => {},
        }
        assert(acc@ == string_step(pre, line[j as int]));
        j = j + 1;
    }
    acc
}

/// Scan the rest of a boolean declaration.
fn scan_bool(tokens: &Vec<Token>, start: usize, end: usize, rel: usize) -> (out: ScanAcc)
    requires
        start <= end <= tokens@.len(),
        rel <= end - start,
    ensures
        out@ == bool_fold_from(
            line_view(tokens@, start as int, end as int),
            rel as int,
            init_scan(),
        ),
{
    let ghost line = line_view(tokens@, start as int, end as int);
    let mut acc = ScanAcc {
        name: String::new(),
        found: false,
        value: String::new(),
        assigned: false,
        semicoloned: false,
    };
    let mut j: usize = rel;
    while j < end - start
        invariant
            start <= end <= tokens@.len(),
            rel <= j <= end - start,
            line == line_view(tokens@, start as int, end as int),
            bool_fold_from(line, j as int, acc@) == bool_fold_from(line, rel as int, init_scan()),
        decreases end - start - j,
    {
        proof {
            assert(line[j as int] == tokens@[start + j as int]@);
        }
        let ghost pre = acc@;
        match &tokens[start + j] {
            Token::VarName(n) => {
                if !acc.found {
                    acc.name = n.clone();
                    acc.found = true;
                } else {
                    acc.value.append(n.as_str());
                }
            },
            Token::EqualsTo => {
                acc.assigned = true;
            },
            Token::Equality => {
                if acc.assigned {
                    acc.value.append("==");
                }
            },
            Token::Number(text, _) => {
                if acc.assigned {
                    acc.value.append(text.as_str());
                }
            },
            Token::Boolean(b) => {
                if *b {
                    acc.value = String::from_str("true");
                } else {
                    acc.value = String::from_str("false");
                }
            },
            _ => {},
        }
        assert(acc@ == bool_step(pre, line[j as int]));
        j = j + 1;
    }
    acc
}

/// Scan the rest of a function declaration.
fn scan_fn(tokens: &Vec<Token>, start: usize, end: usize, rel: usize) -> (out: GatherAcc)
    requires
        start <= end <= tokens@.len(),
        rel <= end - start,
    ensures
        out@ == fn_fold_from(
            line_view(tokens@, start as int, end as int),
            rel as int,
            init_gather(),
        ),
{
    let ghost line = line_view(tokens@, start as int, end as int);
    let mut acc = GatherAcc { name: String::new(), text: String::new(), flag: false };
    let mut j: usize = rel;
    while j < end - start
        invariant
            start <= end <= tokens@.len(),
            rel <= j <= end - start,
            line == line_view(tokens@, start as int, end as int),
            fn_fold_from(line, j as int, acc@) == fn_fold_from(line, rel as int, init_gather()),
        decreases end - start - j,
    {
        proof {
            assert(line[j as int] == tokens@[start + j as int]@);
        }
        let ghost pre = acc@;
        match &tokens[start + j] {
            Token::FuncName(n) => {
                acc.name = n.clone();
            },
            Token::Parameters(v) => {
                acc.text.append(v.as_str());
            },
            _ => {},
        }
        assert(acc@ == fn_step(pre, line[j as int]));
        j = j + 1;
    }
    acc
}

/// Scan the rest of a function call.
fn scan_call(tokens: &Vec<Token>, start: usize, end: usize, rel: usize) -> (out: GatherAcc)
    requires
        start <= end <= tokens@.len(),
        rel <= end - start,
    ensures
        out@ == call_fold_from(
            line_view(tokens@, start as int, end as int),
            rel as int,
            init_gather(),
        ),
{
    let ghost line = line_view(tokens@, start as int, end as int);
    let mut acc = GatherAcc { name: String::new(), text: String::new(), flag: false };
    let mut j: usize = rel;
    while j < end - start
        invariant
            start <= end <= tokens@.len(),
            rel <= j <= end - start,
            line == line_view(tokens@, start as int, end as int),
            call_fold_from(line, j as int, acc@) == call_fold_from(line, rel as int, init_gather()),
        decreases end - start - j,
    {
        proof {
            assert(line[j as int] == tokens@[start + j as int]@);
        }
        let ghost pre = acc@;
        match &tokens[start + j] {
            Token::LParen => {
                acc.flag = true;
            },
            Token::Parameters(v) => {
                acc.text.append(v.as_str());
            },
            _ => {},
        }
        assert(acc@ == call_step(pre, line[j as int]));
        j = j + 1;
    }
    acc
}

/// Scan the rest of a print statement.
fn scan_print(tokens: &Vec<Token>, start: usize, end: usize, rel: usize) -> (out: GatherAcc)
    requires
        start <= end <= tokens@.len(),
        rel <= end - start,
    ensures
        out@ == print_fold_from(
            line_view(tokens@, start as int, end as int),
            rel as int,
            init_gather(),
        ),
{
    let ghost line = line_view(tokens@, start as int, end as int);
    let mut acc = GatherAcc { name: String::new(), text: String::new(), flag: false };
    let mut j: usize = rel;
    while j < end - start
        invariant
            start <= end <= tokens@.len(),
            rel <= j <= end - start,
            line == line_view(tokens@, start as int, end as int),
            print_fold_from(line, j as int, acc@) == print_fold_from(
                line,
                rel as int,
                init_gather(),
            ),
        decreases end - start - j,
    {
        proof {
            assert(line[j as int] == tokens@[start + j as int]@);
        }
        let ghost pre = acc@;
        match &tokens[start + j] {
            Token::Parameters(v) => {
                acc.text.append(v.as_str());
            },
            _ => {},
        }
        assert(acc@ == print_step(pre, line[j as int]));
        j = j + 1;
    }
    acc
}

/// Scan the rest of an `if`/`else if` statement.
fn scan_cond(tokens: &Vec<Token>, start: usize, end: usize, rel: usize) -> (out: GatherAcc)
    requires
        start <= end <= tokens@.len(),
        rel <= end - start,
    ensures
        out@ == cond_fold_from(
            line_view(tokens@, start as int, end as int),
            rel as int,
            init_gather(),
        ),
{
    let ghost line = line_view(tokens@, start as int, end as int);
    let mut acc = GatherAcc { name: String::new(), text: String::new(), flag: false };
    let mut j: usize = rel;
    while j < end - start
        invariant
            start <= end <= tokens@.len(),
            rel <= j <= end - start,
            line == line_view(tokens@, start as int, end as int),
            cond_fold_from(line, j as int, acc@) == cond_fold_from(line, rel as int, init_gather()),
        decreases end - start - j,
    {
        proof {
            assert(line[j as int] == tokens@[start + j as int]@);
        }
        let ghost pre = acc@;
        match &tokens[start + j] {
            Token::Parameters(v) => {
                acc.text.append(v.as_str());
            },
            Token::LSquirly => {
                acc.flag = true;
            },
            _ => {},
        }
        assert(acc@ == cond_step(pre, line[j as int]));
        j = j + 1;
    }
    acc
}

/// Viewing a pushed node sequence pushes the node's view.
proof fn lemma_nodes_view_push(ns: Seq<Parsed>, p: Parsed)
    ensures
        nodes_view(ns.push(p)) == nodes_view(ns).push(p@),
{
    assert(nodes_view(ns.push(p)) =~= nodes_view(ns).push(p@));
}

/// Viewing a concatenation concatenates the views.
proof fn lemma_nodes_view_app(a: Seq<Parsed>, b: Seq<Parsed>)
    ensures
        nodes_view(a + b) == nodes_view(a) + nodes_view(b),
{
    assert(nodes_view(a + b) =~= nodes_view(a) + nodes_view(b));
}

/// Prefixing twice is prefixing the concatenation.
proof fn lemma_prepend_assoc(a: Seq<NodeModel>, b: Seq<NodeModel>, r: Result<Seq<NodeModel>, ParseError>)
    ensures
        prepend(a, prepend(b, r)) == prepend(a + b, r),
{
    match r {
        Ok(ns) => {
            assert(a + (b + ns) =~= (a + b) + ns);
        },
        Err(_) => {},
    }
}

/// `first_nl` of a sequence with a witnessed first newline.
pub proof fn lemma_first_nl_is(ts: Seq<TokenModel>, k: int)
    requires
        0 <= k < ts.len(),
        ts[k] is NewLine,
        forall|j: int| 0 <= j < k ==> !(#[trigger] ts[j] is NewLine),
    ensures
        first_nl(ts) == k,
    decreases k,
{
    if k > 0 {
        assert(forall|j: int| 0 <= j < k - 1 ==> ts.drop_first()[j] == ts[j + 1]);
        lemma_first_nl_is(ts.drop_first(), k - 1);
    }
}

/// Process the line `[start, end)` of the token stream, appending its
/// nodes to `parsed`, exactly as [`line_nodes`] says.
#[verifier::loop_isolation(false)]
fn process_line(tokens: &Vec<Token>, start: usize, end: usize, parsed: &mut Vec<Parsed>) -> (r:
    Result<(), ParseError>)
    requires
        start <= end <= tokens@.len(),
    ensures
        ({
            let line = line_view(tokens@, start as int, end as int);
            match r {
                Ok(()) => line_nodes(line, 0) matches Ok(ns) && nodes_view(final(parsed)@)
                    == nodes_view(old(parsed)@) + ns,
                Err(e) => line_nodes(line, 0) == Err::<Seq<NodeModel>, ParseError>(e),
            }
        }),
{
    let ghost line = line_view(tokens@, start as int, end as int);
    let ghost base_len = old(parsed)@.len() as int;
    let line_len = end - start;
    let mut i: usize = 0;
    assert(parsed@.skip(base_len) =~= Seq::<Parsed>::empty());
    assert(nodes_view(Seq::<Parsed>::empty()) =~= Seq::<NodeModel>::empty());
    while i < line_len
        invariant
            i <= line_len,
            base_len <= parsed@.len(),
            parsed@.subrange(0, base_len) == old(parsed)@,
            line_nodes(line, 0) == prepend(
                nodes_view(parsed@.skip(base_len)),
                line_nodes(line, i as int),
            ),
        decreases line_len - i,
    {
        proof {
            assert(line[i as int] == tokens@[start + i as int]@);
        }
        let ghost added = nodes_view(parsed@.skip(base_len));
        let ghost before = parsed@;
        match &tokens[start + i] {
            Token::RSquirly => {
                let p = Parsed::RSquirly(String::from_str("}"));
                let ghost pnode = p;
                proof {
                    lemma_prepend_assoc(added, seq![pnode@], line_nodes(line, i as int + 1));
                }
                parsed.push(p);
                proof {
                    assert(parsed@.skip(base_len) =~= before.skip(base_len).push(pnode));
                    lemma_nodes_view_push(before.skip(base_len), pnode);
                    assert(added.push(pnode@) =~= added + seq![pnode@]);
                    assert(parsed@.subrange(0, base_len) =~= before.subrange(0, base_len));
                }
                i = i + 1;
            },
            Token::LetInt => {
                let sc = scan_int(tokens, start, end, i + 1);
                if sc.assigned && sc.semicoloned {
                    let p = Parsed::VariableDeclare(
                        VariableDeclare {
                            type_class: String::from_str("i32"),
                            name: sc.name,
                            value: sc.value,
                        },
                    );
                    let ghost pnode = p;
                    parsed.push(p);
                    proof {
                        assert(parsed@.skip(base_len) =~= before.skip(base_len).push(pnode));
                        lemma_nodes_view_push(before.skip(base_len), pnode);
                        assert(added.push(pnode@) =~= added + seq![pnode@]);
                        assert(line_nodes(line, line_len as int) == Ok::<
                            Seq<NodeModel>,
                            ParseError,
                        >(Seq::empty()));
                        assert((added + seq![pnode@]) + Seq::<NodeModel>::empty() =~= added + seq![
                            pnode@,
                        ]);
                        assert(parsed@.subrange(0, base_len) =~= before.subrange(0, base_len));
                    }
                    i = line_len;
                } else {
                    return Err(ParseError::InvalidSyntax);
                }
            },
            Token::LetString => {
                let sc = scan_string(tokens, start, end, i + 1);
                if sc.assigned {
                    let p = Parsed::VariableDeclare(
                        VariableDeclare {
                            type_class: String::from_str("String"),
                            name: sc.name,
                            value: sc.value,
                        },
                    );
                    let ghost pnode = p;
                    parsed.push(p);
                    proof {
                        assert(parsed@.skip(base_len) =~= before.skip(base_len).push(pnode));
                        lemma_nodes_view_push(before.skip(base_len), pnode);
                        assert(added.push(pnode@) =~= added + seq![pnode@]);
                        assert(line_nodes(line, line_len as int) == Ok::<
                            Seq<NodeModel>,
                            ParseError,
                        >(Seq::empty()));
                        assert((added + seq![pnode@]) + Seq::<NodeModel>::empty() =~= added + seq![
                            pnode@,
                        ]);
                        assert(parsed@.subrange(0, base_len) =~= before.subrange(0, base_len));
                    }
                    i = line_len;
                } else {
                    return Err(ParseError::InvalidSyntax);
                }
            },
            Token::LetBool => {
                let sc = scan_bool(tokens, start, end, i + 1);
                if sc.assigned {
                    let p = Parsed::VariableDeclare(
                        VariableDeclare {
                            type_class: String::from_str("bool"),
                            name: sc.name,
                            value: sc.value,
                        },
                    );
                    let ghost pnode = p;
                    parsed.push(p);
                    proof {
                        assert(parsed@.skip(base_len) =~= before.skip(base_len).push(pnode));
                        lemma_nodes_view_push(before.skip(base_len), pnode);
                        assert(added.push(pnode@) =~= added + seq![pnode@]);
                        assert(line_nodes(line, line_len as int) == Ok::<
                            Seq<NodeModel>,
                            ParseError,
                        >(Seq::empty()));
                        assert((added + seq![pnode@]) + Seq::<NodeModel>::empty() =~= added + seq![
                            pnode@,
                        ]);
                        assert(parsed@.subrange(0, base_len) =~= before.subrange(0, base_len));
                    }
                    i = line_len;
                } else {
                    return Err(ParseError::InvalidSyntax);
                }
            },
            Token::Function => {
                let g = scan_fn(tokens, start, end, i + 1);
                let p = Parsed::FunctionDeclare(
                    FunctionDeclare { name: g.name, parameters: g.text },
                );
                let ghost pnode = p;
                parsed.push(p);
                proof {
                    assert(parsed@.skip(base_len) =~= before.skip(base_len).push(pnode));
                    lemma_nodes_view_push(before.skip(base_len), pnode);
                    assert(added.push(pnode@) =~= added + seq![pnode@]);
                    assert(line_nodes(line, line_len as int) == Ok::<Seq<NodeModel>, ParseError>(
                        Seq::empty(),
                    ));
                    assert((added + seq![pnode@]) + Seq::<NodeModel>::empty() =~= added + seq![
                        pnode@,
                    ]);
                    assert(parsed@.subrange(0, base_len) =~= before.subrange(0, base_len));
                }
                i = line_len;
            },
            Token::FuncName(name) => {
                let mut is_declare = false;
                if i > 0 {
                    proof {
                        assert(line[i as int - 1] == tokens@[start + i as int - 1]@);
                    }
                    match &tokens[start + i - 1] {
                        Token::Function => {
                            is_declare = true;
                        },
                        _ => {},
                    }
                }
                if !is_declare {
                    let g = scan_call(tokens, start, end, i + 1);
                    if g.flag {
                        let p = Parsed::FunctionCall(
                            FunctionCall { name: name.clone(), parameters: g.text },
                        );
                        let ghost pnode = p;
                        parsed.push(p);
                        proof {
                            assert(parsed@.skip(base_len) =~= before.skip(base_len).push(pnode));
                            lemma_nodes_view_push(before.skip(base_len), pnode);
                            assert(added.push(pnode@) =~= added + seq![pnode@]);
                            assert(line_nodes(line, line_len as int) == Ok::<
                                Seq<NodeModel>,
                                ParseError,
                            >(Seq::empty()));
                            assert((added + seq![pnode@]) + Seq::<NodeModel>::empty() =~= added
                                + seq![pnode@]);
                            assert(parsed@.subrange(0, base_len) =~= before.subrange(0, base_len));
                        }
                        i = line_len;
                    } else {
                        return Err(ParseError::InvalidSyntax);
                    }
                } else {
                    i = i + 1;
                }
            },
            Token::Print => {
                let g = scan_print(tokens, start, end, i + 1);
                let p = Parsed::Print(g.text);
                let ghost pnode = p;
                proof {
                    lemma_prepend_assoc(added, seq![pnode@], line_nodes(line, i as int + 1));
                }
                parsed.push(p);
                proof {
                    assert(parsed@.skip(base_len) =~= before.skip(base_len).push(pnode));
                    lemma_nodes_view_push(before.skip(base_len), pnode);
                    assert(added.push(pnode@) =~= added + seq![pnode@]);
                    assert(parsed@.subrange(0, base_len) =~= before.subrange(0, base_len));
                }
                i = i + 1;
            },
            Token::If => {
                let g = scan_cond(tokens, start, end, i + 1);
                if g.flag {
                    let p = Parsed::If(g.text);
                    let ghost pnode = p;
                    parsed.push(p);
                    proof {
                        assert(parsed@.skip(base_len) =~= before.skip(base_len).push(pnode));
                        lemma_nodes_view_push(before.skip(base_len), pnode);
                        assert(added.push(pnode@) =~= added + seq![pnode@]);
                        assert(line_nodes(line, line_len as int) == Ok::<
                            Seq<NodeModel>,
                            ParseError,
                        >(Seq::empty()));
                        assert((added + seq![pnode@]) + Seq::<NodeModel>::empty() =~= added + seq![
                            pnode@,
                        ]);
                        assert(parsed@.subrange(0, base_len) =~= before.subrange(0, base_len));
                    }
                } else {
                    proof {
                        assert(line_nodes(line, line_len as int) == Ok::<
                            Seq<NodeModel>,
                            ParseError,
                        >(Seq::empty()));
                        assert(added + Seq::<NodeModel>::empty() =~= added);
                    }
                }
                i = line_len;
            },
            Token::OrIf => {
                let g = scan_cond(tokens, start, end, i + 1);
                if g.flag {
                    let p = Parsed::OrIf(g.text);
                    let ghost pnode = p;
                    parsed.push(p);
                    proof {
                        assert(parsed@.skip(base_len) =~= before.skip(base_len).push(pnode));
                        lemma_nodes_view_push(before.skip(base_len), pnode);
                        assert(added.push(pnode@) =~= added + seq![pnode@]);
                        assert(line_nodes(line, line_len as int) == Ok::<
                            Seq<NodeModel>,
                            ParseError,
                        >(Seq::empty()));
                        assert((added + seq![pnode@]) + Seq::<NodeModel>::empty() =~= added + seq![
                            pnode@,
                        ]);
                        assert(parsed@.subrange(0, base_len) =~= before.subrange(0, base_len));
                    }
                } else {
                    proof {
                        assert(line_nodes(line, line_len as int) == Ok::<
                            Seq<NodeModel>,
                            ParseError,
                        >(Seq::empty()));
                        assert(added + Seq::<NodeModel>::empty() =~= added);
                    }
                }
                i = line_len;
            },
            Token::Else => {
                let p = Parsed::Else;
                let ghost pnode = p;
                proof {
                    lemma_prepend_assoc(added, seq![pnode@], line_nodes(line, i as int + 1));
                }
                parsed.push(p);
                proof {
                    assert(parsed@.skip(base_len) =~= before.skip(base_len).push(pnode));
                    lemma_nodes_view_push(before.skip(base_len), pnode);
                    assert(added.push(pnode@) =~= added + seq![pnode@]);
                    assert(parsed@.subrange(0, base_len) =~= before.subrange(0, base_len));
                }
                i = i + 1;
            },
            _ => {
                i = i + 1;
            },
        }
    }
    proof {
        assert(line_nodes(line, line_len as int) == Ok::<Seq<NodeModel>, ParseError>(Seq::empty()));
        assert(nodes_view(parsed@.skip(base_len)) + Seq::<NodeModel>::empty() =~= nodes_view(
            parsed@.skip(base_len),
        ));
        assert(parsed@ =~= parsed@.subrange(0, base_len) + parsed@.skip(base_len));
        lemma_nodes_view_app(parsed@.subrange(0, base_len), parsed@.skip(base_len));
    }
    Ok(())
}

/// Syntactic analysis: group the token stream into statement-level
/// syntax nodes.
///
/// Returns exactly the nodes that the spec pass [`parse_spec`] yields for
/// the given tokens, or fails with the error on which the spec pass
/// fails.
#[verifier::loop_isolation(false)]
pub fn parser(tokens: Vec<Token>) -> (r: Result<Vec<Parsed>, ParseError>)
    ensures
        ({
            let ts = tokens_view(tokens@);
            match r {
                Ok(ns) => parse_spec(ts) matches Ok(ms) && nodes_view(ns@) == ms,
                Err(e) => parse_spec(ts) == Err::<Seq<NodeModel>, ParseError>(e),
            }
        }),
{
    let ghost ts = tokens_view(tokens@);
    let n = tokens.len();
    let mut parsed: Vec<Parsed> = Vec::new();
    let mut start: usize = 0;
    let mut idx: usize = 0;
    assert(nodes_view(Seq::<Parsed>::empty()) =~= Seq::<NodeModel>::empty());
    assert(ts.skip(0) =~= ts);
    while idx < n
        invariant
            start <= idx <= n,
            n == tokens@.len(),
            forall|j: int| start <= j < idx ==> !(#[trigger] ts[j] is NewLine),
            parse_spec(ts) == prepend(
                nodes_view(parsed@),
                parse_lines(split_lines(ts.skip(start as int))),
            ),
        decreases n - idx,
    {
        proof {
            assert(ts[idx as int] == tokens@[idx as int]@);
        }
        let mut is_newline = false;
        match &tokens[idx] {
            Token::NewLine => {
                is_newline = true;
            },
            _ => {},
        }
        if is_newline {
            let ghost rem = ts.skip(start as int);
            let ghost k = idx - start as int;
            proof {
                assert(forall|j: int| 0 <= j < k ==> rem[j] == ts[j + start]);
                lemma_first_nl_is(rem, k);
                assert(rem.take(k) =~= line_view(tokens@, start as int, idx as int));
                assert(rem.skip(k + 1) =~= ts.skip(idx as int + 1));
                assert(split_lines(rem) == seq![rem.take(k)] + split_lines(rem.skip(k + 1)));
                assert((seq![rem.take(k)] + split_lines(rem.skip(k + 1)))[0] == rem.take(k));
                assert((seq![rem.take(k)] + split_lines(rem.skip(k + 1))).drop_first()
                    =~= split_lines(rem.skip(k + 1)));
            }
            let ghost before_nodes = nodes_view(parsed@);
            match process_line(&tokens, start, idx, &mut parsed) {
                Ok(()) => {},
                Err(e) => {
                    return Err(e);
                },
            }
            proof {
                let lr = line_nodes(line_view(tokens@, start as int, idx as int), 0);
                lemma_prepend_assoc(
                    before_nodes,
                    lr->Ok_0,
                    parse_lines(split_lines(ts.skip(idx as int + 1))),
                );
            }
            start = idx + 1;
            idx = idx + 1;
        } else {
            idx = idx + 1;
        }
    }
    if start < n {
        let ghost rem = ts.skip(start as int);
        proof {
            assert(forall|j: int| 0 <= j < rem.len() ==> rem[j] == ts[j + start]);
            lemma_first_nl_bounds(rem);
            assert(first_nl(rem) == rem.len());
            assert(split_lines(rem) == seq![rem]);
            assert(seq![rem][0] == rem);
            assert(seq![rem].drop_first() =~= Seq::<Seq<TokenModel>>::empty());
            assert(rem =~= line_view(tokens@, start as int, n as int));
        }
        let ghost before_nodes = nodes_view(parsed@);
        match process_line(&tokens, start, n, &mut parsed) {
            Ok(()) => {},
            Err(e) => {
                return Err(e);
            },
        }
        proof {
            let line = line_view(tokens@, start as int, n as int);
            let lr = line_nodes(line, 0);
            assert(lr is Ok);
            let ns2 = lr->Ok_0;
            assert(nodes_view(parsed@) == before_nodes + ns2);
            assert(line_nodes(rem, 0) == lr);
            assert(parse_lines(Seq::<Seq<TokenModel>>::empty()) == Ok::<Seq<NodeModel>, ParseError>(
                Seq::empty(),
            ));
            assert(parse_lines(seq![rem]) == prepend(
                ns2,
                Ok::<Seq<NodeModel>, ParseError>(Seq::empty()),
            ));
            assert(ns2 + Seq::<NodeModel>::empty() =~= ns2);
            assert(parse_lines(seq![rem]) == Ok::<Seq<NodeModel>, ParseError>(ns2));
            assert(parse_spec(ts) == prepend(before_nodes, Ok::<Seq<NodeModel>, ParseError>(ns2)));
            assert(parse_spec(ts) == Ok::<Seq<NodeModel>, ParseError>(before_nodes + ns2));
            assert(parse_spec(ts) == Ok::<Seq<NodeModel>, ParseError>(nodes_view(parsed@)));
        }
    } else {
        proof {
            assert(ts.skip(start as int) =~= Seq::<TokenModel>::empty());
            assert(nodes_view(parsed@) + Seq::<NodeModel>::empty() =~= nodes_view(parsed@));
        }
    }
    Ok(parsed)
}

} // verus!