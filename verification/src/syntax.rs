//! Statement-level syntax nodes produced by the parser.
//!
//! The parsed program is a flat, ordered list of nodes: block nesting is
//! implicit in emission order (a `RSquirly` node closes whatever block was
//! opened most recently); no node refers to another.

use vstd::prelude::*;

verus! {

/// A variable declaration: `type_class` is the target-language type name
/// (`i32`, `String` or `bool`), `value` the raw value-expression text.
#[derive(Debug, Clone, PartialEq)]
pub struct VariableDeclare {
    pub type_class: String,
    pub name: String,
    pub value: String,
}

/// A function declaration: `parameters` is the raw source parameter-list
/// text, translated only at generation time.
#[derive(Debug, Clone, PartialEq)]
pub struct FunctionDeclare {
    pub name: String,
    pub parameters: String,
}

/// A call of a previously declared function; `parameters` is the raw
/// argument text.
#[derive(Debug, Clone, PartialEq)]
pub struct FunctionCall {
    pub name: String,
    pub parameters: String,
}

/// One parsed statement-level construct.
#[derive(Debug, Clone, PartialEq)]
pub enum Parsed {
    VariableDeclare(VariableDeclare),
    FunctionDeclare(FunctionDeclare),
    FunctionCall(FunctionCall),
    Print(String),
    RSquirly(String),
    If(String),
    OrIf(String),
    Else,
}

/// The model of a [`VariableDeclare`].
pub struct VariableDeclareModel {
    pub type_class: Seq<char>,
    pub name: Seq<char>,
    pub value: Seq<char>,
}

/// The model of a [`FunctionDeclare`].
pub struct FunctionDeclareModel {
    pub name: Seq<char>,
    pub parameters: Seq<char>,
}

/// The model of a [`FunctionCall`].
pub struct FunctionCallModel {
    pub name: Seq<char>,
    pub parameters: Seq<char>,
}

/// The model of a [`Parsed`] node.
pub enum NodeModel {
    VariableDeclare(VariableDeclareModel),
    FunctionDeclare(FunctionDeclareModel),
    FunctionCall(FunctionCallModel),
    Print(Seq<char>),
    RSquirly(Seq<char>),
    If(Seq<char>),
    OrIf(Seq<char>),
    Else,
}

impl View for VariableDeclare {
    type V = VariableDeclareModel;

    open spec fn view(&self) -> VariableDeclareModel {
        VariableDeclareModel { type_class: self.type_class@, name: self.name@, value: self.value@ }
    }
}

impl View for FunctionDeclare {
    type V = FunctionDeclareModel;

    open spec fn view(&self) -> FunctionDeclareModel {
        FunctionDeclareModel { name: self.name@, parameters: self.parameters@ }
    }
}

impl View for FunctionCall {
    type V = FunctionCallModel;

    open spec fn view(&self) -> FunctionCallModel {
        FunctionCallModel { name: self.name@, parameters: self.parameters@ }
    }
}

impl View for Parsed {
    type V = NodeModel;

    open spec fn view(&self) -> NodeModel {
        match self {
            Parsed::VariableDeclare(vd) => NodeModel::VariableDeclare(vd@),
            Parsed::FunctionDeclare(fd) => NodeModel::FunctionDeclare(fd@),
            Parsed::FunctionCall(fc) => NodeModel::FunctionCall(fc@),
            Parsed::Print(s) => NodeModel::Print(s@),
            Parsed::RSquirly(s) => NodeModel::RSquirly(s@),
            Parsed::If(s) => NodeModel::If(s@),
            Parsed::OrIf(s) => NodeModel::OrIf(s@),
            Parsed::Else => NodeModel::Else,
        }
    }
}

/// The models of a sequence of nodes, in order.
pub open spec fn nodes_view(ns: Seq<Parsed>) -> Seq<NodeModel> {
    Seq::new(ns.len(), |i: int| ns[i]@)
}

} // verus!
