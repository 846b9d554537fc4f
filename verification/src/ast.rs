//! A monomorphized program: functions and globals whose bodies are expression trees.

use vstd::prelude::*;

use crate::bigint::BigInt;
use crate::error::{InterpretError, Location};
use crate::eval::{BinaryOpKind, Constructor, UnaryOp};
use crate::format::FmtStrFragment;
use crate::types::{PrintableType, Type};

verus! {

/// What a name refers to.
#[derive(Debug)]
pub enum Definition {
    Local(u32),
    Global(u32),
    Function(u32),
    Builtin(String),
    LowLevel(String),
    Oracle { name: String, pure: bool },
}

/// A use of a name.
#[derive(Debug)]
pub struct Ident {
    pub location: Option<Location>,
    pub definition: Definition,
    pub mutable: bool,
    pub name: String,
    pub typ: Type,
    pub id: u32,
}

/// How a function is inlined.
#[derive(Clone, Copy, Debug, PartialEq, Eq, Structural)]
pub enum InlineType {
    Inline,
    InlineAlways,
    NoPredicates,
    Fold,
}

/// Who sees a parameter or a return value.
#[derive(Clone, Copy, Debug, PartialEq, Eq, Structural)]
pub enum Visibility {
    Public,
    Private,
    CallData(u32),
    ReturnData,
}

/// A literal.
#[derive(Debug)]
pub enum Literal {
    Array { typ: Type, contents: Vec<Expression> },
    Vector { typ: Type, contents: Vec<Expression> },
    Repeated { element: Box<Expression>, length: u32, is_vector: bool, typ: Type },
    Integer(BigInt, Type, Location),
    Bool(bool),
    Unit,
    Str(Vec<u8>),
    /// The fragments, the number of interpolations, the tuple of captured values, and the
    /// printable types of the captures (or why they have none).
    FmtStr(Vec<FmtStrFragment>, u64, Box<Expression>, Result<Vec<PrintableType>, InterpretError>),
}

/// One case of a `match`: the pattern, the locals it binds, and the branch.
#[derive(Debug)]
pub struct MatchCase {
    pub constructor: Constructor,
    pub arguments: Vec<(u32, String)>,
    pub branch: Expression,
}

/// An assignable place.
#[derive(Debug)]
pub enum LValue {
    Ident(Ident),
    Index { array: Box<LValue>, index: Box<Expression>, element_type: Type, location: Location },
    MemberAccess { object: Box<LValue>, field_index: usize },
    Dereference { reference: Box<LValue>, element_type: Type },
    Clone(Box<LValue>),
}

/// An expression of a monomorphized program.
#[derive(Debug)]
pub enum Expression {
    Ident(Ident),
    Literal(Literal),
    Block(Vec<Expression>),
    Unary { operator: UnaryOp, rhs: Box<Expression>, result_type: Type, location: Location, skip: bool },
    Binary { lhs: Box<Expression>, operator: BinaryOpKind, rhs: Box<Expression>, location: Location },
    Index { collection: Box<Expression>, index: Box<Expression>, element_type: Type, location: Location },
    Cast { lhs: Box<Expression>, typ: Type, location: Location },
    For {
        index_variable: u32,
        index_name: String,
        index_type: Type,
        start_range: Box<Expression>,
        end_range: Box<Expression>,
        inclusive: bool,
        block: Box<Expression>,
    },
    Loop(Box<Expression>),
    While { condition: Box<Expression>, body: Box<Expression> },
    If { condition: Box<Expression>, consequence: Box<Expression>, alternative: Option<Box<Expression>>, typ: Type },
    Match {
        variable: u32,
        variable_name: String,
        cases: Vec<MatchCase>,
        default_case: Option<Box<Expression>>,
        typ: Type,
    },
    Tuple(Vec<Expression>),
    ExtractTupleField(Box<Expression>, usize),
    Call { func: Box<Expression>, arguments: Vec<Expression>, return_type: Type, location: Location },
    Let { id: u32, mutable: bool, name: String, expression: Box<Expression> },
    /// A condition, where it stands, and the message with its printable type.
    Constrain { condition: Box<Expression>, location: Location, message: Option<(Box<Expression>, PrintableType)> },
    Assign { lvalue: LValue, expression: Box<Expression> },
    Semi(Box<Expression>),
    Clone(Box<Expression>),
    Drop(Box<Expression>),
    Break,
    Continue,
}

/// A parameter of a function.
#[derive(Debug)]
pub struct Parameter {
    pub id: u32,
    pub mutable: bool,
    pub name: String,
    pub typ: Type,
    pub visibility: Visibility,
}

/// A function of a monomorphized program.
#[derive(Debug)]
pub struct Function {
    pub id: u32,
    pub name: String,
    pub parameters: Vec<Parameter>,
    pub body: Expression,
    pub return_type: Type,
    pub return_visibility: Visibility,
    pub unconstrained: bool,
    pub inline_type: InlineType,
    pub is_entry_point: bool,
    pub allow_constant_return: bool,
}

/// A global and its initializer.
#[derive(Debug)]
pub struct Global {
    pub id: u32,
    pub name: String,
    pub typ: Type,
    pub expression: Expression,
}

/// A monomorphized program: its functions, the entry point among them under id 0, and its
/// globals in the order of their ids.
#[derive(Debug)]
pub struct Program {
    pub functions: Vec<Function>,
    pub globals: Vec<Global>,
}

} // verus!
