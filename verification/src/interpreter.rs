//! A tree-walking interpreter for monomorphized programs.
//!
//! The interpreter keeps the cells that `let mut` bindings and references need in a store;
//! a reference is a cell and the tuple fields followed into it, so a reference to a field sees
//! every later write to the tuple. Every loop iteration and every call spends one unit of a
//! budget, so each run ends; the entry points give the largest budget a `u64` holds, and a run
//! that finishes within some budget finishes the same way under every larger one.

use vstd::prelude::*;

use crate::ast::{Definition, Expression, LValue, Literal, MatchCase, Parameter, Program};
use crate::bigint::{nat_decimal, u64_decimal, BigInt};
use crate::error::{ErrorModel, Location};
use crate::eval::{
    bigint_to_field, binary_model, bind_case_arguments, case_arguments_model, case_match_model, case_matches, cast_model,
    eval_binary, eval_cast, eval_unary, index_out_of_bounds, unary_model, UnaryOp,
};
use crate::field::{field_modulus, FieldId};
use crate::format::{fmt_result, format_fmt_str, FmtStrFragment};
use crate::input::{first_problem, validate_inputs};
use crate::intrinsics::{call_intrinsic, index_model, intrinsic_model, lemma_as_index, string_from_utf8, utf8_error_text};
use crate::projection::{function_position, global_position};
use crate::types::{int_type, type_debug, PrintableType, Signedness, Type};
use crate::error::InterpretError;
use crate::text::{append, cat, owned, same_text};
use crate::value::{
    duplicate_all, FuncId, IntValue, fits, lemma_value_models, model_debug, result_model, valid_type, value_models, wrapped, Value, ValueModel};
use vstd::utf8::{decode_utf8, valid_utf8};

verus! {

/// How a local is bound: to a value, or, for a `let mut`, to a cell of the store.
#[derive(Debug)]
pub enum Binding {
    Value(Value),
    Cell(usize),
}

/// What a binding denotes.
pub enum BindingModel {
    Value(ValueModel),
    Cell(nat),
}

impl Binding {
    pub open spec fn model(&self) -> BindingModel {
        match self {
            Binding::Value(v) => BindingModel::Value(v.model()),
            Binding::Cell(c) => BindingModel::Cell(*c as nat),
        }
    }
}

/// Where a global's evaluation stands: not started, under way, or done with its value.
#[derive(Debug)]
pub enum GlobalState {
    Pending,
    InProgress,
    Done(Value),
}

/// What a global's state denotes.
pub enum GlobalModel {
    Pending,
    InProgress,
    Done(ValueModel),
}

impl GlobalState {
    pub open spec fn model(&self) -> GlobalModel {
        match self {
            GlobalState::Pending => GlobalModel::Pending,
            GlobalState::InProgress => GlobalModel::InProgress,
            GlobalState::Done(v) => GlobalModel::Done(v.model()),
        }
    }
}

/// How evaluating an expression ended: with a value, or by `break` or `continue`.
#[derive(Debug)]
pub enum Flow {
    Normal(Value),
    Break,
    Continue,
}

/// What a flow denotes.
pub enum FlowModel {
    Normal(ValueModel),
    Break,
    Continue,
}

impl Flow {
    pub open spec fn model(&self) -> FlowModel {
        match self {
            Flow::Normal(v) => FlowModel::Normal(v.model()),
            Flow::Break => FlowModel::Break,
            Flow::Continue => FlowModel::Continue,
        }
    }
}

/// One step into a stored value: a tuple's field or an array's element.
#[derive(Clone, Copy, Debug, PartialEq, Eq, Structural)]
pub enum Step {
    Field(usize),
    Element(usize),
}

/// A place an expression or an assignment target denotes: a cell of the store and the steps
/// into its value, or a value held nowhere.
#[derive(Debug)]
pub enum Place {
    At(usize, Vec<Step>),
    Temp(Value),
}

/// What a place denotes.
pub enum PlaceModel {
    At(nat, Seq<Step>),
    Temp(ValueModel),
}

impl Place {
    pub open spec fn model(&self) -> PlaceModel {
        match self {
            Place::At(c, steps) => PlaceModel::At(*c as nat, steps@),
            Place::Temp(v) => PlaceModel::Temp(v.model()),
        }
    }
}

/// The interpreter's state: the field of the program, the store of cells, the globals'
/// evaluations (one per global of the program, in order), whether the code running is
/// unconstrained, and the bindings of the running function.
pub struct State {
    pub field: FieldId,
    pub store: Seq<ValueModel>,
    pub globals: Seq<GlobalModel>,
    pub unconstrained: bool,
    pub env: Seq<(u32, BindingModel)>,
}

/// The error a run that spends its whole budget ends with.
pub open spec fn budget_exhausted() -> ErrorModel {
    ErrorModel::Unsupported("evaluation budget exhausted"@)
}

/// The first position at or after `i` that binds local `id`.
pub open spec fn binding_position(env: Seq<(u32, BindingModel)>, id: u32, i: nat) -> Option<nat>
    decreases env.len() - i,
{
    if i >= env.len() {
        None
    } else if env[i as int].0 == id {
        Some(i)
    } else {
        binding_position(env, id, i + 1)
    }
}

/// The binding of local `id`.
pub open spec fn lookup(env: Seq<(u32, BindingModel)>, id: u32) -> Option<BindingModel> {
    match binding_position(env, id, 0) {
        Some(k) => Some(env[k as int].1),
        None => None,
    }
}

/// `env` with local `id` bound to `b`, replacing an earlier binding of it.
pub open spec fn bind(env: Seq<(u32, BindingModel)>, id: u32, b: BindingModel) -> Seq<(u32, BindingModel)> {
    match binding_position(env, id, 0) {
        Some(k) => env.update(k as int, (id, b)),
        None => env.push((id, b)),
    }
}

/// `env` with the argument locals of `args` from `i` on bound to the values of `vals`.
pub open spec fn bind_arguments(
    env: Seq<(u32, BindingModel)>,
    args: Seq<(u32, String)>,
    vals: Seq<ValueModel>,
    i: nat,
) -> Seq<(u32, BindingModel)>
    decreases args.len() - i,
{
    if i >= args.len() || i >= vals.len() {
        env
    } else {
        bind_arguments(bind(env, args[i as int].0, BindingModel::Value(vals[i as int])), args, vals, i + 1)
    }
}

/// `env` with the parameters of `ps` from `i` on bound to the values of `vals`.
pub open spec fn bind_parameters(
    env: Seq<(u32, BindingModel)>,
    ps: Seq<Parameter>,
    vals: Seq<ValueModel>,
    i: nat,
) -> Seq<(u32, BindingModel)>
    decreases ps.len() - i,
{
    if i >= ps.len() || i >= vals.len() {
        env
    } else {
        bind_parameters(bind(env, ps[i as int].id, BindingModel::Value(vals[i as int])), ps, vals, i + 1)
    }
}

/// The steps of a reference's tuple fields.
pub open spec fn field_steps(fields: Seq<usize>) -> Seq<Step> {
    Seq::new(fields.len(), |i: int| Step::Field(fields[i]))
}

/// The positions a path's steps name.
pub open spec fn step_positions(path: Seq<Step>) -> Seq<usize> {
    Seq::new(path.len(), |i: int| match path[i] {
        Step::Field(k) => k,
        Step::Element(k) => k,
    })
}

/// The error for a place whose steps no longer fit the stored value.
pub open spec fn stale_place() -> ErrorModel {
    ErrorModel::Internal("place does not fit the stored value"@)
}

/// The error for a cell the store does not hold.
pub open spec fn dangling() -> ErrorModel {
    ErrorModel::Internal("dangling reference"@)
}

/// The value reached from `v` by the steps of `path` from `i` on.
pub open spec fn read_path(v: ValueModel, path: Seq<Step>, i: nat) -> Result<ValueModel, ErrorModel>
    decreases path.len() - i,
{
    if i >= path.len() {
        Ok(v)
    } else {
        match (path[i as int], v) {
            (Step::Field(k), ValueModel::Tuple(xs)) => if k < xs.len() {
                read_path(xs[k as int], path, i + 1)
            } else {
                Err(stale_place())
            },
            (Step::Element(k), ValueModel::Array(xs)) => if k < xs.len() {
                read_path(xs[k as int], path, i + 1)
            } else {
                Err(stale_place())
            },
            _ => Err(stale_place()),
        }
    }
}

/// `v` with the value reached by the steps of `path` from `i` on replaced by `new`.
pub open spec fn update_path(v: ValueModel, path: Seq<Step>, i: nat, new: ValueModel) -> Result<ValueModel, ErrorModel>
    decreases path.len() - i,
{
    if i >= path.len() {
        Ok(new)
    } else {
        match (path[i as int], v) {
            (Step::Field(k), ValueModel::Tuple(xs)) => if k < xs.len() {
                match update_path(xs[k as int], path, i + 1, new) {
                    Ok(x) => Ok(ValueModel::Tuple(xs.update(k as int, x))),
                    Err(e) => Err(e),
                }
            } else {
                Err(stale_place())
            },
            (Step::Element(k), ValueModel::Array(xs)) => if k < xs.len() {
                match update_path(xs[k as int], path, i + 1, new) {
                    Ok(x) => Ok(ValueModel::Array(xs.update(k as int, x))),
                    Err(e) => Err(e),
                }
            } else {
                Err(stale_place())
            },
            _ => Err(stale_place()),
        }
    }
}

/// The value at a place.
pub open spec fn read_place(s: State, pl: PlaceModel) -> Result<ValueModel, ErrorModel> {
    match pl {
        PlaceModel::At(c, path) => if c < s.store.len() {
            read_path(s.store[c as int], path, 0)
        } else {
            Err(dangling())
        },
        PlaceModel::Temp(v) => Ok(v),
    }
}

/// One step of `value_m`.
proof fn lemma_value_m(p: Program, fuel: nat, s: State, e: Expression)
    ensures
        value_m(p, fuel, s, e) == (match eval_m(p, fuel, s, e) {
            (s1, Ok(FlowModel::Normal(v))) => (s1, Ok(v)),
            (s1, Ok(_)) => (s1, Err(ErrorModel::Unsupported("break/continue in value position"@))),
            (s1, Err(x)) => (s1, Err(x)),
        }),
{
    reveal(eval_m);
}

/// One step of `block_m`.
proof fn lemma_block_m(p: Program, fuel: nat, s: State, es: Seq<Expression>, i: nat, last: ValueModel)
    ensures
        block_m(p, fuel, s, es, i, last) == (if i >= es.len() {
            (s, Ok(FlowModel::Normal(last)))
        } else {
            match eval_m(p, fuel, s, es[i as int]) {
                (s1, Ok(FlowModel::Normal(v))) => block_m(p, fuel, s1, es, i + 1, v),
                other => other,
            }
        }),
{
    reveal(eval_m);
}

/// One step of `values_m`.
proof fn lemma_values_m(p: Program, fuel: nat, s: State, es: Seq<Expression>, i: nat, acc: Seq<ValueModel>)
    ensures
        values_m(p, fuel, s, es, i, acc) == (if i >= es.len() {
            (s, Ok(acc))
        } else {
            match value_m(p, fuel, s, es[i as int]) {
                (s1, Ok(v)) => values_m(p, fuel, s1, es, i + 1, acc.push(v)),
                (s1, Err(x)) => (s1, Err(x)),
            }
        }),
{
    reveal(eval_m);
}

/// One step of `loop_m`.
proof fn lemma_loop_m(p: Program, fuel: nat, s: State, body: Expression)
    ensures
        loop_m(p, fuel, s, body) == (if fuel == 0 {
            (s, Err(budget_exhausted()))
        } else {
            match eval_m(p, (fuel - 1) as nat, s, body) {
                (s1, Err(x)) => (s1, Err(x)),
                (s1, Ok(FlowModel::Break)) => (s1, Ok(())),
                (s1, Ok(_)) => loop_m(p, (fuel - 1) as nat, s1, body),
            }
        }),
{
    reveal(eval_m);
}

/// One step of `while_m`.
proof fn lemma_while_m(p: Program, fuel: nat, s: State, condition: Expression, body: Expression)
    ensures
        while_m(p, fuel, s, condition, body) == (if fuel == 0 {
            (s, Err(budget_exhausted()))
        } else {
            match value_m(p, (fuel - 1) as nat, s, condition) {
                (s1, Err(x)) => (s1, Err(x)),
                (s1, Ok(c)) => match bool_of(c) {
                    Err(x) => (s1, Err(x)),
                    Ok(false) => (s1, Ok(())),
                    Ok(true) => match eval_m(p, (fuel - 1) as nat, s1, body) {
                        (s2, Err(x)) => (s2, Err(x)),
                        (s2, Ok(FlowModel::Break)) => (s2, Ok(())),
                        (s2, Ok(_)) => while_m(p, (fuel - 1) as nat, s2, condition, body),
                    },
                },
            }
        }),
{
    reveal(eval_m);
}

/// One step of `for_m`.
proof fn lemma_for_m(p: Program, fuel: nat, s: State, var: u32, signed: bool, bits: u8, i: int, end: int, body: Expression)
    ensures
        for_m(p, fuel, s, var, signed, bits, i, end, body) == (if i >= end {
            (s, Ok(()))
        } else if fuel == 0 {
            (s, Err(budget_exhausted()))
        } else {
            let s1 = with_env(s, bind(s.env, var, BindingModel::Value(ValueModel::Int(signed, bits, wrapped(signed, bits as nat, i)))));
            match eval_m(p, (fuel - 1) as nat, s1, body) {
                (s2, Err(x)) => (s2, Err(x)),
                (s2, Ok(FlowModel::Break)) => (s2, Ok(())),
                (s2, Ok(_)) => for_m(p, (fuel - 1) as nat, s2, var, signed, bits, i + 1, end, body),
            }
        }),
{
    reveal(eval_m);
}

/// One step of `call_m`, for a function found with as many parameters as arguments.
proof fn lemma_call_m(p: Program, fuel: nat, s: State, e: Expression, id: u32, args: Seq<ValueModel>, k: nat)
    requires
        fuel > 0,
        function_position(p.functions@, id, 0) == Some(k),
        p.functions@[k as int].parameters@.len() == args.len(),
    ensures
        call_m(p, fuel, s, e, id, args) == ({
            let f = p.functions@[k as int];
            let s1 = State {
                env: bind_parameters(Seq::empty(), f.parameters@, args, 0),
                unconstrained: s.unconstrained || f.unconstrained,
                ..s
            };
            let (s2, r) = eval_m(p, (fuel - 1) as nat, s1, f.body);
            let s3 = State { env: s.env, unconstrained: s.unconstrained, ..s2 };
            match r {
                Ok(FlowModel::Normal(v)) => (s3, Ok(v)),
                Ok(_) => (s3, Err(ErrorModel::Internal("break/continue escaped a function body"@))),
                Err(x) => (s3, Err(x)),
            }
        }),
{
    reveal(eval_m);
}

/// The ways `call_m` fails before running a body.
proof fn lemma_call_m_refused(p: Program, fuel: nat, s: State, e: Expression, id: u32, args: Seq<ValueModel>)
    ensures
        fuel == 0 ==> call_m(p, fuel, s, e, id, args) == (s, Err::<ValueModel, ErrorModel>(budget_exhausted())),
        fuel > 0 && function_position(p.functions@, id, 0) is None ==> call_m(p, fuel, s, e, id, args) == (s,
            Err::<ValueModel, ErrorModel>(ErrorModel::Internal("unknown function id "@ + nat_decimal(id as nat)))),
        fuel > 0 ==> (function_position(p.functions@, id, 0) matches Some(k) ==> (p.functions@[k as int].parameters@.len()
            != args.len() ==> call_m(p, fuel, s, e, id, args) == (s, Err::<ValueModel, ErrorModel>(ErrorModel::Internal(
            "function "@ + nat_decimal(id as nat) + " expects "@ + nat_decimal(p.functions@[k as int].parameters@.len())
            + " arguments, got "@ + nat_decimal(args.len())))))),
{
    reveal(eval_m);
}

/// One step of `global_m`.
proof fn lemma_global_m(p: Program, fuel: nat, s: State, e: Expression, g: u32)
    ensures
        global_m(p, fuel, s, e, g) == (match global_position(p.globals@, g, 0) {
            None => (s, Err(ErrorModel::Internal("unknown global GlobalId("@ + nat_decimal(g as nat) + ")"@))),
            Some(k) => if k >= s.globals.len() {
                (s, Err(ErrorModel::Internal("unknown global GlobalId("@ + nat_decimal(g as nat) + ")"@)))
            } else {
                match s.globals[k as int] {
                    GlobalModel::Done(v) => (s, Ok(v)),
                    GlobalModel::InProgress => (s, Err(ErrorModel::Internal("global GlobalId("@ + nat_decimal(g as nat)
                        + ") is defined in terms of itself"@))),
                    GlobalModel::Pending => if fuel == 0 {
                        (s, Err(budget_exhausted()))
                    } else {
                        let s1 = with_env(set_global(s, k, GlobalModel::InProgress), Seq::empty());
                        let (s2, r) = value_m(p, (fuel - 1) as nat, s1, p.globals@[k as int].expression);
                        let s3 = with_env(s2, s.env);
                        match r {
                            Ok(v) => (set_global(s3, k, GlobalModel::Done(v)), Ok(v)),
                            Err(x) => (set_global(s3, k, GlobalModel::Pending), Err(x)),
                        }
                    },
                }
            },
        }),
{
    reveal(eval_m);
}

/// The state after writing `v` to a place; a value held nowhere takes the write and is gone.
pub open spec fn write_place(s: State, pl: PlaceModel, v: ValueModel) -> Result<State, ErrorModel> {
    match pl {
        PlaceModel::At(c, path) => if c < s.store.len() {
            match update_path(s.store[c as int], path, 0, v) {
                Ok(x) => Ok(State { store: s.store.update(c as int, x), ..s }),
                Err(e) => Err(e),
            }
        } else {
            Err(dangling())
        },
        PlaceModel::Temp(_) => Ok(s),
    }
}

/// The number of references a chain may follow before it counts as a cycle.
pub open spec fn chain_budget(s: State) -> nat {
    s.store.len()
}

/// The place of field `i` of the tuple at `pl`, following references to the tuple, for at most
/// `budget` references; `oob` is the message for a field the tuple lacks.
pub open spec fn field_place(s: State, pl: PlaceModel, i: usize, oob: Seq<char>, budget: nat) -> Result<PlaceModel, ErrorModel>
    decreases budget,
{
    match read_place(s, pl) {
        Err(e) => Err(e),
        Ok(v) => match v {
            ValueModel::Ref(c, fields) => if budget == 0 {
                Err(ErrorModel::Internal("reference cycle"@))
            } else {
                field_place(s, PlaceModel::At(c, field_steps(fields)), i, oob, (budget - 1) as nat)
            },
            ValueModel::Tuple(xs) => if i < xs.len() {
                match pl {
                    PlaceModel::At(c, path) => Ok(PlaceModel::At(c, path.push(Step::Field(i)))),
                    PlaceModel::Temp(_) => Ok(PlaceModel::Temp(xs[i as int])),
                }
            } else {
                Err(ErrorModel::Type(oob))
            },
            other => Err(ErrorModel::Unsupported("field access on a non-tuple value ("@ + model_debug(other) + ")"@)),
        },
    }
}

/// Whether a value or anything its references reach holds a field element, following at most
/// `budget` references.
pub open spec fn reaches_field(s: State, v: ValueModel, budget: nat) -> bool
    decreases budget, v,
{
    match v {
        ValueModel::Field(_, _) => true,
        ValueModel::Array(xs) => exists|i: int| 0 <= i < xs.len() && reaches_field(s, #[trigger] xs[i], budget),
        ValueModel::Tuple(xs) => exists|i: int| 0 <= i < xs.len() && reaches_field(s, #[trigger] xs[i], budget),
        ValueModel::Ref(c, fields) => budget > 0 && match read_place(s, PlaceModel::At(c, field_steps(fields))) {
            Ok(x) => reaches_field(s, x, (budget - 1) as nat),
            Err(_) => false,
        },
        _ => false,
    }
}

/// Whether any of `xs` reaches a field element.
pub open spec fn any_reaches_field(s: State, xs: Seq<ValueModel>) -> bool {
    exists|i: int| 0 <= i < xs.len() && reaches_field(s, #[trigger] xs[i], chain_budget(s))
}

/// The boolean a value is.
pub open spec fn bool_of(v: ValueModel) -> Result<bool, ErrorModel> {
    match v {
        ValueModel::Bool(b) => Ok(b),
        _ => Err(ErrorModel::Type("expected bool, got "@ + model_debug(v))),
    }
}

/// Whether an operand of a primitive operation is well formed: an integer holds a value of its
/// type and a field element belongs to the program's field.
pub open spec fn operand_ok(field: FieldId, v: ValueModel) -> bool {
    match v {
        ValueModel::Int(s, b, x) => valid_type(s, b as nat) && fits(s, b as nat, x),
        ValueModel::Field(f, _) => f == field,
        _ => true,
    }
}

/// Whether a cast's target is a type the interpreter can build values of.
pub open spec fn target_ok(t: Type) -> bool {
    match t {
        Type::Integer(sg, b) => valid_type(sg == Signedness::Signed, b as nat),
        _ => true,
    }
}

/// The error for an operand or a type that is not well formed.
pub open spec fn malformed() -> ErrorModel {
    ErrorModel::Internal("malformed operand"@)
}

/// The failure of an index past the end of an array.
pub open spec fn out_of_bounds(location: Location, len: nat, i: nat) -> ErrorModel {
    ErrorModel::AssertionFailed(location, Some("Index out of bounds, array has size "@ + nat_decimal(len)
        + ", but index was "@ + nat_decimal(i)))
}

/// A state's bindings replaced.
pub open spec fn with_env(s: State, env: Seq<(u32, BindingModel)>) -> State {
    State { env, ..s }
}

/// A state with `v` stored in a new cell, the one at position `s.store.len()`.
pub open spec fn allocated(s: State, v: ValueModel) -> State {
    State { store: s.store.push(v), ..s }
}

/// A state with global `k`'s evaluation replaced.
pub open spec fn set_global(s: State, k: nat, g: GlobalModel) -> State {
    if k < s.globals.len() {
        State { globals: s.globals.update(k as int, g), ..s }
    } else {
        s
    }
}

/// A value result as a flow.
pub open spec fn normal(o: (State, Result<ValueModel, ErrorModel>)) -> (State, Result<FlowModel, ErrorModel>) {
    match o.1 {
        Ok(v) => (o.0, Ok(FlowModel::Normal(v))),
        Err(e) => (o.0, Err(e)),
    }
}

/// A statement's result as a flow: a unit value.
pub open spec fn unit_flow(o: (State, Result<(), ErrorModel>)) -> (State, Result<FlowModel, ErrorModel>) {
    match o.1 {
        Ok(_) => (o.0, Ok(FlowModel::Normal(ValueModel::Unit))),
        Err(e) => (o.0, Err(e)),
    }
}

/// The captures' printable types a format string's printable type lists.
pub open spec fn capture_types(t: PrintableType) -> Option<Seq<PrintableType>> {
    match t {
        PrintableType::Tuple { types } => Some(types@),
        PrintableType::Unit => Some(Seq::empty()),
        _ => None,
    }
}

/// What a call names: a function of the program, or an intrinsic by name.
pub enum CalleeModel {
    Function(u32),
    Intrinsic(Seq<char>),
}

/// Evaluate `e` in state `s` with `fuel` units of budget: the state after, and how it ended.
#[verifier::opaque]
pub open spec fn eval_m(p: Program, fuel: nat, s: State, e: Expression) -> (State, Result<FlowModel, ErrorModel>)
    decreases fuel, e, 3nat,
{
    match e {
        Expression::Ident(ident) => match ident.definition {
            Definition::Local(l) => match lookup(s.env, l) {
                None => (s, Err(ErrorModel::Internal("unbound local '"@ + ident.name@ + "'"@))),
                Some(BindingModel::Value(v)) => (s, Ok(FlowModel::Normal(v))),
                Some(BindingModel::Cell(c)) => normal((s, read_place(s, PlaceModel::At(c, Seq::empty())))),
            },
            Definition::Global(g) => normal(global_m(p, fuel, s, e, g)),
            Definition::Function(f) => (s, Ok(FlowModel::Normal(ValueModel::Function(f)))),
            Definition::Builtin(name) => (s, Err(ErrorModel::Unsupported("reference to intrinsic '"@ + name@ + "'"@))),
            Definition::LowLevel(name) => (s, Err(ErrorModel::Unsupported("reference to intrinsic '"@ + name@ + "'"@))),
            Definition::Oracle { name, .. } => (s, Err(ErrorModel::Unsupported("reference to intrinsic '"@ + name@ + "'"@))),
        },
        Expression::Literal(l) => normal(literal_m(p, fuel, s, l)),
        Expression::Block(es) => block_m(p, fuel, s, es@, 0, ValueModel::Unit),
        Expression::Unary { operator, rhs, skip, .. } => match operator {
            UnaryOp::Reference { .. } => match place_m(p, fuel, s, *rhs) {
                (s1, Err(x)) => (s1, Err(x)),
                (s1, Ok(PlaceModel::At(c, path))) => (s1, Ok(FlowModel::Normal(ValueModel::Ref(c, step_positions(path))))),
                (s1, Ok(PlaceModel::Temp(v))) => (allocated(s1, v), Ok(FlowModel::Normal(ValueModel::Ref(s1.store.len(), Seq::empty())))),
            },
            _ => if skip {
                eval_m(p, fuel, s, *rhs)
            } else {
                match value_m(p, fuel, s, *rhs) {
                    (s1, Err(x)) => (s1, Err(x)),
                    (s1, Ok(v)) => match operator {
                        UnaryOp::Dereference { .. } => match v {
                            ValueModel::Ref(c, fields) => normal((s1, read_place(s1, PlaceModel::At(c, field_steps(fields))))),
                            other => (s1, Err(ErrorModel::Unsupported("dereference of a non-reference value ("@
                                + model_debug(other) + ")"@))),
                        },
                        _ => if !operand_ok(s1.field, v) {
                            (s1, Err(malformed()))
                        } else {
                            normal((s1, unary_model(operator, v)))
                        },
                    },
                }
            },
        },
        Expression::Binary { lhs, operator, rhs, .. } => match value_m(p, fuel, s, *lhs) {
            (s1, Err(x)) => (s1, Err(x)),
            (s1, Ok(a)) => match value_m(p, fuel, s1, *rhs) {
                (s2, Err(x)) => (s2, Err(x)),
                (s2, Ok(b)) => if !operand_ok(s2.field, a) || !operand_ok(s2.field, b) {
                    (s2, Err(malformed()))
                } else {
                    normal((s2, binary_model(operator, a, b)))
                },
            },
        },
        Expression::Index { collection, index, location, .. } => match value_m(p, fuel, s, *index) {
            (s1, Err(x)) => (s1, Err(x)),
            (s1, Ok(iv)) => match index_model(iv) {
                Err(x) => (s1, Err(x)),
                Ok(i) => match value_m(p, fuel, s1, *collection) {
                    (s2, Err(x)) => (s2, Err(x)),
                    (s2, Ok(ValueModel::Array(xs))) => if (i as nat) < xs.len() {
                        (s2, Ok(FlowModel::Normal(xs[i as int])))
                    } else {
                        (s2, Err(out_of_bounds(location, xs.len(), i as nat)))
                    },
                    (s2, Ok(other)) => (s2, Err(ErrorModel::Type("cannot index "@ + model_debug(other)))),
                },
            },
        },
        Expression::Cast { lhs, typ, .. } => match value_m(p, fuel, s, *lhs) {
            (s1, Err(x)) => (s1, Err(x)),
            (s1, Ok(v)) => if !operand_ok(s1.field, v) || !target_ok(typ) {
                (s1, Err(malformed()))
            } else {
                normal((s1, cast_model(s1.field, v, typ)))
            },
        },
        Expression::For { index_variable, index_type, start_range, end_range, inclusive, block, .. } => match index_type {
            Type::Integer(sg, bits) => match value_m(p, fuel, s, *start_range) {
                (s1, Err(x)) => (s1, Err(x)),
                (s1, Ok(a)) => match value_m(p, fuel, s1, *end_range) {
                    (s2, Err(x)) => (s2, Err(x)),
                    (s2, Ok(b)) => match (a, b) {
                        (ValueModel::Int(_, _, x), ValueModel::Int(_, _, y)) => if !valid_type(sg == Signedness::Signed, bits as nat) {
                            (s2, Err(malformed()))
                        } else {
                            unit_flow(for_m(p, fuel, s2, index_variable, sg == Signedness::Signed, bits, x,
                                if inclusive { y + 1 } else { y }, *block))
                        },
                        (ValueModel::Int(_, _, _), other) => (s2, Err(ErrorModel::Type("expected integer, got "@ + model_debug(other)))),
                        (other, _) => (s2, Err(ErrorModel::Type("expected integer, got "@ + model_debug(other)))),
                    },
                },
            },
            _ => (s, Err(ErrorModel::Type("for-loop index is not an integer type"@))),
        },
        Expression::Loop(body) => unit_flow(loop_m(p, fuel, s, *body)),
        Expression::While { condition, body } => unit_flow(while_m(p, fuel, s, *condition, *body)),
        Expression::If { condition, consequence, alternative, .. } => match value_m(p, fuel, s, *condition) {
            (s1, Err(x)) => (s1, Err(x)),
            (s1, Ok(c)) => match bool_of(c) {
                Err(x) => (s1, Err(x)),
                Ok(true) => eval_m(p, fuel, s1, *consequence),
                Ok(false) => match alternative {
                    Some(a) => eval_m(p, fuel, s1, *a),
                    None => (s1, Ok(FlowModel::Normal(ValueModel::Unit))),
                },
            },
        },
        Expression::Match { variable, cases, default_case, .. } => {
            let scrutinee: Result<ValueModel, ErrorModel> = match lookup(s.env, variable) {
                None => Err(ErrorModel::Internal("unbound match scrutinee"@)),
                Some(BindingModel::Value(v)) => Ok(v),
                Some(BindingModel::Cell(c)) => read_place(s, PlaceModel::At(c, Seq::empty())),
            };
            match scrutinee {
                Err(x) => (s, Err(x)),
                Ok(v) => if default_case is None && cases@.len() == 0 {
                    (s, Err(ErrorModel::Internal("match with no cases and no default"@)))
                } else {
                    let tested: nat = if default_case is Some { cases@.len() } else { (cases@.len() - 1) as nat };
                    match select_case(cases@, 0, tested, v) {
                        Err(x) => (s, Err(x)),
                        Ok(Some(k)) => enter_case_m(p, fuel, s, cases@, k, v),
                        Ok(None) => match default_case {
                            Some(d) => eval_m(p, fuel, s, *d),
                            None => enter_case_m(p, fuel, s, cases@, (cases@.len() - 1) as nat, v),
                        },
                    }
                },
            }
        },
        Expression::Tuple(es) => match values_m(p, fuel, s, es@, 0, Seq::empty()) {
            (s1, Err(x)) => (s1, Err(x)),
            (s1, Ok(vs)) => (s1, Ok(FlowModel::Normal(ValueModel::Tuple(vs)))),
        },
        Expression::ExtractTupleField(inner, i) => match value_m(p, fuel, s, *inner) {
            (s1, Err(x)) => (s1, Err(x)),
            (s1, Ok(ValueModel::Tuple(xs))) => if (i as nat) < xs.len() {
                (s1, Ok(FlowModel::Normal(xs[i as int])))
            } else {
                (s1, Err(ErrorModel::Type("tuple field "@ + nat_decimal(i as nat) + " out of bounds"@)))
            },
            (s1, Ok(other)) => (s1, Err(ErrorModel::Unsupported("field access on a non-tuple value ("@ + model_debug(other)
                + ")"@))),
        },
        Expression::Call { func, arguments, return_type, location } => match callee_m(p, fuel, s, *func) {
            (s1, Err(x)) => (s1, Err(x)),
            (s1, Ok(c)) => match values_m(p, fuel, s1, arguments@, 0, Seq::empty()) {
                (s2, Err(x)) => (s2, Err(x)),
                (s2, Ok(args)) => match c {
                    CalleeModel::Function(id) => normal(call_m(p, fuel, s2, e, id, args)),
                    CalleeModel::Intrinsic(name) => normal((s2, intrinsic_model(name, args, return_type, location,
                        s2.unconstrained, s2.field))),
                },
            },
        },
        Expression::Let { id, mutable, expression, .. } => match value_m(p, fuel, s, *expression) {
            (s1, Err(x)) => (s1, Err(x)),
            (s1, Ok(v)) => if mutable {
                let s2 = allocated(s1, v);
                (with_env(s2, bind(s2.env, id, BindingModel::Cell(s1.store.len()))), Ok(FlowModel::Normal(ValueModel::Unit)))
            } else {
                (with_env(s1, bind(s1.env, id, BindingModel::Value(v))), Ok(FlowModel::Normal(ValueModel::Unit)))
            },
        },
        Expression::Constrain { condition, location, message } => match value_m(p, fuel, s, *condition) {
            (s1, Err(x)) => (s1, Err(x)),
            (s1, Ok(c)) => match bool_of(c) {
                Err(x) => (s1, Err(x)),
                Ok(true) => (s1, Ok(FlowModel::Normal(ValueModel::Unit))),
                Ok(false) => match message {
                    None => (s1, Err(ErrorModel::AssertionFailed(location, None))),
                    Some((m, t)) => match render_m(p, fuel, s1, *m, t) {
                        (s2, Ok(text)) => (s2, Err(ErrorModel::AssertionFailed(location, text))),
                        (s2, Err(x)) => (s2, Err(x)),
                    },
                },
            },
        },
        Expression::Assign { lvalue, expression } => match value_m(p, fuel, s, *expression) {
            (s1, Err(x)) => (s1, Err(x)),
            (s1, Ok(v)) => unit_flow(store_m(p, fuel, s1, lvalue, v)),
        },
        Expression::Semi(inner) => match eval_m(p, fuel, s, *inner) {
            (s1, Ok(FlowModel::Normal(_))) => (s1, Ok(FlowModel::Normal(ValueModel::Unit))),
            other => other,
        },
        Expression::Clone(inner) => normal(value_m(p, fuel, s, *inner)),
        Expression::Drop(inner) => match eval_m(p, fuel, s, *inner) {
            (s1, Ok(FlowModel::Normal(_))) => (s1, Ok(FlowModel::Normal(ValueModel::Unit))),
            other => other,
        },
        Expression::Break => (s, Ok(FlowModel::Break)),
        Expression::Continue => (s, Ok(FlowModel::Continue)),
    }
}

/// Evaluate `e` where a value is wanted: a `break` or `continue` there is unsupported.
pub open spec fn value_m(p: Program, fuel: nat, s: State, e: Expression) -> (State, Result<ValueModel, ErrorModel>)
    decreases fuel, e, 4nat,
{
    match eval_m(p, fuel, s, e) {
        (s1, Ok(FlowModel::Normal(v))) => (s1, Ok(v)),
        (s1, Ok(_)) => (s1, Err(ErrorModel::Unsupported("break/continue in value position"@))),
        (s1, Err(x)) => (s1, Err(x)),
    }
}

/// Evaluate the expressions of `es` from `i` on in order, the last value standing after `last`.
pub open spec fn block_m(p: Program, fuel: nat, s: State, es: Seq<Expression>, i: nat, last: ValueModel) -> (State, Result<FlowModel, ErrorModel>)
    decreases fuel, es, es.len() - i,
{
    if i >= es.len() {
        (s, Ok(FlowModel::Normal(last)))
    } else {
        match eval_m(p, fuel, s, es[i as int]) {
            (s1, Ok(FlowModel::Normal(v))) => block_m(p, fuel, s1, es, i + 1, v),
            other => other,
        }
    }
}

/// Evaluate the expressions of `es` from `i` on in order, their values appended to `acc`.
pub open spec fn values_m(p: Program, fuel: nat, s: State, es: Seq<Expression>, i: nat, acc: Seq<ValueModel>) -> (State, Result<Seq<ValueModel>, ErrorModel>)
    decreases fuel, es, es.len() - i,
{
    if i >= es.len() {
        (s, Ok(acc))
    } else {
        match value_m(p, fuel, s, es[i as int]) {
            (s1, Ok(v)) => values_m(p, fuel, s1, es, i + 1, acc.push(v)),
            (s1, Err(x)) => (s1, Err(x)),
        }
    }
}

/// Evaluate a literal.
pub open spec fn literal_m(p: Program, fuel: nat, s: State, l: Literal) -> (State, Result<ValueModel, ErrorModel>)
    decreases fuel, l, 0nat,
{
    match l {
        Literal::Integer(v, typ, _) => match typ {
            Type::Field => (s, Ok(ValueModel::Field(s.field, v@ % field_modulus(s.field)))),
            Type::Integer(sg, bits) => if !valid_type(sg == Signedness::Signed, bits as nat) {
                (s, Err(malformed()))
            } else {
                (s, Ok(ValueModel::Int(sg == Signedness::Signed, bits, wrapped(sg == Signedness::Signed, bits as nat, v@))))
            },
            other => (s, Err(ErrorModel::Type("integer literal with non-numeric type "@ + type_debug(other)))),
        },
        Literal::Bool(b) => (s, Ok(ValueModel::Bool(b))),
        Literal::Unit => (s, Ok(ValueModel::Unit)),
        Literal::Str(bytes) => if valid_utf8(bytes@) {
            (s, Ok(ValueModel::Str(decode_utf8(bytes@))))
        } else {
            (s, Err(ErrorModel::Unsupported("non-UTF-8 string literal: "@ + utf8_error_text(bytes@))))
        },
        Literal::Array { contents, .. } => match values_m(p, fuel, s, contents@, 0, Seq::empty()) {
            (s1, Ok(vs)) => (s1, Ok(ValueModel::Array(vs))),
            (s1, Err(x)) => (s1, Err(x)),
        },
        Literal::Vector { contents, .. } => match values_m(p, fuel, s, contents@, 0, Seq::empty()) {
            (s1, Ok(vs)) => (s1, Ok(ValueModel::Array(vs))),
            (s1, Err(x)) => (s1, Err(x)),
        },
        Literal::Repeated { element, length, .. } => match value_m(p, fuel, s, *element) {
            (s1, Ok(v)) => (s1, Ok(ValueModel::Array(Seq::new(length as nat, |_i: int| v)))),
            (s1, Err(x)) => (s1, Err(x)),
        },
        Literal::FmtStr(fragments, _, captures, types) => match value_m(p, fuel, s, *captures) {
            (s1, Err(x)) => (s1, Err(x)),
            (s1, Ok(ValueModel::Tuple(xs))) => if any_reaches_field(s1, xs) {
                (s1, Err(ErrorModel::Unsupported("format string interpolating a field"@)))
            } else {
                match types {
                    Err(x) => (s1, Err(x.model())),
                    Ok(ts) => match fmt_result(s1.store, fragments@, xs, ts@) {
                        Ok(text) => (s1, Ok(ValueModel::Str(text))),
                        Err(x) => (s1, Err(x)),
                    },
                }
            },
            (s1, Ok(other)) => (s1, Err(ErrorModel::Internal("fmt captures were not a tuple: "@ + model_debug(other)))),
        },
    }
}

/// The place an expression denotes: the cell of a `let mut` local and the tuple fields followed
/// into it, the referent of a dereference, or else the expression's value, held nowhere.
pub open spec fn place_m(p: Program, fuel: nat, s: State, e: Expression) -> (State, Result<PlaceModel, ErrorModel>)
    decreases fuel, e, 5nat,
{
    match e {
        Expression::Ident(ident) => match ident.definition {
            Definition::Local(l) => match lookup(s.env, l) {
                None => (s, Err(ErrorModel::Internal("unbound local '"@ + ident.name@ + "'"@))),
                Some(BindingModel::Value(v)) => (s, Ok(PlaceModel::Temp(v))),
                Some(BindingModel::Cell(c)) => (s, Ok(PlaceModel::At(c, Seq::empty()))),
            },
            _ => temp(value_m(p, fuel, s, e)),
        },
        Expression::ExtractTupleField(inner, i) => match place_m(p, fuel, s, *inner) {
            (s1, Err(x)) => (s1, Err(x)),
            (s1, Ok(pl)) => (s1, field_place(s1, pl, i, "tuple field "@ + nat_decimal(i as nat) + " out of bounds"@,
                chain_budget(s1))),
        },
        Expression::Unary { operator: UnaryOp::Dereference { .. }, rhs, skip, .. } => if skip {
            place_m(p, fuel, s, *rhs)
        } else {
            match value_m(p, fuel, s, *rhs) {
                (s1, Err(x)) => (s1, Err(x)),
                (s1, Ok(ValueModel::Ref(c, fields))) => (s1, Ok(PlaceModel::At(c, field_steps(fields)))),
                (s1, Ok(other)) => (s1, Err(ErrorModel::Unsupported("dereference of a non-reference value ("@
                    + model_debug(other) + ")"@))),
            }
        },
        _ => temp(value_m(p, fuel, s, e)),
    }
}

/// A value result as a place held nowhere.
pub open spec fn temp(o: (State, Result<ValueModel, ErrorModel>)) -> (State, Result<PlaceModel, ErrorModel>) {
    match o.1 {
        Ok(v) => (o.0, Ok(PlaceModel::Temp(v))),
        Err(x) => (o.0, Err(x)),
    }
}

/// What a call's callee names.
pub open spec fn callee_m(p: Program, fuel: nat, s: State, func: Expression) -> (State, Result<CalleeModel, ErrorModel>)
    decreases fuel, func, 5nat,
{
    let by_value = match value_m(p, fuel, s, func) {
        (s1, Err(x)) => (s1, Err(x)),
        (s1, Ok(ValueModel::Function(id))) => (s1, Ok(CalleeModel::Function(id))),
        (s1, Ok(other)) => (s1, Err(ErrorModel::Type("call of non-function "@ + model_debug(other)))),
    };
    match func {
        Expression::Ident(ident) => match ident.definition {
            Definition::Function(id) => (s, Ok(CalleeModel::Function(id))),
            Definition::Builtin(name) => (s, Ok(CalleeModel::Intrinsic(name@))),
            Definition::LowLevel(name) => (s, Ok(CalleeModel::Intrinsic(name@))),
            Definition::Oracle { name, .. } => (s, Err(ErrorModel::Unsupported("oracle call '"@ + name@ + "'"@))),
            _ => by_value,
        },
        _ => by_value,
    }
}

/// Call function `id` of the program with `args` (`e` is the call being evaluated): the call
/// spends one unit of budget, binds the parameters in a fresh set of locals, and runs
/// unconstrained when the caller or the function is.
pub open spec fn call_m(p: Program, fuel: nat, s: State, e: Expression, id: u32, args: Seq<ValueModel>) -> (State, Result<ValueModel, ErrorModel>)
    decreases fuel, e, 1nat,
{
    if fuel == 0 {
        (s, Err(budget_exhausted()))
    } else {
        match function_position(p.functions@, id, 0) {
            None => (s, Err(ErrorModel::Internal("unknown function id "@ + nat_decimal(id as nat)))),
            Some(k) => {
                let f = p.functions@[k as int];
                if f.parameters@.len() != args.len() {
                    (s, Err(ErrorModel::Internal("function "@ + nat_decimal(id as nat) + " expects "@
                        + nat_decimal(f.parameters@.len()) + " arguments, got "@ + nat_decimal(args.len()))))
                } else {
                    let s1 = State {
                        env: bind_parameters(Seq::empty(), f.parameters@, args, 0),
                        unconstrained: s.unconstrained || f.unconstrained,
                        ..s
                    };
                    let (s2, r) = eval_m(p, (fuel - 1) as nat, s1, f.body);
                    let s3 = State { env: s.env, unconstrained: s.unconstrained, ..s2 };
                    match r {
                        Ok(FlowModel::Normal(v)) => (s3, Ok(v)),
                        Ok(_) => (s3, Err(ErrorModel::Internal("break/continue escaped a function body"@))),
                        Err(x) => (s3, Err(x)),
                    }
                }
            },
        }
    }
}

/// The value of global `g` (`e` is the expression that names it): evaluated on first use with
/// one unit of budget and no locals, then kept; a global defined in terms of itself fails.
pub open spec fn global_m(p: Program, fuel: nat, s: State, e: Expression, g: u32) -> (State, Result<ValueModel, ErrorModel>)
    decreases fuel, e, 1nat,
{
    match global_position(p.globals@, g, 0) {
        None => (s, Err(ErrorModel::Internal("unknown global GlobalId("@ + nat_decimal(g as nat) + ")"@))),
        Some(k) => if k >= s.globals.len() {
            (s, Err(ErrorModel::Internal("unknown global GlobalId("@ + nat_decimal(g as nat) + ")"@)))
        } else {
            match s.globals[k as int] {
                GlobalModel::Done(v) => (s, Ok(v)),
                GlobalModel::InProgress => (s, Err(ErrorModel::Internal("global GlobalId("@ + nat_decimal(g as nat)
                    + ") is defined in terms of itself"@))),
                GlobalModel::Pending => if fuel == 0 {
                    (s, Err(budget_exhausted()))
                } else {
                    let s1 = with_env(set_global(s, k, GlobalModel::InProgress), Seq::empty());
                    let (s2, r) = value_m(p, (fuel - 1) as nat, s1, p.globals@[k as int].expression);
                    let s3 = with_env(s2, s.env);
                    match r {
                        Ok(v) => (set_global(s3, k, GlobalModel::Done(v)), Ok(v)),
                        Err(x) => (set_global(s3, k, GlobalModel::Pending), Err(x)),
                    }
                },
            }
        }
    }
}

/// Run `body` until it breaks, one unit of budget per iteration.
pub open spec fn loop_m(p: Program, fuel: nat, s: State, body: Expression) -> (State, Result<(), ErrorModel>)
    decreases fuel, body, 0nat,
{
    if fuel == 0 {
        (s, Err(budget_exhausted()))
    } else {
        match eval_m(p, (fuel - 1) as nat, s, body) {
            (s1, Err(x)) => (s1, Err(x)),
            (s1, Ok(FlowModel::Break)) => (s1, Ok(())),
            (s1, Ok(_)) => loop_m(p, (fuel - 1) as nat, s1, body),
        }
    }
}

/// Run `body` while `condition` holds, one unit of budget per test.
pub open spec fn while_m(p: Program, fuel: nat, s: State, condition: Expression, body: Expression) -> (State, Result<(), ErrorModel>)
    decreases fuel, condition, 0nat,
{
    if fuel == 0 {
        (s, Err(budget_exhausted()))
    } else {
        match value_m(p, (fuel - 1) as nat, s, condition) {
            (s1, Err(x)) => (s1, Err(x)),
            (s1, Ok(c)) => match bool_of(c) {
                Err(x) => (s1, Err(x)),
                Ok(false) => (s1, Ok(())),
                Ok(true) => match eval_m(p, (fuel - 1) as nat, s1, body) {
                    (s2, Err(x)) => (s2, Err(x)),
                    (s2, Ok(FlowModel::Break)) => (s2, Ok(())),
                    (s2, Ok(_)) => while_m(p, (fuel - 1) as nat, s2, condition, body),
                },
            },
        }
    }
}

/// Run `body` with local `var` bound to each integer from `i` up to, not including, `end`, as a
/// value of the index type, one unit of budget per iteration.
pub open spec fn for_m(
    p: Program,
    fuel: nat,
    s: State,
    var: u32,
    signed: bool,
    bits: u8,
    i: int,
    end: int,
    body: Expression,
) -> (State, Result<(), ErrorModel>)
    decreases fuel, body, 0nat,
{
    if i >= end {
        (s, Ok(()))
    } else if fuel == 0 {
        (s, Err(budget_exhausted()))
    } else {
        let s1 = with_env(s, bind(s.env, var, BindingModel::Value(ValueModel::Int(signed, bits, wrapped(signed, bits as nat, i)))));
        match eval_m(p, (fuel - 1) as nat, s1, body) {
            (s2, Err(x)) => (s2, Err(x)),
            (s2, Ok(FlowModel::Break)) => (s2, Ok(())),
            (s2, Ok(_)) => for_m(p, (fuel - 1) as nat, s2, var, signed, bits, i + 1, end, body),
        }
    }
}

/// Run `body` once for each index of `indices`, in order, with local `var` bound to that index
/// as a value of the index type, one unit of budget per iteration, until the body breaks or
/// fails.
pub open spec fn for_over(
    p: Program,
    fuel: nat,
    s: State,
    var: u32,
    signed: bool,
    bits: u8,
    indices: Seq<int>,
    body: Expression,
) -> (State, Result<(), ErrorModel>)
    decreases indices.len(),
{
    if indices.len() == 0 {
        (s, Ok(()))
    } else if fuel == 0 {
        (s, Err(budget_exhausted()))
    } else {
        let s1 = with_env(s, bind(s.env, var, BindingModel::Value(ValueModel::Int(signed, bits, wrapped(signed, bits as nat, indices[0])))));
        match eval_m(p, (fuel - 1) as nat, s1, body) {
            (s2, Err(x)) => (s2, Err(x)),
            (s2, Ok(FlowModel::Break)) => (s2, Ok(())),
            (s2, Ok(_)) => for_over(p, (fuel - 1) as nat, s2, var, signed, bits, indices.drop_first(), body),
        }
    }
}

/// The `n` consecutive integers from `a` on, none when `n` is not positive.
pub open spec fn consecutive(a: int, n: int) -> Seq<int> {
    Seq::new(if n > 0 { n as nat } else { 0 }, |k: int| a + k)
}

/// Counting from `i` up to `end` visits the integers `i`, `i + 1`, ..., `end - 1`.
proof fn lemma_for_m_counts(
    p: Program,
    fuel: nat,
    s: State,
    var: u32,
    signed: bool,
    bits: u8,
    i: int,
    end: int,
    body: Expression,
)
    ensures
        for_m(p, fuel, s, var, signed, bits, i, end, body) == for_over(p, fuel, s, var, signed, bits, consecutive(i, end - i), body),
    decreases fuel,
{
    let idx = consecutive(i, end - i);
    lemma_for_m(p, fuel, s, var, signed, bits, i, end, body);
    if i < end && fuel > 0 {
        assert(idx.len() > 0);
        assert(idx[0] == i);
        assert(idx.drop_first() =~= consecutive(i + 1, end - (i + 1)));
        let s1 = with_env(s, bind(s.env, var, BindingModel::Value(ValueModel::Int(signed, bits, wrapped(signed, bits as nat, i)))));
        let s2 = eval_m(p, (fuel - 1) as nat, s1, body).0;
        lemma_for_m_counts(p, (fuel - 1) as nat, s2, var, signed, bits, i + 1, end, body);
    } else if i < end {
        assert(idx.len() > 0);
    } else {
        assert(consecutive(i, end - i).len() == 0);
    }
}

/// A `for` loop over an integer type runs its body once for each index in its range, in order,
/// until the body breaks or fails: `a..=b` binds the index to `a`, `a + 1`, ..., `b`, that is
/// `b - a + 1` times (none when `b < a`), and `a..b` to `a`, ..., `b - 1`, that is `b - a` times
/// (none when `b <= a`), where `a` and `b` are the values of the range's bounds, evaluated in
/// that order. The loop's value is unit.
pub proof fn law_for_loop_runs_once_per_index(
    p: Program,
    fuel: nat,
    s: State,
    var: u32,
    name: String,
    sg: Signedness,
    bits: u8,
    start: Expression,
    end: Expression,
    inclusive: bool,
    block: Expression,
    s1: State,
    s2: State,
    sa: bool,
    ba: u8,
    a: int,
    sb: bool,
    bb: u8,
    b: int,
)
    requires
        value_m(p, fuel, s, start) == (s1, Ok::<ValueModel, ErrorModel>(ValueModel::Int(sa, ba, a))),
        value_m(p, fuel, s1, end) == (s2, Ok::<ValueModel, ErrorModel>(ValueModel::Int(sb, bb, b))),
        valid_type(sg == Signedness::Signed, bits as nat),
    ensures
        inclusive ==> eval_m(p, fuel, s, Expression::For {
            index_variable: var,
            index_name: name,
            index_type: Type::Integer(sg, bits),
            start_range: Box::new(start),
            end_range: Box::new(end),
            inclusive,
            block: Box::new(block),
        }) == unit_flow(for_over(p, fuel, s2, var, sg == Signedness::Signed, bits, consecutive(a, b - a + 1), block)),
        !inclusive ==> eval_m(p, fuel, s, Expression::For {
            index_variable: var,
            index_name: name,
            index_type: Type::Integer(sg, bits),
            start_range: Box::new(start),
            end_range: Box::new(end),
            inclusive,
            block: Box::new(block),
        }) == unit_flow(for_over(p, fuel, s2, var, sg == Signedness::Signed, bits, consecutive(a, b - a), block)),
{
    let signed = sg == Signedness::Signed;
    reveal(eval_m);
    lemma_for_m_counts(p, fuel, s2, var, signed, bits, a, b + 1, block);
    lemma_for_m_counts(p, fuel, s2, var, signed, bits, a, b, block);
}

/// The first of the cases of `cs` from `i` on, before `tested`, whose pattern the scrutinee
/// satisfies; `None` when none does.
pub open spec fn select_case(cs: Seq<MatchCase>, i: nat, tested: nat, v: ValueModel) -> Result<Option<nat>, ErrorModel>
    decreases tested - i,
{
    if i >= tested || i >= cs.len() {
        Ok(None)
    } else {
        match case_match_model(cs[i as int].constructor, v) {
            Err(x) => Err(x),
            Ok(true) => Ok(Some(i)),
            Ok(false) => select_case(cs, i + 1, tested, v),
        }
    }
}

/// Bind case `k`'s argument locals from the scrutinee and run its branch.
pub open spec fn enter_case_m(p: Program, fuel: nat, s: State, cs: Seq<MatchCase>, k: nat, v: ValueModel) -> (State, Result<FlowModel, ErrorModel>)
    decreases fuel, cs, 0nat,
{
    if k >= cs.len() {
        (s, Err(ErrorModel::Internal("match case out of range"@)))
    } else {
        let c = cs[k as int];
        match case_arguments_model(c.constructor, c.arguments@.len(), v) {
            Err(x) => (s, Err(x)),
            Ok(vals) => eval_m(p, fuel, with_env(s, bind_arguments(s.env, c.arguments@, vals, 0)), c.branch),
        }
    }
}

/// The text of a failed assertion's message, when it renders: a format string's captures under
/// the message's printable type, or a string value; evaluating it can change the state. A message
/// that fails to evaluate has no text, but one whose evaluation runs out of budget ends the run
/// with that error, as every evaluation that runs out does.
pub open spec fn render_m(p: Program, fuel: nat, s: State, m: Expression, t: PrintableType) -> (State, Result<Option<Seq<char>>, ErrorModel>)
    decreases fuel, m, 5nat,
{
    match m {
        Expression::Literal(Literal::FmtStr(fragments, _, captures, _)) => match value_m(p, fuel, s, *captures) {
            (s1, Ok(ValueModel::Tuple(xs))) => (s1, Ok(fmt_message(s1.store, fragments@, xs, t))),
            (s1, Err(x)) => unless_exhausted(s1, x),
            (s1, Ok(_)) => (s1, Ok(None)),
        },
        _ => match value_m(p, fuel, s, m) {
            (s1, Ok(ValueModel::Str(text))) => (s1, Ok(Some(text))),
            (s1, Err(x)) => unless_exhausted(s1, x),
            (s1, Ok(_)) => (s1, Ok(None)),
        },
    }
}

/// A format string's text from its captures, under the message's printable type.
pub open spec fn fmt_message(store: Seq<ValueModel>, fragments: Seq<FmtStrFragment>, xs: Seq<ValueModel>, t: PrintableType) -> Option<Seq<char>> {
    match t {
        PrintableType::FmtString { typ, .. } => match capture_types(*typ) {
            Some(ts) => match fmt_result(store, fragments, xs, ts) {
                Ok(text) => Some(text),
                Err(_) => None,
            },
            None => None,
        },
        _ => None,
    }
}

/// A message whose evaluation failed: no text, unless the budget ran out.
pub open spec fn unless_exhausted(s: State, x: ErrorModel) -> (State, Result<Option<Seq<char>>, ErrorModel>) {
    if x == budget_exhausted() {
        (s, Err(x))
    } else {
        (s, Ok(None))
    }
}

/// One step of `render_m`: what it makes of the value of the message or of its captures.
pub proof fn lemma_render_m(p: Program, fuel: nat, s: State, m: Expression, t: PrintableType)
    ensures
        render_m(p, fuel, s, m, t) == (match m {
            Expression::Literal(Literal::FmtStr(fragments, _, captures, _)) => render_captures(
                value_m(p, fuel, s, *captures), fragments@, t),
            _ => render_text(value_m(p, fuel, s, m)),
        }),
{
    reveal(eval_m);
}

/// What `render_m` makes of a format string's evaluated captures.
pub open spec fn render_captures(
    o: (State, Result<ValueModel, ErrorModel>),
    fragments: Seq<FmtStrFragment>,
    t: PrintableType,
) -> (State, Result<Option<Seq<char>>, ErrorModel>) {
    match o {
        (s1, Ok(ValueModel::Tuple(xs))) => (s1, Ok(fmt_message(s1.store, fragments, xs, t))),
        (s1, Err(x)) => unless_exhausted(s1, x),
        (s1, Ok(_)) => (s1, Ok(None)),
    }
}

/// What `render_m` makes of a message's value.
pub open spec fn render_text(o: (State, Result<ValueModel, ErrorModel>)) -> (State, Result<Option<Seq<char>>, ErrorModel>) {
    match o {
        (s1, Ok(ValueModel::Str(text))) => (s1, Ok(Some(text))),
        (s1, Err(x)) => unless_exhausted(s1, x),
        (s1, Ok(_)) => (s1, Ok(None)),
    }
}

/// An lvalue's current value as a place: the cell of a `let mut` local, the fields and elements
/// followed into it, a dereference's referent, or a value held nowhere.
pub open spec fn lvalue_place_m(p: Program, fuel: nat, s: State, lv: LValue) -> (State, Result<PlaceModel, ErrorModel>)
    decreases fuel, lv, 1nat,
{
    match lv {
        LValue::Ident(ident) => match ident.definition {
            Definition::Local(l) => match lookup(s.env, l) {
                None => (s, Err(ErrorModel::Internal("unbound local '"@ + ident.name@ + "' in lvalue"@))),
                Some(BindingModel::Value(v)) => (s, Ok(PlaceModel::Temp(v))),
                Some(BindingModel::Cell(c)) => (s, Ok(PlaceModel::At(c, Seq::empty()))),
            },
            _ => (s, Err(ErrorModel::Unsupported("assignment to a non-local binding"@))),
        },
        LValue::MemberAccess { object, field_index } => match lvalue_place_m(p, fuel, s, *object) {
            (s1, Err(x)) => (s1, Err(x)),
            (s1, Ok(pl)) => (s1, field_place(s1, pl, field_index, "field "@ + nat_decimal(field_index as nat)
                + " out of bounds in lvalue"@, chain_budget(s1))),
        },
        LValue::Index { array, index, location, .. } => match lvalue_place_m(p, fuel, s, *array) {
            (s1, Err(x)) => (s1, Err(x)),
            (s1, Ok(pl)) => match value_m(p, fuel, s1, *index) {
                (s2, Err(x)) => (s2, Err(x)),
                (s2, Ok(iv)) => match index_model(iv) {
                    Err(x) => (s2, Err(x)),
                    Ok(i) => match read_place(s2, pl) {
                        Err(x) => (s2, Err(x)),
                        Ok(ValueModel::Array(xs)) => if (i as nat) < xs.len() {
                            match pl {
                                PlaceModel::At(c, path) => (s2, Ok(PlaceModel::At(c, path.push(Step::Element(i))))),
                                PlaceModel::Temp(_) => (s2, Ok(PlaceModel::Temp(xs[i as int]))),
                            }
                        } else {
                            (s2, Err(out_of_bounds(location, xs.len(), i as nat)))
                        },
                        Ok(other) => (s2, Err(ErrorModel::Type("cannot index "@ + model_debug(other) + " in lvalue"@))),
                    },
                },
            },
        },
        LValue::Dereference { reference, .. } => match lvalue_place_m(p, fuel, s, *reference) {
            (s1, Err(x)) => (s1, Err(x)),
            (s1, Ok(pl)) => match read_place(s1, pl) {
                Err(x) => (s1, Err(x)),
                Ok(ValueModel::Ref(c, fields)) => (s1, Ok(PlaceModel::At(c, field_steps(fields)))),
                Ok(other) => (s1, Err(ErrorModel::Unsupported("dereference of a non-reference value in lvalue ("@
                    + model_debug(other) + ")"@))),
            },
        },
        LValue::Clone(inner) => lvalue_place_m(p, fuel, s, *inner),
    }
}

/// The place an assignment to an lvalue whose leaf is no array element writes.
pub open spec fn target_m(p: Program, fuel: nat, s: State, lv: LValue) -> (State, Result<PlaceModel, ErrorModel>)
    decreases fuel, lv, 2nat,
{
    match lv {
        LValue::Ident(ident) => match ident.definition {
            Definition::Local(l) => match lookup(s.env, l) {
                None => (s, Err(ErrorModel::Internal("assignment to unbound local"@))),
                Some(BindingModel::Cell(c)) => (s, Ok(PlaceModel::At(c, Seq::empty()))),
                Some(BindingModel::Value(ValueModel::Ref(c, fields))) => (s, Ok(PlaceModel::At(c, field_steps(fields)))),
                Some(BindingModel::Value(_)) => (s, Err(ErrorModel::Internal("assignment to a non-mutable local"@))),
            },
            _ => (s, Err(ErrorModel::Unsupported("assignment to a non-local binding"@))),
        },
        LValue::MemberAccess { object, field_index } => match lvalue_place_m(p, fuel, s, *object) {
            (s1, Err(x)) => (s1, Err(x)),
            (s1, Ok(pl)) => (s1, field_place(s1, pl, field_index, "assignment field "@ + nat_decimal(field_index as nat)
                + " out of bounds"@, chain_budget(s1))),
        },
        LValue::Dereference { reference, .. } => match lvalue_place_m(p, fuel, s, *reference) {
            (s1, Err(x)) => (s1, Err(x)),
            (s1, Ok(pl)) => match read_place(s1, pl) {
                Err(x) => (s1, Err(x)),
                Ok(ValueModel::Ref(c, fields)) => (s1, Ok(PlaceModel::At(c, field_steps(fields)))),
                Ok(other) => (s1, Err(ErrorModel::Unsupported("assignment through a dereference of a non-reference ("@
                    + model_debug(other) + ")"@))),
            },
        },
        LValue::Clone(inner) => target_m(p, fuel, s, *inner),
        LValue::Index { .. } => (s, Err(ErrorModel::Unsupported("assignment through an array-element place"@))),
    }
}

/// An indexed lvalue's outermost array place and the indices into it, outermost first, each with
/// where it stands; the array place is resolved before any index is evaluated.
pub open spec fn resolve_array_m(p: Program, fuel: nat, s: State, lv: LValue) -> (State, Result<(PlaceModel, Seq<(usize, Location)>), ErrorModel>)
    decreases fuel, lv, 3nat,
{
    match lv {
        LValue::Index { array, index, location, .. } => match resolve_base_m(p, fuel, s, *array) {
            (s1, Err(x)) => (s1, Err(x)),
            (s1, Ok((pl, indices))) => match value_m(p, fuel, s1, *index) {
                (s2, Err(x)) => (s2, Err(x)),
                (s2, Ok(iv)) => match index_model(iv) {
                    Err(x) => (s2, Err(x)),
                    Ok(i) => (s2, Ok((pl, indices.push((i, location))))),
                },
            },
        },
        LValue::Clone(inner) => resolve_array_m(p, fuel, s, *inner),
        _ => (s, Err(ErrorModel::Internal("resolve_array_target on a non-index lvalue"@))),
    }
}

/// The array place under an indexed lvalue's array, past any clones: an inner index resolves
/// further, anything else is an assignment target with no indices yet.
pub open spec fn resolve_base_m(p: Program, fuel: nat, s: State, lv: LValue) -> (State, Result<(PlaceModel, Seq<(usize, Location)>), ErrorModel>)
    decreases fuel, lv, 4nat,
{
    match lv {
        LValue::Clone(inner) => resolve_base_m(p, fuel, s, *inner),
        LValue::Index { .. } => resolve_array_m(p, fuel, s, lv),
        _ => match target_m(p, fuel, s, lv) {
            (s1, Err(x)) => (s1, Err(x)),
            (s1, Ok(pl)) => (s1, Ok((pl, Seq::empty()))),
        },
    }
}

/// `v` with the element reached by the indices of `idx` from `i` on replaced by `new`.
pub open spec fn store_elements(v: ValueModel, idx: Seq<(usize, Location)>, i: nat, new: ValueModel) -> Result<ValueModel, ErrorModel>
    decreases idx.len() - i,
{
    if i >= idx.len() {
        Ok(new)
    } else {
        match v {
            ValueModel::Array(xs) => {
                let (k, location) = idx[i as int];
                if (k as nat) < xs.len() {
                    match store_elements(xs[k as int], idx, i + 1, new) {
                        Ok(x) => Ok(ValueModel::Array(xs.update(k as int, x))),
                        Err(x) => Err(x),
                    }
                } else {
                    Err(out_of_bounds(location, xs.len(), k as nat))
                }
            },
            _ => Err(ErrorModel::Type("indexed assignment to a non-array"@)),
        }
    }
}

/// Assign `v` to an lvalue.
pub open spec fn store_m(p: Program, fuel: nat, s: State, lv: LValue, v: ValueModel) -> (State, Result<(), ErrorModel>)
    decreases fuel, lv, 5nat,
{
    match lv {
        LValue::Clone(inner) => store_m(p, fuel, s, *inner, v),
        LValue::Index { .. } => match resolve_array_m(p, fuel, s, lv) {
            (s1, Err(x)) => (s1, Err(x)),
            (s1, Ok((pl, indices))) => match read_place(s1, pl) {
                Err(x) => (s1, Err(x)),
                Ok(cur) => match store_elements(cur, indices, 0, v) {
                    Err(x) => (s1, Err(x)),
                    Ok(new) => match write_place(s1, pl, new) {
                        Ok(s2) => (s2, Ok(())),
                        Err(x) => (s1, Err(x)),
                    },
                },
            },
        },
        _ => match target_m(p, fuel, s, lv) {
            (s1, Err(x)) => (s1, Err(x)),
            (s1, Ok(pl)) => match write_place(s1, pl, v) {
                Ok(s2) => (s2, Ok(())),
                Err(x) => (s1, Err(x)),
            },
        },
    }
}

/// The state a run of a program compiled under `field` starts in.
pub open spec fn initial_state(p: Program, field: FieldId) -> State {
    State {
        field,
        store: Seq::empty(),
        globals: Seq::new(p.globals@.len(), |_i: int| GlobalModel::Pending),
        unconstrained: false,
        env: Seq::empty(),
    }
}

/// The budget of a run.
pub open spec fn run_budget() -> nat {
    u64::MAX as nat
}

/// Run a program's entry point, the function with id 0, on `inputs` with `fuel` units of budget:
/// inputs that hold a field element of another field or an integer outside its type are refused.
/// The result holds the values its references point to in the final store.
pub open spec fn run_m(p: Program, inputs: Seq<ValueModel>, field: FieldId, fuel: nat) -> Result<ValueModel, ErrorModel> {
    match function_position(p.functions@, 0, 0) {
        None => Err(ErrorModel::Internal("unknown function id 0"@)),
        Some(k) => if p.functions@[k as int].parameters@.len() != inputs.len() {
            Err(ErrorModel::InvalidInput("entry point expects "@ + nat_decimal(p.functions@[k as int].parameters@.len())
                + " input(s), got "@ + nat_decimal(inputs.len())))
        } else {
            match first_problem(inputs, field, 0) {
                Some(e) => Err(e),
                None => match call_m(p, fuel, initial_state(p, field), Expression::Break, 0, inputs) {
                    (s, Ok(v)) => Ok(resolved(s.store, v, chain_budget(s))),
                    (_, Err(e)) => Err(e),
                },
            }
        },
    }
}


/// `v` with each reference it holds replaced by the value the reference points to in `store`,
/// following at most `budget` references in a chain; a reference past the budget, or one the
/// store does not hold, stays as it is.
pub open spec fn resolved(store: Seq<ValueModel>, v: ValueModel, budget: nat) -> ValueModel
    decreases budget, v,
{
    match v {
        ValueModel::Array(xs) => ValueModel::Array(
            Seq::new(xs.len(), |i: int| if 0 <= i < xs.len() { resolved(store, xs[i], budget) } else { ValueModel::Unit }),
        ),
        ValueModel::Tuple(xs) => ValueModel::Tuple(
            Seq::new(xs.len(), |i: int| if 0 <= i < xs.len() { resolved(store, xs[i], budget) } else { ValueModel::Unit }),
        ),
        ValueModel::Ref(c, fields) => if budget > 0 && c < store.len() {
            match read_path(store[c as int], field_steps(fields), 0) {
                Ok(x) => resolved(store, x, (budget - 1) as nat),
                Err(_) => v,
            }
        } else {
            v
        },
        _ => v,
    }
}

/// An empty store resolves nothing: every value stays as it is.
pub proof fn lemma_resolved_in_empty_store(v: ValueModel, budget: nat)
    ensures
        resolved(Seq::empty(), v, budget) == v,
    decreases v,
{
    match v {
        ValueModel::Array(xs) => {
            assert forall|i: int| 0 <= i < xs.len() implies resolved(Seq::empty(), #[trigger] xs[i], budget) == xs[i] by {
                lemma_resolved_in_empty_store(xs[i], budget);
            }
            assert(resolved(Seq::empty(), v, budget)->Array_0 =~= xs);
        },
        ValueModel::Tuple(xs) => {
            assert forall|i: int| 0 <= i < xs.len() implies resolved(Seq::empty(), #[trigger] xs[i], budget) == xs[i] by {
                lemma_resolved_in_empty_store(xs[i], budget);
            }
            assert(resolved(Seq::empty(), v, budget)->Tuple_0 =~= xs);
        },
        _ => {},
    }
}

/// Reading a path of a value the path was just updated in gives the new value.
proof fn lemma_read_update(v: ValueModel, path: Seq<Step>, i: nat, new: ValueModel)
    requires
        update_path(v, path, i, new) is Ok,
    ensures
        read_path(update_path(v, path, i, new)->Ok_0, path, i) == Ok::<ValueModel, ErrorModel>(new),
    decreases path.len() - i,
{
    if i < path.len() {
        match (path[i as int], v) {
            (Step::Field(k), ValueModel::Tuple(xs)) => {
                lemma_read_update(xs[k as int], path, i + 1, new);
            },
            (Step::Element(k), ValueModel::Array(xs)) => {
                lemma_read_update(xs[k as int], path, i + 1, new);
            },
            _ => {},
        }
    }
}

/// A read of a cell's place gives back what a write to it wrote.
pub proof fn law_read_after_write(s: State, c: nat, path: Seq<Step>, v: ValueModel)
    requires
        write_place(s, PlaceModel::At(c, path), v) is Ok,
    ensures
        read_place(write_place(s, PlaceModel::At(c, path), v)->Ok_0, PlaceModel::At(c, path)) == Ok::<ValueModel, ErrorModel>(v),
{
    lemma_read_update(s.store[c as int], path, 0, v);
}

/// A write to a cell's place leaves every other cell, the globals and the bindings as they were.
pub proof fn law_write_keeps_other_cells(s: State, c: nat, path: Seq<Step>, v: ValueModel, d: nat)
    requires
        write_place(s, PlaceModel::At(c, path), v) is Ok,
        d != c,
        d < s.store.len(),
    ensures
        ({
            let s2 = write_place(s, PlaceModel::At(c, path), v)->Ok_0;
            &&& s2.store.len() == s.store.len()
            &&& s2.store[d as int] == s.store[d as int]
            &&& s2.globals == s.globals
            &&& s2.env == s.env
        }),
{
}

/// A found binding position names a binding of that local, at or after where the search began.
pub proof fn lemma_position_found(env: Seq<(u32, BindingModel)>, id: u32, i: nat)
    ensures
        binding_position(env, id, i) matches Some(k) ==> i <= k < env.len() && env[k as int].0 == id,
        binding_position(env, id, i) is None ==> forall|j: int| i <= j < env.len() ==> #[trigger] env[j].0 != id,
    decreases env.len() - i,
{
    if i < env.len() {
        lemma_position_found(env, id, i + 1);
    }
}

/// Searching two binding lists that name the same locals in the same order finds the same position.
proof fn lemma_position_same_locals(e1: Seq<(u32, BindingModel)>, e2: Seq<(u32, BindingModel)>, id: u32, i: nat)
    requires
        e1.len() == e2.len(),
        forall|j: int| 0 <= j < e1.len() ==> #[trigger] e1[j].0 == e2[j].0,
    ensures
        binding_position(e1, id, i) == binding_position(e2, id, i),
    decreases e1.len() - i,
{
    if i < e1.len() {
        lemma_position_same_locals(e1, e2, id, i + 1);
    }
}

/// Searching a binding list with one more binding at its end.
proof fn lemma_position_push(env: Seq<(u32, BindingModel)>, t: (u32, BindingModel), id: u32, i: nat)
    requires
        i <= env.len(),
    ensures
        binding_position(env.push(t), id, i) == (match binding_position(env, id, i) {
            Some(k) => Some(k),
            None => if t.0 == id {
                Some(env.len())
            } else {
                None
            },
        }),
    decreases env.len() - i,
{
    if i < env.len() {
        lemma_position_push(env, t, id, i + 1);
    } else {
        assert(binding_position(env.push(t), id, i + 1) is None);
    }
}

/// After binding a local, looking it up gives the new binding, and every other local keeps its
/// binding.
pub proof fn law_lookup_after_bind(env: Seq<(u32, BindingModel)>, id: u32, b: BindingModel, other: u32)
    requires
        other != id,
    ensures
        lookup(bind(env, id, b), id) == Some(b),
        lookup(bind(env, id, b), other) == lookup(env, other),
{
    lemma_position_found(env, id, 0);
    match binding_position(env, id, 0) {
        Some(k) => {
            let env2 = env.update(k as int, (id, b));
            lemma_position_same_locals(env, env2, id, 0);
            lemma_position_same_locals(env, env2, other, 0);
            lemma_position_found(env, other, 0);
        },
        None => {
            lemma_position_push(env, (id, b), id, 0);
            lemma_position_push(env, (id, b), other, 0);
            lemma_position_found(env, other, 0);
        },
    }
}

/// The interpreter: the program's field, the store of cells, the globals' evaluations, whether
/// the running code is unconstrained, and the running function's locals.
pub struct Machine {
    field: FieldId,
    store: Vec<Value>,
    globals: Vec<GlobalState>,
    unconstrained: bool,
    env: Vec<(u32, Binding)>,
}

impl View for Machine {
    type V = State;

    closed spec fn view(&self) -> State {
        State {
            field: self.field,
            store: value_models(self.store@),
            globals: Seq::new(self.globals@.len(), |i: int| self.globals@[i].model()),
            unconstrained: self.unconstrained,
            env: Seq::new(self.env@.len(), |i: int| (self.env@[i].0, self.env@[i].1.model())),
        }
    }
}

/// What a flow-or-error result denotes.
pub open spec fn flow_result(r: Result<Flow, InterpretError>) -> Result<FlowModel, ErrorModel> {
    match r {
        Ok(f) => Ok(f.model()),
        Err(x) => Err(x.model()),
    }
}

/// What a place-or-error result denotes.
pub open spec fn place_result(r: Result<Place, InterpretError>) -> Result<PlaceModel, ErrorModel> {
    match r {
        Ok(pl) => Ok(pl.model()),
        Err(x) => Err(x.model()),
    }
}

/// What a done-or-error result denotes.
pub open spec fn unit_result(r: Result<(), InterpretError>) -> Result<(), ErrorModel> {
    match r {
        Ok(_) => Ok(()),
        Err(x) => Err(x.model()),
    }
}

/// What a values-or-error result denotes.
pub open spec fn values_result(r: Result<Vec<Value>, InterpretError>) -> Result<Seq<ValueModel>, ErrorModel> {
    match r {
        Ok(vs) => Ok(value_models(vs@)),
        Err(x) => Err(x.model()),
    }
}

/// The value at the end of `path` from step `i` on, copied.
pub(crate) fn read_path_exec(v: &Value, path: &Vec<Step>, i: usize) -> (r: Result<Value, InterpretError>)
    requires
        i <= path@.len(),
    ensures
        result_model(r) == read_path(v.model(), path@, i as nat),
    decreases path@.len() - i,
{
    if i >= path.len() {
        return Ok(v.duplicate());
    }
    proof {
        lemma_value_models(*v);
    }
    match (path[i], v) {
        (Step::Field(k), Value::Tuple(xs)) => if k < xs.len() {
            read_path_exec(&xs[k], path, i + 1)
        } else {
            Err(InterpretError::Internal(owned("place does not fit the stored value")))
        },
        (Step::Element(k), Value::Array(xs)) => if k < xs.len() {
            read_path_exec(&xs[k], path, i + 1)
        } else {
            Err(InterpretError::Internal(owned("place does not fit the stored value")))
        },
        _ => Err(InterpretError::Internal(owned("place does not fit the stored value"))),
    }
}

/// The models of `vs` with the one at `k` replaced.
proof fn lemma_models_update(vs: Seq<Value>, k: int, x: Value)
    requires
        0 <= k < vs.len(),
    ensures
        value_models(vs.update(k, x)) == value_models(vs).update(k, x.model()),
{
    assert(value_models(vs.update(k, x)) =~= value_models(vs).update(k, x.model()));
}

/// The models of `vs` with `x` appended.
proof fn lemma_models_push(vs: Seq<Value>, x: Value)
    ensures
        value_models(vs.push(x)) == value_models(vs).push(x.model()),
{
    assert(value_models(vs.push(x)) =~= value_models(vs).push(x.model()));
}

/// `v` with the value at the end of `path` from step `i` on replaced by `new`.
fn update_path_exec(v: &Value, path: &Vec<Step>, i: usize, new: Value) -> (r: Result<Value, InterpretError>)
    requires
        i <= path@.len(),
    ensures
        result_model(r) == update_path(v.model(), path@, i as nat, new.model()),
    decreases path@.len() - i,
{
    if i >= path.len() {
        return Ok(new);
    }
    proof {
        lemma_value_models(*v);
    }
    match (path[i], v) {
        (Step::Field(k), Value::Tuple(xs)) => if k < xs.len() {
            let x = match update_path_exec(&xs[k], path, i + 1, new) {
                Ok(x) => x,
                Err(e) => return Err(e),
            };
            let mut ys = duplicate_all(xs);
            proof {
                assert(value_models(ys@) =~= value_models(xs@));
                lemma_models_update(ys@, k as int, x);
            }
            ys.set(k, x);
            let out = Value::Tuple(ys);
            proof {
                lemma_value_models(out);
            }
            Ok(out)
        } else {
            Err(InterpretError::Internal(owned("place does not fit the stored value")))
        },
        (Step::Element(k), Value::Array(xs)) => if k < xs.len() {
            let x = match update_path_exec(&xs[k], path, i + 1, new) {
                Ok(x) => x,
                Err(e) => return Err(e),
            };
            let mut ys = duplicate_all(xs);
            proof {
                assert(value_models(ys@) =~= value_models(xs@));
                lemma_models_update(ys@, k as int, x);
            }
            ys.set(k, x);
            let out = Value::Array(ys);
            proof {
                lemma_value_models(out);
            }
            Ok(out)
        } else {
            Err(InterpretError::Internal(owned("place does not fit the stored value")))
        },
        _ => Err(InterpretError::Internal(owned("place does not fit the stored value"))),
    }
}

/// A copy of a place.
fn copy_place(pl: &Place) -> (r: Place)
    ensures
        r.model() == pl.model(),
{
    match pl {
        Place::At(c, path) => Place::At(*c, path.clone()),
        Place::Temp(v) => Place::Temp(v.duplicate()),
    }
}

/// The steps of a reference's tuple fields.
pub(crate) fn steps_of(fields: &Vec<usize>) -> (r: Vec<Step>)
    ensures
        r@ == field_steps(fields@),
{
    let mut out: Vec<Step> = Vec::new();
    let mut i: usize = 0;
    while i < fields.len()
        invariant
            i <= fields@.len(),
            out@ == field_steps(fields@.take(i as int)),
        decreases fields@.len() - i,
    {
        out.push(Step::Field(fields[i]));
        i = i + 1;
        proof {
            assert(out@ =~= field_steps(fields@.take(i as int)));
        }
    }
    proof {
        assert(fields@.take(i as int) =~= fields@);
    }
    out
}

/// The positions a path's steps name.
fn positions_of(path: &Vec<Step>) -> (r: Vec<usize>)
    ensures
        r@ == step_positions(path@),
{
    let mut out: Vec<usize> = Vec::new();
    let mut i: usize = 0;
    while i < path.len()
        invariant
            i <= path@.len(),
            out@ == step_positions(path@.take(i as int)),
        decreases path@.len() - i,
    {
        let k = match path[i] {
            Step::Field(k) => k,
            Step::Element(k) => k,
        };
        out.push(k);
        i = i + 1;
        proof {
            assert(out@ =~= step_positions(path@.take(i as int)));
        }
    }
    proof {
        assert(path@.take(i as int) =~= path@);
    }
    out
}

impl Machine {
    /// A machine in the state a run of `p` under `field` starts in.
    pub fn new(p: &Program, field: FieldId) -> (r: Machine)
        ensures
            r@ == initial_state(*p, field),
    {
        let mut globals: Vec<GlobalState> = Vec::new();
        let mut i: usize = 0;
        while i < p.globals.len()
            invariant
                i <= p.globals@.len(),
                globals@.len() == i,
                forall|j: int| 0 <= j < i ==> #[trigger] globals@[j] == GlobalState::Pending,
            decreases p.globals@.len() - i,
        {
            globals.push(GlobalState::Pending);
            i = i + 1;
        }
        let r = Machine { field, store: Vec::new(), globals, unconstrained: false, env: Vec::new() };
        proof {
            assert(r@.globals =~= initial_state(*p, field).globals);
            assert(r@.store =~= Seq::<ValueModel>::empty());
            assert(r@.env =~= Seq::<(u32, BindingModel)>::empty());
        }
        r
    }

    /// The position of local `id`'s binding.
    fn find(&self, id: u32) -> (r: Option<usize>)
        ensures
            r is Some <==> binding_position(self@.env, id, 0) is Some,
            r matches Some(k) ==> binding_position(self@.env, id, 0) == Some(k as nat) && k < self.env@.len(),
    {
        let ghost env = self@.env;
        let mut i: usize = 0;
        while i < self.env.len()
            invariant
                i <= self.env@.len(),
                env == self@.env,
                binding_position(env, id, 0) == binding_position(env, id, i as nat),
            decreases self.env@.len() - i,
        {
            if self.env[i].0 == id {
                return Some(i);
            }
            i = i + 1;
        }
        None
    }

    /// A copy of local `id`'s binding.
    fn binding(&self, id: u32) -> (r: Option<Binding>)
        ensures
            match lookup(self@.env, id) {
                Some(b) => r matches Some(x) && x.model() == b,
                None => r is None,
            },
    {
        match self.find(id) {
            None => None,
            Some(k) => match &self.env[k].1 {
                Binding::Value(v) => Some(Binding::Value(v.duplicate())),
                Binding::Cell(c) => Some(Binding::Cell(*c)),
            },
        }
    }

    /// Bind local `id` to `b`.
    fn bind_local(&mut self, id: u32, b: Binding)
        ensures
            final(self)@ == with_env(old(self)@, bind(old(self)@.env, id, b.model())),
    {
        let ghost bm = b.model();
        match self.find(id) {
            Some(k) => {
                self.env.set(k, (id, b));
                proof {
                    assert(self@.env =~= old(self)@.env.update(k as int, (id, bm)));
                }
            },
            None => {
                self.env.push((id, b));
                proof {
                    assert(self@.env =~= old(self)@.env.push((id, bm)));
                }
            },
        }
        proof {
            assert(self@.store =~= old(self)@.store);
            assert(self@.globals =~= old(self)@.globals);
        }
    }

    /// Store `v` in a new cell and give its position.
    fn alloc_cell(&mut self, v: Value) -> (r: usize)
        ensures
            r == old(self)@.store.len(),
            final(self)@ == allocated(old(self)@, v.model()),
    {
        let r = self.store.len();
        proof {
            lemma_models_push(self.store@, v);
        }
        self.store.push(v);
        proof {
            assert(self@.globals =~= old(self)@.globals);
            assert(self@.env =~= old(self)@.env);
        }
        r
    }

    /// The value at a place, copied.
    fn read(&self, pl: &Place) -> (r: Result<Value, InterpretError>)
        ensures
            result_model(r) == read_place(self@, pl.model()),
    {
        match pl {
            Place::At(c, path) => if *c < self.store.len() {
                read_path_exec(&self.store[*c], path, 0)
            } else {
                Err(InterpretError::Internal(owned("dangling reference")))
            },
            Place::Temp(v) => Ok(v.duplicate()),
        }
    }

    /// Write `v` to a place; on an error nothing changes.
    fn write(&mut self, pl: &Place, v: Value) -> (r: Result<(), InterpretError>)
        ensures
            match write_place(old(self)@, pl.model(), v.model()) {
                Ok(s) => r is Ok && final(self)@ == s,
                Err(x) => r matches Err(y) && y.model() == x && final(self)@ == old(self)@,
            },
    {
        match pl {
            Place::At(c, path) => if *c < self.store.len() {
                let x = match update_path_exec(&self.store[*c], path, 0, v) {
                    Ok(x) => x,
                    Err(e) => return Err(e),
                };
                proof {
                    lemma_models_update(self.store@, *c as int, x);
                }
                self.store.set(*c, x);
                proof {
                    assert(self@.globals =~= old(self)@.globals);
                    assert(self@.env =~= old(self)@.env);
                }
                Ok(())
            } else {
                Err(InterpretError::Internal(owned("dangling reference")))
            },
            Place::Temp(_) => Ok(()),
        }
    }
}


/// `a`, `b` and `c` joined.
fn text3(a: &str, b: &str, c: &str) -> (r: String)
    ensures
        r@ == a@ + b@ + c@,
{
    let mut t = owned(a);
    append(&mut t, b);
    append(&mut t, c);
    t
}

/// A copy of an error.
fn copy_error(x: &InterpretError) -> (r: InterpretError)
    ensures
        r.model() == x.model(),
{
    match x {
        InterpretError::AssertionFailed { location, message } => InterpretError::AssertionFailed {
            location: *location,
            message: match message {
                Some(m) => Some(m.clone()),
                None => None,
            },
        },
        InterpretError::Overflow(m) => InterpretError::Overflow(m.clone()),
        InterpretError::DivisionByZero => InterpretError::DivisionByZero,
        InterpretError::ValueOutOfRange(m) => InterpretError::ValueOutOfRange(m.clone()),
        InterpretError::InvalidInput(m) => InterpretError::InvalidInput(m.clone()),
        InterpretError::Type(m) => InterpretError::Type(m.clone()),
        InterpretError::Unsupported(m) => InterpretError::Unsupported(m.clone()),
        InterpretError::Internal(m) => InterpretError::Internal(m.clone()),
    }
}

/// The error a run that spends its whole budget ends with.
fn exhausted() -> (r: InterpretError)
    ensures
        r.model() == budget_exhausted(),
{
    InterpretError::Unsupported(owned("evaluation budget exhausted"))
}

/// The error for an operand or a type that is not well formed.
fn malformed_error() -> (r: InterpretError)
    ensures
        r.model() == malformed(),
{
    InterpretError::Internal(owned("malformed operand"))
}

/// Whether a cast's target is a type the interpreter can build values of.
fn target_ok_exec(t: &Type) -> (r: bool)
    ensures
        r == target_ok(*t),
{
    match t {
        Type::Integer(sg, b) => !(*sg == Signedness::Signed && *b == 0),
        _ => true,
    }
}

/// The position of the first function of the program with id `id`.
fn find_function(p: &Program, id: u32) -> (r: Option<usize>)
    ensures
        r is Some <==> function_position(p.functions@, id, 0) is Some,
        r matches Some(k) ==> function_position(p.functions@, id, 0) == Some(k as nat) && k < p.functions@.len(),
{
    let mut i: usize = 0;
    while i < p.functions.len()
        invariant
            i <= p.functions@.len(),
            function_position(p.functions@, id, 0) == function_position(p.functions@, id, i as nat),
        decreases p.functions@.len() - i,
    {
        if p.functions[i].id == id {
            return Some(i);
        }
        i = i + 1;
    }
    None
}

/// The position of the first global of the program with id `id`.
fn find_global(p: &Program, id: u32) -> (r: Option<usize>)
    ensures
        r is Some <==> global_position(p.globals@, id, 0) is Some,
        r matches Some(k) ==> global_position(p.globals@, id, 0) == Some(k as nat) && k < p.globals@.len(),
{
    let mut i: usize = 0;
    while i < p.globals.len()
        invariant
            i <= p.globals@.len(),
            global_position(p.globals@, id, 0) == global_position(p.globals@, id, i as nat),
        decreases p.globals@.len() - i,
    {
        if p.globals[i].id == id {
            return Some(i);
        }
        i = i + 1;
    }
    None
}

/// `v` with the element reached by the indices of `idx` from `i` on replaced by `new`.
fn store_elements_exec(v: &Value, idx: &Vec<(usize, Location)>, i: usize, new: Value) -> (r: Result<Value, InterpretError>)
    requires
        i <= idx@.len(),
    ensures
        result_model(r) == store_elements(v.model(), idx@, i as nat, new.model()),
    decreases idx@.len() - i,
{
    if i >= idx.len() {
        return Ok(new);
    }
    proof {
        lemma_value_models(*v);
    }
    match v {
        Value::Array(xs) => {
            let (k, location) = idx[i];
            if k < xs.len() {
                let x = match store_elements_exec(&xs[k], idx, i + 1, new) {
                    Ok(x) => x,
                    Err(e) => return Err(e),
                };
                let mut ys = duplicate_all(xs);
                proof {
                    assert(value_models(ys@) =~= value_models(xs@));
                    lemma_models_update(ys@, k as int, x);
                }
                ys.set(k, x);
                let out = Value::Array(ys);
                proof {
                    lemma_value_models(out);
                }
                Ok(out)
            } else {
                Err(index_out_of_bounds(location, k, xs.len()))
            }
        },
        _ => Err(InterpretError::Type(owned("indexed assignment to a non-array"))),
    }
}

/// The models of a machine's bindings.
pub open spec fn env_models(env: Seq<(u32, Binding)>) -> Seq<(u32, BindingModel)> {
    Seq::new(env.len(), |i: int| (env[i].0, env[i].1.model()))
}

/// What a call's callee names.
enum Callee {
    Function(u32),
    Intrinsic(String),
}

impl Callee {
    spec fn model(&self) -> CalleeModel {
        match self {
            Callee::Function(id) => CalleeModel::Function(*id),
            Callee::Intrinsic(name) => CalleeModel::Intrinsic(name@),
        }
    }
}

/// What a callee-or-error result denotes.
spec fn callee_result(r: Result<Callee, InterpretError>) -> Result<CalleeModel, ErrorModel> {
    match r {
        Ok(c) => Ok(c.model()),
        Err(x) => Err(x.model()),
    }
}

/// What an indices-or-error result denotes.
spec fn indices_result(r: Result<(Place, Vec<(usize, Location)>), InterpretError>) -> Result<(PlaceModel, Seq<(usize, Location)>), ErrorModel> {
    match r {
        Ok((pl, idx)) => Ok((pl.model(), idx@)),
        Err(x) => Err(x.model()),
    }
}

/// The text of an optional message.
spec fn text_of(t: Option<String>) -> Option<Seq<char>> {
    match t {
        Some(x) => Some(x@),
        None => None,
    }
}

/// What a rendered message, or the error that ended its rendering, denotes.
spec fn message_result(r: Result<Option<String>, InterpretError>) -> Result<Option<Seq<char>>, ErrorModel> {
    match r {
        Ok(t) => Ok(text_of(t)),
        Err(x) => Err(x.model()),
    }
}

/// Whether an error is the one a run that spends its whole budget ends with.
fn is_budget_exhausted(x: &InterpretError) -> (r: bool)
    ensures
        r == (x.model() == budget_exhausted()),
{
    match x {
        InterpretError::Unsupported(m) => same_text(m.as_str(), "evaluation budget exhausted"),
        _ => false,
    }
}

impl Machine {
    /// Exchange the machine's bindings with `env`.
    fn swap_env(&mut self, env: &mut Vec<(u32, Binding)>)
        ensures
            final(self)@ == with_env(old(self)@, env_models(old(env)@)),
            env_models(final(env)@) == old(self)@.env,
    {
        core::mem::swap(&mut self.env, env);
        proof {
            assert(self@.env =~= env_models(old(env)@));
            assert(env_models(env@) =~= old(self)@.env);
            assert(self@.store =~= old(self)@.store);
            assert(self@.globals =~= old(self)@.globals);
        }
    }

    /// Set whether the running code is unconstrained.
    fn set_unconstrained(&mut self, b: bool)
        ensures
            final(self)@ == (State { unconstrained: b, ..old(self)@ }),
    {
        self.unconstrained = b;
        proof {
            assert(self@.store =~= old(self)@.store);
            assert(self@.globals =~= old(self)@.globals);
            assert(self@.env =~= old(self)@.env);
        }
    }

    /// Replace global `k`'s evaluation.
    fn set_global_state(&mut self, k: usize, g: GlobalState)
        ensures
            final(self)@ == set_global(old(self)@, k as nat, g.model()),
    {
        let ghost gm = g.model();
        if k >= self.globals.len() {
            return;
        }
        self.globals.set(k, g);
        proof {
            assert(self@.globals =~= old(self)@.globals.update(k as int, gm));
            assert(self@.store =~= old(self)@.store);
            assert(self@.env =~= old(self)@.env);
        }
    }

    /// Whether an operand of a primitive operation is well formed.
    fn operand_ok_exec(&self, v: &Value) -> (r: bool)
        ensures
            r == operand_ok(self@.field, v.model()),
    {
        match v {
            Value::Int(i) => if i.signed && i.bits == 0 {
                false
            } else {
                let (min, max) = IntValue::range(i.signed, i.bits);
                !(i.value.less_than(&min) || max.less_than(&i.value))
            },
            Value::Field(f) => f.field() == self.field,
            _ => true,
        }
    }

    /// Whether a value or anything its references reach holds a field element, following at
    /// most `budget` references.
    fn reaches(&self, v: &Value, budget: usize) -> (r: bool)
        ensures
            r == reaches_field(self@, v.model(), budget as nat),
        decreases budget, v,
    {
        match v {
            Value::Field(_) => true,
            Value::Array(xs) => {
                proof {
                    lemma_value_models(*v);
                }
                self.any_reaches(xs, budget, v)
            },
            Value::Tuple(xs) => {
                proof {
                    lemma_value_models(*v);
                }
                self.any_reaches(xs, budget, v)
            },
            Value::Ref(c, fields) => {
                if budget == 0 {
                    return false;
                }
                let pl = Place::At(*c, steps_of(fields));
                match self.read(&pl) {
                    Ok(x) => self.reaches(&x, budget - 1),
                    Err(_) => false,
                }
            },
            _ => false,
        }
    }

    /// Whether any of `xs`, the elements of `whole`, reaches a field element.
    fn any_reaches(&self, xs: &Vec<Value>, budget: usize, whole: &Value) -> (r: bool)
        requires
            *whole == Value::Array(*xs) || *whole == Value::Tuple(*xs),
        ensures
            r == reaches_field(self@, whole.model(), budget as nat),
        decreases budget, whole, 0nat,
    {
        proof {
            lemma_value_models(*whole);
        }
        let mut i: usize = 0;
        while i < xs.len()
            invariant
                i <= xs@.len(),
                *whole == Value::Array(*xs) || *whole == Value::Tuple(*xs),
                forall|j: int| 0 <= j < i ==> !reaches_field(self@, #[trigger] value_models(xs@)[j], budget as nat),
            decreases xs@.len() - i,
        {
            proof {
                assert(decreases_to!(*whole => *xs));
                assert(decreases_to!(*xs => xs@));
                assert(decreases_to!(xs@ => xs@[i as int]));
            }
            if self.reaches(&xs[i], budget) {
                proof {
                    let ms = value_models(xs@);
                    assert(ms[i as int] == xs@[i as int].model());
                    assert(reaches_field(self@, ms[i as int], budget as nat));
                    if whole is Array {
                        assert(whole.model()->Array_0 == ms);
                        assert(reaches_field(self@, whole.model()->Array_0[i as int], budget as nat));
                    } else {
                        assert(whole.model()->Tuple_0 == ms);
                        assert(reaches_field(self@, whole.model()->Tuple_0[i as int], budget as nat));
                    }
                }
                return true;
            }
            i = i + 1;
        }
        proof {
            let ms = value_models(xs@);
            assert forall|j: int| 0 <= j < ms.len() implies !reaches_field(self@, #[trigger] ms[j], budget as nat) by {}
        }
        false
    }

    /// Whether any capture of `xs` reaches a field element.
    fn captures_reach_field(&self, xs: &Vec<Value>) -> (r: bool)
        ensures
            r == any_reaches_field(self@, value_models(xs@)),
    {
        let budget = self.store.len();
        let mut i: usize = 0;
        while i < xs.len()
            invariant
                i <= xs@.len(),
                budget as nat == chain_budget(self@),
                forall|j: int| 0 <= j < i ==> !reaches_field(self@, #[trigger] value_models(xs@)[j], chain_budget(self@)),
            decreases xs@.len() - i,
        {
            if self.reaches(&xs[i], budget) {
                proof {
                    assert(value_models(xs@)[i as int] == xs@[i as int].model());
                }
                return true;
            }
            i = i + 1;
        }
        false
    }

    /// The place of field `i` of the tuple at `pl`, following references to the tuple.
    fn field_of(&self, pl: Place, i: usize, oob: String) -> (r: Result<Place, InterpretError>)
        ensures
            place_result(r) == field_place(self@, pl.model(), i, oob@, chain_budget(self@)),
    {
        let mut cur = pl;
        let mut budget = self.store.len();
        loop
            invariant
                field_place(self@, pl.model(), i, oob@, chain_budget(self@)) == field_place(self@, cur.model(), i, oob@, budget as nat),
            decreases budget,
        {
            let v = match self.read(&cur) {
                Ok(v) => v,
                Err(e) => return Err(e),
            };
            proof {
                lemma_value_models(v);
            }
            match v {
                Value::Ref(c, fields) => {
                    if budget == 0 {
                        return Err(InterpretError::Internal(owned("reference cycle")));
                    }
                    cur = Place::At(c, steps_of(&fields));
                    budget = budget - 1;
                },
                Value::Tuple(xs) => {
                    if i < xs.len() {
                        return match cur {
                            Place::At(c, path) => {
                                let mut path = path;
                                path.push(Step::Field(i));
                                Ok(Place::At(c, path))
                            },
                            Place::Temp(_) => Ok(Place::Temp(xs[i].duplicate())),
                        };
                    } else {
                        return Err(InterpretError::Type(oob));
                    }
                },
                other => {
                    return Err(InterpretError::Unsupported(text3("field access on a non-tuple value (",
                        other.debug_text().as_str(), ")")));
                },
            }
        }
    }

    /// Evaluate `e` with `fuel` units of budget.
    fn eval(&mut self, p: &Program, fuel: u64, e: &Expression) -> (r: Result<Flow, InterpretError>)
        ensures
            (final(self)@, flow_result(r)) == eval_m(*p, fuel as nat, old(self)@, *e),
        decreases fuel, e, 3nat,
    {
        proof {
            reveal(eval_m);
        }
        match e {
            Expression::Ident(_) => self.eval_ident(p, fuel, e),
            Expression::Literal(l) => match self.literal(p, fuel, l) {
                Ok(v) => Ok(Flow::Normal(v)),
                Err(x) => Err(x),
            },
            Expression::Block(es) => self.block(p, fuel, es),
            Expression::Unary { .. } => self.eval_unary_expr(p, fuel, e),
            Expression::Binary { .. } => self.eval_binary_expr(p, fuel, e),
            Expression::Index { .. } => self.eval_index(p, fuel, e),
            Expression::Cast { .. } => self.eval_cast_expr(p, fuel, e),
            Expression::For { .. } => self.eval_for(p, fuel, e),
            Expression::Loop(body) => match self.run_loop(p, fuel, body) {
                Ok(()) => Ok(Flow::Normal(Value::Unit)),
                Err(x) => Err(x),
            },
            Expression::While { condition, body } => match self.run_while(p, fuel, condition, body) {
                Ok(()) => Ok(Flow::Normal(Value::Unit)),
                Err(x) => Err(x),
            },
            Expression::If { .. } => self.eval_if(p, fuel, e),
            Expression::Match { .. } => self.eval_match(p, fuel, e),
            Expression::Tuple(es) => match self.values(p, fuel, es) {
                Ok(vs) => {
                    let out = Value::Tuple(vs);
                    proof {
                        lemma_value_models(out);
                    }
                    Ok(Flow::Normal(out))
                },
                Err(x) => Err(x),
            },
            Expression::ExtractTupleField(..) => self.eval_extract(p, fuel, e),
            Expression::Call { .. } => self.eval_call(p, fuel, e),
            Expression::Let { .. } => self.eval_let(p, fuel, e),
            Expression::Constrain { .. } => self.eval_constrain(p, fuel, e),
            Expression::Assign { lvalue, expression } => {
                let v = match self.value(p, fuel, expression) {
                    Ok(v) => v,
                    Err(x) => return Err(x),
                };
                match self.store(p, fuel, lvalue, v) {
                    Ok(()) => Ok(Flow::Normal(Value::Unit)),
                    Err(x) => Err(x),
                }
            },
            Expression::Semi(inner) => match self.eval(p, fuel, inner) {
                Ok(Flow::Normal(_)) => Ok(Flow::Normal(Value::Unit)),
                other => other,
            },
            Expression::Clone(inner) => match self.value(p, fuel, inner) {
                Ok(v) => Ok(Flow::Normal(v)),
                Err(x) => Err(x),
            },
            Expression::Drop(inner) => match self.eval(p, fuel, inner) {
                Ok(Flow::Normal(_)) => Ok(Flow::Normal(Value::Unit)),
                other => other,
            },
            Expression::Break => Ok(Flow::Break),
            Expression::Continue => Ok(Flow::Continue),
        }
    }

    /// Evaluate `e` where a value is wanted.
    fn value(&mut self, p: &Program, fuel: u64, e: &Expression) -> (r: Result<Value, InterpretError>)
        ensures
            (final(self)@, result_model(r)) == value_m(*p, fuel as nat, old(self)@, *e),
        decreases fuel, e, 4nat,
    {
        proof {
            lemma_value_m(*p, fuel as nat, self@, *e);
        }
        match self.eval(p, fuel, e) {
            Ok(Flow::Normal(v)) => Ok(v),
            Ok(_) => Err(InterpretError::Unsupported(owned("break/continue in value position"))),
            Err(x) => Err(x),
        }
    }

    /// Evaluate a name.
    fn eval_ident(&mut self, p: &Program, fuel: u64, e: &Expression) -> (r: Result<Flow, InterpretError>)
        requires
            *e is Ident,
        ensures
            (final(self)@, flow_result(r)) == eval_m(*p, fuel as nat, old(self)@, *e),
        decreases fuel, e, 2nat,
    {
        proof {
            reveal(eval_m);
        }
        let ident = match e {
            Expression::Ident(ident) => ident,
            _ => return Err(InterpretError::Internal(owned("unexpected expression"))),
        };
        match &ident.definition {
            Definition::Local(l) => match self.binding(*l) {
                None => Err(InterpretError::Internal(text3("unbound local '", ident.name.as_str(), "'"))),
                Some(Binding::Value(v)) => Ok(Flow::Normal(v)),
                Some(Binding::Cell(c)) => {
                    let pl = Place::At(c, Vec::new());
                    match self.read(&pl) {
                        Ok(v) => Ok(Flow::Normal(v)),
                        Err(x) => Err(x),
                    }
                },
            },
            Definition::Global(g) => match self.global(p, fuel, e, *g) {
                Ok(v) => Ok(Flow::Normal(v)),
                Err(x) => Err(x),
            },
            Definition::Function(f) => Ok(Flow::Normal(Value::Function(FuncId(*f)))),
            Definition::Builtin(name) => Err(InterpretError::Unsupported(text3("reference to intrinsic '", name.as_str(), "'"))),
            Definition::LowLevel(name) => Err(InterpretError::Unsupported(text3("reference to intrinsic '", name.as_str(), "'"))),
            Definition::Oracle { name, .. } => Err(InterpretError::Unsupported(text3("reference to intrinsic '", name.as_str(), "'"))),
        }
    }

    /// The value of global `g`.
    fn global(&mut self, p: &Program, fuel: u64, e: &Expression, g: u32) -> (r: Result<Value, InterpretError>)
        ensures
            (final(self)@, result_model(r)) == global_m(*p, fuel as nat, old(self)@, *e, g),
        decreases fuel, e, 1nat,
    {
        proof {
            lemma_global_m(*p, fuel as nat, self@, *e, g);
        }
        let k = match find_global(p, g) {
            Some(k) => k,
            None => return Err(InterpretError::Internal(text3("unknown global GlobalId(", u64_decimal(g as u64).as_str(), ")"))),
        };
        if k >= self.globals.len() {
            return Err(InterpretError::Internal(text3("unknown global GlobalId(", u64_decimal(g as u64).as_str(), ")")));
        }
        match &self.globals[k] {
            GlobalState::Done(v) => return Ok(v.duplicate()),
            GlobalState::InProgress => return Err(InterpretError::Internal(text3("global GlobalId(",
                u64_decimal(g as u64).as_str(), ") is defined in terms of itself"))),
            GlobalState::Pending => {},
        }
        if fuel == 0 {
            return Err(exhausted());
        }
        self.set_global_state(k, GlobalState::InProgress);
        let mut saved: Vec<(u32, Binding)> = Vec::new();
        proof {
            assert(env_models(saved@) =~= Seq::<(u32, BindingModel)>::empty());
        }
        self.swap_env(&mut saved);
        let r = self.value(p, fuel - 1, &p.globals[k].expression);
        self.swap_env(&mut saved);
        match r {
            Ok(v) => {
                self.set_global_state(k, GlobalState::Done(v.duplicate()));
                Ok(v)
            },
            Err(x) => {
                self.set_global_state(k, GlobalState::Pending);
                Err(x)
            },
        }
    }

    /// Evaluate a literal.
    fn literal(&mut self, p: &Program, fuel: u64, l: &Literal) -> (r: Result<Value, InterpretError>)
        ensures
            (final(self)@, result_model(r)) == literal_m(*p, fuel as nat, old(self)@, *l),
        decreases fuel, l, 0nat,
    {
        proof {
            reveal(eval_m);
        }
        match l {
            Literal::Integer(v, typ, _) => match typ {
                Type::Field => Ok(Value::Field(bigint_to_field(self.field, v))),
                Type::Integer(sg, bits) => {
                    let signed = *sg == Signedness::Signed;
                    if signed && *bits == 0 {
                        Err(malformed_error())
                    } else {
                        Ok(Value::Int(IntValue::canonical(signed, *bits, v)))
                    }
                },
                other => Err(InterpretError::Type(cat("integer literal with non-numeric type ", other.debug_text().as_str()))),
            },
            Literal::Bool(b) => Ok(Value::Bool(*b)),
            Literal::Unit => Ok(Value::Unit),
            Literal::Str(bytes) => match string_from_utf8(bytes.clone()) {
                Ok(text) => Ok(Value::Str(text)),
                Err(t) => Err(InterpretError::Unsupported(cat("non-UTF-8 string literal: ", t.as_str()))),
            },
            Literal::Array { contents, .. } => match self.values(p, fuel, contents) {
                Ok(vs) => {
                    let out = Value::Array(vs);
                    proof {
                        lemma_value_models(out);
                    }
                    Ok(out)
                },
                Err(x) => Err(x),
            },
            Literal::Vector { contents, .. } => match self.values(p, fuel, contents) {
                Ok(vs) => {
                    let out = Value::Array(vs);
                    proof {
                        lemma_value_models(out);
                    }
                    Ok(out)
                },
                Err(x) => Err(x),
            },
            Literal::Repeated { element, length, .. } => {
                let v = match self.value(p, fuel, element) {
                    Ok(v) => v,
                    Err(x) => return Err(x),
                };
                let mut out: Vec<Value> = Vec::new();
                let mut i: u32 = 0;
                while i < *length
                    invariant
                        i <= *length,
                        value_models(out@) == Seq::new(i as nat, |_j: int| v.model()),
                    decreases *length - i,
                {
                    let x = v.duplicate();
                    proof {
                        lemma_models_push(out@, x);
                    }
                    out.push(x);
                    i = i + 1;
                    proof {
                        assert(value_models(out@) =~= Seq::new(i as nat, |_j: int| v.model()));
                    }
                }
                let out = Value::Array(out);
                proof {
                    lemma_value_models(out);
                }
                Ok(out)
            },
            Literal::FmtStr(fragments, _, captures, types) => {
                let v = match self.value(p, fuel, captures) {
                    Ok(v) => v,
                    Err(x) => return Err(x),
                };
                proof {
                    lemma_value_models(v);
                }
                match v {
                    Value::Tuple(xs) => {
                        if self.captures_reach_field(&xs) {
                            return Err(InterpretError::Unsupported(owned("format string interpolating a field")));
                        }
                        match types {
                            Err(x) => Err(copy_error(x)),
                            Ok(ts) => match format_fmt_str(&self.store, fragments, &xs, ts) {
                                Ok(text) => Ok(Value::Str(text)),
                                Err(x) => Err(x),
                            },
                        }
                    },
                    other => Err(InterpretError::Internal(cat("fmt captures were not a tuple: ", other.debug_text().as_str()))),
                }
            },
        }
    }

    /// Evaluate the expressions of `es` in order; the value of the last one.
    fn block(&mut self, p: &Program, fuel: u64, es: &Vec<Expression>) -> (r: Result<Flow, InterpretError>)
        ensures
            (final(self)@, flow_result(r)) == block_m(*p, fuel as nat, old(self)@, es@, 0, ValueModel::Unit),
        decreases fuel, es, 1nat,
    {
        let mut last = Value::Unit;
        let mut i: usize = 0;
        while i < es.len()
            invariant
                i <= es@.len(),
                block_m(*p, fuel as nat, old(self)@, es@, 0, ValueModel::Unit) == block_m(*p, fuel as nat, self@, es@, i as nat, last.model()),
            decreases es@.len() - i,
        {
            proof {
                assert(decreases_to!(*es => es@));
                assert(decreases_to!(es@ => es@[i as int]));
                lemma_block_m(*p, fuel as nat, self@, es@, i as nat, last.model());
            }
            match self.eval(p, fuel, &es[i]) {
                Ok(Flow::Normal(v)) => {
                    last = v;
                },
                other => return other,
            }
            i = i + 1;
        }
        proof {
            lemma_block_m(*p, fuel as nat, self@, es@, i as nat, last.model());
        }
        Ok(Flow::Normal(last))
    }

    /// Evaluate the expressions of `es` in order; their values.
    fn values(&mut self, p: &Program, fuel: u64, es: &Vec<Expression>) -> (r: Result<Vec<Value>, InterpretError>)
        ensures
            (final(self)@, values_result(r)) == values_m(*p, fuel as nat, old(self)@, es@, 0, Seq::empty()),
        decreases fuel, es, 1nat,
    {
        let mut out: Vec<Value> = Vec::new();
        let mut i: usize = 0;
        proof {
            assert(value_models(out@) =~= Seq::<ValueModel>::empty());
        }
        while i < es.len()
            invariant
                i <= es@.len(),
                values_m(*p, fuel as nat, old(self)@, es@, 0, Seq::empty()) == values_m(*p, fuel as nat, self@, es@, i as nat, value_models(out@)),
            decreases es@.len() - i,
        {
            proof {
                assert(decreases_to!(*es => es@));
                assert(decreases_to!(es@ => es@[i as int]));
                lemma_values_m(*p, fuel as nat, self@, es@, i as nat, value_models(out@));
            }
            match self.value(p, fuel, &es[i]) {
                Ok(v) => {
                    proof {
                        lemma_models_push(out@, v);
                    }
                    out.push(v);
                },
                Err(x) => return Err(x),
            }
            i = i + 1;
        }
        proof {
            lemma_values_m(*p, fuel as nat, self@, es@, i as nat, value_models(out@));
        }
        Ok(out)
    }

    /// Evaluate a unary operation, a reference or a dereference.
    fn eval_unary_expr(&mut self, p: &Program, fuel: u64, e: &Expression) -> (r: Result<Flow, InterpretError>)
        requires
            *e is Unary,
        ensures
            (final(self)@, flow_result(r)) == eval_m(*p, fuel as nat, old(self)@, *e),
        decreases fuel, e, 2nat,
    {
        proof {
            reveal(eval_m);
        }
        let (operator, rhs, skip) = match e {
            Expression::Unary { operator, rhs, skip, .. } => (operator, rhs, skip),
            _ => return Err(InterpretError::Internal(owned("unexpected expression"))),
        };
        match operator {
            UnaryOp::Reference { .. } => match self.place(p, fuel, rhs) {
                Err(x) => Err(x),
                Ok(Place::At(c, path)) => Ok(Flow::Normal(Value::Ref(c, positions_of(&path)))),
                Ok(Place::Temp(v)) => {
                    let c = self.alloc_cell(v);
                    Ok(Flow::Normal(Value::Ref(c, Vec::new())))
                },
            },
            _ => if *skip {
                self.eval(p, fuel, rhs)
            } else {
                let v = match self.value(p, fuel, rhs) {
                    Ok(v) => v,
                    Err(x) => return Err(x),
                };
                match operator {
                    UnaryOp::Dereference { .. } => match &v {
                        Value::Ref(c, fields) => {
                            let pl = Place::At(*c, steps_of(fields));
                            match self.read(&pl) {
                                Ok(x) => Ok(Flow::Normal(x)),
                                Err(x) => Err(x),
                            }
                        },
                        other => Err(InterpretError::Unsupported(text3("dereference of a non-reference value (",
                            other.debug_text().as_str(), ")"))),
                    },
                    _ => if !self.operand_ok_exec(&v) {
                        Err(malformed_error())
                    } else {
                        match eval_unary(*operator, v) {
                            Ok(x) => Ok(Flow::Normal(x)),
                            Err(x) => Err(x),
                        }
                    },
                }
            },
        }
    }

    /// Evaluate a binary operation.
    fn eval_binary_expr(&mut self, p: &Program, fuel: u64, e: &Expression) -> (r: Result<Flow, InterpretError>)
        requires
            *e is Binary,
        ensures
            (final(self)@, flow_result(r)) == eval_m(*p, fuel as nat, old(self)@, *e),
        decreases fuel, e, 2nat,
    {
        proof {
            reveal(eval_m);
        }
        let (lhs, operator, rhs) = match e {
            Expression::Binary { lhs, operator, rhs, .. } => (lhs, operator, rhs),
            _ => return Err(InterpretError::Internal(owned("unexpected expression"))),
        };
        let a = match self.value(p, fuel, lhs) {
            Ok(v) => v,
            Err(x) => return Err(x),
        };
        let b = match self.value(p, fuel, rhs) {
            Ok(v) => v,
            Err(x) => return Err(x),
        };
        if !self.operand_ok_exec(&a) || !self.operand_ok_exec(&b) {
            return Err(malformed_error());
        }
        match eval_binary(*operator, a, b) {
            Ok(x) => Ok(Flow::Normal(x)),
            Err(x) => Err(x),
        }
    }

    /// Evaluate an array element read: the index first, then the array.
    fn eval_index(&mut self, p: &Program, fuel: u64, e: &Expression) -> (r: Result<Flow, InterpretError>)
        requires
            *e is Index,
        ensures
            (final(self)@, flow_result(r)) == eval_m(*p, fuel as nat, old(self)@, *e),
        decreases fuel, e, 2nat,
    {
        proof {
            reveal(eval_m);
        }
        let (collection, index, location) = match e {
            Expression::Index { collection, index, location, .. } => (collection, index, location),
            _ => return Err(InterpretError::Internal(owned("unexpected expression"))),
        };
        let iv = match self.value(p, fuel, index) {
            Ok(v) => v,
            Err(x) => return Err(x),
        };
        let ri = iv.as_index();
        proof {
            lemma_as_index(iv, ri);
        }
        let i = match ri {
            Ok(i) => i,
            Err(x) => return Err(x),
        };
        let c = match self.value(p, fuel, collection) {
            Ok(v) => v,
            Err(x) => return Err(x),
        };
        proof {
            lemma_value_models(c);
        }
        match c {
            Value::Array(xs) => if i < xs.len() {
                Ok(Flow::Normal(xs[i].duplicate()))
            } else {
                Err(index_out_of_bounds(*location, i, xs.len()))
            },
            other => Err(InterpretError::Type(cat("cannot index ", other.debug_text().as_str()))),
        }
    }

    /// Evaluate a cast.
    fn eval_cast_expr(&mut self, p: &Program, fuel: u64, e: &Expression) -> (r: Result<Flow, InterpretError>)
        requires
            *e is Cast,
        ensures
            (final(self)@, flow_result(r)) == eval_m(*p, fuel as nat, old(self)@, *e),
        decreases fuel, e, 2nat,
    {
        proof {
            reveal(eval_m);
        }
        let (lhs, typ) = match e {
            Expression::Cast { lhs, typ, .. } => (lhs, typ),
            _ => return Err(InterpretError::Internal(owned("unexpected expression"))),
        };
        let v = match self.value(p, fuel, lhs) {
            Ok(v) => v,
            Err(x) => return Err(x),
        };
        if !self.operand_ok_exec(&v) || !target_ok_exec(typ) {
            return Err(malformed_error());
        }
        match eval_cast(self.field, v, typ) {
            Ok(x) => Ok(Flow::Normal(x)),
            Err(x) => Err(x),
        }
    }

    /// Evaluate a `for` loop over an integer range.
    fn eval_for(&mut self, p: &Program, fuel: u64, e: &Expression) -> (r: Result<Flow, InterpretError>)
        requires
            *e is For,
        ensures
            (final(self)@, flow_result(r)) == eval_m(*p, fuel as nat, old(self)@, *e),
        decreases fuel, e, 2nat,
    {
        proof {
            reveal(eval_m);
        }
        let (index_variable, index_type, start_range, end_range, inclusive, block) = match e {
            Expression::For { index_variable, index_type, start_range, end_range, inclusive, block, .. } => (
                index_variable,
                index_type,
                start_range,
                end_range,
                inclusive,
                block,
            ),
            _ => return Err(InterpretError::Internal(owned("unexpected expression"))),
        };
        let (signed, bits) = match int_type(index_type) {
            Some(t) => t,
            None => return Err(InterpretError::Type(owned("for-loop index is not an integer type"))),
        };
        let a = match self.value(p, fuel, start_range) {
            Ok(v) => v,
            Err(x) => return Err(x),
        };
        let b = match self.value(p, fuel, end_range) {
            Ok(v) => v,
            Err(x) => return Err(x),
        };
        let x = match &a {
            Value::Int(i) => i.value.duplicate(),
            other => return Err(InterpretError::Type(cat("expected integer, got ", other.debug_text().as_str()))),
        };
        let y = match &b {
            Value::Int(i) => i.value.duplicate(),
            other => return Err(InterpretError::Type(cat("expected integer, got ", other.debug_text().as_str()))),
        };
        if signed && bits == 0 {
            return Err(malformed_error());
        }
        let end = if *inclusive {
            y.add(&BigInt::one())
        } else {
            y
        };
        match self.run_for(p, fuel, *index_variable, signed, bits, x, end, block) {
            Ok(()) => Ok(Flow::Normal(Value::Unit)),
            Err(x) => Err(x),
        }
    }

    /// Run a `for` loop's body over `[i, end)`.
    fn run_for(
        &mut self,
        p: &Program,
        fuel: u64,
        var: u32,
        signed: bool,
        bits: u8,
        start: BigInt,
        end: BigInt,
        body: &Expression,
    ) -> (r: Result<(), InterpretError>)
        requires
            valid_type(signed, bits as nat),
        ensures
            (final(self)@, unit_result(r)) == for_m(*p, fuel as nat, old(self)@, var, signed, bits, start@, end@, *body),
        decreases fuel, body, 0nat,
    {
        let mut f = fuel;
        let mut i = start;
        loop
            invariant
                f <= fuel,
                valid_type(signed, bits as nat),
                for_m(*p, fuel as nat, old(self)@, var, signed, bits, start@, end@, *body) == for_m(*p, f as nat, self@, var, signed,
                    bits, i@, end@, *body),
            decreases f,
        {
            proof {
                lemma_for_m(*p, f as nat, self@, var, signed, bits, i@, end@, *body);
            }
            if !i.less_than(&end) {
                return Ok(());
            }
            if f == 0 {
                return Err(exhausted());
            }
            self.bind_local(var, Binding::Value(Value::Int(IntValue::canonical(signed, bits, &i))));
            match self.eval(p, f - 1, body) {
                Err(x) => return Err(x),
                Ok(Flow::Break) => return Ok(()),
                Ok(_) => {},
            }
            i = i.add(&BigInt::one());
            f = f - 1;
        }
    }

    /// Run a `loop` until its body breaks.
    fn run_loop(&mut self, p: &Program, fuel: u64, body: &Expression) -> (r: Result<(), InterpretError>)
        ensures
            (final(self)@, unit_result(r)) == loop_m(*p, fuel as nat, old(self)@, *body),
        decreases fuel, body, 0nat,
    {
        let mut f = fuel;
        loop
            invariant
                f <= fuel,
                loop_m(*p, fuel as nat, old(self)@, *body) == loop_m(*p, f as nat, self@, *body),
            decreases f,
        {
            proof {
                lemma_loop_m(*p, f as nat, self@, *body);
            }
            if f == 0 {
                return Err(exhausted());
            }
            match self.eval(p, f - 1, body) {
                Err(x) => return Err(x),
                Ok(Flow::Break) => return Ok(()),
                Ok(_) => {},
            }
            f = f - 1;
        }
    }

    /// Run a `while` loop.
    fn run_while(&mut self, p: &Program, fuel: u64, condition: &Expression, body: &Expression) -> (r: Result<(), InterpretError>)
        ensures
            (final(self)@, unit_result(r)) == while_m(*p, fuel as nat, old(self)@, *condition, *body),
        decreases fuel, condition, 0nat,
    {
        let mut f = fuel;
        loop
            invariant
                f <= fuel,
                while_m(*p, fuel as nat, old(self)@, *condition, *body) == while_m(*p, f as nat, self@, *condition, *body),
            decreases f,
        {
            proof {
                lemma_while_m(*p, f as nat, self@, *condition, *body);
            }
            if f == 0 {
                return Err(exhausted());
            }
            let c = match self.value(p, f - 1, condition) {
                Ok(v) => v,
                Err(x) => return Err(x),
            };
            match c.as_bool() {
                Err(x) => return Err(x),
                Ok(false) => return Ok(()),
                Ok(true) => {},
            }
            match self.eval(p, f - 1, body) {
                Err(x) => return Err(x),
                Ok(Flow::Break) => return Ok(()),
                Ok(_) => {},
            }
            f = f - 1;
        }
    }

    /// Evaluate an `if`.
    fn eval_if(&mut self, p: &Program, fuel: u64, e: &Expression) -> (r: Result<Flow, InterpretError>)
        requires
            *e is If,
        ensures
            (final(self)@, flow_result(r)) == eval_m(*p, fuel as nat, old(self)@, *e),
        decreases fuel, e, 2nat,
    {
        proof {
            reveal(eval_m);
        }
        let (condition, consequence, alternative) = match e {
            Expression::If { condition, consequence, alternative, .. } => (condition, consequence, alternative),
            _ => return Err(InterpretError::Internal(owned("unexpected expression"))),
        };
        let c = match self.value(p, fuel, condition) {
            Ok(v) => v,
            Err(x) => return Err(x),
        };
        match c.as_bool() {
            Err(x) => Err(x),
            Ok(true) => self.eval(p, fuel, consequence),
            Ok(false) => match alternative {
                Some(a) => self.eval(p, fuel, a),
                None => Ok(Flow::Normal(Value::Unit)),
            },
        }
    }

    /// Evaluate a `match` on a local.
    fn eval_match(&mut self, p: &Program, fuel: u64, e: &Expression) -> (r: Result<Flow, InterpretError>)
        requires
            *e is Match,
        ensures
            (final(self)@, flow_result(r)) == eval_m(*p, fuel as nat, old(self)@, *e),
        decreases fuel, e, 2nat,
    {
        proof {
            reveal(eval_m);
        }
        let (variable, cases, default_case) = match e {
            Expression::Match { variable, cases, default_case, .. } => (variable, cases, default_case),
            _ => return Err(InterpretError::Internal(owned("unexpected expression"))),
        };
        let scrutinee = match self.binding(*variable) {
            None => return Err(InterpretError::Internal(owned("unbound match scrutinee"))),
            Some(Binding::Value(v)) => v,
            Some(Binding::Cell(c)) => {
                let pl = Place::At(c, Vec::new());
                match self.read(&pl) {
                    Ok(v) => v,
                    Err(x) => return Err(x),
                }
            },
        };
        if default_case.is_none() && cases.len() == 0 {
            return Err(InterpretError::Internal(owned("match with no cases and no default")));
        }
        let tested = if default_case.is_some() {
            cases.len()
        } else {
            cases.len() - 1
        };
        match select(cases, tested, &scrutinee) {
            Err(x) => Err(x),
            Ok(Some(k)) => self.enter_case(p, fuel, cases, k, &scrutinee),
            Ok(None) => match default_case {
                Some(d) => self.eval(p, fuel, d),
                None => self.enter_case(p, fuel, cases, cases.len() - 1, &scrutinee),
            },
        }
    }

    /// Bind case `k`'s argument locals from the scrutinee and run its branch.
    fn enter_case(&mut self, p: &Program, fuel: u64, cs: &Vec<MatchCase>, k: usize, v: &Value) -> (r: Result<Flow, InterpretError>)
        ensures
            (final(self)@, flow_result(r)) == enter_case_m(*p, fuel as nat, old(self)@, cs@, k as nat, v.model()),
        decreases fuel, cs, 0nat,
    {
        proof {
            reveal(eval_m);
        }
        if k >= cs.len() {
            return Err(InterpretError::Internal(owned("match case out of range")));
        }
        let c = &cs[k];
        let vals = match bind_case_arguments(&c.constructor, c.arguments.len(), v) {
            Ok(vals) => vals,
            Err(x) => return Err(x),
        };
        let ghost ms = value_models(vals@);
        proof {
            match case_arguments_model(c.constructor, c.arguments@.len(), v.model()) {
                Ok(ms2) => {
                    assert(ms =~= ms2);
                },
                Err(_) => {},
            }
        }
        let ghost env0 = self@.env;
        let mut i: usize = 0;
        while i < c.arguments.len() && i < vals.len()
            invariant
                i <= c.arguments@.len(),
                i <= vals@.len(),
                ms == value_models(vals@),
                bind_arguments(env0, c.arguments@, ms, 0) == bind_arguments(self@.env, c.arguments@, ms, i as nat),
                self@ == with_env(old(self)@, self@.env),
            decreases c.arguments@.len() - i,
        {
            self.bind_local(c.arguments[i].0, Binding::Value(vals[i].duplicate()));
            i = i + 1;
        }
        proof {
            assert(decreases_to!(*cs => cs@));
            assert(decreases_to!(cs@ => cs@[k as int]));
        }
        self.eval(p, fuel, &c.branch)
    }

    /// Evaluate a tuple field read.
    fn eval_extract(&mut self, p: &Program, fuel: u64, e: &Expression) -> (r: Result<Flow, InterpretError>)
        requires
            *e is ExtractTupleField,
        ensures
            (final(self)@, flow_result(r)) == eval_m(*p, fuel as nat, old(self)@, *e),
        decreases fuel, e, 2nat,
    {
        proof {
            reveal(eval_m);
        }
        let (inner, i) = match e {
            Expression::ExtractTupleField(inner, i) => (inner, i),
            _ => return Err(InterpretError::Internal(owned("unexpected expression"))),
        };
        let v = match self.value(p, fuel, inner) {
            Ok(v) => v,
            Err(x) => return Err(x),
        };
        proof {
            lemma_value_models(v);
        }
        match v {
            Value::Tuple(xs) => if *i < xs.len() {
                Ok(Flow::Normal(xs[*i].duplicate()))
            } else {
                Err(InterpretError::Type(text3("tuple field ", u64_decimal(*i as u64).as_str(), " out of bounds")))
            },
            other => Err(InterpretError::Unsupported(text3("field access on a non-tuple value (", other.debug_text().as_str(), ")"))),
        }
    }

    /// What a call's callee names.
    fn callee(&mut self, p: &Program, fuel: u64, func: &Expression) -> (r: Result<Callee, InterpretError>)
        ensures
            (final(self)@, callee_result(r)) == callee_m(*p, fuel as nat, old(self)@, *func),
        decreases fuel, func, 5nat,
    {
        proof {
            reveal(eval_m);
        }
        if let Expression::Ident(ident) = func {
            match &ident.definition {
                Definition::Function(id) => return Ok(Callee::Function(*id)),
                Definition::Builtin(name) => return Ok(Callee::Intrinsic(name.clone())),
                Definition::LowLevel(name) => return Ok(Callee::Intrinsic(name.clone())),
                Definition::Oracle { name, .. } => return Err(InterpretError::Unsupported(text3("oracle call '", name.as_str(), "'"))),
                _ => {},
            }
        }
        match self.value(p, fuel, func) {
            Err(x) => Err(x),
            Ok(Value::Function(id)) => Ok(Callee::Function(id.0)),
            Ok(other) => Err(InterpretError::Type(cat("call of non-function ", other.debug_text().as_str()))),
        }
    }

    /// Evaluate a call.
    fn eval_call(&mut self, p: &Program, fuel: u64, e: &Expression) -> (r: Result<Flow, InterpretError>)
        requires
            *e is Call,
        ensures
            (final(self)@, flow_result(r)) == eval_m(*p, fuel as nat, old(self)@, *e),
        decreases fuel, e, 2nat,
    {
        proof {
            reveal(eval_m);
        }
        let (func, arguments, return_type, location) = match e {
            Expression::Call { func, arguments, return_type, location } => (func, arguments, return_type, location),
            _ => return Err(InterpretError::Internal(owned("unexpected expression"))),
        };
        let c = match self.callee(p, fuel, func) {
            Ok(c) => c,
            Err(x) => return Err(x),
        };
        let args = match self.values(p, fuel, arguments) {
            Ok(args) => args,
            Err(x) => return Err(x),
        };
        let r = match c {
            Callee::Function(id) => self.call(p, fuel, e, id, args),
            Callee::Intrinsic(name) => call_intrinsic(name.as_str(), args, return_type, *location, self.unconstrained, self.field),
        };
        match r {
            Ok(v) => Ok(Flow::Normal(v)),
            Err(x) => Err(x),
        }
    }

    /// Call function `id` with `args`.
    fn call(&mut self, p: &Program, fuel: u64, e: &Expression, id: u32, args: Vec<Value>) -> (r: Result<Value, InterpretError>)
        ensures
            (final(self)@, result_model(r)) == call_m(*p, fuel as nat, old(self)@, *e, id, value_models(args@)),
        decreases fuel, e, 1nat,
    {
        proof {
            lemma_call_m_refused(*p, fuel as nat, self@, *e, id, value_models(args@));
        }
        if fuel == 0 {
            return Err(exhausted());
        }
        let k = match find_function(p, id) {
            Some(k) => k,
            None => return Err(InterpretError::Internal(cat("unknown function id ", u64_decimal(id as u64).as_str()))),
        };
        let f = &p.functions[k];
        if f.parameters.len() != args.len() {
            let mut m = owned("function ");
            append(&mut m, u64_decimal(id as u64).as_str());
            append(&mut m, " expects ");
            append(&mut m, u64_decimal(f.parameters.len() as u64).as_str());
            append(&mut m, " arguments, got ");
            append(&mut m, u64_decimal(args.len() as u64).as_str());
            return Err(InterpretError::Internal(m));
        }
        let ghost vals = value_models(args@);
        proof {
            lemma_call_m(*p, fuel as nat, self@, *e, id, vals, k as nat);
        }
        let mut saved: Vec<(u32, Binding)> = Vec::new();
        proof {
            assert(env_models(saved@) =~= Seq::<(u32, BindingModel)>::empty());
        }
        self.swap_env(&mut saved);
        let outer = self.unconstrained;
        self.set_unconstrained(outer || f.unconstrained);
        let ghost s_entry = self@;
        let mut i: usize = 0;
        while i < f.parameters.len()
            invariant
                i <= f.parameters@.len(),
                f.parameters@.len() == args@.len(),
                vals == value_models(args@),
                bind_parameters(Seq::empty(), f.parameters@, vals, 0) == bind_parameters(self@.env, f.parameters@, vals, i as nat),
                self@ == with_env(s_entry, self@.env),
                s_entry.env == Seq::<(u32, BindingModel)>::empty(),
            decreases f.parameters@.len() - i,
        {
            self.bind_local(f.parameters[i].id, Binding::Value(args[i].duplicate()));
            i = i + 1;
        }
        let r = self.eval(p, fuel - 1, &f.body);
        self.swap_env(&mut saved);
        self.set_unconstrained(outer);
        match r {
            Ok(Flow::Normal(v)) => Ok(v),
            Ok(_) => Err(InterpretError::Internal(owned("break/continue escaped a function body"))),
            Err(x) => Err(x),
        }
    }

    /// Evaluate a `let`.
    fn eval_let(&mut self, p: &Program, fuel: u64, e: &Expression) -> (r: Result<Flow, InterpretError>)
        requires
            *e is Let,
        ensures
            (final(self)@, flow_result(r)) == eval_m(*p, fuel as nat, old(self)@, *e),
        decreases fuel, e, 2nat,
    {
        proof {
            reveal(eval_m);
        }
        let (id, mutable, expression) = match e {
            Expression::Let { id, mutable, expression, .. } => (id, mutable, expression),
            _ => return Err(InterpretError::Internal(owned("unexpected expression"))),
        };
        let v = match self.value(p, fuel, expression) {
            Ok(v) => v,
            Err(x) => return Err(x),
        };
        if *mutable {
            let c = self.alloc_cell(v);
            self.bind_local(*id, Binding::Cell(c));
        } else {
            self.bind_local(*id, Binding::Value(v));
        }
        Ok(Flow::Normal(Value::Unit))
    }

    /// Evaluate an assertion.
    fn eval_constrain(&mut self, p: &Program, fuel: u64, e: &Expression) -> (r: Result<Flow, InterpretError>)
        requires
            *e is Constrain,
        ensures
            (final(self)@, flow_result(r)) == eval_m(*p, fuel as nat, old(self)@, *e),
        decreases fuel, e, 2nat,
    {
        proof {
            reveal(eval_m);
        }
        let (condition, location, message) = match e {
            Expression::Constrain { condition, location, message } => (condition, location, message),
            _ => return Err(InterpretError::Internal(owned("unexpected expression"))),
        };
        let c = match self.value(p, fuel, condition) {
            Ok(v) => v,
            Err(x) => return Err(x),
        };
        match c.as_bool() {
            Err(x) => Err(x),
            Ok(true) => Ok(Flow::Normal(Value::Unit)),
            Ok(false) => match message {
                None => Err(InterpretError::AssertionFailed { location: *location, message: None }),
                Some((m, t)) => match self.render(p, fuel, m, t) {
                    Ok(text) => Err(InterpretError::AssertionFailed { location: *location, message: text }),
                    Err(x) => Err(x),
                },
            },
        }
    }

    /// The text of a failed assertion's message, when it renders.
    fn render(&mut self, p: &Program, fuel: u64, m: &Expression, t: &PrintableType) -> (r: Result<Option<String>, InterpretError>)
        ensures
            (final(self)@, message_result(r)) == render_m(*p, fuel as nat, old(self)@, *m, *t),
        decreases fuel, m, 5nat,
    {
        proof {
            reveal(eval_m);
        }
        if let Expression::Literal(Literal::FmtStr(fragments, _, captures, _)) = m {
            let v = self.value(p, fuel, captures);
            return match v {
                Ok(Value::Tuple(xs)) => {
                    proof {
                        lemma_value_models(Value::Tuple(xs));
                    }
                    Ok(match t {
                        PrintableType::FmtString { typ, .. } => match &**typ {
                            PrintableType::Tuple { types } => match format_fmt_str(&self.store, fragments, &xs, types) {
                                Ok(text) => Some(text),
                                Err(_) => None,
                            },
                            PrintableType::Unit => {
                                let none: Vec<PrintableType> = Vec::new();
                                match format_fmt_str(&self.store, fragments, &xs, &none) {
                                    Ok(text) => Some(text),
                                    Err(_) => None,
                                }
                            },
                            _ => None,
                        },
                        _ => None,
                    })
                },
                Err(x) => if is_budget_exhausted(&x) {
                    Err(x)
                } else {
                    Ok(None)
                },
                _ => Ok(None),
            };
        }
        match self.value(p, fuel, m) {
            Ok(Value::Str(text)) => Ok(Some(text)),
            Err(x) => if is_budget_exhausted(&x) {
                Err(x)
            } else {
                Ok(None)
            },
            _ => Ok(None),
        }
    }

    /// The place an expression denotes.
    fn place(&mut self, p: &Program, fuel: u64, e: &Expression) -> (r: Result<Place, InterpretError>)
        ensures
            (final(self)@, place_result(r)) == place_m(*p, fuel as nat, old(self)@, *e),
        decreases fuel, e, 5nat,
    {
        proof {
            reveal(eval_m);
        }
        match e {
            Expression::Ident(ident) => {
                if let Definition::Local(l) = &ident.definition {
                    return match self.binding(*l) {
                        None => Err(InterpretError::Internal(text3("unbound local '", ident.name.as_str(), "'"))),
                        Some(Binding::Value(v)) => Ok(Place::Temp(v)),
                        Some(Binding::Cell(c)) => Ok(Place::At(c, Vec::new())),
                    };
                }
            },
            Expression::ExtractTupleField(inner, i) => {
                let pl = match self.place(p, fuel, inner) {
                    Ok(pl) => pl,
                    Err(x) => return Err(x),
                };
                return self.field_of(pl, *i, text3("tuple field ", u64_decimal(*i as u64).as_str(), " out of bounds"));
            },
            Expression::Unary { operator: UnaryOp::Dereference { .. }, rhs, skip, .. } => {
                if *skip {
                    return self.place(p, fuel, rhs);
                }
                return match self.value(p, fuel, rhs) {
                    Err(x) => Err(x),
                    Ok(Value::Ref(c, fields)) => Ok(Place::At(c, steps_of(&fields))),
                    Ok(other) => Err(InterpretError::Unsupported(text3("dereference of a non-reference value (",
                        other.debug_text().as_str(), ")"))),
                };
            },
            _ => {},
        }
        match self.value(p, fuel, e) {
            Ok(v) => Ok(Place::Temp(v)),
            Err(x) => Err(x),
        }
    }

    /// An lvalue's current value as a place.
    fn lvalue_place(&mut self, p: &Program, fuel: u64, lv: &LValue) -> (r: Result<Place, InterpretError>)
        ensures
            (final(self)@, place_result(r)) == lvalue_place_m(*p, fuel as nat, old(self)@, *lv),
        decreases fuel, lv, 1nat,
    {
        proof {
            reveal(eval_m);
        }
        match lv {
            LValue::Ident(ident) => match &ident.definition {
                Definition::Local(l) => match self.binding(*l) {
                    None => Err(InterpretError::Internal(text3("unbound local '", ident.name.as_str(), "' in lvalue"))),
                    Some(Binding::Value(v)) => Ok(Place::Temp(v)),
                    Some(Binding::Cell(c)) => Ok(Place::At(c, Vec::new())),
                },
                _ => Err(InterpretError::Unsupported(owned("assignment to a non-local binding"))),
            },
            LValue::MemberAccess { object, field_index } => {
                let pl = match self.lvalue_place(p, fuel, object) {
                    Ok(pl) => pl,
                    Err(x) => return Err(x),
                };
                self.field_of(pl, *field_index, text3("field ", u64_decimal(*field_index as u64).as_str(), " out of bounds in lvalue"))
            },
            LValue::Index { array, index, location, .. } => {
                let pl = match self.lvalue_place(p, fuel, array) {
                    Ok(pl) => pl,
                    Err(x) => return Err(x),
                };
                let iv = match self.value(p, fuel, index) {
                    Ok(v) => v,
                    Err(x) => return Err(x),
                };
                let ri = iv.as_index();
                proof {
                    lemma_as_index(iv, ri);
                }
                let i = match ri {
                    Ok(i) => i,
                    Err(x) => return Err(x),
                };
                let a = match self.read(&pl) {
                    Ok(a) => a,
                    Err(x) => return Err(x),
                };
                proof {
                    lemma_value_models(a);
                }
                match a {
                    Value::Array(xs) => if i < xs.len() {
                        match pl {
                            Place::At(c, path) => {
                                let mut path = path;
                                path.push(Step::Element(i));
                                Ok(Place::At(c, path))
                            },
                            Place::Temp(_) => Ok(Place::Temp(xs[i].duplicate())),
                        }
                    } else {
                        Err(index_out_of_bounds(*location, i, xs.len()))
                    },
                    other => Err(InterpretError::Type(text3("cannot index ", other.debug_text().as_str(), " in lvalue"))),
                }
            },
            LValue::Dereference { reference, .. } => {
                let pl = match self.lvalue_place(p, fuel, reference) {
                    Ok(pl) => pl,
                    Err(x) => return Err(x),
                };
                match self.read(&pl) {
                    Err(x) => Err(x),
                    Ok(Value::Ref(c, fields)) => Ok(Place::At(c, steps_of(&fields))),
                    Ok(other) => Err(InterpretError::Unsupported(text3("dereference of a non-reference value in lvalue (",
                        other.debug_text().as_str(), ")"))),
                }
            },
            LValue::Clone(inner) => self.lvalue_place(p, fuel, inner),
        }
    }

    /// The place an assignment to an lvalue whose leaf is no array element writes.
    fn target(&mut self, p: &Program, fuel: u64, lv: &LValue) -> (r: Result<Place, InterpretError>)
        ensures
            (final(self)@, place_result(r)) == target_m(*p, fuel as nat, old(self)@, *lv),
        decreases fuel, lv, 2nat,
    {
        proof {
            reveal(eval_m);
        }
        match lv {
            LValue::Ident(ident) => match &ident.definition {
                Definition::Local(l) => match self.binding(*l) {
                    None => Err(InterpretError::Internal(owned("assignment to unbound local"))),
                    Some(Binding::Cell(c)) => Ok(Place::At(c, Vec::new())),
                    Some(Binding::Value(Value::Ref(c, fields))) => Ok(Place::At(c, steps_of(&fields))),
                    Some(Binding::Value(_)) => Err(InterpretError::Internal(owned("assignment to a non-mutable local"))),
                },
                _ => Err(InterpretError::Unsupported(owned("assignment to a non-local binding"))),
            },
            LValue::MemberAccess { object, field_index } => {
                let pl = match self.lvalue_place(p, fuel, object) {
                    Ok(pl) => pl,
                    Err(x) => return Err(x),
                };
                self.field_of(pl, *field_index, text3("assignment field ", u64_decimal(*field_index as u64).as_str(), " out of bounds"))
            },
            LValue::Dereference { reference, .. } => {
                let pl = match self.lvalue_place(p, fuel, reference) {
                    Ok(pl) => pl,
                    Err(x) => return Err(x),
                };
                match self.read(&pl) {
                    Err(x) => Err(x),
                    Ok(Value::Ref(c, fields)) => Ok(Place::At(c, steps_of(&fields))),
                    Ok(other) => Err(InterpretError::Unsupported(text3("assignment through a dereference of a non-reference (",
                        other.debug_text().as_str(), ")"))),
                }
            },
            LValue::Clone(inner) => self.target(p, fuel, inner),
            LValue::Index { .. } => Err(InterpretError::Unsupported(owned("assignment through an array-element place"))),
        }
    }

    /// An indexed lvalue's outermost array place and the indices into it.
    fn resolve_array(&mut self, p: &Program, fuel: u64, lv: &LValue) -> (r: Result<(Place, Vec<(usize, Location)>), InterpretError>)
        ensures
            (final(self)@, indices_result(r)) == resolve_array_m(*p, fuel as nat, old(self)@, *lv),
        decreases fuel, lv, 3nat,
    {
        proof {
            reveal(eval_m);
        }
        match lv {
            LValue::Index { array, index, location, .. } => {
                let (pl, mut indices) = match self.resolve_base(p, fuel, array) {
                    Ok(x) => x,
                    Err(x) => return Err(x),
                };
                let iv = match self.value(p, fuel, index) {
                    Ok(v) => v,
                    Err(x) => return Err(x),
                };
                let ri = iv.as_index();
                proof {
                    lemma_as_index(iv, ri);
                }
                let i = match ri {
                    Ok(i) => i,
                    Err(x) => return Err(x),
                };
                indices.push((i, *location));
                Ok((pl, indices))
            },
            LValue::Clone(inner) => self.resolve_array(p, fuel, inner),
            _ => Err(InterpretError::Internal(owned("resolve_array_target on a non-index lvalue"))),
        }
    }

    /// The array place under an indexed lvalue's array.
    fn resolve_base(&mut self, p: &Program, fuel: u64, lv: &LValue) -> (r: Result<(Place, Vec<(usize, Location)>), InterpretError>)
        ensures
            (final(self)@, indices_result(r)) == resolve_base_m(*p, fuel as nat, old(self)@, *lv),
        decreases fuel, lv, 4nat,
    {
        proof {
            reveal(eval_m);
        }
        match lv {
            LValue::Clone(inner) => self.resolve_base(p, fuel, inner),
            LValue::Index { .. } => self.resolve_array(p, fuel, lv),
            _ => match self.target(p, fuel, lv) {
                Err(x) => Err(x),
                Ok(pl) => Ok((pl, Vec::new())),
            },
        }
    }

    /// Assign `v` to an lvalue.
    fn store(&mut self, p: &Program, fuel: u64, lv: &LValue, v: Value) -> (r: Result<(), InterpretError>)
        ensures
            (final(self)@, unit_result(r)) == store_m(*p, fuel as nat, old(self)@, *lv, v.model()),
        decreases fuel, lv, 5nat,
    {
        proof {
            reveal(eval_m);
        }
        match lv {
            LValue::Clone(inner) => self.store(p, fuel, inner, v),
            LValue::Index { .. } => {
                let (pl, indices) = match self.resolve_array(p, fuel, lv) {
                    Ok(x) => x,
                    Err(x) => return Err(x),
                };
                let cur = match self.read(&pl) {
                    Ok(cur) => cur,
                    Err(x) => return Err(x),
                };
                let new = match store_elements_exec(&cur, &indices, 0, v) {
                    Ok(new) => new,
                    Err(x) => return Err(x),
                };
                self.write(&pl, new)
            },
            _ => {
                let pl = match self.target(p, fuel, lv) {
                    Ok(pl) => pl,
                    Err(x) => return Err(x),
                };
                self.write(&pl, v)
            },
        }
    }
}

impl Machine {
    /// Bind local `id` to the value `v`, as an immutable `let` does.
    pub fn bind_value(&mut self, id: u32, v: Value)
        ensures
            final(self)@ == with_env(old(self)@, bind(old(self)@.env, id, BindingModel::Value(v.model()))),
    {
        self.bind_local(id, Binding::Value(v));
    }

    /// Bind local `id` to a new cell holding `v`, as a `let mut` does.
    pub fn bind_mutable(&mut self, id: u32, v: Value)
        ensures
            final(self)@ == ({
                let s1 = allocated(old(self)@, v.model());
                with_env(s1, bind(s1.env, id, BindingModel::Cell(old(self)@.store.len())))
            }),
    {
        let c = self.alloc_cell(v);
        self.bind_local(id, Binding::Cell(c));
    }

    /// The current value of local `id`: its value, or what its cell holds.
    pub fn local(&self, id: u32) -> (r: Option<Value>)
        ensures
            match lookup(self@.env, id) {
                None => r is None,
                Some(BindingModel::Value(v)) => r matches Some(x) && x.model() == v,
                Some(BindingModel::Cell(c)) => match read_place(self@, PlaceModel::At(c, Seq::empty())) {
                    Ok(v) => r matches Some(x) && x.model() == v,
                    Err(_) => r is None,
                },
            },
    {
        match self.binding(id) {
            None => None,
            Some(Binding::Value(v)) => Some(v),
            Some(Binding::Cell(c)) => {
                let pl = Place::At(c, Vec::new());
                match self.read(&pl) {
                    Ok(v) => Some(v),
                    Err(_) => None,
                }
            },
        }
    }

    /// Evaluate `e` where a value is wanted, with `fuel` units of budget.
    pub fn evaluate(&mut self, p: &Program, fuel: u64, e: &Expression) -> (r: Result<Value, InterpretError>)
        ensures
            (final(self)@, result_model(r)) == value_m(*p, fuel as nat, old(self)@, *e),
    {
        self.value(p, fuel, e)
    }

    /// The current value of an lvalue, with `fuel` units of budget: its indices are evaluated,
    /// innermost array first, and the value at the place they reach is read.
    pub fn lvalue_value(&mut self, p: &Program, fuel: u64, lv: &LValue) -> (r: Result<Value, InterpretError>)
        ensures
            (final(self)@, result_model(r)) == (match lvalue_place_m(*p, fuel as nat, old(self)@, *lv) {
                (s1, Ok(pl)) => (s1, read_place(s1, pl)),
                (s1, Err(x)) => (s1, Err(x)),
            }),
    {
        match self.lvalue_place(p, fuel, lv) {
            Ok(pl) => self.read(&pl),
            Err(x) => Err(x),
        }
    }
}

/// The first case of `cs` before `tested` whose pattern the scrutinee satisfies.
fn select(cs: &Vec<MatchCase>, tested: usize, v: &Value) -> (r: Result<Option<usize>, InterpretError>)
    ensures
        match select_case(cs@, 0, tested as nat, v.model()) {
            Ok(Some(k)) => r == Ok::<Option<usize>, InterpretError>(Some(k as usize)) && k < cs@.len(),
            Ok(None) => r == Ok::<Option<usize>, InterpretError>(None),
            Err(x) => r matches Err(y) && y.model() == x,
        },
{
    let mut i: usize = 0;
    while i < tested && i < cs.len()
        invariant
            select_case(cs@, 0, tested as nat, v.model()) == select_case(cs@, i as nat, tested as nat, v.model()),
        decreases tested - i,
    {
        match case_matches(&cs[i].constructor, v) {
            Err(x) => return Err(x),
            Ok(true) => return Ok(Some(i)),
            Ok(false) => {},
        }
        i = i + 1;
    }
    Ok(None)
}

/// Run a program's entry point, the function with id 0, on `inputs` under `field`, with the
/// largest budget a `u64` holds.
pub fn interpret_with_inputs(program: &Program, inputs: Vec<Value>, field: FieldId) -> (r: Result<Value, InterpretError>)
    ensures
        result_model(r) == run_m(*program, value_models(inputs@), field, run_budget()),
{
    let k = match find_function(program, 0) {
        Some(k) => k,
        None => return Err(InterpretError::Internal(owned("unknown function id 0"))),
    };
    let n = program.functions[k].parameters.len();
    if n != inputs.len() {
        let mut m = owned("entry point expects ");
        append(&mut m, u64_decimal(n as u64).as_str());
        append(&mut m, " input(s), got ");
        append(&mut m, u64_decimal(inputs.len() as u64).as_str());
        return Err(InterpretError::InvalidInput(m));
    }
    match validate_inputs(&inputs, field) {
        Ok(()) => {},
        Err(e) => return Err(e),
    }
    let mut machine = Machine::new(program, field);
    let entry = Expression::Break;
    match machine.call(program, u64::MAX, &entry, 0, inputs) {
        Ok(v) => Ok(resolve(&machine.store, machine.store.len(), &v)),
        Err(e) => Err(e),
    }
}

/// `v` with each reference it holds replaced by the value the reference points to in `store`,
/// following at most `budget` references in a chain.
pub fn resolve(store: &Vec<Value>, budget: usize, v: &Value) -> (r: Value)
    ensures
        r.model() == resolved(value_models(store@), v.model(), budget as nat),
    decreases budget, v, 1nat,
{
    match v {
        Value::Array(vs) => {
            let out = resolve_all(store, budget, vs);
            proof {
                lemma_value_models(*v);
                lemma_value_models(Value::Array(out));
                assert(value_models(out@) =~= resolved(value_models(store@), v.model(), budget as nat)->Array_0);
            }
            Value::Array(out)
        },
        Value::Tuple(vs) => {
            let out = resolve_all(store, budget, vs);
            proof {
                lemma_value_models(*v);
                lemma_value_models(Value::Tuple(out));
                assert(value_models(out@) =~= resolved(value_models(store@), v.model(), budget as nat)->Tuple_0);
            }
            Value::Tuple(out)
        },
        Value::Ref(c, fields) => {
            if budget > 0 && *c < store.len() {
                let path = steps_of(fields);
                match read_path_exec(&store[*c], &path, 0) {
                    Ok(x) => return resolve(store, budget - 1, &x),
                    Err(_) => {},
                }
            }
            v.duplicate()
        },
        _ => v.duplicate(),
    }
}

/// The values of `vs`, each with its references resolved in `store`.
fn resolve_all(store: &Vec<Value>, budget: usize, vs: &Vec<Value>) -> (r: Vec<Value>)
    ensures
        r@.len() == vs@.len(),
        forall|i: int| 0 <= i < vs@.len() ==> #[trigger] r@[i].model() == resolved(value_models(store@), vs@[i].model(), budget as nat),
    decreases budget, vs, 0nat,
{
    let mut out: Vec<Value> = Vec::new();
    let mut i: usize = 0;
    while i < vs.len()
        invariant
            i <= vs@.len(),
            out@.len() == i,
            forall|j: int| 0 <= j < i ==> #[trigger] out@[j].model() == resolved(value_models(store@), vs@[j].model(), budget as nat),
        decreases vs@.len() - i,
    {
        out.push(resolve(store, budget, &vs[i]));
        i = i + 1;
    }
    out
}

/// Run a program's entry point, which takes no inputs, under `field`.
pub fn interpret(program: &Program, field: FieldId) -> (r: Result<Value, InterpretError>)
    ensures
        result_model(r) == run_m(*program, Seq::empty(), field, run_budget()),
{
    let inputs: Vec<Value> = Vec::new();
    proof {
        assert(value_models(inputs@) =~= Seq::<ValueModel>::empty());
    }
    interpret_with_inputs(program, inputs, field)
}

} // verus!
