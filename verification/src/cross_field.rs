//! Why one run gives the same result under every field: a program that writes no field literal,
//! casts nothing to `Field` and calls only field-blind intrinsics, run on inputs that hold no
//! field element, never meets a field element, and nothing else it does depends on the field.

use vstd::prelude::*;

use crate::ast::{Definition, Expression, LValue, Literal, MatchCase, Program};
use crate::bigint::nat_decimal;
use crate::error::ErrorModel;
use crate::eval::{binary_model, case_arguments_model, cast_model, unary_model, Constructor, UnaryOp};
use crate::field::FieldId;
use crate::input::{first_problem, input_problem};
use crate::interpreter::{
    allocated, bind, bind_arguments, bind_parameters, block_m, call_m, callee_m, enter_case_m, eval_m, field_place,
    for_m, global_m, initial_state, literal_m, lookup, loop_m, lvalue_place_m, place_m, reaches_field, read_path,
    read_place, render_m, resolve_array_m, resolve_base_m, run_m, set_global, store_elements, store_m, target_m,
    update_path, value_m, values_m, while_m, with_env, write_place, BindingModel, CalleeModel, FlowModel, GlobalModel,
    PlaceModel, State,
};
use crate::intrinsics::{index_model, intrinsic_model};
use crate::types::{Signedness, Type};
use crate::value::{wrapped, ValueModel};

verus! {

/// A state under another field.
pub open spec fn under(s: State, f: FieldId) -> State {
    State { field: f, ..s }
}

/// Whether a value holds no field element.
pub open spec fn free(v: ValueModel) -> bool
    decreases v,
{
    match v {
        ValueModel::Field(_, _) => false,
        ValueModel::Array(xs) => free_from(xs, 0),
        ValueModel::Tuple(xs) => free_from(xs, 0),
        _ => true,
    }
}

/// Whether none of the values of `xs` from `i` on holds a field element.
pub open spec fn free_from(xs: Seq<ValueModel>, i: nat) -> bool
    decreases xs, xs.len() - i,
{
    if i >= xs.len() {
        true
    } else {
        free(xs[i as int]) && free_from(xs, i + 1)
    }
}

/// `free_from` says that every value from `i` on is free.
proof fn lemma_free_from(xs: Seq<ValueModel>, i: nat)
    ensures
        free_from(xs, i) <==> forall|k: int| i <= k < xs.len() ==> free(#[trigger] xs[k]),
    decreases xs.len() - i,
{
    if i < xs.len() {
        lemma_free_from(xs, i + 1);
    }
}

/// Whether none of the values holds a field element.
pub open spec fn all_free(xs: Seq<ValueModel>) -> bool {
    forall|i: int| 0 <= i < xs.len() ==> free(#[trigger] xs[i])
}

/// Whether a binding holds no field element.
pub open spec fn binding_free(b: BindingModel) -> bool {
    match b {
        BindingModel::Value(v) => free(v),
        BindingModel::Cell(_) => true,
    }
}

/// Whether no cell, binding or evaluated global of a state holds a field element.
pub open spec fn state_free(s: State) -> bool {
    &&& forall|i: int| 0 <= i < s.store.len() ==> free(#[trigger] s.store[i])
    &&& forall|i: int| 0 <= i < s.env.len() ==> binding_free(#[trigger] s.env[i].1)
    &&& forall|i: int| 0 <= i < s.globals.len() ==> (#[trigger] s.globals[i] matches GlobalModel::Done(v) ==> free(v))
}

/// The intrinsics whose results do not depend on the field and hold no field element their
/// arguments do not: the length of an array and the vector operations.
pub open spec fn field_blind_intrinsic(name: Seq<char>) -> bool {
    ||| name == "array_len"@
    ||| name == "as_vector"@
    ||| name == "vector_push_back"@
    ||| name == "vector_push_front"@
    ||| name == "vector_pop_back"@
    ||| name == "vector_pop_front"@
    ||| name == "vector_insert"@
    ||| name == "vector_remove"@
}

/// Whether a call's callee, when it names an intrinsic, names a field-blind one.
pub open spec fn callee_free(func: Expression) -> bool {
    match func {
        Expression::Ident(ident) => match ident.definition {
            Definition::Builtin(name) => field_blind_intrinsic(name@),
            Definition::LowLevel(name) => field_blind_intrinsic(name@),
            _ => true,
        },
        _ => true,
    }
}

/// Whether an expression writes no field literal, casts nothing to `Field` and calls only
/// field-blind intrinsics.
pub open spec fn free_expr(e: Expression) -> bool
    decreases e, 1nat,
{
    match e {
        Expression::Ident(_) => true,
        Expression::Literal(l) => free_literal(l),
        Expression::Block(es) => forall|k: int| 0 <= k < es@.len() ==> free_expr(#[trigger] es@[k]),
        Expression::Unary { rhs, .. } => free_expr(*rhs),
        Expression::Binary { lhs, rhs, .. } => free_expr(*lhs) && free_expr(*rhs),
        Expression::Index { collection, index, .. } => free_expr(*collection) && free_expr(*index),
        Expression::Cast { lhs, typ, .. } => !(typ is Field) && free_expr(*lhs),
        Expression::For { start_range, end_range, block, .. } => free_expr(*start_range) && free_expr(*end_range)
            && free_expr(*block),
        Expression::Loop(body) => free_expr(*body),
        Expression::While { condition, body } => free_expr(*condition) && free_expr(*body),
        Expression::If { condition, consequence, alternative, .. } => free_expr(*condition) && free_expr(*consequence)
            && match alternative {
            Some(a) => free_expr(*a),
            None => true,
        },
        Expression::Match { cases, default_case, .. } => (forall|k: int| 0 <= k < cases@.len() ==> free_expr(
            #[trigger] cases@[k].branch)) && match default_case {
            Some(d) => free_expr(*d),
            None => true,
        },
        Expression::Tuple(es) => forall|k: int| 0 <= k < es@.len() ==> free_expr(#[trigger] es@[k]),
        Expression::ExtractTupleField(inner, _) => free_expr(*inner),
        Expression::Call { func, arguments, .. } => callee_free(*func) && free_expr(*func) && forall|k: int|
            0 <= k < arguments@.len() ==> free_expr(#[trigger] arguments@[k]),
        Expression::Let { expression, .. } => free_expr(*expression),
        Expression::Constrain { condition, message, .. } => free_expr(*condition) && match message {
            Some((m, _)) => free_expr(*m),
            None => true,
        },
        Expression::Assign { lvalue, expression } => free_lvalue(lvalue) && free_expr(*expression),
        Expression::Semi(inner) => free_expr(*inner),
        Expression::Clone(inner) => free_expr(*inner),
        Expression::Drop(inner) => free_expr(*inner),
        Expression::Break => true,
        Expression::Continue => true,
    }
}

/// Whether a literal is no field literal and its parts are field-free.
pub open spec fn free_literal(l: Literal) -> bool
    decreases l, 0nat,
{
    match l {
        Literal::Integer(_, typ, _) => !(typ is Field),
        Literal::Array { contents, .. } => forall|k: int| 0 <= k < contents@.len() ==> free_expr(#[trigger] contents@[k]),
        Literal::Vector { contents, .. } => forall|k: int| 0 <= k < contents@.len() ==> free_expr(#[trigger] contents@[k]),
        Literal::Repeated { element, .. } => free_expr(*element),
        Literal::FmtStr(_, _, captures, _) => free_expr(*captures),
        _ => true,
    }
}

/// Whether an lvalue's indices are field-free.
pub open spec fn free_lvalue(lv: LValue) -> bool
    decreases lv, 0nat,
{
    match lv {
        LValue::Ident(_) => true,
        LValue::Index { array, index, .. } => free_lvalue(*array) && free_expr(*index),
        LValue::MemberAccess { object, .. } => free_lvalue(*object),
        LValue::Dereference { reference, .. } => free_lvalue(*reference),
        LValue::Clone(inner) => free_lvalue(*inner),
    }
}

/// Whether every function body and every global initializer of a program is field-free.
pub open spec fn free_program(p: Program) -> bool {
    &&& forall|k: int| 0 <= k < p.functions@.len() ==> free_expr(#[trigger] p.functions@[k].body)
    &&& forall|k: int| 0 <= k < p.globals@.len() ==> free_expr(#[trigger] p.globals@[k].expression)
}

/// Whether a flow's value holds no field element.
pub open spec fn flow_free(r: Result<FlowModel, ErrorModel>) -> bool {
    r matches Ok(FlowModel::Normal(v)) ==> free(v)
}

/// Whether a value result holds no field element.
pub open spec fn value_free(r: Result<ValueModel, ErrorModel>) -> bool {
    r matches Ok(v) ==> free(v)
}

/// Whether a place holds no field element.
pub open spec fn place_free(pl: PlaceModel) -> bool {
    pl matches PlaceModel::Temp(v) ==> free(v)
}

/// Whether a place result holds no field element.
pub open spec fn place_result_free(r: Result<PlaceModel, ErrorModel>) -> bool {
    r matches Ok(pl) ==> place_free(pl)
}

/// Two outcomes of one evaluation, from a state and from that state under field `f`, agree: the
/// second ends in the first's state under `f` with the same result, and the first's state holds
/// no field element.
pub open spec fn agree<T>(o1: (State, T), o2: (State, T), f: FieldId) -> bool {
    &&& o2.0 == under(o1.0, f)
    &&& o2.1 == o1.1
    &&& state_free(o1.0)
}

/// An aggregate holds no field element exactly when none of its elements does.
proof fn lemma_aggregate_free(xs: Seq<ValueModel>)
    ensures
        free(ValueModel::Array(xs)) == all_free(xs),
        free(ValueModel::Tuple(xs)) == all_free(xs),
{
    lemma_free_from(xs, 0);
}

/// The value a path reaches in a field-free value is field-free.
proof fn lemma_read_path_free(v: ValueModel, path: Seq<crate::interpreter::Step>, i: nat)
    requires
        free(v),
    ensures
        value_free(read_path(v, path, i)),
    decreases path.len() - i,
{
    if i < path.len() {
        match v {
            ValueModel::Tuple(xs) => {
                lemma_aggregate_free(xs);
                match path[i as int] {
                    crate::interpreter::Step::Field(k) => if k < xs.len() {
                        lemma_read_path_free(xs[k as int], path, i + 1);
                    },
                    _ => {},
                }
            },
            ValueModel::Array(xs) => {
                lemma_aggregate_free(xs);
                match path[i as int] {
                    crate::interpreter::Step::Element(k) => if k < xs.len() {
                        lemma_read_path_free(xs[k as int], path, i + 1);
                    },
                    _ => {},
                }
            },
            _ => {},
        }
    }
}

/// Updating a field-free value with a field-free value keeps it field-free.
proof fn lemma_update_path_free(v: ValueModel, path: Seq<crate::interpreter::Step>, i: nat, new: ValueModel)
    requires
        free(v),
        free(new),
    ensures
        value_free(update_path(v, path, i, new)),
    decreases path.len() - i,
{
    if i < path.len() {
        match v {
            ValueModel::Tuple(xs) => {
                lemma_aggregate_free(xs);
                match path[i as int] {
                    crate::interpreter::Step::Field(k) => if k < xs.len() {
                        lemma_update_path_free(xs[k as int], path, i + 1, new);
                        match update_path(xs[k as int], path, i + 1, new) {
                            Ok(x) => lemma_aggregate_free(xs.update(k as int, x)),
                            Err(_) => {},
                        }
                    },
                    _ => {},
                }
            },
            ValueModel::Array(xs) => {
                lemma_aggregate_free(xs);
                match path[i as int] {
                    crate::interpreter::Step::Element(k) => if k < xs.len() {
                        lemma_update_path_free(xs[k as int], path, i + 1, new);
                        match update_path(xs[k as int], path, i + 1, new) {
                            Ok(x) => lemma_aggregate_free(xs.update(k as int, x)),
                            Err(_) => {},
                        }
                    },
                    _ => {},
                }
            },
            _ => {},
        }
    }
}

/// Storing a field-free value into the elements of a field-free value keeps it field-free.
proof fn lemma_store_elements_free(v: ValueModel, idx: Seq<(usize, crate::error::Location)>, i: nat, new: ValueModel)
    requires
        free(v),
        free(new),
    ensures
        value_free(store_elements(v, idx, i, new)),
    decreases idx.len() - i,
{
    if i < idx.len() {
        match v {
            ValueModel::Array(xs) => {
                lemma_aggregate_free(xs);
                let (k, _) = idx[i as int];
                if (k as nat) < xs.len() {
                    lemma_store_elements_free(xs[k as int], idx, i + 1, new);
                    match store_elements(xs[k as int], idx, i + 1, new) {
                        Ok(x) => lemma_aggregate_free(xs.update(k as int, x)),
                        Err(_) => {},
                    }
                }
            },
            _ => {},
        }
    }
}

/// Reading a place of a field-free state gives a field-free value, under every field alike.
proof fn lemma_read_place(s: State, pl: PlaceModel, f: FieldId)
    requires
        state_free(s),
        place_free(pl),
    ensures
        value_free(read_place(s, pl)),
        read_place(under(s, f), pl) == read_place(s, pl),
{
    match pl {
        PlaceModel::At(c, path) => if c < s.store.len() {
            lemma_read_path_free(s.store[c as int], path, 0);
        },
        PlaceModel::Temp(_) => {},
    }
}

/// Writing a field-free value to a place of a field-free state keeps it field-free, under every
/// field alike.
proof fn lemma_write_place(s: State, pl: PlaceModel, v: ValueModel, f: FieldId)
    requires
        state_free(s),
        free(v),
    ensures
        write_place(s, pl, v) matches Ok(s2) ==> state_free(s2),
        write_place(under(s, f), pl, v) == (match write_place(s, pl, v) {
            Ok(s2) => Ok(under(s2, f)),
            Err(e) => Err::<State, ErrorModel>(e),
        }),
{
    match pl {
        PlaceModel::At(c, path) => if c < s.store.len() {
            lemma_update_path_free(s.store[c as int], path, 0, v);
            match update_path(s.store[c as int], path, 0, v) {
                Ok(x) => {
                    let s2 = State { store: s.store.update(c as int, x), ..s };
                    assert forall|i: int| 0 <= i < s2.store.len() implies free(#[trigger] s2.store[i]) by {
                        if i != c {
                            assert(s2.store[i] == s.store[i]);
                        }
                    }
                },
                Err(_) => {},
            }
        },
        PlaceModel::Temp(_) => {},
    }
}

/// A field's place in a field-free state is found alike under every field, and is field-free.
proof fn lemma_field_place(s: State, pl: PlaceModel, i: usize, oob: Seq<char>, budget: nat, f: FieldId)
    requires
        state_free(s),
        place_free(pl),
    ensures
        field_place(under(s, f), pl, i, oob, budget) == field_place(s, pl, i, oob, budget),
        place_result_free(field_place(s, pl, i, oob, budget)),
    decreases budget,
{
    lemma_read_place(s, pl, f);
    match read_place(s, pl) {
        Ok(ValueModel::Ref(c, fields)) => if budget > 0 {
            lemma_field_place(s, PlaceModel::At(c, crate::interpreter::field_steps(fields)), i, oob, (budget - 1) as nat, f);
        },
        Ok(ValueModel::Tuple(xs)) => {
            lemma_aggregate_free(xs);
        },
        _ => {},
    }
}

/// Whether a value reaches a field element depends only on the store.
proof fn lemma_reaches_field(s: State, v: ValueModel, budget: nat, f: FieldId)
    ensures
        reaches_field(under(s, f), v, budget) == reaches_field(s, v, budget),
    decreases budget, v,
{
    match v {
        ValueModel::Array(xs) => {
            assert forall|i: int| 0 <= i < xs.len() implies reaches_field(under(s, f), #[trigger] xs[i], budget)
                == reaches_field(s, xs[i], budget) by {
                lemma_reaches_field(s, xs[i], budget, f);
            }
        },
        ValueModel::Tuple(xs) => {
            assert forall|i: int| 0 <= i < xs.len() implies reaches_field(under(s, f), #[trigger] xs[i], budget)
                == reaches_field(s, xs[i], budget) by {
                lemma_reaches_field(s, xs[i], budget, f);
            }
        },
        ValueModel::Ref(c, fields) => if budget > 0 {
            match read_place(s, PlaceModel::At(c, crate::interpreter::field_steps(fields))) {
                Ok(x) => lemma_reaches_field(s, x, (budget - 1) as nat, f),
                Err(_) => {},
            }
        },
        _ => {},
    }
}

/// Whether every binding of a list of bindings is field-free.
pub open spec fn env_free(env: Seq<(u32, BindingModel)>) -> bool {
    forall|i: int| 0 <= i < env.len() ==> binding_free(#[trigger] env[i].1)
}

/// The binding a field-free list of bindings gives a local is field-free.
proof fn lemma_lookup_free(env: Seq<(u32, BindingModel)>, id: u32)
    requires
        env_free(env),
    ensures
        lookup(env, id) matches Some(b) ==> binding_free(b),
{
    crate::interpreter::lemma_position_found(env, id, 0);
}

/// Binding a local to a field-free binding keeps a list of bindings field-free.
proof fn lemma_bind_free(env: Seq<(u32, BindingModel)>, id: u32, b: BindingModel)
    requires
        env_free(env),
        binding_free(b),
    ensures
        env_free(bind(env, id, b)),
{
    crate::interpreter::lemma_position_found(env, id, 0);
    let e2 = bind(env, id, b);
    assert forall|i: int| 0 <= i < e2.len() implies binding_free(#[trigger] e2[i].1) by {
        if i < env.len() && e2[i] != env[i] {
            assert(e2[i].1 == b);
        }
    }
}

/// Binding argument locals to field-free values keeps a list of bindings field-free.
proof fn lemma_bind_arguments_free(env: Seq<(u32, BindingModel)>, args: Seq<(u32, String)>, vals: Seq<ValueModel>, i: nat)
    requires
        env_free(env),
        all_free(vals),
    ensures
        env_free(bind_arguments(env, args, vals, i)),
    decreases args.len() - i,
{
    if i < args.len() && i < vals.len() {
        lemma_bind_free(env, args[i as int].0, BindingModel::Value(vals[i as int]));
        lemma_bind_arguments_free(bind(env, args[i as int].0, BindingModel::Value(vals[i as int])), args, vals, i + 1);
    }
}

/// Binding parameters to field-free values keeps a list of bindings field-free.
proof fn lemma_bind_parameters_free(env: Seq<(u32, BindingModel)>, ps: Seq<crate::ast::Parameter>, vals: Seq<ValueModel>, i: nat)
    requires
        env_free(env),
        all_free(vals),
    ensures
        env_free(bind_parameters(env, ps, vals, i)),
    decreases ps.len() - i,
{
    if i < ps.len() && i < vals.len() {
        lemma_bind_free(env, ps[i as int].id, BindingModel::Value(vals[i as int]));
        lemma_bind_parameters_free(bind(env, ps[i as int].id, BindingModel::Value(vals[i as int])), ps, vals, i + 1);
    }
}

/// A found function position lies within the program's functions.
proof fn lemma_function_position(fs: Seq<crate::ast::Function>, id: u32, i: nat)
    ensures
        crate::projection::function_position(fs, id, i) matches Some(k) ==> k < fs.len(),
    decreases fs.len() - i,
{
    if i < fs.len() {
        lemma_function_position(fs, id, i + 1);
    }
}

/// A found global position lies within the program's globals.
proof fn lemma_global_position(gs: Seq<crate::ast::Global>, id: u32, i: nat)
    ensures
        crate::projection::global_position(gs, id, i) matches Some(k) ==> k < gs.len(),
    decreases gs.len() - i,
{
    if i < gs.len() {
        lemma_global_position(gs, id, i + 1);
    }
}

/// Storing a field-free value in a new cell keeps a state field-free.
proof fn lemma_allocated_free(s: State, v: ValueModel)
    requires
        state_free(s),
        free(v),
    ensures
        state_free(allocated(s, v)),
{
    let s2 = allocated(s, v);
    assert forall|i: int| 0 <= i < s2.store.len() implies free(#[trigger] s2.store[i]) by {
        if i < s.store.len() {
            assert(s2.store[i] == s.store[i]);
        }
    }
}

/// Setting a global's evaluation to one that holds no field element keeps a state field-free.
proof fn lemma_set_global_free(s: State, k: nat, g: GlobalModel)
    requires
        state_free(s),
        g matches GlobalModel::Done(v) ==> free(v),
    ensures
        state_free(set_global(s, k, g)),
{
    let s2 = set_global(s, k, g);
    assert forall|i: int| 0 <= i < s2.globals.len() implies (#[trigger] s2.globals[i] matches GlobalModel::Done(v)
        ==> free(v)) by {
        if i != k {
            assert(s2.globals[i] == s.globals[i]);
        }
    }
}

/// A unary operator on a field-free operand gives a field-free value.
proof fn lemma_unary_free(op: crate::eval::UnaryOp, v: ValueModel)
    requires
        free(v),
    ensures
        value_free(unary_model(op, v)),
{
}

/// A binary operator on field-free operands gives a field-free value.
proof fn lemma_binary_free(op: crate::eval::BinaryOpKind, a: ValueModel, b: ValueModel)
    requires
        free(a),
        free(b),
    ensures
        value_free(binary_model(op, a, b)),
{
}

/// A cast of a field-free value to a type other than `Field` is the same under every field and
/// field-free.
proof fn lemma_cast(f1: FieldId, f2: FieldId, v: ValueModel, t: Type)
    requires
        free(v),
        !(t is Field),
    ensures
        cast_model(f1, v, t) == cast_model(f2, v, t),
        value_free(cast_model(f1, v, t)),
{
}

/// The values a case binds from a field-free scrutinee are field-free.
proof fn lemma_case_arguments_free(c: Constructor, n: nat, v: ValueModel)
    requires
        free(v),
    ensures
        case_arguments_model(c, n, v) matches Ok(vals) ==> all_free(vals),
{
    match v {
        ValueModel::Tuple(xs) => {
            lemma_aggregate_free(xs);
            match c {
                Constructor::Variant { enum_type: true, index, .. } => {
                    if index + 1 < xs.len() && xs[index + 1] is Tuple {
                        assert(free(xs[index + 1]));
                        lemma_aggregate_free(xs[index + 1]->Tuple_0);
                    }
                },
                _ => {},
            }
        },
        _ => {},
    }
}

/// A field-blind intrinsic gives the same outcome under every field, and a field-free value on
/// field-free arguments.
proof fn lemma_intrinsic(
    name: Seq<char>,
    args: Seq<ValueModel>,
    rt: Type,
    location: crate::error::Location,
    unconstrained: bool,
    f1: FieldId,
    f2: FieldId,
)
    requires
        field_blind_intrinsic(name),
        all_free(args),
    ensures
        intrinsic_model(name, args, rt, location, unconstrained, f1) == intrinsic_model(name, args, rt, location,
            unconstrained, f2),
        value_free(intrinsic_model(name, args, rt, location, unconstrained, f1)),
{
    if args.len() > 0 {
        match args[0] {
            ValueModel::Array(xs) => {
                assert(free(args[0]));
                lemma_aggregate_free(xs);
                if args.len() > 2 {
                    assert(free(args[2]));
                }
                if args.len() > 1 {
                    assert(free(args[1]));
                    lemma_aggregate_free(xs.push(args[1]));
                    lemma_aggregate_free(seq![args[1]] + xs);
                    if args.len() > 2 {
                        match index_model(args[1]) {
                            Ok(i) => if i <= xs.len() {
                                lemma_aggregate_free(xs.insert(i as int, args[2]));
                            },
                            Err(_) => {},
                        }
                    }
                    match index_model(args[1]) {
                        Ok(i) => if i < xs.len() {
                            lemma_aggregate_free(xs.remove(i as int));
                            lemma_aggregate_free(seq![ValueModel::Array(xs.remove(i as int)), xs[i as int]]);
                        },
                        Err(_) => {},
                    }
                }
                if xs.len() > 0 {
                    lemma_aggregate_free(xs.drop_last());
                    lemma_aggregate_free(xs.drop_first());
                    lemma_aggregate_free(seq![ValueModel::Array(xs.drop_last()), xs.last()]);
                    lemma_aggregate_free(seq![xs[0], ValueModel::Array(xs.drop_first())]);
                }
            },
            _ => {
                assert(free(args[0]));
            },
        }
    }
}

/// Whether an input holds a problem does not depend on the field when it holds no field element.
proof fn lemma_input_problem(m: ValueModel, f1: FieldId, f2: FieldId)
    requires
        free(m),
    ensures
        input_problem(m, f1) == input_problem(m, f2),
    decreases m, 0nat,
{
    match m {
        ValueModel::Array(xs) => {
            lemma_aggregate_free(xs);
            lemma_first_problem(xs, f1, f2, 0);
        },
        ValueModel::Tuple(xs) => {
            lemma_aggregate_free(xs);
            lemma_first_problem(xs, f1, f2, 0);
        },
        _ => {},
    }
}

/// The first problem among field-free inputs does not depend on the field.
proof fn lemma_first_problem(xs: Seq<ValueModel>, f1: FieldId, f2: FieldId, i: nat)
    requires
        all_free(xs),
    ensures
        first_problem(xs, f1, i) == first_problem(xs, f2, i),
    decreases xs, xs.len() - i,
{
    if i < xs.len() {
        lemma_input_problem(xs[i as int], f1, f2);
        lemma_first_problem(xs, f1, f2, i + 1);
    }
}

/// Evaluation of a field-free expression from a field-free state agrees under every field.
proof fn lemma_eval(p: Program, fuel: nat, s: State, e: Expression, f: FieldId)
    requires
        free_program(p),
        state_free(s),
        free_expr(e),
    ensures
        agree(eval_m(p, fuel, s, e), eval_m(p, fuel, under(s, f), e), f),
        flow_free(eval_m(p, fuel, s, e).1),
    decreases fuel, e, 3nat,
{
    match e {
        Expression::Ident(_) => lemma_eval_ident(p, fuel, s, e, f),
        Expression::Unary { .. } => lemma_eval_unary(p, fuel, s, e, f),
        Expression::Binary { .. } | Expression::Index { .. } | Expression::Cast { .. } => lemma_eval_operators(
            p, fuel, s, e, f),
        Expression::For { .. } | Expression::Loop(_) | Expression::While { .. } => lemma_eval_loops(p, fuel, s, e, f),
        Expression::If { .. } | Expression::Match { .. } => lemma_eval_branches(p, fuel, s, e, f),
        Expression::Call { .. } => lemma_eval_call(p, fuel, s, e, f),
        Expression::Let { .. } | Expression::Constrain { .. } | Expression::Assign { .. } => lemma_eval_statements(
            p, fuel, s, e, f),
        _ => lemma_eval_rest(p, fuel, s, e, f),
    }
}

/// `lemma_eval` where a value is wanted.
proof fn lemma_value(p: Program, fuel: nat, s: State, e: Expression, f: FieldId)
    requires
        free_program(p),
        state_free(s),
        free_expr(e),
    ensures
        agree(value_m(p, fuel, s, e), value_m(p, fuel, under(s, f), e), f),
        value_free(value_m(p, fuel, s, e).1),
    decreases fuel, e, 4nat,
{
    reveal(eval_m);
    lemma_eval(p, fuel, s, e, f);
}

/// `lemma_eval` for a name.
proof fn lemma_eval_ident(p: Program, fuel: nat, s: State, e: Expression, f: FieldId)
    requires
        free_program(p),
        state_free(s),
        free_expr(e),
        e is Ident,
    ensures
        agree(eval_m(p, fuel, s, e), eval_m(p, fuel, under(s, f), e), f),
        flow_free(eval_m(p, fuel, s, e).1),
    decreases fuel, e, 2nat,
{
    reveal(eval_m);
    match e {
        Expression::Ident(ident) => match ident.definition {
            Definition::Local(l) => {
                lemma_lookup_free(s.env, l);
                match lookup(s.env, l) {
                    Some(BindingModel::Cell(c)) => lemma_read_place(s, PlaceModel::At(c, Seq::empty()), f),
                    _ => {},
                }
            },
            Definition::Global(g) => lemma_global(p, fuel, s, e, g, f),
            _ => {},
        },
        _ => {},
    }
}

/// `lemma_eval` for a unary operator, a reference or a dereference.
proof fn lemma_eval_unary(p: Program, fuel: nat, s: State, e: Expression, f: FieldId)
    requires
        free_program(p),
        state_free(s),
        free_expr(e),
        e is Unary,
    ensures
        agree(eval_m(p, fuel, s, e), eval_m(p, fuel, under(s, f), e), f),
        flow_free(eval_m(p, fuel, s, e).1),
    decreases fuel, e, 2nat,
{
    reveal(eval_m);
    match e {
        Expression::Unary { operator, rhs, skip, .. } => match operator {
            UnaryOp::Reference { .. } => {
                lemma_place(p, fuel, s, *rhs, f);
                match place_m(p, fuel, s, *rhs) {
                    (s1, Ok(PlaceModel::Temp(v))) => lemma_allocated_free(s1, v),
                    _ => {},
                }
            },
            _ => if skip {
                lemma_eval(p, fuel, s, *rhs, f);
            } else {
                lemma_value(p, fuel, s, *rhs, f);
                match value_m(p, fuel, s, *rhs) {
                    (s1, Ok(v)) => match operator {
                        UnaryOp::Dereference { .. } => match v {
                            ValueModel::Ref(c, fields) => lemma_read_place(
                                s1,
                                PlaceModel::At(c, crate::interpreter::field_steps(fields)),
                                f,
                            ),
                            _ => {},
                        },
                        _ => lemma_unary_free(operator, v),
                    },
                    _ => {},
                }
            },
        },
        _ => {},
    }
}

/// `lemma_eval` for a binary operator, an index or a cast.
#[verifier::rlimit(60)]
proof fn lemma_eval_operators(p: Program, fuel: nat, s: State, e: Expression, f: FieldId)
    requires
        free_program(p),
        state_free(s),
        free_expr(e),
    ensures
        (e is Binary || e is Index || e is Cast) ==> agree(eval_m(p, fuel, s, e), eval_m(p, fuel, under(s, f), e), f),
        (e is Binary || e is Index || e is Cast) ==> flow_free(eval_m(p, fuel, s, e).1),
    decreases fuel, e, 2nat,
{
    reveal(eval_m);
    match e {
        Expression::Binary { lhs, operator, rhs, .. } => {
            lemma_value(p, fuel, s, *lhs, f);
            match value_m(p, fuel, s, *lhs) {
                (s1, Ok(a)) => {
                    lemma_value(p, fuel, s1, *rhs, f);
                    match value_m(p, fuel, s1, *rhs) {
                        (s2, Ok(b)) => lemma_binary_free(operator, a, b),
                        _ => {},
                    }
                },
                _ => {},
            }
        },
        Expression::Index { collection, index, .. } => {
            lemma_value(p, fuel, s, *index, f);
            match value_m(p, fuel, s, *index) {
                (s1, Ok(_)) => {
                    lemma_value(p, fuel, s1, *collection, f);
                    match value_m(p, fuel, s1, *collection) {
                        (s2, Ok(ValueModel::Array(xs))) => lemma_aggregate_free(xs),
                        _ => {},
                    }
                },
                _ => {},
            }
        },
        Expression::Cast { lhs, typ, .. } => {
            lemma_value(p, fuel, s, *lhs, f);
            match value_m(p, fuel, s, *lhs) {
                (s1, Ok(v)) => lemma_cast(s1.field, f, v, typ),
                _ => {},
            }
        },
        _ => {},
    }
}

/// `lemma_eval` for the three loops.
#[verifier::rlimit(60)]
proof fn lemma_eval_loops(p: Program, fuel: nat, s: State, e: Expression, f: FieldId)
    requires
        free_program(p),
        state_free(s),
        free_expr(e),
    ensures
        (e is For || e is Loop || e is While) ==> agree(eval_m(p, fuel, s, e), eval_m(p, fuel, under(s, f), e), f),
        (e is For || e is Loop || e is While) ==> flow_free(eval_m(p, fuel, s, e).1),
    decreases fuel, e, 2nat,
{
    reveal(eval_m);
    match e {
        Expression::For { index_variable, index_type, start_range, end_range, inclusive, block, .. } => match index_type {
            Type::Integer(sg, bits) => {
                lemma_value(p, fuel, s, *start_range, f);
                match value_m(p, fuel, s, *start_range) {
                    (s1, Ok(a)) => {
                        lemma_value(p, fuel, s1, *end_range, f);
                        match value_m(p, fuel, s1, *end_range) {
                            (s2, Ok(b)) => match (a, b) {
                                (ValueModel::Int(_, _, x), ValueModel::Int(_, _, y)) => {
                                    lemma_for(p, fuel, s2, index_variable, sg == Signedness::Signed, bits, x,
                                        if inclusive { y + 1 } else { y }, *block, f);
                                },
                                _ => {},
                            },
                            _ => {},
                        }
                    },
                    _ => {},
                }
            },
            _ => {},
        },
        Expression::Loop(body) => lemma_loop(p, fuel, s, *body, f),
        Expression::While { condition, body } => lemma_while(p, fuel, s, *condition, *body, f),
        _ => {},
    }
}

/// `lemma_eval` for a conditional and a match.
proof fn lemma_eval_branches(p: Program, fuel: nat, s: State, e: Expression, f: FieldId)
    requires
        free_program(p),
        state_free(s),
        free_expr(e),
    ensures
        (e is If || e is Match) ==> agree(eval_m(p, fuel, s, e), eval_m(p, fuel, under(s, f), e), f),
        (e is If || e is Match) ==> flow_free(eval_m(p, fuel, s, e).1),
    decreases fuel, e, 2nat,
{
    reveal(eval_m);
    match e {
        Expression::If { condition, consequence, alternative, .. } => {
            lemma_value(p, fuel, s, *condition, f);
            match value_m(p, fuel, s, *condition) {
                (s1, Ok(c)) => match crate::interpreter::bool_of(c) {
                    Ok(true) => lemma_eval(p, fuel, s1, *consequence, f),
                    Ok(false) => match alternative {
                        Some(a) => lemma_eval(p, fuel, s1, *a, f),
                        None => {},
                    },
                    _ => {},
                },
                _ => {},
            }
        },
        Expression::Match { variable, cases, default_case, .. } => {
            lemma_lookup_free(s.env, variable);
            let scrutinee: Result<ValueModel, ErrorModel> = match lookup(s.env, variable) {
                None => Err(ErrorModel::Internal("unbound match scrutinee"@)),
                Some(BindingModel::Value(v)) => Ok(v),
                Some(BindingModel::Cell(c)) => {
                    lemma_read_place(s, PlaceModel::At(c, Seq::empty()), f);
                    read_place(s, PlaceModel::At(c, Seq::empty()))
                },
            };
            match scrutinee {
                Ok(v) => if !(default_case is None && cases@.len() == 0) {
                    let tested: nat = if default_case is Some { cases@.len() } else { (cases@.len() - 1) as nat };
                    match crate::interpreter::select_case(cases@, 0, tested, v) {
                        Ok(Some(k)) => lemma_enter_case(p, fuel, s, cases@, k, v, f),
                        Ok(None) => match default_case {
                            Some(d) => lemma_eval(p, fuel, s, *d, f),
                            None => lemma_enter_case(p, fuel, s, cases@, (cases@.len() - 1) as nat, v, f),
                        },
                        _ => {},
                    }
                },
                _ => {},
            }
        },
        _ => {},
    }
}

/// `lemma_eval` for a call.
#[verifier::rlimit(60)]
proof fn lemma_eval_call(p: Program, fuel: nat, s: State, e: Expression, f: FieldId)
    requires
        free_program(p),
        state_free(s),
        free_expr(e),
        e is Call,
    ensures
        agree(eval_m(p, fuel, s, e), eval_m(p, fuel, under(s, f), e), f),
        flow_free(eval_m(p, fuel, s, e).1),
    decreases fuel, e, 2nat,
{
    reveal(eval_m);
    match e {
        Expression::Call { func, arguments, return_type, location } => {
            lemma_callee(p, fuel, s, *func, f);
            match callee_m(p, fuel, s, *func) {
                (s1, Ok(c)) => {
                    lemma_values(p, fuel, s1, arguments@, 0, Seq::empty(), f);
                    match values_m(p, fuel, s1, arguments@, 0, Seq::empty()) {
                        (s2, Ok(args)) => match c {
                            CalleeModel::Function(id) => lemma_call(p, fuel, s2, e, id, args, f),
                            CalleeModel::Intrinsic(name) => lemma_intrinsic(name, args, return_type, location,
                                s2.unconstrained, s2.field, f),
                        },
                        _ => {},
                    }
                },
                _ => {},
            }
        },
        _ => {},
    }
}

/// `lemma_eval` for a `let`, an assertion and an assignment.
#[verifier::rlimit(60)]
proof fn lemma_eval_statements(p: Program, fuel: nat, s: State, e: Expression, f: FieldId)
    requires
        free_program(p),
        state_free(s),
        free_expr(e),
    ensures
        (e is Let || e is Constrain || e is Assign) ==> agree(eval_m(p, fuel, s, e), eval_m(p, fuel, under(s, f), e), f),
        (e is Let || e is Constrain || e is Assign) ==> flow_free(eval_m(p, fuel, s, e).1),
    decreases fuel, e, 2nat,
{
    reveal(eval_m);
    match e {
        Expression::Let { id, mutable, expression, .. } => {
            lemma_value(p, fuel, s, *expression, f);
            match value_m(p, fuel, s, *expression) {
                (s1, Ok(v)) => if mutable {
                    lemma_allocated_free(s1, v);
                    lemma_bind_free(allocated(s1, v).env, id, BindingModel::Cell(s1.store.len()));
                } else {
                    lemma_bind_free(s1.env, id, BindingModel::Value(v));
                },
                _ => {},
            }
        },
        Expression::Constrain { condition, message, .. } => {
            lemma_value(p, fuel, s, *condition, f);
            match value_m(p, fuel, s, *condition) {
                (s1, Ok(c)) => match crate::interpreter::bool_of(c) {
                    Ok(false) => match message {
                        Some((m, t)) => lemma_render(p, fuel, s1, *m, t, f),
                        None => {},
                    },
                    _ => {},
                },
                _ => {},
            }
        },
        Expression::Assign { lvalue, expression } => {
            lemma_value(p, fuel, s, *expression, f);
            match value_m(p, fuel, s, *expression) {
                (s1, Ok(v)) => lemma_store(p, fuel, s1, lvalue, v, f),
                _ => {},
            }
        },
        _ => {},
    }
}

/// `lemma_eval` for the remaining expressions.
proof fn lemma_eval_rest(p: Program, fuel: nat, s: State, e: Expression, f: FieldId)
    requires
        free_program(p),
        state_free(s),
        free_expr(e),
        !(e is Ident || e is Unary || e is Binary || e is Index || e is Cast || e is For || e is Loop || e is While
            || e is If || e is Match || e is Call || e is Let || e is Constrain || e is Assign),
    ensures
        agree(eval_m(p, fuel, s, e), eval_m(p, fuel, under(s, f), e), f),
        flow_free(eval_m(p, fuel, s, e).1),
    decreases fuel, e, 2nat,
{
    reveal(eval_m);
    match e {
        Expression::Literal(l) => lemma_literal(p, fuel, s, l, f),
        Expression::Block(es) => lemma_block(p, fuel, s, es@, 0, ValueModel::Unit, f),
        Expression::Tuple(es) => {
            lemma_values(p, fuel, s, es@, 0, Seq::empty(), f);
            match values_m(p, fuel, s, es@, 0, Seq::empty()) {
                (_, Ok(vs)) => lemma_aggregate_free(vs),
                _ => {},
            }
        },
        Expression::ExtractTupleField(inner, _) => {
            lemma_value(p, fuel, s, *inner, f);
            match value_m(p, fuel, s, *inner) {
                (_, Ok(ValueModel::Tuple(xs))) => lemma_aggregate_free(xs),
                _ => {},
            }
        },
        Expression::Semi(inner) => lemma_eval(p, fuel, s, *inner, f),
        Expression::Clone(inner) => lemma_value(p, fuel, s, *inner, f),
        Expression::Drop(inner) => lemma_eval(p, fuel, s, *inner, f),
        _ => {},
    }
}

/// `lemma_eval` for a block's expressions from `i` on.
proof fn lemma_block(p: Program, fuel: nat, s: State, es: Seq<Expression>, i: nat, last: ValueModel, f: FieldId)
    requires
        free_program(p),
        state_free(s),
        free(last),
        forall|k: int| 0 <= k < es.len() ==> free_expr(#[trigger] es[k]),
    ensures
        agree(block_m(p, fuel, s, es, i, last), block_m(p, fuel, under(s, f), es, i, last), f),
        flow_free(block_m(p, fuel, s, es, i, last).1),
    decreases fuel, es, es.len() - i,
{
    reveal(eval_m);
    if i < es.len() {
        lemma_eval(p, fuel, s, es[i as int], f);
        match eval_m(p, fuel, s, es[i as int]) {
            (s1, Ok(FlowModel::Normal(v))) => lemma_block(p, fuel, s1, es, i + 1, v, f),
            _ => {},
        }
    }
}

/// `lemma_eval` for a list of expressions from `i` on, evaluated for their values.
proof fn lemma_values(p: Program, fuel: nat, s: State, es: Seq<Expression>, i: nat, acc: Seq<ValueModel>, f: FieldId)
    requires
        free_program(p),
        state_free(s),
        all_free(acc),
        forall|k: int| 0 <= k < es.len() ==> free_expr(#[trigger] es[k]),
    ensures
        agree(values_m(p, fuel, s, es, i, acc), values_m(p, fuel, under(s, f), es, i, acc), f),
        values_m(p, fuel, s, es, i, acc).1 matches Ok(vs) ==> all_free(vs),
    decreases fuel, es, es.len() - i,
{
    reveal(eval_m);
    if i < es.len() {
        lemma_value(p, fuel, s, es[i as int], f);
        match value_m(p, fuel, s, es[i as int]) {
            (s1, Ok(v)) => {
                assert forall|k: int| 0 <= k < acc.push(v).len() implies free(#[trigger] acc.push(v)[k]) by {
                    if k < acc.len() {
                        assert(acc.push(v)[k] == acc[k]);
                    }
                }
                lemma_values(p, fuel, s1, es, i + 1, acc.push(v), f);
            },
            _ => {},
        }
    }
}

/// `lemma_eval` for a literal.
proof fn lemma_literal(p: Program, fuel: nat, s: State, l: Literal, f: FieldId)
    requires
        free_program(p),
        state_free(s),
        free_literal(l),
    ensures
        agree(literal_m(p, fuel, s, l), literal_m(p, fuel, under(s, f), l), f),
        value_free(literal_m(p, fuel, s, l).1),
    decreases fuel, l, 0nat,
{
    reveal(eval_m);
    match l {
        Literal::Array { contents, .. } => {
            lemma_values(p, fuel, s, contents@, 0, Seq::empty(), f);
            match values_m(p, fuel, s, contents@, 0, Seq::empty()) {
                (_, Ok(vs)) => lemma_aggregate_free(vs),
                _ => {},
            }
        },
        Literal::Vector { contents, .. } => {
            lemma_values(p, fuel, s, contents@, 0, Seq::empty(), f);
            match values_m(p, fuel, s, contents@, 0, Seq::empty()) {
                (_, Ok(vs)) => lemma_aggregate_free(vs),
                _ => {},
            }
        },
        Literal::Repeated { element, .. } => {
            lemma_value(p, fuel, s, *element, f);
            match literal_m(p, fuel, s, l).1 {
                Ok(ValueModel::Array(xs)) => lemma_aggregate_free(xs),
                _ => {},
            }
        },
        Literal::FmtStr(_, _, captures, _) => {
            lemma_value(p, fuel, s, *captures, f);
            match value_m(p, fuel, s, *captures) {
                (s1, Ok(ValueModel::Tuple(xs))) => {
                    assert forall|i: int| 0 <= i < xs.len() implies reaches_field(
                        under(s1, f),
                        #[trigger] xs[i],
                        crate::interpreter::chain_budget(s1),
                    ) == reaches_field(s1, xs[i], crate::interpreter::chain_budget(s1)) by {
                        lemma_reaches_field(s1, xs[i], crate::interpreter::chain_budget(s1), f);
                    }
                    assert(crate::interpreter::any_reaches_field(under(s1, f), xs)
                        == crate::interpreter::any_reaches_field(s1, xs));
                },
                _ => {},
            }
        },
        _ => {},
    }
}

/// `lemma_eval` for the place an expression denotes.
proof fn lemma_place(p: Program, fuel: nat, s: State, e: Expression, f: FieldId)
    requires
        free_program(p),
        state_free(s),
        free_expr(e),
    ensures
        agree(place_m(p, fuel, s, e), place_m(p, fuel, under(s, f), e), f),
        place_result_free(place_m(p, fuel, s, e).1),
    decreases fuel, e, 5nat,
{
    reveal(eval_m);
    match e {
        Expression::Ident(ident) => match ident.definition {
            Definition::Local(l) => lemma_lookup_free(s.env, l),
            _ => lemma_value(p, fuel, s, e, f),
        },
        Expression::ExtractTupleField(inner, i) => {
            lemma_place(p, fuel, s, *inner, f);
            match place_m(p, fuel, s, *inner) {
                (s1, Ok(pl)) => lemma_field_place(s1, pl, i, "tuple field "@ + nat_decimal(i as nat)
                    + " out of bounds"@, crate::interpreter::chain_budget(s1), f),
                _ => {},
            }
        },
        Expression::Unary { operator: UnaryOp::Dereference { .. }, rhs, skip, .. } => if skip {
            lemma_place(p, fuel, s, *rhs, f);
        } else {
            lemma_value(p, fuel, s, *rhs, f);
        },
        _ => lemma_value(p, fuel, s, e, f),
    }
}

/// `lemma_eval` for a call's callee.
proof fn lemma_callee(p: Program, fuel: nat, s: State, func: Expression, f: FieldId)
    requires
        free_program(p),
        state_free(s),
        free_expr(func),
        callee_free(func),
    ensures
        agree(callee_m(p, fuel, s, func), callee_m(p, fuel, under(s, f), func), f),
        callee_m(p, fuel, s, func).1 matches Ok(CalleeModel::Intrinsic(name)) ==> field_blind_intrinsic(name),
    decreases fuel, func, 5nat,
{
    reveal(eval_m);
    lemma_value(p, fuel, s, func, f);
}

/// `lemma_eval` for a call of a function of the program on field-free arguments.
proof fn lemma_call(p: Program, fuel: nat, s: State, e: Expression, id: u32, args: Seq<ValueModel>, f: FieldId)
    requires
        free_program(p),
        state_free(s),
        all_free(args),
    ensures
        agree(call_m(p, fuel, s, e, id, args), call_m(p, fuel, under(s, f), e, id, args), f),
        value_free(call_m(p, fuel, s, e, id, args).1),
    decreases fuel, e, 1nat,
{
    reveal(eval_m);
    if fuel > 0 {
        lemma_function_position(p.functions@, id, 0);
        match crate::projection::function_position(p.functions@, id, 0) {
            Some(k) => {
                let fd = p.functions@[k as int];
                if fd.parameters@.len() == args.len() {
                    lemma_bind_parameters_free(Seq::empty(), fd.parameters@, args, 0);
                    let s1 = State {
                        env: bind_parameters(Seq::empty(), fd.parameters@, args, 0),
                        unconstrained: s.unconstrained || fd.unconstrained,
                        ..s
                    };
                    assert(free_expr(fd.body));
                    lemma_eval(p, (fuel - 1) as nat, s1, fd.body, f);
                }
            },
            None => {},
        }
    }
}

/// `lemma_eval` for a global.
proof fn lemma_global(p: Program, fuel: nat, s: State, e: Expression, g: u32, f: FieldId)
    requires
        free_program(p),
        state_free(s),
    ensures
        agree(global_m(p, fuel, s, e, g), global_m(p, fuel, under(s, f), e, g), f),
        value_free(global_m(p, fuel, s, e, g).1),
    decreases fuel, e, 1nat,
{
    reveal(eval_m);
    lemma_global_position(p.globals@, g, 0);
    match crate::projection::global_position(p.globals@, g, 0) {
        Some(k) => if k < s.globals.len() {
            match s.globals[k as int] {
                GlobalModel::Pending => if fuel > 0 {
                    lemma_set_global_free(s, k, GlobalModel::InProgress);
                    let s1 = with_env(set_global(s, k, GlobalModel::InProgress), Seq::empty());
                    assert(free_expr(p.globals@[k as int].expression));
                    lemma_value(p, (fuel - 1) as nat, s1, p.globals@[k as int].expression, f);
                    let (s2, r) = value_m(p, (fuel - 1) as nat, s1, p.globals@[k as int].expression);
                    let s3 = with_env(s2, s.env);
                    match r {
                        Ok(v) => lemma_set_global_free(s3, k, GlobalModel::Done(v)),
                        Err(_) => lemma_set_global_free(s3, k, GlobalModel::Pending),
                    }
                },
                _ => {},
            }
        },
        None => {},
    }
}

/// `lemma_eval` for a `loop`.
proof fn lemma_loop(p: Program, fuel: nat, s: State, body: Expression, f: FieldId)
    requires
        free_program(p),
        state_free(s),
        free_expr(body),
    ensures
        agree(loop_m(p, fuel, s, body), loop_m(p, fuel, under(s, f), body), f),
    decreases fuel, body, 0nat,
{
    reveal(eval_m);
    if fuel > 0 {
        lemma_eval(p, (fuel - 1) as nat, s, body, f);
        match eval_m(p, (fuel - 1) as nat, s, body) {
            (s1, Ok(fl)) => if !(fl is Break) {
                lemma_loop(p, (fuel - 1) as nat, s1, body, f);
            },
            _ => {},
        }
    }
}

/// `lemma_eval` for a `while`.
proof fn lemma_while(p: Program, fuel: nat, s: State, condition: Expression, body: Expression, f: FieldId)
    requires
        free_program(p),
        state_free(s),
        free_expr(condition),
        free_expr(body),
    ensures
        agree(while_m(p, fuel, s, condition, body), while_m(p, fuel, under(s, f), condition, body), f),
    decreases fuel, condition, 0nat,
{
    reveal(eval_m);
    if fuel > 0 {
        lemma_value(p, (fuel - 1) as nat, s, condition, f);
        match value_m(p, (fuel - 1) as nat, s, condition) {
            (s1, Ok(c)) => match crate::interpreter::bool_of(c) {
                Ok(true) => {
                    lemma_eval(p, (fuel - 1) as nat, s1, body, f);
                    match eval_m(p, (fuel - 1) as nat, s1, body) {
                        (s2, Ok(fl)) => if !(fl is Break) {
                            lemma_while(p, (fuel - 1) as nat, s2, condition, body, f);
                        },
                        _ => {},
                    }
                },
                _ => {},
            },
            _ => {},
        }
    }
}

/// `lemma_eval` for a `for` loop from index `i` on.
proof fn lemma_for(
    p: Program,
    fuel: nat,
    s: State,
    var: u32,
    signed: bool,
    bits: u8,
    i: int,
    end: int,
    body: Expression,
    f: FieldId,
)
    requires
        free_program(p),
        state_free(s),
        free_expr(body),
    ensures
        agree(for_m(p, fuel, s, var, signed, bits, i, end, body), for_m(p, fuel, under(s, f), var, signed, bits, i, end, body), f),
    decreases fuel, body, 0nat,
{
    reveal(eval_m);
    if i < end && fuel > 0 {
        let b = BindingModel::Value(ValueModel::Int(signed, bits, wrapped(signed, bits as nat, i)));
        lemma_bind_free(s.env, var, b);
        let s1 = with_env(s, bind(s.env, var, b));
        lemma_eval(p, (fuel - 1) as nat, s1, body, f);
        match eval_m(p, (fuel - 1) as nat, s1, body) {
            (s2, Ok(fl)) => if !(fl is Break) {
                lemma_for(p, (fuel - 1) as nat, s2, var, signed, bits, i + 1, end, body, f);
            },
            _ => {},
        }
    }
}

/// `lemma_eval` for the case a match enters.
proof fn lemma_enter_case(p: Program, fuel: nat, s: State, cs: Seq<MatchCase>, k: nat, v: ValueModel, f: FieldId)
    requires
        free_program(p),
        state_free(s),
        free(v),
        forall|j: int| 0 <= j < cs.len() ==> free_expr(#[trigger] cs[j].branch),
    ensures
        agree(enter_case_m(p, fuel, s, cs, k, v), enter_case_m(p, fuel, under(s, f), cs, k, v), f),
        flow_free(enter_case_m(p, fuel, s, cs, k, v).1),
    decreases fuel, cs, 0nat,
{
    reveal(eval_m);
    if k < cs.len() {
        let c = cs[k as int];
        lemma_case_arguments_free(c.constructor, c.arguments@.len(), v);
        match case_arguments_model(c.constructor, c.arguments@.len(), v) {
            Ok(vals) => {
                lemma_bind_arguments_free(s.env, c.arguments@, vals, 0);
                lemma_eval(p, fuel, with_env(s, bind_arguments(s.env, c.arguments@, vals, 0)), c.branch, f);
            },
            Err(_) => {},
        }
    }
}

/// `lemma_eval` for an assertion's message.
proof fn lemma_render(p: Program, fuel: nat, s: State, m: Expression, t: crate::types::PrintableType, f: FieldId)
    requires
        free_program(p),
        state_free(s),
        free_expr(m),
    ensures
        agree(render_m(p, fuel, s, m, t), render_m(p, fuel, under(s, f), m, t), f),
    decreases fuel, m, 5nat,
{
    crate::interpreter::lemma_render_m(p, fuel, s, m, t);
    crate::interpreter::lemma_render_m(p, fuel, under(s, f), m, t);
    match m {
        Expression::Literal(Literal::FmtStr(_, _, captures, _)) => {
            assert(free_literal(m->Literal_0));
            lemma_value(p, fuel, s, *captures, f);
        },
        _ => lemma_value(p, fuel, s, m, f),
    }
}

/// `lemma_eval` for an lvalue's place.
proof fn lemma_lvalue_place(p: Program, fuel: nat, s: State, lv: LValue, f: FieldId)
    requires
        free_program(p),
        state_free(s),
        free_lvalue(lv),
    ensures
        agree(lvalue_place_m(p, fuel, s, lv), lvalue_place_m(p, fuel, under(s, f), lv), f),
        place_result_free(lvalue_place_m(p, fuel, s, lv).1),
    decreases fuel, lv, 1nat,
{
    reveal(eval_m);
    match lv {
        LValue::Ident(ident) => match ident.definition {
            Definition::Local(l) => lemma_lookup_free(s.env, l),
            _ => {},
        },
        LValue::MemberAccess { object, field_index } => {
            lemma_lvalue_place(p, fuel, s, *object, f);
            match lvalue_place_m(p, fuel, s, *object) {
                (s1, Ok(pl)) => lemma_field_place(s1, pl, field_index, "field "@ + nat_decimal(field_index as nat)
                    + " out of bounds in lvalue"@, crate::interpreter::chain_budget(s1), f),
                _ => {},
            }
        },
        LValue::Index { array, index, .. } => {
            lemma_lvalue_place(p, fuel, s, *array, f);
            match lvalue_place_m(p, fuel, s, *array) {
                (s1, Ok(pl)) => {
                    lemma_value(p, fuel, s1, *index, f);
                    match value_m(p, fuel, s1, *index) {
                        (s2, Ok(_)) => {
                            lemma_read_place(s2, pl, f);
                            match read_place(s2, pl) {
                                Ok(ValueModel::Array(xs)) => lemma_aggregate_free(xs),
                                _ => {},
                            }
                        },
                        _ => {},
                    }
                },
                _ => {},
            }
        },
        LValue::Dereference { reference, .. } => {
            lemma_lvalue_place(p, fuel, s, *reference, f);
            match lvalue_place_m(p, fuel, s, *reference) {
                (s1, Ok(pl)) => lemma_read_place(s1, pl, f),
                _ => {},
            }
        },
        LValue::Clone(inner) => lemma_lvalue_place(p, fuel, s, *inner, f),
    }
}

/// `lemma_eval` for an assignment's target.
proof fn lemma_target(p: Program, fuel: nat, s: State, lv: LValue, f: FieldId)
    requires
        free_program(p),
        state_free(s),
        free_lvalue(lv),
    ensures
        agree(target_m(p, fuel, s, lv), target_m(p, fuel, under(s, f), lv), f),
        place_result_free(target_m(p, fuel, s, lv).1),
    decreases fuel, lv, 2nat,
{
    reveal(eval_m);
    match lv {
        LValue::MemberAccess { object, field_index } => {
            lemma_lvalue_place(p, fuel, s, *object, f);
            match lvalue_place_m(p, fuel, s, *object) {
                (s1, Ok(pl)) => lemma_field_place(s1, pl, field_index, "assignment field "@ + nat_decimal(
                    field_index as nat) + " out of bounds"@, crate::interpreter::chain_budget(s1), f),
                _ => {},
            }
        },
        LValue::Dereference { reference, .. } => {
            lemma_lvalue_place(p, fuel, s, *reference, f);
            match lvalue_place_m(p, fuel, s, *reference) {
                (s1, Ok(pl)) => lemma_read_place(s1, pl, f),
                _ => {},
            }
        },
        LValue::Clone(inner) => lemma_target(p, fuel, s, *inner, f),
        _ => {},
    }
}

/// `lemma_eval` for an indexed lvalue's array place and indices.
proof fn lemma_resolve_array(p: Program, fuel: nat, s: State, lv: LValue, f: FieldId)
    requires
        free_program(p),
        state_free(s),
        free_lvalue(lv),
    ensures
        agree(resolve_array_m(p, fuel, s, lv), resolve_array_m(p, fuel, under(s, f), lv), f),
        resolve_array_m(p, fuel, s, lv).1 matches Ok((pl, _)) ==> place_free(pl),
    decreases fuel, lv, 3nat,
{
    reveal(eval_m);
    match lv {
        LValue::Index { array, index, .. } => {
            lemma_resolve_base(p, fuel, s, *array, f);
            match resolve_base_m(p, fuel, s, *array) {
                (s1, Ok(_)) => lemma_value(p, fuel, s1, *index, f),
                _ => {},
            }
        },
        LValue::Clone(inner) => lemma_resolve_array(p, fuel, s, *inner, f),
        _ => {},
    }
}

/// `lemma_eval` for the array place under an indexed lvalue's array.
proof fn lemma_resolve_base(p: Program, fuel: nat, s: State, lv: LValue, f: FieldId)
    requires
        free_program(p),
        state_free(s),
        free_lvalue(lv),
    ensures
        agree(resolve_base_m(p, fuel, s, lv), resolve_base_m(p, fuel, under(s, f), lv), f),
        resolve_base_m(p, fuel, s, lv).1 matches Ok((pl, _)) ==> place_free(pl),
    decreases fuel, lv, 4nat,
{
    reveal(eval_m);
    match lv {
        LValue::Clone(inner) => lemma_resolve_base(p, fuel, s, *inner, f),
        LValue::Index { .. } => lemma_resolve_array(p, fuel, s, lv, f),
        _ => lemma_target(p, fuel, s, lv, f),
    }
}

/// `lemma_eval` for an assignment of a field-free value.
proof fn lemma_store(p: Program, fuel: nat, s: State, lv: LValue, v: ValueModel, f: FieldId)
    requires
        free_program(p),
        state_free(s),
        free_lvalue(lv),
        free(v),
    ensures
        agree(store_m(p, fuel, s, lv, v), store_m(p, fuel, under(s, f), lv, v), f),
    decreases fuel, lv, 5nat,
{
    reveal(eval_m);
    match lv {
        LValue::Clone(inner) => lemma_store(p, fuel, s, *inner, v, f),
        LValue::Index { .. } => {
            lemma_resolve_array(p, fuel, s, lv, f);
            match resolve_array_m(p, fuel, s, lv) {
                (s1, Ok((pl, indices))) => {
                    lemma_read_place(s1, pl, f);
                    match read_place(s1, pl) {
                        Ok(cur) => {
                            lemma_store_elements_free(cur, indices, 0, v);
                            match store_elements(cur, indices, 0, v) {
                                Ok(new) => lemma_write_place(s1, pl, new, f),
                                _ => {},
                            }
                        },
                        _ => {},
                    }
                },
                _ => {},
            }
        },
        _ => {
            lemma_target(p, fuel, s, lv, f);
            match target_m(p, fuel, s, lv) {
                (s1, Ok(pl)) => lemma_write_place(s1, pl, v, f),
                _ => {},
            }
        },
    }
}

/// Resolving the references of a field-free value in a field-free store gives a field-free value.
proof fn lemma_resolved_free(store: Seq<ValueModel>, v: ValueModel, budget: nat)
    requires
        forall|i: int| 0 <= i < store.len() ==> free(#[trigger] store[i]),
        free(v),
    ensures
        free(crate::interpreter::resolved(store, v, budget)),
    decreases budget, v,
{
    match v {
        ValueModel::Array(xs) => {
            lemma_aggregate_free(xs);
            let ys = crate::interpreter::resolved(store, v, budget)->Array_0;
            assert forall|i: int| 0 <= i < ys.len() implies free(#[trigger] ys[i]) by {
                lemma_resolved_free(store, xs[i], budget);
            }
            lemma_aggregate_free(ys);
        },
        ValueModel::Tuple(xs) => {
            lemma_aggregate_free(xs);
            let ys = crate::interpreter::resolved(store, v, budget)->Tuple_0;
            assert forall|i: int| 0 <= i < ys.len() implies free(#[trigger] ys[i]) by {
                lemma_resolved_free(store, xs[i], budget);
            }
            lemma_aggregate_free(ys);
        },
        ValueModel::Ref(c, fields) => if budget > 0 && c < store.len() {
            let path = crate::interpreter::field_steps(fields);
            lemma_read_path_free(store[c as int], path, 0);
            match read_path(store[c as int], path, 0) {
                Ok(x) => lemma_resolved_free(store, x, (budget - 1) as nat),
                Err(_) => {},
            }
        },
        _ => {},
    }
}

/// A program that writes no field literal, casts nothing to `Field` and calls only field-blind
/// intrinsics gives, on inputs that hold no field element, the same outcome under every field,
/// and a value that holds no field element when it succeeds.
pub proof fn law_runs_agree_across_fields(p: Program, inputs: Seq<ValueModel>, f1: FieldId, f2: FieldId, fuel: nat)
    requires
        free_program(p),
        all_free(inputs),
    ensures
        run_m(p, inputs, f1, fuel) == run_m(p, inputs, f2, fuel),
        run_m(p, inputs, f1, fuel) matches Ok(v) ==> free(v),
{
    lemma_first_problem(inputs, f1, f2, 0);
    let s = initial_state(p, f1);
    assert(under(s, f2) == initial_state(p, f2));
    lemma_call(p, fuel, s, Expression::Break, 0, inputs, f2);
    match call_m(p, fuel, s, Expression::Break, 0, inputs) {
        (s1, Ok(v)) => lemma_resolved_free(s1.store, v, crate::interpreter::chain_budget(s1)),
        _ => {},
    }
}

} // verus!
