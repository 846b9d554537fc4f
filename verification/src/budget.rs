//! Why the budget only ever adds its own error: an evaluation that ends without running out of
//! budget ends the same way, in the same state, under any larger budget.

use vstd::prelude::*;

use crate::ast::{Definition, Expression, LValue, Literal, MatchCase, Program};
use crate::error::ErrorModel;
use crate::eval::{case_arguments_model, UnaryOp};
use crate::interpreter::{
    bind, bind_arguments, bind_parameters, block_m, bool_of, budget_exhausted, call_m, callee_m, enter_case_m,
    eval_m, for_m, global_m, initial_state, literal_m, lookup, loop_m, lvalue_place_m, place_m, read_place, render_m,
    resolve_array_m, resolve_base_m, run_m, select_case, set_global, store_m, target_m, value_m, values_m, while_m,
    with_env, BindingModel, CalleeModel, FlowModel, GlobalModel, PlaceModel, State,
};
use crate::projection::global_position;
use crate::types::{Signedness, Type};
use crate::value::{wrapped, ValueModel};

verus! {

/// Whether an outcome is the budget running out.
pub open spec fn ran_out<T>(r: Result<T, ErrorModel>) -> bool {
    r == Err::<T, ErrorModel>(budget_exhausted())
}

/// An evaluation that does not run out of budget ends the same way under a larger one.
proof fn lemma_eval(p: Program, fuel: nat, more: nat, s: State, e: Expression)
    requires
        fuel <= more,
        !ran_out(eval_m(p, fuel, s, e).1),
    ensures
        eval_m(p, more, s, e) == eval_m(p, fuel, s, e),
    decreases fuel, e, 3nat,
{
    match e {
        Expression::Ident(_) | Expression::Unary { .. } | Expression::Binary { .. } | Expression::Index { .. }
        | Expression::Cast { .. } => lemma_eval_operators(p, fuel, more, s, e),
        Expression::For { .. } | Expression::Loop(_) | Expression::While { .. } | Expression::If { .. }
        | Expression::Match { .. } => lemma_eval_control(p, fuel, more, s, e),
        _ => lemma_eval_rest(p, fuel, more, s, e),
    }
}

/// `lemma_eval` where a value is wanted.
proof fn lemma_value(p: Program, fuel: nat, more: nat, s: State, e: Expression)
    requires
        fuel <= more,
        !ran_out(value_m(p, fuel, s, e).1),
    ensures
        value_m(p, more, s, e) == value_m(p, fuel, s, e),
    decreases fuel, e, 4nat,
{
    reveal(eval_m);
    lemma_eval(p, fuel, more, s, e);
}

/// `lemma_eval` for names and operators.
#[verifier::rlimit(60)]
proof fn lemma_eval_operators(p: Program, fuel: nat, more: nat, s: State, e: Expression)
    requires
        fuel <= more,
        !ran_out(eval_m(p, fuel, s, e).1),
    ensures
        (e is Ident || e is Unary || e is Binary || e is Index || e is Cast) ==> eval_m(p, more, s, e) == eval_m(
            p, fuel, s, e),
    decreases fuel, e, 2nat,
{
    reveal(eval_m);
    match e {
        Expression::Ident(ident) => match ident.definition {
            Definition::Global(g) => lemma_global(p, fuel, more, s, e, g),
            _ => {},
        },
        Expression::Unary { operator, rhs, skip, .. } => match operator {
            UnaryOp::Reference { .. } => lemma_place(p, fuel, more, s, *rhs),
            _ => if skip {
                lemma_eval(p, fuel, more, s, *rhs);
            } else {
                lemma_value(p, fuel, more, s, *rhs);
            },
        },
        Expression::Binary { lhs, rhs, .. } => {
            lemma_value(p, fuel, more, s, *lhs);
            match value_m(p, fuel, s, *lhs) {
                (s1, Ok(_)) => lemma_value(p, fuel, more, s1, *rhs),
                _ => {},
            }
        },
        Expression::Index { collection, index, .. } => {
            lemma_value(p, fuel, more, s, *index);
            match value_m(p, fuel, s, *index) {
                (s1, Ok(iv)) => match crate::intrinsics::index_model(iv) {
                    Ok(_) => lemma_value(p, fuel, more, s1, *collection),
                    _ => {},
                },
                _ => {},
            }
        },
        Expression::Cast { lhs, .. } => lemma_value(p, fuel, more, s, *lhs),
        _ => {},
    }
}

/// `lemma_eval` for loops and branches.
#[verifier::rlimit(60)]
proof fn lemma_eval_control(p: Program, fuel: nat, more: nat, s: State, e: Expression)
    requires
        fuel <= more,
        !ran_out(eval_m(p, fuel, s, e).1),
    ensures
        (e is For || e is Loop || e is While || e is If || e is Match) ==> eval_m(p, more, s, e) == eval_m(
            p, fuel, s, e),
    decreases fuel, e, 2nat,
{
    reveal(eval_m);
    match e {
        Expression::For { index_variable, index_type, start_range, end_range, inclusive, block, .. } => match index_type {
            Type::Integer(sg, bits) => {
                lemma_value(p, fuel, more, s, *start_range);
                match value_m(p, fuel, s, *start_range) {
                    (s1, Ok(a)) => {
                        lemma_value(p, fuel, more, s1, *end_range);
                        match (a, value_m(p, fuel, s1, *end_range)) {
                            (ValueModel::Int(_, _, x), (s2, Ok(ValueModel::Int(_, _, y)))) => {
                                if crate::value::valid_type(sg == Signedness::Signed, bits as nat) {
                                    lemma_for(p, fuel, more, s2, index_variable, sg == Signedness::Signed, bits, x,
                                        if inclusive { y + 1 } else { y }, *block);
                                }
                            },
                            _ => {},
                        }
                    },
                    _ => {},
                }
            },
            _ => {},
        },
        Expression::Loop(body) => lemma_loop(p, fuel, more, s, *body),
        Expression::While { condition, body } => lemma_while(p, fuel, more, s, *condition, *body),
        Expression::If { condition, consequence, alternative, .. } => {
            lemma_value(p, fuel, more, s, *condition);
            match value_m(p, fuel, s, *condition) {
                (s1, Ok(c)) => match bool_of(c) {
                    Ok(true) => lemma_eval(p, fuel, more, s1, *consequence),
                    Ok(false) => match alternative {
                        Some(a) => lemma_eval(p, fuel, more, s1, *a),
                        None => {},
                    },
                    _ => {},
                },
                _ => {},
            }
        },
        Expression::Match { variable, cases, default_case, .. } => {
            let scrutinee: Result<ValueModel, ErrorModel> = match lookup(s.env, variable) {
                None => Err(ErrorModel::Internal("unbound match scrutinee"@)),
                Some(BindingModel::Value(v)) => Ok(v),
                Some(BindingModel::Cell(c)) => read_place(s, PlaceModel::At(c, Seq::empty())),
            };
            match scrutinee {
                Ok(v) => if !(default_case is None && cases@.len() == 0) {
                    let tested: nat = if default_case is Some { cases@.len() } else { (cases@.len() - 1) as nat };
                    match select_case(cases@, 0, tested, v) {
                        Ok(Some(k)) => lemma_enter_case(p, fuel, more, s, cases@, k, v),
                        Ok(None) => match default_case {
                            Some(d) => lemma_eval(p, fuel, more, s, *d),
                            None => lemma_enter_case(p, fuel, more, s, cases@, (cases@.len() - 1) as nat, v),
                        },
                        _ => {},
                    }
                },
                _ => {},
            }
        },
        _ => {},
    }
}

/// `lemma_eval` for the remaining expressions.
#[verifier::rlimit(60)]
proof fn lemma_eval_rest(p: Program, fuel: nat, more: nat, s: State, e: Expression)
    requires
        fuel <= more,
        !ran_out(eval_m(p, fuel, s, e).1),
    ensures
        !(e is Ident || e is Unary || e is Binary || e is Index || e is Cast || e is For || e is Loop || e is While
            || e is If || e is Match) ==> eval_m(p, more, s, e) == eval_m(p, fuel, s, e),
    decreases fuel, e, 2nat,
{
    reveal(eval_m);
    match e {
        Expression::Literal(l) => lemma_literal(p, fuel, more, s, l),
        Expression::Block(es) => lemma_block(p, fuel, more, s, es@, 0, ValueModel::Unit),
        Expression::Tuple(es) => lemma_values(p, fuel, more, s, es@, 0, Seq::empty()),
        Expression::ExtractTupleField(inner, _) => lemma_value(p, fuel, more, s, *inner),
        Expression::Call { func, arguments, .. } => {
            lemma_callee(p, fuel, more, s, *func);
            match callee_m(p, fuel, s, *func) {
                (s1, Ok(c)) => {
                    lemma_values(p, fuel, more, s1, arguments@, 0, Seq::empty());
                    match (c, values_m(p, fuel, s1, arguments@, 0, Seq::empty())) {
                        (CalleeModel::Function(id), (s2, Ok(args))) => lemma_call(p, fuel, more, s2, e, id, args),
                        _ => {},
                    }
                },
                _ => {},
            }
        },
        Expression::Let { expression, .. } => lemma_value(p, fuel, more, s, *expression),
        Expression::Constrain { condition, message, .. } => {
            lemma_value(p, fuel, more, s, *condition);
            match (value_m(p, fuel, s, *condition), message) {
                ((s1, Ok(c)), Some((m, t))) => if bool_of(c) == Ok::<bool, ErrorModel>(false) {
                    lemma_render(p, fuel, more, s1, *m, t);
                },
                _ => {},
            }
        },
        Expression::Assign { lvalue, expression } => {
            lemma_value(p, fuel, more, s, *expression);
            match value_m(p, fuel, s, *expression) {
                (s1, Ok(v)) => lemma_store(p, fuel, more, s1, lvalue, v),
                _ => {},
            }
        },
        Expression::Semi(inner) => lemma_eval(p, fuel, more, s, *inner),
        Expression::Clone(inner) => lemma_value(p, fuel, more, s, *inner),
        Expression::Drop(inner) => lemma_eval(p, fuel, more, s, *inner),
        _ => {},
    }
}

/// `lemma_eval` for a block's expressions from `i` on.
proof fn lemma_block(p: Program, fuel: nat, more: nat, s: State, es: Seq<Expression>, i: nat, last: ValueModel)
    requires
        fuel <= more,
        !ran_out(block_m(p, fuel, s, es, i, last).1),
    ensures
        block_m(p, more, s, es, i, last) == block_m(p, fuel, s, es, i, last),
    decreases fuel, es, es.len() - i,
{
    reveal(eval_m);
    if i < es.len() {
        lemma_eval(p, fuel, more, s, es[i as int]);
        match eval_m(p, fuel, s, es[i as int]) {
            (s1, Ok(FlowModel::Normal(v))) => lemma_block(p, fuel, more, s1, es, i + 1, v),
            _ => {},
        }
    }
}

/// `lemma_eval` for a list of expressions from `i` on, evaluated for their values.
proof fn lemma_values(p: Program, fuel: nat, more: nat, s: State, es: Seq<Expression>, i: nat, acc: Seq<ValueModel>)
    requires
        fuel <= more,
        !ran_out(values_m(p, fuel, s, es, i, acc).1),
    ensures
        values_m(p, more, s, es, i, acc) == values_m(p, fuel, s, es, i, acc),
    decreases fuel, es, es.len() - i,
{
    reveal(eval_m);
    if i < es.len() {
        lemma_value(p, fuel, more, s, es[i as int]);
        match value_m(p, fuel, s, es[i as int]) {
            (s1, Ok(v)) => lemma_values(p, fuel, more, s1, es, i + 1, acc.push(v)),
            _ => {},
        }
    }
}

/// `lemma_eval` for a literal.
proof fn lemma_literal(p: Program, fuel: nat, more: nat, s: State, l: Literal)
    requires
        fuel <= more,
        !ran_out(literal_m(p, fuel, s, l).1),
    ensures
        literal_m(p, more, s, l) == literal_m(p, fuel, s, l),
    decreases fuel, l, 0nat,
{
    reveal(eval_m);
    match l {
        Literal::Array { contents, .. } => lemma_values(p, fuel, more, s, contents@, 0, Seq::empty()),
        Literal::Vector { contents, .. } => lemma_values(p, fuel, more, s, contents@, 0, Seq::empty()),
        Literal::Repeated { element, .. } => lemma_value(p, fuel, more, s, *element),
        Literal::FmtStr(_, _, captures, _) => lemma_value(p, fuel, more, s, *captures),
        _ => {},
    }
}

/// `lemma_eval` for the place an expression denotes.
proof fn lemma_place(p: Program, fuel: nat, more: nat, s: State, e: Expression)
    requires
        fuel <= more,
        !ran_out(place_m(p, fuel, s, e).1),
    ensures
        place_m(p, more, s, e) == place_m(p, fuel, s, e),
    decreases fuel, e, 5nat,
{
    reveal(eval_m);
    match e {
        Expression::Ident(ident) => match ident.definition {
            Definition::Local(_) => {},
            _ => lemma_value(p, fuel, more, s, e),
        },
        Expression::ExtractTupleField(inner, _) => lemma_place(p, fuel, more, s, *inner),
        Expression::Unary { operator: UnaryOp::Dereference { .. }, rhs, skip, .. } => if skip {
            lemma_place(p, fuel, more, s, *rhs);
        } else {
            lemma_value(p, fuel, more, s, *rhs);
        },
        _ => lemma_value(p, fuel, more, s, e),
    }
}

/// `lemma_eval` for a call's callee.
proof fn lemma_callee(p: Program, fuel: nat, more: nat, s: State, func: Expression)
    requires
        fuel <= more,
        !ran_out(callee_m(p, fuel, s, func).1),
    ensures
        callee_m(p, more, s, func) == callee_m(p, fuel, s, func),
    decreases fuel, func, 5nat,
{
    reveal(eval_m);
    match func {
        Expression::Ident(ident) => match ident.definition {
            Definition::Function(_) | Definition::Builtin(_) | Definition::LowLevel(_) | Definition::Oracle { .. } => {},
            _ => lemma_value(p, fuel, more, s, func),
        },
        _ => lemma_value(p, fuel, more, s, func),
    }
}

/// `lemma_eval` for a call of a function of the program.
proof fn lemma_call(p: Program, fuel: nat, more: nat, s: State, e: Expression, id: u32, args: Seq<ValueModel>)
    requires
        fuel <= more,
        !ran_out(call_m(p, fuel, s, e, id, args).1),
    ensures
        call_m(p, more, s, e, id, args) == call_m(p, fuel, s, e, id, args),
    decreases fuel, e, 1nat,
{
    reveal(eval_m);
    if fuel > 0 {
        match crate::projection::function_position(p.functions@, id, 0) {
            Some(k) => {
                let fd = p.functions@[k as int];
                if fd.parameters@.len() == args.len() {
                    let s1 = State {
                        env: bind_parameters(Seq::empty(), fd.parameters@, args, 0),
                        unconstrained: s.unconstrained || fd.unconstrained,
                        ..s
                    };
                    lemma_eval(p, (fuel - 1) as nat, (more - 1) as nat, s1, fd.body);
                }
            },
            None => {},
        }
    }
}

/// `lemma_eval` for a global.
proof fn lemma_global(p: Program, fuel: nat, more: nat, s: State, e: Expression, g: u32)
    requires
        fuel <= more,
        !ran_out(global_m(p, fuel, s, e, g).1),
    ensures
        global_m(p, more, s, e, g) == global_m(p, fuel, s, e, g),
    decreases fuel, e, 1nat,
{
    reveal(eval_m);
    match global_position(p.globals@, g, 0) {
        Some(k) => if k < s.globals.len() {
            match s.globals[k as int] {
                GlobalModel::Pending => if fuel > 0 {
                    let s1 = with_env(set_global(s, k, GlobalModel::InProgress), Seq::empty());
                    lemma_value(p, (fuel - 1) as nat, (more - 1) as nat, s1, p.globals@[k as int].expression);
                },
                _ => {},
            }
        },
        None => {},
    }
}

/// `lemma_eval` for a `loop`.
proof fn lemma_loop(p: Program, fuel: nat, more: nat, s: State, body: Expression)
    requires
        fuel <= more,
        !ran_out(loop_m(p, fuel, s, body).1),
    ensures
        loop_m(p, more, s, body) == loop_m(p, fuel, s, body),
    decreases fuel, body, 0nat,
{
    reveal(eval_m);
    if fuel > 0 {
        lemma_eval(p, (fuel - 1) as nat, (more - 1) as nat, s, body);
        match eval_m(p, (fuel - 1) as nat, s, body) {
            (s1, Ok(fl)) => if !(fl is Break) {
                lemma_loop(p, (fuel - 1) as nat, (more - 1) as nat, s1, body);
            },
            _ => {},
        }
    }
}

/// `lemma_eval` for a `while`.
proof fn lemma_while(p: Program, fuel: nat, more: nat, s: State, condition: Expression, body: Expression)
    requires
        fuel <= more,
        !ran_out(while_m(p, fuel, s, condition, body).1),
    ensures
        while_m(p, more, s, condition, body) == while_m(p, fuel, s, condition, body),
    decreases fuel, condition, 0nat,
{
    reveal(eval_m);
    if fuel > 0 {
        lemma_value(p, (fuel - 1) as nat, (more - 1) as nat, s, condition);
        match value_m(p, (fuel - 1) as nat, s, condition) {
            (s1, Ok(c)) => match bool_of(c) {
                Ok(true) => {
                    lemma_eval(p, (fuel - 1) as nat, (more - 1) as nat, s1, body);
                    match eval_m(p, (fuel - 1) as nat, s1, body) {
                        (s2, Ok(fl)) => if !(fl is Break) {
                            lemma_while(p, (fuel - 1) as nat, (more - 1) as nat, s2, condition, body);
                        },
                        _ => {},
                    }
                },
                _ => {},
            },
            _ => {},
        }
    }
}

/// `lemma_eval` for a `for` loop from index `i` on.
proof fn lemma_for(
    p: Program,
    fuel: nat,
    more: nat,
    s: State,
    var: u32,
    signed: bool,
    bits: u8,
    i: int,
    end: int,
    body: Expression,
)
    requires
        fuel <= more,
        !ran_out(for_m(p, fuel, s, var, signed, bits, i, end, body).1),
    ensures
        for_m(p, more, s, var, signed, bits, i, end, body) == for_m(p, fuel, s, var, signed, bits, i, end, body),
    decreases fuel, body, 0nat,
{
    reveal(eval_m);
    if i < end && fuel > 0 {
        let b = BindingModel::Value(ValueModel::Int(signed, bits, wrapped(signed, bits as nat, i)));
        let s1 = with_env(s, bind(s.env, var, b));
        lemma_eval(p, (fuel - 1) as nat, (more - 1) as nat, s1, body);
        match eval_m(p, (fuel - 1) as nat, s1, body) {
            (s2, Ok(fl)) => if !(fl is Break) {
                lemma_for(p, (fuel - 1) as nat, (more - 1) as nat, s2, var, signed, bits, i + 1, end, body);
            },
            _ => {},
        }
    }
}

/// `lemma_eval` for the case a match enters.
proof fn lemma_enter_case(p: Program, fuel: nat, more: nat, s: State, cs: Seq<MatchCase>, k: nat, v: ValueModel)
    requires
        fuel <= more,
        !ran_out(enter_case_m(p, fuel, s, cs, k, v).1),
    ensures
        enter_case_m(p, more, s, cs, k, v) == enter_case_m(p, fuel, s, cs, k, v),
    decreases fuel, cs, 0nat,
{
    reveal(eval_m);
    if k < cs.len() {
        let c = cs[k as int];
        match case_arguments_model(c.constructor, c.arguments@.len(), v) {
            Ok(vals) => lemma_eval(p, fuel, more, with_env(s, bind_arguments(s.env, c.arguments@, vals, 0)), c.branch),
            Err(_) => {},
        }
    }
}

/// `lemma_eval` for an assertion's message.
proof fn lemma_render(p: Program, fuel: nat, more: nat, s: State, m: Expression, t: crate::types::PrintableType)
    requires
        fuel <= more,
        !ran_out(render_m(p, fuel, s, m, t).1),
    ensures
        render_m(p, more, s, m, t) == render_m(p, fuel, s, m, t),
    decreases fuel, m, 5nat,
{
    crate::interpreter::lemma_render_m(p, fuel, s, m, t);
    crate::interpreter::lemma_render_m(p, more, s, m, t);
    match m {
        Expression::Literal(Literal::FmtStr(_, _, captures, _)) => lemma_value(p, fuel, more, s, *captures),
        _ => lemma_value(p, fuel, more, s, m),
    }
}

/// `lemma_eval` for an lvalue's place.
proof fn lemma_lvalue_place(p: Program, fuel: nat, more: nat, s: State, lv: LValue)
    requires
        fuel <= more,
        !ran_out(lvalue_place_m(p, fuel, s, lv).1),
    ensures
        lvalue_place_m(p, more, s, lv) == lvalue_place_m(p, fuel, s, lv),
    decreases fuel, lv, 1nat,
{
    reveal(eval_m);
    match lv {
        LValue::MemberAccess { object, .. } => lemma_lvalue_place(p, fuel, more, s, *object),
        LValue::Index { array, index, .. } => {
            lemma_lvalue_place(p, fuel, more, s, *array);
            match lvalue_place_m(p, fuel, s, *array) {
                (s1, Ok(_)) => lemma_value(p, fuel, more, s1, *index),
                _ => {},
            }
        },
        LValue::Dereference { reference, .. } => lemma_lvalue_place(p, fuel, more, s, *reference),
        LValue::Clone(inner) => lemma_lvalue_place(p, fuel, more, s, *inner),
        _ => {},
    }
}

/// `lemma_eval` for an assignment's target.
proof fn lemma_target(p: Program, fuel: nat, more: nat, s: State, lv: LValue)
    requires
        fuel <= more,
        !ran_out(target_m(p, fuel, s, lv).1),
    ensures
        target_m(p, more, s, lv) == target_m(p, fuel, s, lv),
    decreases fuel, lv, 2nat,
{
    reveal(eval_m);
    match lv {
        LValue::MemberAccess { object, .. } => lemma_lvalue_place(p, fuel, more, s, *object),
        LValue::Dereference { reference, .. } => lemma_lvalue_place(p, fuel, more, s, *reference),
        LValue::Clone(inner) => lemma_target(p, fuel, more, s, *inner),
        _ => {},
    }
}

/// `lemma_eval` for an indexed lvalue's array place and indices.
proof fn lemma_resolve_array(p: Program, fuel: nat, more: nat, s: State, lv: LValue)
    requires
        fuel <= more,
        !ran_out(resolve_array_m(p, fuel, s, lv).1),
    ensures
        resolve_array_m(p, more, s, lv) == resolve_array_m(p, fuel, s, lv),
    decreases fuel, lv, 3nat,
{
    reveal(eval_m);
    match lv {
        LValue::Index { array, index, .. } => {
            lemma_resolve_base(p, fuel, more, s, *array);
            match resolve_base_m(p, fuel, s, *array) {
                (s1, Ok(_)) => lemma_value(p, fuel, more, s1, *index),
                _ => {},
            }
        },
        LValue::Clone(inner) => lemma_resolve_array(p, fuel, more, s, *inner),
        _ => {},
    }
}

/// `lemma_eval` for the array place under an indexed lvalue's array.
proof fn lemma_resolve_base(p: Program, fuel: nat, more: nat, s: State, lv: LValue)
    requires
        fuel <= more,
        !ran_out(resolve_base_m(p, fuel, s, lv).1),
    ensures
        resolve_base_m(p, more, s, lv) == resolve_base_m(p, fuel, s, lv),
    decreases fuel, lv, 4nat,
{
    reveal(eval_m);
    match lv {
        LValue::Clone(inner) => lemma_resolve_base(p, fuel, more, s, *inner),
        LValue::Index { .. } => lemma_resolve_array(p, fuel, more, s, lv),
        _ => lemma_target(p, fuel, more, s, lv),
    }
}

/// `lemma_eval` for an assignment.
proof fn lemma_store(p: Program, fuel: nat, more: nat, s: State, lv: LValue, v: ValueModel)
    requires
        fuel <= more,
        !ran_out(store_m(p, fuel, s, lv, v).1),
    ensures
        store_m(p, more, s, lv, v) == store_m(p, fuel, s, lv, v),
    decreases fuel, lv, 5nat,
{
    reveal(eval_m);
    match lv {
        LValue::Clone(inner) => lemma_store(p, fuel, more, s, *inner, v),
        LValue::Index { .. } => lemma_resolve_array(p, fuel, more, s, lv),
        _ => lemma_target(p, fuel, more, s, lv),
    }
}

/// A run that does not run out of budget gives the same result under any larger budget: the
/// budget only adds the error of running out.
pub proof fn law_more_budget_changes_no_finished_run(p: Program, inputs: Seq<ValueModel>, field: crate::field::FieldId, fuel: nat, more: nat)
    requires
        fuel <= more,
        !ran_out(run_m(p, inputs, field, fuel)),
    ensures
        run_m(p, inputs, field, more) == run_m(p, inputs, field, fuel),
{
    match crate::projection::function_position(p.functions@, 0, 0) {
        Some(k) => if p.functions@[k as int].parameters@.len() == inputs.len() {
            if crate::input::first_problem(inputs, field, 0) is None {
                lemma_call(p, fuel, more, initial_state(p, field), Expression::Break, 0, inputs);
            }
        },
        None => {},
    }
}

} // verus!
