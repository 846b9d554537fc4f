//! Why a global is evaluated once: no evaluation takes back a global's value once it is kept,
//! and a reference to a kept global reads it back and changes nothing.

use vstd::prelude::*;

use crate::ast::{Definition, Expression, LValue, Literal, MatchCase, Program};
use crate::error::ErrorModel;
use crate::eval::{case_arguments_model, UnaryOp};
use crate::interpreter::{
    bind, bind_arguments, bind_parameters, block_m, bool_of, call_m, callee_m, enter_case_m, eval_m,
    for_m, global_m, literal_m, lookup, loop_m, lvalue_place_m, place_m, read_place, render_m, resolve_array_m,
    resolve_base_m, select_case, set_global, store_m, target_m, value_m, values_m, while_m, with_env,
    BindingModel, CalleeModel, FlowModel, GlobalModel, PlaceModel, State,
};
use crate::projection::global_position;
use crate::types::{Signedness, Type};
use crate::value::{wrapped, ValueModel};

verus! {

/// `b` holds as many globals as `a`, and every global `a` has evaluated keeps its value in `b`.
pub open spec fn kept(a: State, b: State) -> bool {
    &&& b.globals.len() == a.globals.len()
    &&& forall|i: int| 0 <= i < a.globals.len() && #[trigger] a.globals[i] is Done ==> b.globals[i] == a.globals[i]
}

/// Evaluation keeps the globals.
proof fn lemma_eval(p: Program, fuel: nat, s: State, e: Expression)
    ensures
        kept(s, eval_m(p, fuel, s, e).0),
    decreases fuel, e, 3nat,
{
    match e {
        Expression::Ident(_) | Expression::Unary { .. } | Expression::Binary { .. } | Expression::Index { .. }
        | Expression::Cast { .. } => lemma_eval_operators(p, fuel, s, e),
        Expression::For { .. } | Expression::Loop(_) | Expression::While { .. } | Expression::If { .. }
        | Expression::Match { .. } => lemma_eval_control(p, fuel, s, e),
        _ => lemma_eval_rest(p, fuel, s, e),
    }
}

/// `lemma_eval` where a value is wanted.
proof fn lemma_value(p: Program, fuel: nat, s: State, e: Expression)
    ensures
        kept(s, value_m(p, fuel, s, e).0),
    decreases fuel, e, 4nat,
{
    reveal(eval_m);
    lemma_eval(p, fuel, s, e);
}

/// `lemma_eval` for names and operators.
#[verifier::rlimit(60)]
proof fn lemma_eval_operators(p: Program, fuel: nat, s: State, e: Expression)
    ensures
        (e is Ident || e is Unary || e is Binary || e is Index || e is Cast) ==> kept(s, eval_m(p, fuel, s, e).0),
    decreases fuel, e, 2nat,
{
    reveal(eval_m);
    match e {
        Expression::Ident(ident) => match ident.definition {
            Definition::Global(g) => lemma_global(p, fuel, s, e, g),
            _ => {},
        },
        Expression::Unary { operator, rhs, skip, .. } => match operator {
            UnaryOp::Reference { .. } => lemma_place(p, fuel, s, *rhs),
            _ => if skip {
                lemma_eval(p, fuel, s, *rhs);
            } else {
                lemma_value(p, fuel, s, *rhs);
            },
        },
        Expression::Binary { lhs, rhs, .. } => {
            lemma_value(p, fuel, s, *lhs);
            lemma_value(p, fuel, value_m(p, fuel, s, *lhs).0, *rhs);
        },
        Expression::Index { collection, index, .. } => {
            lemma_value(p, fuel, s, *index);
            lemma_value(p, fuel, value_m(p, fuel, s, *index).0, *collection);
        },
        Expression::Cast { lhs, .. } => lemma_value(p, fuel, s, *lhs),
        _ => {},
    }
}

/// `lemma_eval` for loops and branches.
#[verifier::rlimit(60)]
proof fn lemma_eval_control(p: Program, fuel: nat, s: State, e: Expression)
    ensures
        (e is For || e is Loop || e is While || e is If || e is Match) ==> kept(s, eval_m(p, fuel, s, e).0),
    decreases fuel, e, 2nat,
{
    reveal(eval_m);
    match e {
        Expression::For { index_variable, index_type, start_range, end_range, inclusive, block, .. } => match index_type {
            Type::Integer(sg, bits) => {
                lemma_value(p, fuel, s, *start_range);
                let s1 = value_m(p, fuel, s, *start_range).0;
                lemma_value(p, fuel, s1, *end_range);
                match (value_m(p, fuel, s, *start_range).1, value_m(p, fuel, s1, *end_range)) {
                    (Ok(ValueModel::Int(_, _, x)), (s2, Ok(ValueModel::Int(_, _, y)))) => {
                        lemma_for(p, fuel, s2, index_variable, sg == Signedness::Signed, bits, x,
                            if inclusive { y + 1 } else { y }, *block);
                    },
                    _ => {},
                }
            },
            _ => {},
        },
        Expression::Loop(body) => lemma_loop(p, fuel, s, *body),
        Expression::While { condition, body } => lemma_while(p, fuel, s, *condition, *body),
        Expression::If { condition, consequence, alternative, .. } => {
            lemma_value(p, fuel, s, *condition);
            let s1 = value_m(p, fuel, s, *condition).0;
            lemma_eval(p, fuel, s1, *consequence);
            match alternative {
                Some(a) => lemma_eval(p, fuel, s1, *a),
                None => {},
            }
        },
        Expression::Match { variable, cases, default_case, .. } => {
            let scrutinee: Result<ValueModel, ErrorModel> = match lookup(s.env, variable) {
                None => Err(ErrorModel::Internal("unbound match scrutinee"@)),
                Some(BindingModel::Value(v)) => Ok(v),
                Some(BindingModel::Cell(c)) => read_place(s, PlaceModel::At(c, Seq::empty())),
            };
            match scrutinee {
                Ok(v) => if !(default_case is None && cases@.len() == 0) {
                    let tested: nat = if default_case is Some { cases@.len() } else { (cases@.len() - 1) as nat };
                    match select_case(cases@, 0, tested, v) {
                        Ok(Some(k)) => lemma_enter_case(p, fuel, s, cases@, k, v),
                        Ok(None) => match default_case {
                            Some(d) => lemma_eval(p, fuel, s, *d),
                            None => lemma_enter_case(p, fuel, s, cases@, (cases@.len() - 1) as nat, v),
                        },
                        _ => {},
                    }
                },
                _ => {},
            }
        },
        _ => {},
    }
}

/// `lemma_eval` for the remaining expressions.
#[verifier::rlimit(60)]
proof fn lemma_eval_rest(p: Program, fuel: nat, s: State, e: Expression)
    ensures
        !(e is Ident || e is Unary || e is Binary || e is Index || e is Cast || e is For || e is Loop || e is While
            || e is If || e is Match) ==> kept(s, eval_m(p, fuel, s, e).0),
    decreases fuel, e, 2nat,
{
    reveal(eval_m);
    match e {
        Expression::Literal(l) => lemma_literal(p, fuel, s, l),
        Expression::Block(es) => lemma_block(p, fuel, s, es@, 0, ValueModel::Unit),
        Expression::Tuple(es) => lemma_values(p, fuel, s, es@, 0, Seq::empty()),
        Expression::ExtractTupleField(inner, _) => lemma_value(p, fuel, s, *inner),
        Expression::Call { func, arguments, .. } => {
            lemma_callee(p, fuel, s, *func);
            let s1 = callee_m(p, fuel, s, *func).0;
            lemma_values(p, fuel, s1, arguments@, 0, Seq::empty());
            match (callee_m(p, fuel, s, *func).1, values_m(p, fuel, s1, arguments@, 0, Seq::empty())) {
                (Ok(CalleeModel::Function(id)), (s2, Ok(args))) => lemma_call(p, fuel, s2, e, id, args),
                _ => {},
            }
        },
        Expression::Let { expression, .. } => lemma_value(p, fuel, s, *expression),
        Expression::Constrain { condition, message, .. } => {
            lemma_value(p, fuel, s, *condition);
            match message {
                Some((m, t)) => lemma_render(p, fuel, value_m(p, fuel, s, *condition).0, *m, t),
                None => {},
            }
        },
        Expression::Assign { lvalue, expression } => {
            lemma_value(p, fuel, s, *expression);
            match value_m(p, fuel, s, *expression) {
                (s1, Ok(v)) => lemma_store(p, fuel, s1, lvalue, v),
                _ => {},
            }
        },
        Expression::Semi(inner) => lemma_eval(p, fuel, s, *inner),
        Expression::Clone(inner) => lemma_value(p, fuel, s, *inner),
        Expression::Drop(inner) => lemma_eval(p, fuel, s, *inner),
        _ => {},
    }
}

/// `lemma_eval` for a block's expressions from `i` on.
proof fn lemma_block(p: Program, fuel: nat, s: State, es: Seq<Expression>, i: nat, last: ValueModel)
    ensures
        kept(s, block_m(p, fuel, s, es, i, last).0),
    decreases fuel, es, es.len() - i,
{
    reveal(eval_m);
    if i < es.len() {
        lemma_eval(p, fuel, s, es[i as int]);
        match eval_m(p, fuel, s, es[i as int]) {
            (s1, Ok(FlowModel::Normal(v))) => lemma_block(p, fuel, s1, es, i + 1, v),
            _ => {},
        }
    }
}

/// `lemma_eval` for a list of expressions from `i` on, evaluated for their values.
proof fn lemma_values(p: Program, fuel: nat, s: State, es: Seq<Expression>, i: nat, acc: Seq<ValueModel>)
    ensures
        kept(s, values_m(p, fuel, s, es, i, acc).0),
    decreases fuel, es, es.len() - i,
{
    reveal(eval_m);
    if i < es.len() {
        lemma_value(p, fuel, s, es[i as int]);
        match value_m(p, fuel, s, es[i as int]) {
            (s1, Ok(v)) => lemma_values(p, fuel, s1, es, i + 1, acc.push(v)),
            _ => {},
        }
    }
}

/// `lemma_eval` for a literal.
proof fn lemma_literal(p: Program, fuel: nat, s: State, l: Literal)
    ensures
        kept(s, literal_m(p, fuel, s, l).0),
    decreases fuel, l, 0nat,
{
    reveal(eval_m);
    match l {
        Literal::Array { contents, .. } => lemma_values(p, fuel, s, contents@, 0, Seq::empty()),
        Literal::Vector { contents, .. } => lemma_values(p, fuel, s, contents@, 0, Seq::empty()),
        Literal::Repeated { element, .. } => lemma_value(p, fuel, s, *element),
        Literal::FmtStr(_, _, captures, _) => lemma_value(p, fuel, s, *captures),
        _ => {},
    }
}

/// `lemma_eval` for the place an expression denotes.
proof fn lemma_place(p: Program, fuel: nat, s: State, e: Expression)
    ensures
        kept(s, place_m(p, fuel, s, e).0),
    decreases fuel, e, 5nat,
{
    reveal(eval_m);
    match e {
        Expression::Ident(_) => lemma_value(p, fuel, s, e),
        Expression::ExtractTupleField(inner, _) => lemma_place(p, fuel, s, *inner),
        Expression::Unary { operator: UnaryOp::Dereference { .. }, rhs, skip, .. } => if skip {
            lemma_place(p, fuel, s, *rhs);
        } else {
            lemma_value(p, fuel, s, *rhs);
        },
        _ => lemma_value(p, fuel, s, e),
    }
}

/// `lemma_eval` for a call's callee.
proof fn lemma_callee(p: Program, fuel: nat, s: State, func: Expression)
    ensures
        kept(s, callee_m(p, fuel, s, func).0),
    decreases fuel, func, 5nat,
{
    reveal(eval_m);
    lemma_value(p, fuel, s, func);
}

/// `lemma_eval` for a call of a function of the program.
proof fn lemma_call(p: Program, fuel: nat, s: State, e: Expression, id: u32, args: Seq<ValueModel>)
    ensures
        kept(s, call_m(p, fuel, s, e, id, args).0),
    decreases fuel, e, 1nat,
{
    reveal(eval_m);
    if fuel > 0 {
        match crate::projection::function_position(p.functions@, id, 0) {
            Some(k) => {
                let fd = p.functions@[k as int];
                if fd.parameters@.len() == args.len() {
                    let s1 = State {
                        env: bind_parameters(Seq::empty(), fd.parameters@, args, 0),
                        unconstrained: s.unconstrained || fd.unconstrained,
                        ..s
                    };
                    lemma_eval(p, (fuel - 1) as nat, s1, fd.body);
                }
            },
            None => {},
        }
    }
}

/// `lemma_eval` for a global: one that was pending is the only one that can change.
proof fn lemma_global(p: Program, fuel: nat, s: State, e: Expression, g: u32)
    ensures
        kept(s, global_m(p, fuel, s, e, g).0),
    decreases fuel, e, 1nat,
{
    reveal(eval_m);
    match global_position(p.globals@, g, 0) {
        Some(k) => if k < s.globals.len() {
            match s.globals[k as int] {
                GlobalModel::Pending => if fuel > 0 {
                    let s1 = with_env(set_global(s, k, GlobalModel::InProgress), Seq::empty());
                    lemma_value(p, (fuel - 1) as nat, s1, p.globals@[k as int].expression);
                    assert(kept(s, s1));
                },
                _ => {},
            }
        },
        None => {},
    }
}

/// `lemma_eval` for a `loop`.
proof fn lemma_loop(p: Program, fuel: nat, s: State, body: Expression)
    ensures
        kept(s, loop_m(p, fuel, s, body).0),
    decreases fuel, body, 0nat,
{
    reveal(eval_m);
    if fuel > 0 {
        lemma_eval(p, (fuel - 1) as nat, s, body);
        match eval_m(p, (fuel - 1) as nat, s, body) {
            (s1, Ok(fl)) => if !(fl is Break) {
                lemma_loop(p, (fuel - 1) as nat, s1, body);
            },
            _ => {},
        }
    }
}

/// `lemma_eval` for a `while`.
proof fn lemma_while(p: Program, fuel: nat, s: State, condition: Expression, body: Expression)
    ensures
        kept(s, while_m(p, fuel, s, condition, body).0),
    decreases fuel, condition, 0nat,
{
    reveal(eval_m);
    if fuel > 0 {
        lemma_value(p, (fuel - 1) as nat, s, condition);
        match value_m(p, (fuel - 1) as nat, s, condition) {
            (s1, Ok(c)) => match bool_of(c) {
                Ok(true) => {
                    lemma_eval(p, (fuel - 1) as nat, s1, body);
                    match eval_m(p, (fuel - 1) as nat, s1, body) {
                        (s2, Ok(fl)) => if !(fl is Break) {
                            lemma_while(p, (fuel - 1) as nat, s2, condition, body);
                        },
                        _ => {},
                    }
                },
                _ => {},
            },
            _ => {},
        }
    }
}

/// `lemma_eval` for a `for` loop from index `i` on.
proof fn lemma_for(p: Program, fuel: nat, s: State, var: u32, signed: bool, bits: u8, i: int, end: int, body: Expression)
    ensures
        kept(s, for_m(p, fuel, s, var, signed, bits, i, end, body).0),
    decreases fuel, body, 0nat,
{
    reveal(eval_m);
    if i < end && fuel > 0 {
        let b = BindingModel::Value(ValueModel::Int(signed, bits, wrapped(signed, bits as nat, i)));
        let s1 = with_env(s, bind(s.env, var, b));
        lemma_eval(p, (fuel - 1) as nat, s1, body);
        match eval_m(p, (fuel - 1) as nat, s1, body) {
            (s2, Ok(fl)) => if !(fl is Break) {
                lemma_for(p, (fuel - 1) as nat, s2, var, signed, bits, i + 1, end, body);
            },
            _ => {},
        }
    }
}

/// `lemma_eval` for the case a match enters.
proof fn lemma_enter_case(p: Program, fuel: nat, s: State, cs: Seq<MatchCase>, k: nat, v: ValueModel)
    ensures
        kept(s, enter_case_m(p, fuel, s, cs, k, v).0),
    decreases fuel, cs, 0nat,
{
    reveal(eval_m);
    if k < cs.len() {
        let c = cs[k as int];
        match case_arguments_model(c.constructor, c.arguments@.len(), v) {
            Ok(vals) => lemma_eval(p, fuel, with_env(s, bind_arguments(s.env, c.arguments@, vals, 0)), c.branch),
            Err(_) => {},
        }
    }
}

/// `lemma_eval` for an assertion's message.
proof fn lemma_render(p: Program, fuel: nat, s: State, m: Expression, t: crate::types::PrintableType)
    ensures
        kept(s, render_m(p, fuel, s, m, t).0),
    decreases fuel, m, 5nat,
{
    crate::interpreter::lemma_render_m(p, fuel, s, m, t);
    match m {
        Expression::Literal(Literal::FmtStr(_, _, captures, _)) => lemma_value(p, fuel, s, *captures),
        _ => lemma_value(p, fuel, s, m),
    }
}

/// `lemma_eval` for an lvalue's place.
proof fn lemma_lvalue_place(p: Program, fuel: nat, s: State, lv: LValue)
    ensures
        kept(s, lvalue_place_m(p, fuel, s, lv).0),
    decreases fuel, lv, 1nat,
{
    reveal(eval_m);
    match lv {
        LValue::MemberAccess { object, .. } => lemma_lvalue_place(p, fuel, s, *object),
        LValue::Index { array, index, .. } => {
            lemma_lvalue_place(p, fuel, s, *array);
            lemma_value(p, fuel, lvalue_place_m(p, fuel, s, *array).0, *index);
        },
        LValue::Dereference { reference, .. } => lemma_lvalue_place(p, fuel, s, *reference),
        LValue::Clone(inner) => lemma_lvalue_place(p, fuel, s, *inner),
        _ => {},
    }
}

/// `lemma_eval` for an assignment's target.
proof fn lemma_target(p: Program, fuel: nat, s: State, lv: LValue)
    ensures
        kept(s, target_m(p, fuel, s, lv).0),
    decreases fuel, lv, 2nat,
{
    reveal(eval_m);
    match lv {
        LValue::MemberAccess { object, .. } => lemma_lvalue_place(p, fuel, s, *object),
        LValue::Dereference { reference, .. } => lemma_lvalue_place(p, fuel, s, *reference),
        LValue::Clone(inner) => lemma_target(p, fuel, s, *inner),
        _ => {},
    }
}

/// `lemma_eval` for an indexed lvalue's array place and indices.
proof fn lemma_resolve_array(p: Program, fuel: nat, s: State, lv: LValue)
    ensures
        kept(s, resolve_array_m(p, fuel, s, lv).0),
    decreases fuel, lv, 3nat,
{
    reveal(eval_m);
    match lv {
        LValue::Index { array, index, .. } => {
            lemma_resolve_base(p, fuel, s, *array);
            lemma_value(p, fuel, resolve_base_m(p, fuel, s, *array).0, *index);
        },
        LValue::Clone(inner) => lemma_resolve_array(p, fuel, s, *inner),
        _ => {},
    }
}

/// `lemma_eval` for the array place under an indexed lvalue's array.
proof fn lemma_resolve_base(p: Program, fuel: nat, s: State, lv: LValue)
    ensures
        kept(s, resolve_base_m(p, fuel, s, lv).0),
    decreases fuel, lv, 4nat,
{
    reveal(eval_m);
    match lv {
        LValue::Clone(inner) => lemma_resolve_base(p, fuel, s, *inner),
        LValue::Index { .. } => lemma_resolve_array(p, fuel, s, lv),
        _ => lemma_target(p, fuel, s, lv),
    }
}

/// `lemma_eval` for an assignment.
proof fn lemma_store(p: Program, fuel: nat, s: State, lv: LValue, v: ValueModel)
    ensures
        kept(s, store_m(p, fuel, s, lv, v).0),
    decreases fuel, lv, 5nat,
{
    reveal(eval_m);
    match lv {
        LValue::Clone(inner) => lemma_store(p, fuel, s, *inner, v),
        LValue::Index { .. } => lemma_resolve_array(p, fuel, s, lv),
        _ => lemma_target(p, fuel, s, lv),
    }
}

/// A global is evaluated on first reference and kept: once a reference to it has given a value,
/// evaluating anything after it leaves that value in place, and a later reference gives the same
/// value and changes nothing, whatever budget either has.
pub proof fn law_global_evaluated_once(
    p: Program,
    fuel: nat,
    s: State,
    e: Expression,
    g: u32,
    between_fuel: nat,
    between: Expression,
    later_fuel: nat,
    later: Expression,
)
    requires
        global_m(p, fuel, s, e, g).1 is Ok,
    ensures
        ({
            let (s1, r) = global_m(p, fuel, s, e, g);
            let s2 = eval_m(p, between_fuel, s1, between).0;
            global_m(p, later_fuel, s2, later, g) == (s2, r)
        }),
{
    reveal(eval_m);
    let (s1, r) = global_m(p, fuel, s, e, g);
    lemma_global(p, fuel, s, e, g);
    lemma_eval(p, between_fuel, s1, between);
    match global_position(p.globals@, g, 0) {
        Some(k) => {
            assert(k < s.globals.len());
            assert(s1.globals[k as int] == GlobalModel::Done(r->Ok_0));
        },
        None => {},
    }
}

} // verus!
