use ast_interpreter::ast::{
    Definition, Expression, Function, Global, Ident, InlineType, LValue, Literal, MatchCase, Parameter, Program,
    Visibility,
};
use ast_interpreter::bigint::BigInt;
use ast_interpreter::error::{InterpretError, Location};
use ast_interpreter::eval::{BinaryOpKind, Constructor, UnaryOp};
use ast_interpreter::field::{FieldId, FieldValue};
use ast_interpreter::interpreter::{interpret, interpret_with_inputs, Machine};
use ast_interpreter::types::{PrintableType, Signedness, Type};
use ast_interpreter::value::{IntValue, Value};

fn u32_type() -> Type {
    Type::Integer(Signedness::Unsigned, 32)
}

fn u64_type() -> Type {
    Type::Integer(Signedness::Unsigned, 64)
}

fn uint(bits: u8, n: u64) -> Value {
    Value::Int(IntValue::canonical(false, bits, &BigInt::from_u128(n as u128)))
}

fn u32v(n: u32) -> Value {
    uint(32, n as u64)
}

fn u64v(n: u64) -> Value {
    uint(64, n)
}

fn ident(local: u32, name: &str, typ: Type, id: u32) -> Ident {
    Ident {
        location: None,
        definition: Definition::Local(local),
        mutable: true,
        name: name.to_string(),
        typ,
        id,
    }
}

fn local(id: u32, name: &str) -> Expression {
    Expression::Ident(ident(id, name, u64_type(), id))
}

fn lit(typ: &Type, n: u64) -> Expression {
    Expression::Literal(Literal::Integer(BigInt::from_u128(n as u128), clone_type(typ), Location::dummy()))
}

fn clone_type(t: &Type) -> Type {
    match t {
        Type::Integer(s, b) => Type::Integer(*s, *b),
        _ => Type::Field,
    }
}

fn binary(op: BinaryOpKind, lhs: Expression, rhs: Expression) -> Expression {
    Expression::Binary { lhs: Box::new(lhs), operator: op, rhs: Box::new(rhs), location: Location::dummy() }
}

fn let_(id: u32, name: &str, mutable: bool, e: Expression) -> Expression {
    Expression::Let { id, mutable, name: name.to_string(), expression: Box::new(e) }
}

fn assign(lvalue: LValue, e: Expression) -> Expression {
    Expression::Assign { lvalue, expression: Box::new(e) }
}

fn constrain(condition: Expression) -> Expression {
    Expression::Constrain { condition: Box::new(condition), location: Location::dummy(), message: None }
}

fn deref(e: Expression) -> Expression {
    Expression::Unary {
        operator: UnaryOp::Dereference { implicitly_added: false },
        rhs: Box::new(e),
        result_type: u64_type(),
        location: Location::dummy(),
        skip: false,
    }
}

fn reference(e: Expression) -> Expression {
    Expression::Unary {
        operator: UnaryOp::Reference { mutable: true },
        rhs: Box::new(e),
        result_type: Type::Reference(Box::new(u64_type()), true),
        location: Location::dummy(),
        skip: false,
    }
}

fn field(e: Expression, i: usize) -> Expression {
    Expression::ExtractTupleField(Box::new(e), i)
}

fn function(id: u32, params: &[(u32, &str)], body: Expression) -> Function {
    Function {
        id,
        name: if id == 0 { "main".to_string() } else { format!("f{id}") },
        parameters: params
            .iter()
            .map(|(local, name)| Parameter {
                id: *local,
                mutable: false,
                name: name.to_string(),
                typ: u64_type(),
                visibility: Visibility::Private,
            })
            .collect(),
        body,
        return_type: u64_type(),
        return_visibility: Visibility::Public,
        unconstrained: false,
        inline_type: InlineType::Inline,
        is_entry_point: id == 0,
        allow_constant_return: false,
    }
}

fn program(functions: Vec<Function>) -> Program {
    Program { functions, globals: vec![] }
}

#[test]
fn nested_lvalue_indices_evaluate_inner_first() {
    let element = u32_type();
    let row_type = Type::Array(2, Box::new(u32_type()));
    let array_type = Type::Array(2, Box::new(Type::Array(2, Box::new(u32_type()))));
    let array_ident = ident(0, "array", array_type, 0);
    let index_ident = ident(1, "index", u32_type(), 1);
    let index_ident_again = ident(1, "index", u32_type(), 1);

    let inner_index = Expression::Block(vec![
        assign(LValue::Ident(index_ident), lit(&element, 1)),
        lit(&element, 0),
    ]);
    let target = LValue::Index {
        array: Box::new(LValue::Index {
            array: Box::new(LValue::Ident(array_ident)),
            index: Box::new(inner_index),
            element_type: row_type,
            location: Location::dummy(),
        }),
        index: Box::new(Expression::Ident(index_ident_again)),
        element_type: element,
        location: Location::dummy(),
    };

    let program = program(vec![]);
    let mut machine = Machine::new(&program, FieldId::Bn254);
    machine.bind_value(
        0,
        Value::Array(vec![Value::Array(vec![u32v(0), u32v(1)]), Value::Array(vec![u32v(2), u32v(3)])]),
    );
    machine.bind_mutable(1, u32v(0));
    assert_eq!(machine.lvalue_value(&program, u64::MAX, &target).unwrap(), u32v(1));
    assert_eq!(machine.local(1), Some(u32v(1)));
}

/// Field projections taken through references: a reference to a field of a `let mut` tuple,
/// a write through it to a field of that field, and a reference to a field reached through the
/// first reference, all land in the tuple.
#[test]
fn interprets_field_projections_through_references() {
    let t = u64_type();
    let s_ident = || ident(0, "s", u64_type(), 0);
    let r_ident = || ident(1, "r", u64_type(), 1);
    let q_ident = || ident(2, "q", u64_type(), 2);
    let body = Expression::Block(vec![
        let_(
            0,
            "s",
            true,
            Expression::Tuple(vec![lit(&t, 1), Expression::Tuple(vec![lit(&t, 2), lit(&t, 3)])]),
        ),
        let_(1, "r", false, reference(field(Expression::Ident(s_ident()), 1))),
        assign(
            LValue::MemberAccess {
                object: Box::new(LValue::Dereference {
                    reference: Box::new(LValue::Ident(r_ident())),
                    element_type: u64_type(),
                }),
                field_index: 0,
            },
            lit(&t, 20),
        ),
        let_(2, "q", false, reference(field(deref(Expression::Ident(r_ident())), 1))),
        assign(
            LValue::Dereference { reference: Box::new(LValue::Ident(q_ident())), element_type: u64_type() },
            lit(&t, 30),
        ),
        constrain(binary(BinaryOpKind::Equal, field(field(Expression::Ident(s_ident()), 1), 0), lit(&t, 20))),
        constrain(binary(BinaryOpKind::Equal, field(field(Expression::Ident(s_ident()), 1), 1), lit(&t, 30))),
        constrain(binary(BinaryOpKind::Equal, field(deref(Expression::Ident(r_ident())), 1), lit(&t, 30))),
        constrain(binary(BinaryOpKind::Equal, field(Expression::Ident(s_ident()), 0), lit(&t, 1))),
        Expression::Literal(Literal::Unit),
    ]);
    let p = program(vec![function(0, &[], body)]);
    for field_id in [FieldId::Bn254, FieldId::Goldilocks] {
        assert_eq!(interpret(&p, field_id).unwrap(), Value::Unit);
    }
}

#[test]
fn interprets_calls_with_inputs_under_both_fields() {
    let t = u64_type();
    let double_plus_one = function(
        1,
        &[(10, "y")],
        binary(BinaryOpKind::Add, binary(BinaryOpKind::Multiply, local(10, "y"), lit(&t, 2)), lit(&t, 1)),
    );
    let main = function(
        0,
        &[(0, "x")],
        Expression::Call {
            func: Box::new(Expression::Ident(Ident {
                location: None,
                definition: Definition::Function(1),
                mutable: false,
                name: "f1".to_string(),
                typ: Type::Function(vec![u64_type()], Box::new(u64_type()), Box::new(Type::Unit), false),
                id: 100,
            })),
            arguments: vec![local(0, "x")],
            return_type: u64_type(),
            location: Location::dummy(),
        },
    );
    let p = program(vec![main, double_plus_one]);
    for field_id in [FieldId::Bn254, FieldId::Goldilocks] {
        assert_eq!(interpret_with_inputs(&p, vec![u64v(20)], field_id).unwrap(), u64v(41));
    }
    match interpret_with_inputs(&p, vec![], FieldId::Bn254) {
        Err(InterpretError::InvalidInput(m)) => assert_eq!(m, "entry point expects 1 input(s), got 0"),
        other => panic!("unexpected {other:?}"),
    }
}

#[test]
fn for_loops_sum_and_break() {
    let t = u64_type();
    let body = Expression::Block(vec![
        let_(0, "sum", true, lit(&t, 0)),
        Expression::For {
            index_variable: 1,
            index_name: "i".to_string(),
            index_type: u64_type(),
            start_range: Box::new(lit(&t, 0)),
            end_range: Box::new(lit(&t, 10)),
            inclusive: false,
            block: Box::new(Expression::Block(vec![
                Expression::If {
                    condition: Box::new(binary(BinaryOpKind::Equal, local(1, "i"), lit(&t, 5))),
                    consequence: Box::new(Expression::Break),
                    alternative: None,
                    typ: Type::Unit,
                },
                assign(
                    LValue::Ident(ident(0, "sum", u64_type(), 0)),
                    binary(BinaryOpKind::Add, local(0, "sum"), local(1, "i")),
                ),
            ])),
        },
        local(0, "sum"),
    ]);
    let p = program(vec![function(0, &[], body)]);
    assert_eq!(interpret(&p, FieldId::Goldilocks).unwrap(), u64v(10));
}

#[test]
fn a_loop_that_never_breaks_spends_its_budget() {
    let p = program(vec![]);
    let mut machine = Machine::new(&p, FieldId::Bn254);
    let forever = Expression::Loop(Box::new(Expression::Block(vec![])));
    match machine.evaluate(&p, 5, &forever) {
        Err(InterpretError::Unsupported(m)) => assert_eq!(m, "evaluation budget exhausted"),
        other => panic!("unexpected {other:?}"),
    }
}

#[test]
fn writes_through_a_reference_reach_the_local() {
    let t = u64_type();
    let body = Expression::Block(vec![
        let_(0, "x", true, lit(&t, 1)),
        let_(1, "r", false, reference(local(0, "x"))),
        assign(
            LValue::Dereference { reference: Box::new(LValue::Ident(ident(1, "r", u64_type(), 1))), element_type: u64_type() },
            lit(&t, 5),
        ),
        local(0, "x"),
    ]);
    let p = program(vec![function(0, &[], body)]);
    assert_eq!(interpret(&p, FieldId::Bn254).unwrap(), u64v(5));
}

#[test]
fn failed_assertion_carries_its_message_and_location() {
    let loc = Location { file: 3, start: 7, end: 9 };
    let body = Expression::Constrain {
        condition: Box::new(Expression::Literal(Literal::Bool(false))),
        location: loc,
        message: Some((Box::new(Expression::Literal(Literal::Str(b"boom".to_vec()))), PrintableType::String { length: 4 })),
    };
    let p = program(vec![function(0, &[], body)]);
    match interpret(&p, FieldId::Bn254) {
        Err(InterpretError::AssertionFailed { location, message }) => {
            assert_eq!(location, loc);
            assert_eq!(message, Some("boom".to_string()));
        },
        other => panic!("unexpected {other:?}"),
    }
}

#[test]
fn reading_past_an_array_fails_as_an_assertion() {
    let t = u64_type();
    let body = Expression::Index {
        collection: Box::new(Expression::Literal(Literal::Array { typ: u64_type(), contents: vec![lit(&t, 1), lit(&t, 2)] })),
        index: Box::new(lit(&t, 2)),
        element_type: u64_type(),
        location: Location::dummy(),
    };
    let p = program(vec![function(0, &[], body)]);
    match interpret(&p, FieldId::Bn254) {
        Err(InterpretError::AssertionFailed { message, .. }) => {
            assert_eq!(message, Some("Index out of bounds, array has size 2, but index was 2".to_string()))
        },
        other => panic!("unexpected {other:?}"),
    }
}

#[test]
fn a_global_defined_in_terms_of_itself_fails() {
    let global_ref = Expression::Ident(Ident {
        location: None,
        definition: Definition::Global(0),
        mutable: false,
        name: "G".to_string(),
        typ: u64_type(),
        id: 0,
    });
    let global_ref_again = Expression::Ident(Ident {
        location: None,
        definition: Definition::Global(0),
        mutable: false,
        name: "G".to_string(),
        typ: u64_type(),
        id: 1,
    });
    let p = Program {
        functions: vec![function(0, &[], global_ref)],
        globals: vec![Global { id: 0, name: "G".to_string(), typ: u64_type(), expression: global_ref_again }],
    };
    match interpret(&p, FieldId::Bn254) {
        Err(InterpretError::Internal(m)) => assert_eq!(m, "global GlobalId(0) is defined in terms of itself"),
        other => panic!("unexpected {other:?}"),
    }
}

#[test]
fn a_global_is_evaluated_once_and_kept() {
    let t = u64_type();
    let g = || {
        Expression::Ident(Ident {
            location: None,
            definition: Definition::Global(7),
            mutable: false,
            name: "G".to_string(),
            typ: u64_type(),
            id: 0,
        })
    };
    let p = Program {
        functions: vec![function(0, &[], binary(BinaryOpKind::Add, g(), g()))],
        globals: vec![Global { id: 7, name: "G".to_string(), typ: u64_type(), expression: lit(&t, 21) }],
    };
    assert_eq!(interpret(&p, FieldId::Goldilocks).unwrap(), u64v(42));
}

#[test]
fn integer_match_takes_the_first_matching_case() {
    let t = u64_type();
    let case = |n: u64, result: u64| MatchCase {
        constructor: Constructor::Int(BigInt::from_u128(n as u128)),
        arguments: vec![],
        branch: lit(&t, result),
    };
    let body = Expression::Match {
        variable: 0,
        variable_name: "x".to_string(),
        cases: vec![case(2, 300), case(3, 400)],
        default_case: Some(Box::new(binary(BinaryOpKind::Multiply, local(0, "x"), lit(&t, 10)))),
        typ: u64_type(),
    };
    let p = program(vec![function(0, &[(0, "x")], body)]);
    assert_eq!(interpret_with_inputs(&p, vec![u64v(2)], FieldId::Bn254).unwrap(), u64v(300));
    assert_eq!(interpret_with_inputs(&p, vec![u64v(5)], FieldId::Bn254).unwrap(), u64v(50));
}

#[test]
fn a_string_literal_that_is_not_utf8_is_unsupported() {
    let p = program(vec![function(0, &[], Expression::Literal(Literal::Str(vec![0xff, 0xfe])))]);
    match interpret(&p, FieldId::Bn254) {
        Err(InterpretError::Unsupported(m)) => assert!(m.starts_with("non-UTF-8 string literal: "), "{m}"),
        other => panic!("unexpected {other:?}"),
    }
    let ok = program(vec![function(0, &[], Expression::Literal(Literal::Str(b"hi".to_vec())))]);
    assert_eq!(interpret(&ok, FieldId::Bn254).unwrap(), Value::Str("hi".to_string()));
}

#[test]
fn inputs_from_another_field_or_outside_their_type_are_refused() {
    let p = program(vec![function(0, &[(0, "x")], local(0, "x"))]);
    match interpret_with_inputs(&p, vec![u64v(7)], FieldId::Bn254) {
        Ok(v) => assert_eq!(v, u64v(7)),
        other => panic!("unexpected {other:?}"),
    }
    let foreign = Value::Field(ast_interpreter::field::FieldValue::one(FieldId::Goldilocks));
    match interpret_with_inputs(&p, vec![foreign], FieldId::Bn254) {
        Err(InterpretError::InvalidInput(_)) => {},
        other => panic!("unexpected {other:?}"),
    }
    let too_big = Value::Int(IntValue { signed: false, bits: 8, value: BigInt::from_u128(256) });
    match interpret_with_inputs(&p, vec![too_big], FieldId::Bn254) {
        Err(InterpretError::InvalidInput(_)) => {},
        other => panic!("unexpected {other:?}"),
    }
}

#[test]
fn a_field_free_program_has_one_outcome_under_both_fields() {
    let t = Type::Integer(Signedness::Unsigned, 8);
    let sum = program(vec![function(
        0,
        &[(0, "x")],
        Expression::Block(vec![
            let_(1, "y", false, binary(BinaryOpKind::Add, local(0, "x"), lit(&t, 100))),
            binary(BinaryOpKind::Less, local(0, "x"), local(1, "y")),
        ]),
    )]);
    let ok_bn254 = interpret_with_inputs(&sum, vec![uint(8, 20)], FieldId::Bn254);
    let ok_goldilocks = interpret_with_inputs(&sum, vec![uint(8, 20)], FieldId::Goldilocks);
    assert_eq!(ok_bn254.unwrap(), Value::Bool(true));
    assert_eq!(ok_goldilocks.unwrap(), Value::Bool(true));
    let overflow_bn254 = interpret_with_inputs(&sum, vec![uint(8, 200)], FieldId::Bn254);
    let overflow_goldilocks = interpret_with_inputs(&sum, vec![uint(8, 200)], FieldId::Goldilocks);
    assert!(matches!(overflow_bn254, Err(InterpretError::Overflow(_))));
    assert_eq!(format!("{overflow_bn254:?}"), format!("{overflow_goldilocks:?}"));
}

fn call(id: u32, arguments: Vec<Expression>, return_type: Type) -> Expression {
    Expression::Call {
        func: Box::new(Expression::Ident(Ident {
            location: None,
            definition: Definition::Function(id),
            mutable: false,
            name: format!("f{id}"),
            typ: Type::Unit,
            id: 1000 + id,
        })),
        arguments,
        return_type,
        location: Location::dummy(),
    }
}

/// A literal-integer `match` on an `i32`: an exact case (`x = 2 => 300`), the wildcard default
/// (`x = 5 => 50`, that is `5 * 10`) and a negative literal case (`x = -2 => 100`).
#[test]
fn interprets_integer_match() {
    let t = Type::Integer(Signedness::Signed, 32);
    let lit32 = |v: i128| {
        Expression::Literal(Literal::Integer(BigInt::from_i128(v), Type::Integer(Signedness::Signed, 32), Location::dummy()))
    };
    let case = |n: i128, result: i128| MatchCase {
        constructor: Constructor::Int(BigInt::from_i128(n)),
        arguments: vec![],
        branch: lit32(result),
    };
    let body = Expression::Match {
        variable: 0,
        variable_name: "x".to_string(),
        cases: vec![case(2, 300), case(-2, 100)],
        default_case: Some(Box::new(binary(BinaryOpKind::Multiply, local(0, "x"), lit32(10)))),
        typ: t,
    };
    let p = program(vec![function(0, &[(0, "x")], body)]);
    let i32v = |v: i128| Value::Int(IntValue::canonical(true, 32, &BigInt::from_i128(v)));
    let run = |x: i128| interpret_with_inputs(&p, vec![i32v(x)], FieldId::Bn254).unwrap();
    assert_eq!(run(2), i32v(300), "exact case");
    assert_eq!(run(5), i32v(50), "wildcard default (5 * 10)");
    assert_eq!(run(-2), i32v(100), "negative literal case");
}

/// A `&mut` threaded through `main -> twice -> bump` mutates one shared cell: `100 + 5 + 5 == 110`.
#[test]
fn interprets_reference_call_chain() {
    let t = u32_type();
    let r = |id: u32| Expression::Ident(ident(0, "r", Type::Reference(Box::new(u32_type()), true), id));
    let bump = function(
        2,
        &[(0, "r")],
        assign(
            LValue::Dereference { reference: Box::new(LValue::Ident(ident(0, "r", u32_type(), 20))), element_type: u32_type() },
            binary(BinaryOpKind::Add, deref(r(21)), lit(&t, 5)),
        ),
    );
    let twice = function(
        1,
        &[(0, "r")],
        Expression::Block(vec![
            Expression::Semi(Box::new(call(2, vec![r(10)], Type::Unit))),
            Expression::Semi(Box::new(call(2, vec![r(11)], Type::Unit))),
        ]),
    );
    let main = function(
        0,
        &[],
        Expression::Block(vec![
            let_(0, "x", true, lit(&t, 100)),
            Expression::Semi(Box::new(call(1, vec![reference(local(0, "x"))], Type::Unit))),
            local(0, "x"),
        ]),
    );
    let p = program(vec![main, twice, bump]);
    for field_id in [FieldId::Bn254, FieldId::Goldilocks] {
        assert_eq!(interpret(&p, field_id).unwrap(), u32v(110));
    }
}

/// Under bn254 every `u64` is below the modulus and the cast to `Field` keeps the value:
/// `hi = lo = u32::MAX` gives `u64::MAX`.
#[test]
fn bn254_casts_u64_to_field_exactly() {
    let cast = |e: Expression, typ: Type| Expression::Cast { lhs: Box::new(e), typ, location: Location::dummy() };
    let wide = binary(
        BinaryOpKind::Or,
        binary(BinaryOpKind::ShiftLeft, cast(local(0, "hi"), u64_type()), lit(&u64_type(), 32)),
        cast(local(1, "lo"), u64_type()),
    );
    let p = program(vec![function(0, &[(0, "hi"), (1, "lo")], cast(wide, Type::Field))]);
    let result = interpret_with_inputs(&p, vec![u32v(u32::MAX), u32v(u32::MAX)], FieldId::Bn254).unwrap();
    let expected = FieldValue::reduce(FieldId::Bn254, &BigInt::from_u128(u64::MAX as u128));
    assert_eq!(result, Value::Field(expected));
}

/// A false assertion that no constant folding removes interprets to `AssertionFailed`.
#[test]
fn detects_false_assertion() {
    let t = u32_type();
    let body = Expression::Block(vec![
        let_(0, "x", false, lit(&t, 1)),
        constrain(binary(BinaryOpKind::Equal, local(0, "x"), lit(&t, 2))),
    ]);
    let p = program(vec![function(0, &[], body)]);
    match interpret(&p, FieldId::Bn254) {
        Err(InterpretError::AssertionFailed { .. }) => {},
        other => panic!("expected AssertionFailed, got {other:?}"),
    }
}

#[test]
fn a_message_that_runs_out_of_budget_ends_the_run_with_that_error() {
    let p = program(vec![]);
    let forever = Expression::Loop(Box::new(Expression::Block(vec![])));
    let assertion = |message: Expression| Expression::Constrain {
        condition: Box::new(Expression::Literal(Literal::Bool(false))),
        location: Location::dummy(),
        message: Some((Box::new(message), PrintableType::String { length: 0 })),
    };
    let mut machine = Machine::new(&p, FieldId::Bn254);
    match machine.evaluate(&p, 5, &assertion(forever)) {
        Err(InterpretError::Unsupported(m)) => assert_eq!(m, "evaluation budget exhausted"),
        other => panic!("unexpected {other:?}"),
    }
    let mut machine = Machine::new(&p, FieldId::Bn254);
    let failing = binary(BinaryOpKind::Add, Expression::Literal(Literal::Bool(true)), lit(&u64_type(), 1));
    match machine.evaluate(&p, 5, &assertion(failing)) {
        Err(InterpretError::AssertionFailed { message, .. }) => assert_eq!(message, None),
        other => panic!("unexpected {other:?}"),
    }
}

#[test]
fn a_returned_reference_gives_the_value_it_points_to() {
    let t = u64_type();
    let body = Expression::Block(vec![
        let_(0, "x", true, lit(&t, 5)),
        Expression::Tuple(vec![reference(local(0, "x")), lit(&t, 1)]),
    ]);
    let p = program(vec![function(0, &[], body)]);
    let result = interpret(&p, FieldId::Bn254).unwrap();
    assert_eq!(result, Value::Tuple(vec![u64v(5), u64v(1)]));
    assert_eq!(
        ast_interpreter::diff::DiffValue::from_value(&Vec::new(), &result),
        ast_interpreter::diff::DiffValue::from_value(&Vec::new(), &Value::Tuple(vec![u64v(5), u64v(1)]))
    );
}

/// Under bn254 a `u66` input of `2^65`, above the Goldilocks modulus, is taken and returned.
#[test]
fn bn254_accepts_input_above_the_goldilocks_modulus() {
    let p = program(vec![function(0, &[(0, "x")], local(0, "x"))]);
    let wide = Value::Int(IntValue::canonical(false, 66, &BigInt::from_u128(1u128 << 65)));
    assert_eq!(interpret_with_inputs(&p, vec![wide.duplicate()], FieldId::Bn254).unwrap(), wide);
}
