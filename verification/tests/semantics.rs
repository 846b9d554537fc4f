use ast_interpreter::bigint::BigInt;
use ast_interpreter::error::InterpretError;
use ast_interpreter::eval::{
    eval_binary, eval_cast, eval_int_binary, eval_unary, same_aggregate_shape, BinaryOpKind, UnaryOp,
};
use ast_interpreter::field::{FieldId, FieldValue};
use ast_interpreter::format::format_value;
use ast_interpreter::types::{PrintableType, Signedness, Type};
use ast_interpreter::value::{IntValue, Value};

fn iv(signed: bool, bits: u8, v: i128) -> IntValue {
    IntValue::canonical(signed, bits, &BigInt::from_i128(v))
}

fn eval(op: BinaryOpKind, a: IntValue, b: IntValue) -> Result<Value, InterpretError> {
    eval_int_binary(op, a, b)
}

fn as_i128(value: Value) -> i128 {
    let Value::Int(i) = value else {
        panic!("expected integer, got {value:?}");
    };
    i.value.to_decimal().parse().expect("fits i128")
}

fn i32v(n: i128) -> Value {
    Value::Int(iv(true, 32, n))
}

fn u64v(n: u64) -> Value {
    Value::Int(IntValue::canonical(false, 64, &BigInt::from_u128(n as u128)))
}

#[test]
fn signed_division_truncates_toward_zero() {
    let cases = [(-7, 2, -3), (7, -2, -3), (-7, -2, 3), (7, 2, 3), (-8, 3, -2)];
    for (a, b, expected) in cases {
        let got = as_i128(eval(BinaryOpKind::Divide, iv(true, 8, a), iv(true, 8, b)).unwrap());
        assert_eq!(got, expected, "{a} / {b}");
    }
}

#[test]
fn signed_remainder_takes_dividend_sign() {
    let cases = [(-7, 2, -1), (7, -2, 1), (-7, -2, -1), (7, 2, 1)];
    for (a, b, expected) in cases {
        let got = as_i128(eval(BinaryOpKind::Modulo, iv(true, 8, a), iv(true, 8, b)).unwrap());
        assert_eq!(got, expected, "{a} % {b}");
    }
}

#[test]
fn signed_modulo_overflows_on_min_mod_neg_one() {
    assert!(matches!(
        eval(BinaryOpKind::Modulo, iv(true, 8, -128), iv(true, 8, -1)),
        Err(InterpretError::Overflow(_))
    ));
    assert_eq!(as_i128(eval(BinaryOpKind::Modulo, iv(true, 8, -7), iv(true, 8, 3)).unwrap()), -1);
}

#[test]
fn unsigned_division_is_floor() {
    let got = as_i128(eval(BinaryOpKind::Divide, iv(false, 8, 200), iv(false, 8, 7)).unwrap());
    assert_eq!(got, 28);
    let rem = as_i128(eval(BinaryOpKind::Modulo, iv(false, 8, 200), iv(false, 8, 7)).unwrap());
    assert_eq!(rem, 4);
}

#[test]
fn unsigned_bitwise_matches_bit_patterns() {
    assert_eq!(as_i128(eval(BinaryOpKind::And, iv(false, 8, 12), iv(false, 8, 10)).unwrap()), 8);
    assert_eq!(as_i128(eval(BinaryOpKind::Or, iv(false, 8, 12), iv(false, 8, 10)).unwrap()), 14);
    assert_eq!(as_i128(eval(BinaryOpKind::Xor, iv(false, 8, 12), iv(false, 8, 10)).unwrap()), 6);
}

#[test]
fn shift_right_logical_and_arithmetic() {
    assert_eq!(as_i128(eval(BinaryOpKind::ShiftRight, iv(false, 8, 200), iv(false, 8, 2)).unwrap()), 50);
    assert_eq!(as_i128(eval(BinaryOpKind::ShiftRight, iv(true, 8, -8), iv(true, 8, 1)).unwrap()), -4);
    assert!(matches!(
        eval(BinaryOpKind::ShiftRight, iv(false, 8, 1), iv(false, 8, 8)),
        Err(InterpretError::Overflow(_))
    ));
}

#[test]
fn shift_left_wraps_value_errors_only_on_overshift() {
    assert_eq!(as_i128(eval(BinaryOpKind::ShiftLeft, iv(false, 8, 0xff), iv(false, 8, 1)).unwrap()), 0xfe);
    assert_eq!(as_i128(eval(BinaryOpKind::ShiftLeft, iv(false, 8, 1), iv(false, 8, 7)).unwrap()), 128);
    assert!(matches!(
        eval(BinaryOpKind::ShiftLeft, iv(false, 8, 1), iv(false, 8, 8)),
        Err(InterpretError::Overflow(_))
    ));
}

#[test]
fn arithmetic_is_checked_not_wrapping() {
    assert!(matches!(
        eval(BinaryOpKind::Add, iv(false, 8, 200), iv(false, 8, 100)),
        Err(InterpretError::Overflow(_))
    ));
    assert!(matches!(
        eval(BinaryOpKind::Add, iv(true, 8, 100), iv(true, 8, 44)),
        Err(InterpretError::Overflow(_))
    ));
    assert!(matches!(
        eval(BinaryOpKind::Subtract, iv(false, 8, 0), iv(false, 8, 1)),
        Err(InterpretError::Overflow(_))
    ));
}

#[test]
fn div_and_mod_by_zero_error() {
    for (signed, bits) in [(false, 8u8), (true, 8), (false, 64), (true, 128)] {
        let a = iv(signed, bits, 7);
        let zero = iv(signed, bits, 0);
        assert!(matches!(
            eval_int_binary(BinaryOpKind::Divide, a.clone(), zero.clone()),
            Err(InterpretError::DivisionByZero)
        ));
        assert!(matches!(eval_int_binary(BinaryOpKind::Modulo, a, zero), Err(InterpretError::DivisionByZero)));
    }
}

#[test]
fn signed_min_div_mod_neg_one_overflow() {
    for bits in [8u8, 16, 32, 64, 128] {
        let (min, _) = IntValue::range(true, bits);
        let a = IntValue::canonical(true, bits, &min);
        let neg_one = iv(true, bits, -1);
        assert!(matches!(
            eval_int_binary(BinaryOpKind::Divide, a.clone(), neg_one.clone()),
            Err(InterpretError::Overflow(_))
        ));
        assert!(matches!(eval_int_binary(BinaryOpKind::Modulo, a, neg_one), Err(InterpretError::Overflow(_))));
    }
}

#[test]
fn aggregate_shape_matches_only_same_kind() {
    assert!(same_aggregate_shape(&Value::Array(vec![]), &Value::Array(vec![])));
    assert!(same_aggregate_shape(&Value::Tuple(vec![]), &Value::Tuple(vec![])));
    assert!(same_aggregate_shape(&Value::Str("a".into()), &Value::Str("b".into())));
    assert!(!same_aggregate_shape(&i32v(1), &i32v(2)));
    assert!(!same_aggregate_shape(&Value::Array(vec![]), &Value::Tuple(vec![])));
}

#[test]
fn format_value_uses_noir_display_rules() {
    let i32_type = PrintableType::SignedInteger { width: 32 };
    let store: Vec<Value> = vec![i32v(5)];
    assert_eq!(format_value(&store, 0, &i32v(-7), &i32_type).unwrap(), "-7");
    assert_eq!(
        format_value(
            &store,
            0,
            &Value::Array(vec![i32v(1), i32v(2)]),
            &PrintableType::Vector { typ: Box::new(PrintableType::SignedInteger { width: 32 }) }
        )
        .unwrap(),
        "@[1, 2]"
    );
    let reference = Value::Ref(0, vec![]);
    assert_eq!(format_value(&store, 1, &reference, &i32_type).unwrap(), "5");
    assert_eq!(
        format_value(&store, 1, &reference, &PrintableType::Reference { typ: Box::new(PrintableType::SignedInteger { width: 32 }), mutable: true })
            .unwrap(),
        "<<mutable ref>>"
    );
    assert!(format_value(&store, 0, &reference, &i32_type).is_err());
}

/// Integer-to-integer casts keep a `u64` above the Goldilocks modulus intact under both fields.
#[test]
fn interprets_casts_above_the_modulus() {
    let above = 18446744069414584322u64; // the Goldilocks modulus plus one
    for field in [FieldId::Bn254, FieldId::Goldilocks] {
        for n in [above, u64::MAX] {
            let wide = eval_cast(field, u64v(n), &Type::Integer(Signedness::Unsigned, 128)).unwrap();
            assert_eq!(as_i128(wide.clone()), n as i128);
            let back = eval_cast(field, wide, &Type::Integer(Signedness::Unsigned, 64)).unwrap();
            assert_eq!(back, u64v(n));
            let signed = eval_cast(field, u64v(n), &Type::Integer(Signedness::Signed, 128)).unwrap();
            assert_eq!(as_i128(signed), n as i128);
            let same = eval_cast(field, u64v(n), &Type::Integer(Signedness::Unsigned, 64)).unwrap();
            assert_eq!(same, u64v(n));
        }
    }
}

#[test]
fn narrowing_casts_truncate_to_the_bit_pattern() {
    let out = eval_cast(FieldId::Bn254, Value::Int(iv(false, 16, 0x1ff)), &Type::Integer(Signedness::Unsigned, 8)).unwrap();
    assert_eq!(as_i128(out), 0xff);
    let out = eval_cast(FieldId::Bn254, Value::Int(iv(false, 8, 200)), &Type::Integer(Signedness::Signed, 8)).unwrap();
    assert_eq!(as_i128(out), -56);
    let out = eval_cast(FieldId::Bn254, Value::Int(iv(true, 8, -1)), &Type::Integer(Signedness::Unsigned, 16)).unwrap();
    assert_eq!(as_i128(out), 0xffff);
    let out = eval_cast(FieldId::Bn254, Value::Bool(true), &Type::Integer(Signedness::Unsigned, 8)).unwrap();
    assert_eq!(as_i128(out), 1);
}

#[test]
fn casts_to_field_reduce_and_signed_casts_are_refused() {
    let out = eval_cast(FieldId::Goldilocks, u64v(u64::MAX), &Type::Field).unwrap();
    match out {
        Value::Field(f) => assert_eq!(f.value().to_decimal(), "4294967294"),
        other => panic!("expected a field, got {other:?}"),
    }
    assert!(matches!(eval_cast(FieldId::Bn254, i32v(-1), &Type::Field), Err(InterpretError::Type(_))));
    assert!(matches!(eval_cast(FieldId::Bn254, i32v(1), &Type::Bool), Err(InterpretError::Type(_))));
    assert!(matches!(eval_cast(FieldId::Bn254, Value::Unit, &Type::Unit), Err(InterpretError::Unsupported(_))));
}

#[test]
fn unary_operators_negate_and_complement() {
    assert_eq!(as_i128(eval_unary(UnaryOp::Minus, i32v(5)).unwrap()), -5);
    assert!(matches!(
        eval_unary(UnaryOp::Minus, Value::Int(iv(true, 8, -128))),
        Err(InterpretError::Overflow(_))
    ));
    assert!(matches!(eval_unary(UnaryOp::Minus, Value::Int(iv(false, 8, 1))), Err(InterpretError::Overflow(_))));
    assert_eq!(as_i128(eval_unary(UnaryOp::Not, Value::Int(iv(false, 8, 0x0f))).unwrap()), 0xf0);
    assert_eq!(as_i128(eval_unary(UnaryOp::Not, Value::Int(iv(true, 8, 0))).unwrap()), -1);
    assert_eq!(eval_unary(UnaryOp::Not, Value::Bool(true)).unwrap(), Value::Bool(false));
    assert!(matches!(eval_unary(UnaryOp::Not, Value::Unit), Err(InterpretError::Type(_))));
    let one = FieldValue::one(FieldId::Goldilocks);
    match eval_unary(UnaryOp::Minus, Value::Field(one)).unwrap() {
        Value::Field(f) => assert_eq!(f.value().to_decimal(), "18446744069414584320"),
        other => panic!("expected a field, got {other:?}"),
    }
}

#[test]
fn comparisons_and_field_arithmetic() {
    assert_eq!(eval_binary(BinaryOpKind::Less, i32v(-1), i32v(2)).unwrap(), Value::Bool(true));
    assert_eq!(eval_binary(BinaryOpKind::GreaterEqual, i32v(-1), i32v(2)).unwrap(), Value::Bool(false));
    assert_eq!(eval_binary(BinaryOpKind::Equal, Value::Bool(true), Value::Bool(true)).unwrap(), Value::Bool(true));
    let p = FieldId::Goldilocks;
    let two = Value::Field(FieldValue::reduce(p, &BigInt::from_u128(2)));
    let three = Value::Field(FieldValue::reduce(p, &BigInt::from_u128(3)));
    match eval_binary(BinaryOpKind::Subtract, two, three).unwrap() {
        Value::Field(f) => assert_eq!(f.value().to_decimal(), "18446744069414584320"),
        other => panic!("expected a field, got {other:?}"),
    }
    let zero = Value::Field(FieldValue::zero(p));
    let one = Value::Field(FieldValue::one(p));
    assert!(matches!(eval_binary(BinaryOpKind::Divide, one, zero), Err(InterpretError::DivisionByZero)));
}
