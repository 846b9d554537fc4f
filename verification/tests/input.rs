use ast_interpreter::bigint::BigInt;
use ast_interpreter::error::InterpretError;
use ast_interpreter::field::{FieldId, FieldValue};
use ast_interpreter::input::{
    check_int, expected_return_from_parsed, inputs_from_parsed, scalar_abi_matches, validate_inputs,
    value_from_input, AbiSign, AbiType, InputValue,
};
use ast_interpreter::types::{Signedness, Type};
use ast_interpreter::value::{IntValue, Value};

fn element(n: u128) -> InputValue {
    InputValue::Field(Ok(BigInt::from_u128(n)))
}

fn int_of(signed: bool, bits: u8, value: i128) -> IntValue {
    IntValue { signed, bits, value: BigInt::from_i128(value) }
}

#[test]
fn a_scalar_whose_abi_type_disagrees_with_its_program_type_is_refused() {
    let u64_abi = || AbiType::Integer { sign: AbiSign::Unsigned, width: 64 };
    let u8_abi = AbiType::Integer { sign: AbiSign::Unsigned, width: 8 };
    let input = element(5);
    for (abi_type, typ) in [
        (AbiType::Field, Type::Bool),
        (u64_abi(), Type::Bool),
        (u64_abi(), Type::Integer(Signedness::Unsigned, 8)),
        (u8_abi, Type::Integer(Signedness::Signed, 8)),
        (AbiType::Boolean, Type::Field),
    ] {
        assert!(!scalar_abi_matches(&abi_type, &typ));
        let result = value_from_input(&input, &abi_type, &typ, FieldId::Bn254);
        assert!(matches!(result, Err(InterpretError::Internal(_))), "{abi_type:?} as {typ:?}: {result:?}");
    }
}

#[test]
fn scalars_read_in_the_programs_field() {
    for field in [FieldId::Bn254, FieldId::Goldilocks] {
        let minus_one = FieldValue::one(field).neg();
        let encoded = InputValue::Field(Ok(minus_one.value()));
        assert_eq!(
            value_from_input(&encoded, &AbiType::Field, &Type::Field, field).unwrap(),
            Value::Field(FieldValue::one(field).neg())
        );
        assert_eq!(
            value_from_input(&element(1), &AbiType::Boolean, &Type::Bool, field).unwrap(),
            Value::Bool(true)
        );
    }
    // An integer's element is its two's-complement pattern at the type's width.
    let i8_abi = AbiType::Integer { sign: AbiSign::Signed, width: 8 };
    assert_eq!(
        value_from_input(&element(255), &i8_abi, &Type::Integer(Signedness::Signed, 8), FieldId::Bn254).unwrap(),
        Value::Int(IntValue::canonical(true, 8, &BigInt::from_i128(-1)))
    );
    let refused = InputValue::Field(Err("value exceeds the type".to_string()));
    assert!(matches!(
        value_from_input(&refused, &AbiType::Field, &Type::Field, FieldId::Bn254),
        Err(InterpretError::InvalidInput(_))
    ));
}

#[test]
fn aggregates_read_element_by_element() {
    let u8_abi = AbiType::Integer { sign: AbiSign::Unsigned, width: 8 };
    let u8_type = || Type::Integer(Signedness::Unsigned, 8);
    let array_abi = AbiType::Array { length: 2, typ: Box::new(u8_abi) };
    let array_type = Type::Array(2, Box::new(u8_type()));
    let input = InputValue::Vec(vec![element(1), element(2)]);
    let u8v = |n: u128| Value::Int(IntValue::canonical(false, 8, &BigInt::from_u128(n)));
    assert_eq!(
        value_from_input(&input, &array_abi, &array_type, FieldId::Bn254).unwrap(),
        Value::Array(vec![u8v(1), u8v(2)])
    );
    let short = InputValue::Vec(vec![element(1)]);
    assert!(matches!(
        value_from_input(&short, &array_abi, &array_type, FieldId::Bn254),
        Err(InterpretError::InvalidInput(_))
    ));
    let struct_abi = AbiType::Struct {
        path: "Point".to_string(),
        fields: vec![("x".to_string(), AbiType::Field), ("y".to_string(), AbiType::Boolean)],
    };
    let struct_type = Type::Tuple(vec![Type::Field, Type::Bool]);
    let by_name = InputValue::Struct(vec![("y".to_string(), element(0)), ("x".to_string(), element(7))]);
    assert_eq!(
        value_from_input(&by_name, &struct_abi, &struct_type, FieldId::Goldilocks).unwrap(),
        Value::Tuple(vec![
            Value::Field(FieldValue::reduce(FieldId::Goldilocks, &BigInt::from_u128(7))),
            Value::Bool(false)
        ])
    );
}

#[test]
fn inputs_bind_to_parameters_by_name() {
    let parsed = vec![("y".to_string(), element(2)), ("x".to_string(), element(1)), ("return".to_string(), element(3))];
    let abi = vec![("x".to_string(), AbiType::Field), ("y".to_string(), AbiType::Field)];
    let params = vec![("x".to_string(), Type::Field), ("y".to_string(), Type::Field)];
    let fv = |n: u128| Value::Field(FieldValue::reduce(FieldId::Bn254, &BigInt::from_u128(n)));
    assert_eq!(inputs_from_parsed(&parsed, &abi, &params, FieldId::Bn254).unwrap(), vec![fv(1), fv(2)]);
    assert_eq!(
        expected_return_from_parsed(&parsed, &Some(AbiType::Field), &Type::Field, FieldId::Bn254).unwrap(),
        Some(fv(3))
    );
    let without_return = vec![("y".to_string(), element(2)), ("x".to_string(), element(1))];
    assert_eq!(expected_return_from_parsed(&without_return, &None, &Type::Field, FieldId::Bn254).unwrap(), None);
    assert!(matches!(
        expected_return_from_parsed(&parsed, &None, &Type::Field, FieldId::Bn254),
        Err(InterpretError::Internal(_))
    ));
    let missing = vec![("x".to_string(), element(1))];
    assert!(matches!(
        inputs_from_parsed(&missing, &abi, &params, FieldId::Bn254),
        Err(InterpretError::Internal(_))
    ));
}

#[test]
fn rejects_inputs_from_another_field() {
    let (field, other) = (FieldId::Bn254, FieldId::Goldilocks);
    let good = || Value::Field(FieldValue::one(field));
    let bad = || Value::Field(FieldValue::one(other));
    assert!(validate_inputs(&vec![good()], field).is_ok());
    assert!(validate_inputs(&vec![Value::Tuple(vec![Value::Array(vec![good()]), good()])], field).is_ok());
    for hidden in [
        bad(),
        Value::Array(vec![bad()]),
        Value::Tuple(vec![Value::Array(vec![bad()]), good()]),
        Value::Tuple(vec![Value::Tuple(vec![bad()])]),
    ] {
        match validate_inputs(&vec![hidden], field) {
            Err(InterpretError::InvalidInput(message)) => {
                assert!(message.contains("belongs to goldilocks"), "{message}")
            }
            result => panic!("{result:?}"),
        }
    }
}

#[test]
fn rejects_an_integer_input_outside_its_type() {
    let field = FieldId::Bn254;
    let run = |x: IntValue, y: IntValue| validate_inputs(&vec![Value::Array(vec![Value::Int(x)]), Value::Int(y)], field);
    let (u8_max, i8_min) = (int_of(false, 8, 255), int_of(true, 8, -128));
    assert!(run(u8_max.clone(), i8_min.clone()).is_ok());
    for (x, y) in [
        (int_of(false, 8, 256), i8_min.clone()),
        (int_of(false, 8, -1), i8_min.clone()),
        (int_of(false, 0, 0), i8_min.clone()),
        (u8_max.clone(), int_of(true, 8, 128)),
        (u8_max.clone(), int_of(true, 8, -129)),
    ] {
        let result = run(x.clone(), y.clone());
        assert!(matches!(result, Err(InterpretError::InvalidInput(_))), "{x:?}, {y:?}: {result:?}");
    }
    match check_int(&int_of(false, 8, 256)) {
        Err(InterpretError::InvalidInput(message)) => assert_eq!(message, "integer input 256 is not a value of u8"),
        other => panic!("{other:?}"),
    }
}
