use ast_interpreter::bigint::BigInt;
use ast_interpreter::bn254_crypto::call;
use ast_interpreter::error::{InterpretError, Location};
use ast_interpreter::field::{FieldId, FieldValue};
use ast_interpreter::intrinsics::{
    apply_range_constraint, array_as_str_unchecked, array_len, call_intrinsic, field_less_than, hash_bytes,
    keccakf1600, sha256_compression, str_as_bytes, to_radix, vector_insert, vector_pop_back, vector_pop_front,
    vector_push, vector_remove, HashFunction,
};
use ast_interpreter::types::Type;
use ast_interpreter::value::{IntValue, Value};

fn field(n: u128) -> Value {
    Value::Field(FieldValue::reduce(FieldId::Bn254, &BigInt::from_u128(n)))
}

fn uint(bits: u8, n: u128) -> Value {
    Value::Int(IntValue::canonical(false, bits, &BigInt::from_u128(n)))
}

fn u32v(n: u32) -> Value {
    uint(32, n as u128)
}

fn u8_array(bytes: &[u8]) -> Value {
    Value::Array(bytes.iter().map(|b| uint(8, *b as u128)).collect())
}

fn array_type(len: u32) -> Type {
    Type::Array(len, Box::new(Type::Field))
}

fn words_of(value: Value) -> Vec<u128> {
    match value {
        Value::Array(vs) => vs
            .into_iter()
            .map(|v| match v {
                Value::Int(i) => i.value.to_decimal().parse().unwrap(),
                other => panic!("expected an integer, got {other:?}"),
            })
            .collect(),
        other => panic!("expected an array, got {other:?}"),
    }
}

fn point(x: FieldValue, y: FieldValue) -> Value {
    Value::Tuple(vec![Value::Field(x), Value::Field(y)])
}

#[test]
fn bn254_crypto_requires_bn254_runtime_field() {
    let zero = Value::Field(FieldValue::zero(FieldId::Goldilocks));
    let point = || Value::Tuple(vec![zero.clone(), zero.clone()]);
    for (name, args) in [
        ("embedded_curve_add", vec![point(), point(), Value::Bool(false)]),
        ("multi_scalar_mul", vec![Value::Array(vec![point()]), Value::Array(vec![point()]), Value::Bool(false)]),
        ("poseidon2_permutation", vec![Value::Array(vec![zero.clone(), zero.clone(), zero.clone(), zero.clone()])]),
        ("derive_pedersen_generators", vec![u8_array(b"domain"), u32v(0)]),
    ] {
        assert!(
            matches!(
                call_intrinsic(name, args, &array_type(1), Location::dummy(), false, FieldId::Goldilocks),
                Err(InterpretError::Unsupported(_))
            ),
            "{name}"
        );
    }
}

#[test]
fn invalid_curve_inputs_fail_only_when_predicate_is_true() {
    let zero = || FieldValue::zero(FieldId::Bn254);
    let one = || FieldValue::one(FieldId::Bn254);
    let minus_one = || FieldValue::one(FieldId::Bn254).neg();
    for (name, operands, reason) in [
        ("embedded_curve_add", vec![point(one(), one()), point(zero(), zero())], "not on curve"),
        (
            "multi_scalar_mul",
            vec![Value::Array(vec![point(one(), one())]), Value::Array(vec![point(one(), zero())])],
            "not on curve",
        ),
        (
            "multi_scalar_mul",
            vec![Value::Array(vec![point(zero(), zero())]), Value::Array(vec![point(minus_one(), zero())])],
            "not less than 2^128",
        ),
    ] {
        for predicate in [false, true] {
            let mut args = operands.clone();
            args.push(Value::Bool(predicate));
            let result = call(name, args, &Type::Unit);
            if predicate {
                assert!(
                    matches!(&result, Err(InterpretError::ValueOutOfRange(message)) if message.contains(reason)),
                    "{name}: {reason}: {result:?}"
                );
            } else {
                assert_eq!(result.unwrap(), Value::Array(vec![point(zero(), zero())]));
            }
        }
    }
}

#[test]
fn to_le_radix_decomposes_little_endian_bytes() {
    let out = to_radix(&vec![field(258), u32v(256)], false, false, &array_type(4), Location::dummy()).unwrap();
    assert_eq!(out, u8_array(&[2, 1, 0, 0]));
}

#[test]
fn to_be_radix_reverses_the_digits() {
    let out = to_radix(&vec![field(258), u32v(256)], true, false, &array_type(4), Location::dummy()).unwrap();
    assert_eq!(out, u8_array(&[0, 0, 1, 2]));
}

#[test]
fn to_le_bits_sets_the_right_bits() {
    let out = to_radix(&vec![field(258)], false, true, &array_type(10), Location::dummy()).unwrap();
    let mut expected = vec![false; 10];
    expected[1] = true;
    expected[8] = true;
    assert_eq!(out, Value::Array(expected.into_iter().map(Value::Bool).collect()));
}

#[test]
fn zero_decomposes_to_all_zero_limbs() {
    let out = to_radix(&vec![field(0), u32v(256)], false, false, &array_type(3), Location::dummy()).unwrap();
    assert_eq!(out, u8_array(&[0, 0, 0]));
}

#[test]
fn unconstrained_radix_three_is_supported() {
    let out = to_radix(&vec![field(11), u32v(3)], false, false, &array_type(4), Location::dummy()).unwrap();
    assert_eq!(out, u8_array(&[2, 0, 1, 0]));
}

#[test]
fn decomposition_errors_when_limbs_too_few() {
    assert!(matches!(
        to_radix(&vec![field(258), u32v(256)], false, false, &array_type(1), Location::dummy()),
        Err(InterpretError::AssertionFailed { message: Some(message), .. })
            if message == "Field failed to decompose into specified 1 limbs"
    ));
}

#[test]
fn vector_bounds_errors_match_noir() {
    type VectorOp = fn(Vec<Value>, Location) -> Result<Value, InterpretError>;
    let array = || Value::Array(vec![u32v(1), u32v(2)]);
    let cases: [(VectorOp, Vec<Value>, &str); 5] = [
        (vector_pop_back, vec![Value::Array(vec![])], "Index out of bounds: vector_pop_back called on empty vector"),
        (vector_pop_front, vec![Value::Array(vec![])], "Index out of bounds: vector_pop_front called on empty vector"),
        (
            vector_insert,
            vec![array(), u32v(3), u32v(9)],
            "Index out of bounds: vector_insert: index 3 is out of bounds for a vector of length 2",
        ),
        (vector_remove, vec![Value::Array(vec![]), u32v(0)], "Index out of bounds: vector_remove called on empty vector"),
        (
            vector_remove,
            vec![array(), u32v(2)],
            "Index out of bounds: vector_remove: index 2 is out of bounds for a vector of length 2",
        ),
    ];
    for (operation, args, expected) in cases {
        match operation(args, Location::dummy()) {
            Err(InterpretError::AssertionFailed { message: Some(message), .. }) => assert_eq!(message, expected),
            other => panic!("expected AssertionFailed, got {other:?}"),
        }
    }
}

#[test]
fn range_constraint_accepts_fitting_and_rejects_oversize() {
    let loc = Location::dummy();
    assert_eq!(apply_range_constraint(&vec![field(255), u32v(8)], loc).unwrap(), Value::Unit);
    assert!(matches!(
        apply_range_constraint(&vec![field(256), u32v(8)], loc),
        Err(InterpretError::AssertionFailed { .. })
    ));
    assert_eq!(apply_range_constraint(&vec![field(65535), u32v(16)], loc).unwrap(), Value::Unit);
    assert!(matches!(
        apply_range_constraint(&vec![field(65536), u32v(16)], loc),
        Err(InterpretError::AssertionFailed { .. })
    ));
    assert_eq!(apply_range_constraint(&vec![field(0), u32v(0)], loc).unwrap(), Value::Unit);
    assert!(matches!(
        apply_range_constraint(&vec![field(1), u32v(0)], loc),
        Err(InterpretError::AssertionFailed { .. })
    ));
}

#[test]
fn vector_edits_keep_the_other_elements() {
    let loc = Location::dummy();
    let array = || Value::Array(vec![u32v(1), u32v(2)]);
    assert_eq!(
        vector_push(vec![array(), u32v(3)], true).unwrap(),
        Value::Array(vec![u32v(1), u32v(2), u32v(3)])
    );
    assert_eq!(
        vector_push(vec![array(), u32v(0)], false).unwrap(),
        Value::Array(vec![u32v(0), u32v(1), u32v(2)])
    );
    assert_eq!(
        vector_pop_back(vec![array()], loc).unwrap(),
        Value::Tuple(vec![Value::Array(vec![u32v(1)]), u32v(2)])
    );
    assert_eq!(
        vector_pop_front(vec![array()], loc).unwrap(),
        Value::Tuple(vec![u32v(1), Value::Array(vec![u32v(2)])])
    );
    assert_eq!(
        vector_insert(vec![array(), u32v(1), u32v(9)], loc).unwrap(),
        Value::Array(vec![u32v(1), u32v(9), u32v(2)])
    );
    assert_eq!(
        vector_remove(vec![array(), u32v(0)], loc).unwrap(),
        Value::Tuple(vec![Value::Array(vec![u32v(2)]), u32v(1)])
    );
    assert_eq!(array_len(&vec![array()]).unwrap(), u32v(2));
}

#[test]
fn strings_and_bytes_round_trip() {
    let bytes = str_as_bytes(vec![Value::Str("hé".to_string())]).unwrap();
    assert_eq!(bytes, u8_array(&[0x68, 0xc3, 0xa9]));
    assert_eq!(array_as_str_unchecked(vec![bytes]).unwrap(), Value::Str("hé".to_string()));
    assert!(matches!(
        array_as_str_unchecked(vec![u8_array(&[0xff])]),
        Err(InterpretError::Unsupported(_))
    ));
}

#[test]
fn field_comparison_orders_canonical_values() {
    assert_eq!(field_less_than(&vec![field(1), field(2)]).unwrap(), Value::Bool(true));
    assert_eq!(field_less_than(&vec![field(2), field(2)]).unwrap(), Value::Bool(false));
}

#[test]
fn sha256_compression_of_the_abc_block() {
    let mut block = vec![0u32; 16];
    block[0] = 0x61626380;
    block[15] = 0x18;
    let iv = [
        0x6a09e667u32, 0xbb67ae85, 0x3c6ef372, 0xa54ff53a, 0x510e527f, 0x9b05688c, 0x1f83d9ab, 0x5be0cd19,
    ];
    let input = Value::Array(block.into_iter().map(u32v).collect());
    let state = Value::Array(iv.iter().map(|w| u32v(*w)).collect());
    let out = words_of(sha256_compression(vec![input, state]).unwrap());
    let expected = [
        0xba7816bfu128, 0x8f01cfea, 0x414140de, 0x5dae2223, 0xb00361a3, 0x96177a9c, 0xb410ff61, 0xf20015ad,
    ];
    assert_eq!(out, expected.to_vec());
}

#[test]
fn keccak_permutes_the_zero_state() {
    let state = Value::Array((0..25).map(|_| uint(64, 0)).collect());
    let out = words_of(keccakf1600(vec![state]).unwrap());
    assert_eq!(out.len(), 25);
    assert_eq!(out[0], 0xF1258F7940E1DDE7);
    assert_eq!(out[1], 0x84D5CCF933C0478A);
    assert!(matches!(keccakf1600(vec![Value::Array(vec![uint(64, 0)])]), Err(_)));
}

#[test]
fn blake_digests_of_abc() {
    let abc = || u8_array(b"abc");
    let blake2s = words_of(hash_bytes(vec![abc()], HashFunction::Blake2s).unwrap());
    let hex2: String = blake2s.iter().map(|b| format!("{b:02x}")).collect();
    assert_eq!(hex2, "508c5e8c327c14e2e1a72ba34eeb452f37458b209ed63a294d999b4c86675982");
    let blake3 = words_of(hash_bytes(vec![abc()], HashFunction::Blake3).unwrap());
    let hex3: String = blake3.iter().map(|b| format!("{b:02x}")).collect();
    assert_eq!(hex3, "6437b3ac38465133ffb63b75273a8db548c558465d79db03fd359c6cd5bd9d85");
}

#[test]
fn unknown_intrinsics_are_unsupported() {
    assert!(matches!(
        call_intrinsic("no_such_builtin", vec![], &Type::Unit, Location::dummy(), false, FieldId::Bn254),
        Err(InterpretError::Unsupported(_))
    ));
    assert_eq!(
        call_intrinsic("is_unconstrained", vec![], &Type::Bool, Location::dummy(), true, FieldId::Bn254).unwrap(),
        Value::Bool(true)
    );
}
