use ast_interpreter::bigint::BigInt;
use ast_interpreter::diff::{
    check_dump_format, comparable_error_of, failure_kind_of, normalize_construct, normalize_text, outcome_is_tolerated,
    outcomes_equivalent, values_equivalent, ComparableError, DiffOutcome, DiffValue, FailureKind, RunRecord, StepOutcome,
    DUMP_FORMAT_VERSION,
};
use ast_interpreter::error::{InterpretError, Location};
use ast_interpreter::field::{FieldId, FieldValue};
use ast_interpreter::value::{FuncId, IntValue, Value};

fn field(value: &str) -> DiffValue {
    DiffValue::Field(value.to_string())
}

fn uint(value: u128) -> DiffValue {
    DiffValue::Int { signed: false, bits: 64, value: BigInt::from_u128(value) }
}

#[test]
fn integer_values_must_match() {
    assert!(values_equivalent(&uint(42), &uint(42)).is_ok());
    assert!(values_equivalent(&uint(42), &uint(43)).is_err());
}

#[test]
fn nested_integer_difference_is_found() {
    let a = DiffValue::Tuple(vec![field("5"), DiffValue::Array(vec![uint(1), uint(2)])]);
    let b = DiffValue::Tuple(vec![field("6"), DiffValue::Array(vec![uint(1), uint(9)])]);
    let err = values_equivalent(&a, &b).unwrap_err();
    assert!(err.contains("tuple[1]"), "path should point at the mismatch: {err}");
}

#[test]
fn shape_mismatch_diverges() {
    assert!(values_equivalent(&uint(0), &DiffValue::Bool(false)).is_err());
}

fn errored(kind: FailureKind) -> DiffOutcome {
    DiffOutcome::Errored { error: ComparableError::new(kind, ""), detail: String::new() }
}

fn unsupported() -> DiffOutcome {
    errored(FailureKind::Unsupported { construct: "intrinsic".to_string() })
}

#[test]
fn returned_vs_real_error_diverges() {
    let a = DiffOutcome::Returned(uint(1));
    let b = errored(FailureKind::CompileError);
    assert!(outcomes_equivalent(&a, &b).is_err());
    assert!(!outcome_is_tolerated(&a, &b));
}

#[test]
fn returned_vs_coverage_gap_is_tolerated_and_counted() {
    let ran = DiffOutcome::Returned(uint(1));
    for gap in [unsupported(), errored(FailureKind::DependencyCompileGap)] {
        assert!(outcomes_equivalent(&ran, &gap).is_ok());
        assert!(outcome_is_tolerated(&ran, &gap));
        assert!(outcomes_equivalent(&gap, &ran).is_ok());
        assert!(outcome_is_tolerated(&gap, &ran));
    }
}

#[test]
fn unsupported_is_tolerated_and_counted() {
    let u = unsupported();
    let c = errored(FailureKind::CompileError);
    assert!(outcomes_equivalent(&u, &c).is_ok());
    assert!(outcome_is_tolerated(&u, &c));
}

#[test]
fn two_panics_diverge() {
    let p = errored(FailureKind::Panic);
    assert!(outcomes_equivalent(&p, &p).is_err());
    assert!(!outcome_is_tolerated(&p, &p));
}

#[test]
fn internal_errors_never_agree() {
    let i = errored(FailureKind::Internal);
    assert!(outcomes_equivalent(&i, &i).is_err());
    assert!(outcomes_equivalent(&i, &unsupported()).is_err());
    assert!(!outcome_is_tolerated(&i, &unsupported()));
}

#[test]
fn panic_is_never_tolerated() {
    let p = errored(FailureKind::Panic);
    for gap in [unsupported(), errored(FailureKind::DependencyCompileGap)] {
        assert!(outcomes_equivalent(&p, &gap).is_err());
        assert!(!outcome_is_tolerated(&p, &gap));
        assert!(outcomes_equivalent(&gap, &p).is_err());
        assert!(!outcome_is_tolerated(&gap, &p));
    }
}

#[test]
fn differing_real_kinds_diverge() {
    let a = errored(FailureKind::Overflow);
    let b = errored(FailureKind::AssertionFailed);
    assert!(outcomes_equivalent(&a, &b).is_err());
}

fn cmp(kind: FailureKind, payload: &str) -> ComparableError {
    ComparableError { kind, payload: payload.to_string() }
}

fn failed(kind: FailureKind, payload: &str) -> DiffOutcome {
    DiffOutcome::Errored { error: cmp(kind, payload), detail: String::new() }
}

#[test]
fn field_values_carry_their_value_and_stay_field_equivalent() {
    let a = DiffValue::Field("1".to_string());
    let b = DiffValue::Field("18446744069414584320".to_string());
    assert!(values_equivalent(&a, &b).is_ok());
    assert_ne!(a, b);
}

#[test]
fn same_kind_different_payload_is_field_equivalent_but_distinct() {
    let a = failed(FailureKind::AssertionFailed, "x == 1");
    let b = failed(FailureKind::AssertionFailed, "x == 2");
    assert!(outcomes_equivalent(&a, &b).is_ok());
    assert_ne!(a, b);
}

#[test]
fn overflow_payload_is_the_operation() {
    let error = comparable_error_of(&InterpretError::Overflow("addition on u64".to_string()));
    assert_eq!(error.kind, FailureKind::Overflow);
    assert_eq!(error.payload, "addition on u64");
}

#[test]
fn assertion_payload_is_the_whitespace_normalized_message() {
    let error = comparable_error_of(&InterpretError::AssertionFailed {
        location: Location::dummy(),
        message: Some("  a   ==\n b ".to_string()),
    });
    assert_eq!(error.kind, FailureKind::AssertionFailed);
    assert_eq!(error.payload, "a == b");
}

#[test]
fn unsupported_payload_keeps_the_whole_message_and_the_kind_keeps_the_construct() {
    let error = comparable_error_of(&InterpretError::Unsupported("intrinsic 'foo': bar".to_string()));
    assert_eq!(error.kind, FailureKind::Unsupported { construct: "intrinsic".to_string() });
    assert_eq!(error.payload, "intrinsic 'foo': bar");

    let error = comparable_error_of(&InterpretError::Unsupported(
        "dereference of a non-reference value (Tuple([RefCell { value: Field(0) }]))".to_string(),
    ));
    assert_eq!(error.kind, FailureKind::Unsupported { construct: "dereference of a non-reference value".to_string() });
}

fn record() -> RunRecord {
    RunRecord {
        source_hash: "00".repeat(32),
        load: StepOutcome::Passed,
        compile: StepOutcome::Passed,
        interpret: StepOutcome::Passed,
        oracle: StepOutcome::not_run("no recorded return"),
        projection: StepOutcome::Passed,
        returned: Some(uint(7)),
        projection_hash: Some("11".repeat(32)),
    }
}

#[test]
fn record_with_a_value_returns_it() {
    assert_eq!(record().outcome(), DiffOutcome::Returned(uint(7)));
}

fn failed_with_detail(kind: FailureKind, payload: &str, detail: &str) -> DiffOutcome {
    DiffOutcome::Errored { error: cmp(kind, payload), detail: detail.to_string() }
}

#[test]
fn record_outcome_is_the_first_failed_step() {
    let mut r = record();
    r.compile = StepOutcome::failed(cmp(FailureKind::CompileError, "no main"), "detail");
    r.interpret = StepOutcome::not_run("not compiled");
    r.returned = None;
    r.projection = StepOutcome::not_run("not compiled");
    r.projection_hash = None;
    assert_eq!(r.outcome(), failed_with_detail(FailureKind::CompileError, "no main", "detail"));
}

#[test]
fn an_interpret_panic_is_recorded_and_never_equivalent() {
    let mut r = record();
    r.interpret = StepOutcome::failed(cmp(FailureKind::Panic, "index out of bounds"), "");
    r.returned = None;
    let outcome = r.outcome();
    assert!(matches!(&outcome, DiffOutcome::Errored { error, .. } if error.kind == FailureKind::Panic));
    assert!(outcomes_equivalent(&outcome, &record().outcome()).is_err());
    assert!(outcomes_equivalent(&outcome, &outcome).is_err());
}

#[test]
fn an_oracle_mismatch_does_not_change_the_verdict() {
    let mut r = record();
    r.oracle = StepOutcome::failed(cmp(FailureKind::OracleMismatch, "integer differs"), "");
    assert_eq!(r.outcome(), DiffOutcome::Returned(uint(7)));
}

/// The provenance's format version in a dump, as the dump reader probes it before parsing.
fn probe_format_version(json: &str) -> u32 {
    let value: serde_json::Value = serde_json::from_str(json).expect("dump is JSON");
    value["provenance"]["format_version"].as_u64().expect("format_version") as u32
}

#[test]
fn a_stale_format_dump_is_rejected_with_the_versions_named() {
    let stale = r#"{"provenance":{"format_version":2,"field":"bn254","field_modulus":"1","noir_rev":"x","interpreter_rev":"y","corpus_dir":"z","program_count":0,"built_at":""},"outcomes":[]}"#;
    let err = check_dump_format(probe_format_version(stale)).unwrap_err();
    assert!(err.contains("format 2"), "{err}");
    assert!(err.contains("expects 3"), "{err}");
}

#[test]
fn the_current_dump_format_is_accepted() {
    assert_eq!(check_dump_format(DUMP_FORMAT_VERSION), Ok(()));
    assert_eq!(
        check_dump_format(4),
        Err("dump is format 4; this referee expects 3 (regenerate it under both fields)".to_string())
    );
}

#[test]
fn mismatch_messages_name_the_difference() {
    assert_eq!(values_equivalent(&DiffValue::Bool(true), &DiffValue::Bool(false)), Err("bool differs: true vs false".to_string()));
    assert_eq!(
        values_equivalent(&DiffValue::Str("a".to_string()), &DiffValue::Str("b".to_string())),
        Err("string differs: \"a\" vs \"b\"".to_string())
    );
    assert_eq!(
        values_equivalent(&uint(1), &DiffValue::Int { signed: true, bits: 8, value: BigInt::from_i128(-1) }),
        Err("integer differs: 1 (s=false,64b) vs -1 (s=true,8b)".to_string())
    );
    assert_eq!(
        values_equivalent(&DiffValue::Array(vec![uint(1)]), &DiffValue::Array(vec![])),
        Err("array length differs: 1 vs 0".to_string())
    );
    assert_eq!(values_equivalent(&uint(0), &DiffValue::Unit), Err("shape differs: Int { signed: false, bits: 64, value: 0 } vs Unit".to_string()));
    assert_eq!(values_equivalent(&DiffValue::Function, &DiffValue::Function), Ok(()));
}

#[test]
fn equivalence_is_reflexive_and_symmetric_on_examples() {
    let values = [
        DiffValue::Tuple(vec![field("5"), DiffValue::Array(vec![uint(1), uint(2)])]),
        DiffValue::Str("x".to_string()),
        DiffValue::Unit,
        uint(3),
    ];
    for a in &values {
        assert!(values_equivalent(a, a).is_ok());
        for b in &values {
            assert_eq!(values_equivalent(a, b).is_ok(), values_equivalent(b, a).is_ok());
        }
    }
}

#[test]
fn outcome_messages_summarize_both_sides() {
    let p = errored(FailureKind::Panic);
    let ran = DiffOutcome::Returned(uint(1));
    assert_eq!(outcomes_equivalent(&p, &ran), Err("panic outcome: errored (Panic) vs returned 1u64".to_string()));
    let a = failed(FailureKind::Overflow, "addition");
    assert_eq!(
        outcomes_equivalent(&ran, &a),
        Err("one field returned a value, the other errored (Overflow: addition)".to_string())
    );
    assert_eq!(
        outcomes_equivalent(&a, &ran),
        Err("one field errored (Overflow: addition), the other returned a value".to_string())
    );
    assert_eq!(
        outcomes_equivalent(&a, &errored(FailureKind::DivisionByZero)),
        Err("both errored, but differently: Overflow vs DivisionByZero".to_string())
    );
}

#[test]
fn renders_values_and_steps_for_the_ledger() {
    let v = DiffValue::Tuple(vec![
        DiffValue::Bool(true),
        DiffValue::Int { signed: true, bits: 8, value: BigInt::from_i128(-3) },
        DiffValue::Array(vec![DiffValue::Str("a".to_string())]),
    ]);
    assert_eq!(v.render(), "(true, -3i8, [\"a\"])");
    assert_eq!(DiffValue::Unit.render(), "()");
    assert_eq!(DiffValue::Function.render(), "fn");
    assert_eq!(StepOutcome::Passed.render(), "ok");
    assert_eq!(StepOutcome::not_run("no Prover.toml").render(), "n/a: no Prover.toml");
    assert_eq!(StepOutcome::failed(cmp(FailureKind::Overflow, "addition"), "d").render(), "FAIL Overflow: addition");
    assert_eq!(StepOutcome::failed(cmp(FailureKind::DivisionByZero, ""), "d").render(), "FAIL DivisionByZero");
    assert!(StepOutcome::Passed.passed());
    assert!(!StepOutcome::not_run("x").passed());
    assert_eq!(StepOutcome::failed(cmp(FailureKind::Panic, "p"), "").failure(), Some(&cmp(FailureKind::Panic, "p")));
    assert_eq!(StepOutcome::Passed.failure(), None);
}

#[test]
fn labels_name_the_kind_and_the_construct() {
    assert_eq!(FailureKind::ProjectLoad.label(), "ProjectLoad");
    assert_eq!(FailureKind::OracleMismatch.label(), "OracleMismatch");
    assert_eq!(FailureKind::Unsupported { construct: "cast".to_string() }.label(), "Unsupported(cast)");
    assert_eq!(cmp(FailureKind::TypeError, "").to_text(), "TypeError");
    assert_eq!(cmp(FailureKind::TypeError, "bad").to_text(), "TypeError: bad");
}

#[test]
fn every_error_variant_has_its_kind() {
    let cases = [
        (InterpretError::DivisionByZero, FailureKind::DivisionByZero),
        (InterpretError::ValueOutOfRange("x".to_string()), FailureKind::ValueOutOfRange),
        (InterpretError::InvalidInput("x".to_string()), FailureKind::InputError),
        (InterpretError::Type("x".to_string()), FailureKind::TypeError),
        (InterpretError::Internal("x".to_string()), FailureKind::Internal),
        (InterpretError::Overflow("x".to_string()), FailureKind::Overflow),
        (InterpretError::AssertionFailed { location: Location::dummy(), message: None }, FailureKind::AssertionFailed),
    ];
    for (error, kind) in cases {
        assert_eq!(failure_kind_of(&error), kind);
    }
    let e = comparable_error_of(&InterpretError::AssertionFailed { location: Location::dummy(), message: None });
    assert_eq!(e.payload, "");
}

#[test]
fn normalization_collapses_whitespace_and_cuts_constructs() {
    assert_eq!(normalize_text("\t a \u{3000} b\r\n\nc  "), "a b c");
    assert_eq!(normalize_text("   "), "");
    assert_eq!(normalize_construct("  match range pattern  "), "match range pattern");
    assert_eq!(normalize_construct("cast to Tuple([Field])"), "cast to Tuple");
    assert_eq!(normalize_construct("a:b'c(d"), "a");
}

#[test]
fn values_encode_field_independently() {
    let value = Value::Tuple(vec![
        Value::Field(FieldValue::one(FieldId::Goldilocks)),
        Value::Int(IntValue { signed: false, bits: 8, value: BigInt::from_u128(200) }),
        Value::Function(FuncId(3)),
        Value::Str("s".to_string()),
    ]);
    assert_eq!(
        DiffValue::from_value(&Vec::new(), &value),
        DiffValue::Tuple(vec![
            DiffValue::Field("1".to_string()),
            DiffValue::Int { signed: false, bits: 8, value: BigInt::from_u128(200) },
            DiffValue::Function,
            DiffValue::Str("s".to_string()),
        ])
    );
}

#[test]
fn a_reference_encodes_as_the_value_it_points_to() {
    let eight = Value::Int(IntValue { signed: false, bits: 8, value: BigInt::from_u128(7) });
    let store = vec![Value::Tuple(vec![Value::Bool(true), eight.duplicate()]), Value::Ref(0, vec![1])];
    let expected = DiffValue::Int { signed: false, bits: 8, value: BigInt::from_u128(7) };
    assert_eq!(DiffValue::from_value(&store, &Value::Ref(0, vec![1])), expected);
    assert_eq!(
        DiffValue::from_value(&store, &Value::Array(vec![Value::Ref(1, vec![])])),
        DiffValue::Array(vec![DiffValue::Int { signed: false, bits: 8, value: BigInt::from_u128(7) }])
    );
    assert_eq!(DiffValue::from_value(&store, &Value::Ref(0, vec![0])), DiffValue::Bool(true));
    let cyclic = vec![Value::Ref(0, vec![])];
    assert_eq!(DiffValue::from_value(&cyclic, &Value::Ref(0, vec![])), DiffValue::Unit);
}
