use ast_interpreter::field::FieldId;
use ast_interpreter::bigint::BigInt;
use ast_interpreter::field::FieldValue;
use ast_interpreter::input::{AbiSign, AbiType};
use ast_interpreter::mavros::{
    bucket_of, cell, declared_input, recorded_return_verdict, starts_with, sweep_output_stem, sweep_report, verdict, verdict_totals, Declared, Record,
    LINE_LIMIT,
};
use ast_interpreter::value::{IntValue, Value};

#[test]
fn every_verdict_bucket_is_reached_from_its_record() {
    let record = |expect_failure: bool, interp: &str, compile: &str, unchecked: &str, declared: &str| Record {
        interp: interp.into(),
        mavros_compile: compile.into(),
        witgen_unchecked: unchecked.into(),
        witgen_declared: declared.into(),
        ..Record::new("program".into(), expect_failure)
    };
    let gap = "Unsupported { construct: \"x\" }: x";
    for (expected, expect_failure, interp, compile, unchecked, declared) in [
        ("agree", false, "ok", "ok", "ok", "ok"),
        ("agree", false, "ok", "ok", "ok", "no-return"),
        ("RETURN-MISMATCH", false, "ok", "ok", "ok", "guard: return differs"),
        ("unencodable-return", false, "ok", "ok", "ok", "unencodable: x"),
        ("MAVROS-REJECTS", false, "ok", "reject: unsat", "not-run", "not-run"),
        ("MAVROS-REJECTS", false, "ok", "ok", "trap: x", "not-run"),
        ("INTERP-REJECTS", false, "AssertionFailed: x", "ok", "ok", "not-run"),
        ("both-reject", false, "AssertionFailed: x", "reject: unsat", "not-run", "not-run"),
        ("interp-gap", false, gap, "ok", "ok", "not-run"),
        ("interp-internal", false, "Internal: x", "ok", "ok", "not-run"),
        ("interp-internal", false, "Panic: x", "ok", "ok", "not-run"),
        ("mavros-gap", false, "ok", "panic: x", "not-run", "not-run"),
        ("mavros-gap", false, "ok", "lowering-fail: x", "not-run", "not-run"),
        ("mavros-gap", false, "ok", "no program", "not-run", "not-run"),
        ("mavros-gap", false, "ok", "ok", "panic: x", "not-run"),
        ("mavros-gap", false, "AssertionFailed: x", "lowering-fail: x", "not-run", "not-run"),
        ("both-gap", false, gap, "lowering-panic: x", "not-run", "not-run"),
        ("both-gap", false, "Internal: x", "panic: x", "not-run", "not-run"),
        ("frontend-reject", false, "not-run", "frontend-reject: x", "not-run", "not-run"),
        ("agree-reject", true, "AssertionFailed: x", "reject: unsat", "not-run", "not-run"),
        ("agree-reject", true, "AssertionFailed: x", "ok", "trap: x", "not-run"),
        ("mavros-gap", true, "AssertionFailed: x", "ok", "panic: x", "not-run"),
        ("MAVROS-ACCEPTS", true, "AssertionFailed: x", "ok", "ok", "not-run"),
        ("INTERP-ACCEPTS", true, "ok", "ok", "unsat", "ok"),
        ("both-accept", true, "ok", "ok", "ok", "ok"),
        ("interp-gap", true, gap, "ok", "ok", "not-run"),
    ] {
        let record = record(expect_failure, interp, compile, unchecked, declared);
        assert_eq!(verdict(&record), expected, "{record:?}");
    }
}

#[test]
fn a_fresh_record_has_nothing_run() {
    let record = Record::new("p".into(), false);
    assert_eq!(record.interp, "not-run");
    assert_eq!(record.mavros_compile, "not-run");
    assert_eq!(record.interp_value, None);
    assert_eq!(record.verdict, "");
}

#[test]
fn a_cell_line_is_the_first_line_cut_to_the_limit() {
    assert_eq!(ast_interpreter::mavros::line("first\nsecond"), "first");
    assert_eq!(ast_interpreter::mavros::line(""), "");
    let long = "x".repeat(LINE_LIMIT + 5);
    let cut = ast_interpreter::mavros::line(&long);
    assert_eq!(cut.chars().count(), LINE_LIMIT + 1);
    assert!(cut.ends_with('…'));
    assert_eq!(ast_interpreter::mavros::line(&"y".repeat(LINE_LIMIT)), "y".repeat(LINE_LIMIT));
}

#[test]
fn cells_escape_pipes() {
    assert_eq!(cell("a|b||c"), "a\\|b\\|\\|c");
    assert_eq!(cell("plain"), "plain");
}

#[test]
fn prefixes_and_output_stems() {
    assert!(starts_with("reject: unsat", "reject:"));
    assert!(!starts_with("re", "reject:"));
    assert_eq!(sweep_output_stem(FieldId::Bn254, false), "bn254");
    assert_eq!(sweep_output_stem(FieldId::Goldilocks, true), "goldilocks-generic-builtins");
}

fn int_value(signed: bool, bits: u8, v: i128) -> Value {
    Value::Int(IntValue { signed, bits, value: BigInt::from_i128(v) })
}

#[test]
fn a_declared_return_takes_the_abi_shape_with_bit_patterns() {
    let i8_type = AbiType::Integer { sign: AbiSign::Signed, width: 8 };
    assert_eq!(declared_input(&int_value(true, 8, -1), &i8_type), Ok(Declared::Scalar(BigInt::from_u128(255))));
    assert_eq!(declared_input(&Value::Bool(true), &AbiType::Boolean), Ok(Declared::Scalar(BigInt::from_u128(1))));
    let field = Value::Field(FieldValue::one(FieldId::Goldilocks));
    assert_eq!(declared_input(&field, &AbiType::Field), Ok(Declared::Scalar(BigInt::from_u128(1))));
    let pair = AbiType::Struct {
        path: "P".to_string(),
        fields: vec![("x".to_string(), AbiType::Boolean), ("s".to_string(), AbiType::String { length: 2 })],
    };
    assert_eq!(
        declared_input(&Value::Tuple(vec![Value::Bool(false), Value::Str("hi".to_string())]), &pair),
        Ok(Declared::Fields(vec![
            ("x".to_string(), Declared::Scalar(BigInt::from_u128(0))),
            ("s".to_string(), Declared::Text("hi".to_string())),
        ]))
    );
}

#[test]
fn a_declared_return_of_the_wrong_shape_is_refused() {
    let array = AbiType::Array { length: 2, typ: Box::new(AbiType::Boolean) };
    assert_eq!(
        declared_input(&Value::Array(vec![Value::Bool(true)]), &array),
        Err("1 elements for an array of 2".to_string())
    );
    assert_eq!(
        declared_input(&int_value(false, 8, -300), &AbiType::Integer { sign: AbiSign::Unsigned, width: 8 }),
        Err("IntValue { signed: false, bits: 8, value: -300 } has a negative bit pattern".to_string())
    );
    assert_eq!(
        declared_input(&Value::Unit, &AbiType::Boolean),
        Err("cannot declare Unit as a return of Boolean".to_string())
    );
}

#[test]
fn verdict_totals_count_each_corpus_and_bucket_in_order() {
    let record = |name: &str, expect_failure: bool, verdict: &str| Record {
        verdict: verdict.into(),
        ..Record::new(name.into(), expect_failure)
    };
    let records = vec![
        record("a", false, "agree"),
        record("b", true, "agree-failure"),
        record("c", false, "mavros-compile: unsupported"),
        record("d", false, "agree"),
        record("e", false, "mavros-compile: panic"),
    ];
    assert_eq!(bucket_of("mavros-compile: unsupported"), "mavros-compile");
    assert_eq!(bucket_of("agree"), "agree");
    let totals = verdict_totals(&records);
    assert_eq!(
        totals,
        vec![
            (false, "agree".to_string(), 2),
            (false, "mavros-compile".to_string(), 2),
            (true, "agree-failure".to_string(), 1),
        ]
    );
    let report = sweep_report("bn254", &totals, &vec![record("a", false, "agree")]);
    assert_eq!(
        report,
        "# Interpreter vs Mavros under bn254\n\n| Corpus | Verdict | Programs |\n| --- | --- | --- |\n\
         | execution_success | agree | 2 |\n| execution_success | mavros-compile | 2 |\n\
         | execution_failure | agree-failure | 1 |\n\
         \n| Program | Verdict | Interpreter | Recorded return | Mavros compile | Witgen, return unchecked | Witgen, interpreter's return declared |\n\
         | --- | --- | --- | --- | --- | --- | --- |\n\
         | a | agree | not-run | not-run | not-run | not-run | not-run |\n"
    );
}

#[test]
fn the_recorded_return_is_classified_against_the_interpreters() {
    let v = |n: u128| Value::Int(IntValue::canonical(false, 8, &BigInt::from_u128(n)));
    assert_eq!(recorded_return_verdict(false, Some(&v(1)), Ok(None)), "absent");
    assert_eq!(recorded_return_verdict(true, None, Ok(None)), "not-run");
    assert_eq!(recorded_return_verdict(true, Some(&v(1)), Ok(Some(v(1)))), "agrees");
    assert_eq!(
        recorded_return_verdict(true, Some(&v(1)), Ok(Some(v(2)))),
        format!("differs: recorded {}", v(2).debug_text())
    );
    assert_eq!(recorded_return_verdict(true, Some(&v(1)), Ok(None)), "absent");
    assert_eq!(recorded_return_verdict(true, Some(&v(1)), Err("bad toml\nmore".into())), "unreadable: bad toml");
}
