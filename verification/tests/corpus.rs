use ast_interpreter::bigint::BigInt;
use ast_interpreter::corpus::{
    checkout_mismatch, compare_with_recorded, compile_error_of, corpus_hash, enabled_features, field_tag, hex,
    interpret_failure, join_comma, normalize_paths, normalize_step, oracle_step, panic_message, panic_step,
    diagnostic_detail_tail, diagnostic_summary, pending_record, pin_disagreement, RECORDED_DIAGNOSTICS, pinned_revs_in, sha256_hex, record_step, replace_root, source_hash,
    workspace_record, StepReport, is_workspace_manifest, next_stage, RunStage, sorted_texts, tracked_paths,
};
use ast_interpreter::diff::{ComparableError, DiffValue, FailureKind, StepOutcome};
use ast_interpreter::error::InterpretError;
use ast_interpreter::field::{FieldId, FieldValue};
use ast_interpreter::value::{IntValue, Value};

fn u64_value(v: u64) -> Value {
    Value::Int(IntValue { signed: false, bits: 64, value: BigInt::from_u128(v as u128) })
}

fn strings(xs: &[&str]) -> Vec<String> {
    xs.iter().map(|s| s.to_string()).collect()
}

#[test]
fn checkout_at_another_revision_is_refused() {
    let dir = "/tmp/noir";
    let err = checkout_mismatch(dir, Some("abc"), "def", &vec![]).unwrap_err();
    assert!(err.contains("abc") && err.contains("def"), "{err}");
    let err = checkout_mismatch(dir, None, "def", &vec![]).unwrap_err();
    assert!(err.contains("not a git checkout"), "{err}");
    let err = checkout_mismatch(dir, Some("def"), "def", &vec![" M x.nr".to_string()]).unwrap_err();
    assert!(err.contains("local changes"), "{err}");
    assert!(checkout_mismatch(dir, Some("def"), "def", &vec![]).is_ok());
}

#[test]
fn pins_agree_with_each_other_and_with_the_compiler_stamp() {
    assert!(pin_disagreement(&strings(&["a", "a", "b"]), "a").is_err());
    assert!(pin_disagreement(&strings(&["a", "a"]), "c").is_err());
    assert!(pin_disagreement(&strings(&[]), "a").is_err());
    assert!(pin_disagreement(&strings(&["a", "a"]), "a").is_ok());
}

#[test]
fn pinned_revisions_are_read_from_a_manifest_in_order() {
    let manifest = "[dependencies]\n\
        noirc_driver = { git = \"https://github.com/worldfnd/noir\", rev = \"abc123\" }\n\
        other = { git = \"https://github.com/someone/else\", rev = \"zzz\" }\n\
        fm = { git = \"https://github.com/worldfnd/noir\", rev = \"def456\" }\n";
    assert_eq!(pinned_revs_in(manifest), strings(&["abc123", "def456"]));
    assert!(pinned_revs_in("").is_empty());
}

#[test]
fn a_panicking_step_is_recorded_as_a_panic_of_that_step() {
    let message = panic_message(Some(&format!("boom: {}\nleft: 1\nright: 2", 42)));
    match panic_step(&message) {
        StepOutcome::Failed { error, detail } => {
            assert_eq!(error.kind, FailureKind::Panic);
            assert_eq!(error.payload, "boom: 42");
            assert_eq!(detail, "boom: 42\nleft: 1\nright: 2");
        }
        other => panic!("expected a failed step, got {other:?}"),
    }
    assert_eq!(panic_message(None), "panic (payload is not a string)");
}

#[test]
fn machine_roots_are_normalized_out_of_payloads() {
    let roots = vec![
        (strings(&["/home/me/noir/test_programs/execution_success/p"]), "<pkg>".to_string()),
        (strings(&["/home/me/noir"]), "<noir>".to_string()),
    ];
    let text = "manifest: /home/me/noir/test_programs/execution_success/p/Nargo.toml needs \
                /home/me/noir/test_programs/test_libraries/dep (/home/me/noir), not \
                /home/me/noir-other/x";
    assert_eq!(
        normalize_paths(text, &roots),
        "manifest: <pkg>/Nargo.toml needs <noir>/test_programs/test_libraries/dep (<noir>), \
         not /home/me/noir-other/x"
    );
    let roots = vec![(strings(&["/private/root/.nargo", "/root/.nargo/"]), "<nargo>".to_string())];
    let text = "files: std/hash/mod.nr, /private/root/.nargo/github.com/noir-lang/poseidon/v0.3.0/src/poseidon2.nr";
    assert_eq!(
        normalize_paths(text, &roots),
        "files: std/hash/mod.nr, <nargo>/github.com/noir-lang/poseidon/v0.3.0/src/poseidon2.nr"
    );
}

#[test]
fn a_root_that_prefixes_a_longer_name_stays() {
    assert_eq!(replace_root("/a/b_c /a/b. /a/b", "/a/b", "<r>"), "/a/b_c /a/b. <r>");
    assert_eq!(replace_root("x /a/b/y", "/a/b", "<r>"), "x <r>/y");
}

#[test]
fn corpus_hash_follows_every_program() {
    let program = |name: &str, hash: &str| (name.to_string(), hash.to_string());
    let base = vec![program("a", "1"), program("b", "2")];
    assert_ne!(corpus_hash(&base), corpus_hash(&vec![program("a", "1"), program("b", "3")]));
    assert_ne!(corpus_hash(&base), corpus_hash(&vec![program("a", "1")]));
    assert_ne!(corpus_hash(&base), corpus_hash(&vec![program("a", "1"), program("c", "2")]));
    assert_eq!(corpus_hash(&base), corpus_hash(&vec![program("a", "1"), program("b", "2")]));
}

#[test]
fn source_hash_follows_the_files_and_their_contents() {
    let files = |main: &str| {
        vec![
            ("Nargo.toml".to_string(), b"[package]".to_vec()),
            ("src/main.nr".to_string(), main.as_bytes().to_vec()),
        ]
    };
    let original = source_hash(&files("fn main() {}"));
    assert_eq!(original.len(), 64);
    assert_eq!(source_hash(&files("fn main() {}")), original);
    assert_ne!(source_hash(&files("fn main() { let _x = 1; }")), original);
}

#[test]
fn hashes_are_lowercase_sha256_hex() {
    assert_eq!(sha256_hex(""), "e3b0c44298fc1c149afbf4c8996fb92427ae41e4649b934ca495991b7852b855");
    assert_eq!(sha256_hex("abc"), "ba7816bf8f01cfea414140de5dae2223b00361a396177a9cb410ff61f20015ad");
    assert_eq!(hex(&vec![0x00, 0xab, 0x10]), "00ab10");
}

#[test]
fn recorded_return_comparison_is_exact_on_bn254_and_field_opaque_on_goldilocks() {
    for field in [FieldId::Bn254, FieldId::Goldilocks] {
        assert!(compare_with_recorded(&u64_value(7), &u64_value(7), field).passed());
        let mismatch = compare_with_recorded(&u64_value(7), &u64_value(8), field);
        assert_eq!(mismatch.failure().map(|e| &e.kind), Some(&FailureKind::OracleMismatch));

        let fv = |v: u128| Value::Field(FieldValue::reduce(field, &BigInt::from_u128(v)));
        let differing = compare_with_recorded(&fv(1), &fv(2), field);
        if field == FieldId::Goldilocks {
            assert!(differing.passed(), "{differing:?}");
        } else {
            assert_eq!(
                differing.failure().map(|e| e.payload.as_str()),
                Some("field value differs from the recorded return")
            );
        }
    }
}

#[test]
fn the_oracle_step_runs_only_on_a_recorded_return() {
    let actual = u64_value(7);
    assert_eq!(oracle_step(None, &actual, FieldId::Bn254), StepOutcome::not_run("no Prover.toml"));
    assert_eq!(oracle_step(Some(Ok(None)), &actual, FieldId::Bn254), StepOutcome::not_run("no recorded return"));
    let unreadable = StepOutcome::failed(
        ComparableError::new(FailureKind::Unsupported { construct: "i64".to_string() }, "negative input"),
        "",
    );
    assert_eq!(
        oracle_step(Some(Err(unreadable)), &actual, FieldId::Goldilocks),
        StepOutcome::not_run("recorded return: negative input")
    );
    assert!(oracle_step(Some(Ok(Some(u64_value(7)))), &actual, FieldId::Bn254).passed());
}

#[test]
fn a_compile_failure_leaves_the_later_steps_not_run() {
    let mut record = pending_record("h");
    assert!(record_step(&mut record, StepReport::Loaded(None)));
    assert!(record.load.passed());
    let failure = StepOutcome::failed(compile_error_of(false, "type   error\n here"), "full");
    assert!(!record_step(&mut record, StepReport::Compiled(Some(failure))));
    assert_eq!(record.compile.failure().map(|e| e.payload.as_str()), Some("type error here"));
    assert_eq!(record.interpret, StepOutcome::not_run("not compiled"));
    assert_eq!(record.oracle, StepOutcome::not_run("not interpreted"));
    assert_eq!(record.projection, StepOutcome::not_run("not compiled"));
    assert_eq!(record.returned, None);
    assert_eq!(record.projection_hash, None);
}

#[test]
fn a_returning_run_records_its_value_and_projection() {
    let mut record = pending_record("h");
    assert!(record_step(&mut record, StepReport::Loaded(None)));
    assert!(record_step(&mut record, StepReport::Compiled(None)));
    let hash = sha256_hex("(fn main)");
    assert!(record_step(&mut record, StepReport::Projected(Ok(hash.clone()))));
    let value = DiffValue::from_value(&Vec::new(), &u64_value(18446744069414584328u64 % u64::MAX));
    assert!(record_step(
        &mut record,
        StepReport::Interpreted(Ok((value, StepOutcome::not_run("no recorded return"))))
    ));
    assert!(record.interpret.passed());
    assert!(record.projection.passed());
    assert_eq!(record.projection_hash.as_deref().map(str::len), Some(64));
    assert_eq!(record.oracle, StepOutcome::not_run("no recorded return"));
    assert!(record.returned.is_some());
}

#[test]
fn a_workspace_manifest_is_not_run() {
    let record = workspace_record("h");
    assert_eq!(record.source_hash, "h");
    assert_eq!(record.load, StepOutcome::not_run("workspace manifest: the interpreter runs single-package programs"));
    assert_eq!(record.interpret, StepOutcome::not_run("not compiled"));
}

#[test]
fn compile_errors_and_interpreter_failures_are_classified() {
    let gap = compile_error_of(true, " dependency\tfailed ");
    assert_eq!(gap.kind, FailureKind::DependencyCompileGap);
    assert_eq!(gap.payload, "dependency failed");
    let (error, detail) = interpret_failure(&InterpretError::Overflow("addition on u64".to_string()));
    assert_eq!(error.kind, FailureKind::Overflow);
    assert_eq!(error.payload, "addition on u64");
    assert!(detail.contains("addition on u64"), "{detail}");
}

#[test]
fn normalized_steps_lose_their_machine_roots() {
    let roots = vec![(strings(&["/home/me/noir"]), "<noir>".to_string())];
    let step = StepOutcome::failed(
        ComparableError::new(FailureKind::CompileError, "cannot read /home/me/noir/x.nr"),
        "at /home/me/noir/x.nr:1",
    );
    match normalize_step(step, &roots) {
        StepOutcome::Failed { error, detail } => {
            assert_eq!(error.payload, "cannot read <noir>/x.nr");
            assert_eq!(detail, "at <noir>/x.nr:1");
        }
        other => panic!("expected a failed step, got {other:?}"),
    }
    assert!(normalize_step(StepOutcome::Passed, &roots).passed());
}

#[test]
fn field_tags_and_features_follow_the_field() {
    assert_eq!(field_tag(FieldId::Bn254), "bn254");
    assert_eq!(field_tag(FieldId::Goldilocks), "goldilocks");
    assert!(enabled_features(FieldId::Bn254).is_empty());
    assert_eq!(enabled_features(FieldId::Goldilocks), strings(&["goldilocks"]));
    assert_eq!(join_comma(&strings(&["a", "b"])), "a, b");
}

#[test]
fn truncated_diagnostics_still_distinguish_later_errors() {
    let mut diagnostics = vec!["type error".to_string(); RECORDED_DIAGNOSTICS + 1];
    let before = diagnostic_summary(&diagnostics);
    diagnostics.last_mut().unwrap().clear();
    diagnostics.last_mut().unwrap().push_str("unresolved name");
    assert_ne!(before, diagnostic_summary(&diagnostics));
}

#[test]
fn a_short_diagnostic_list_is_joined_whole() {
    let diagnostics = vec!["type error".to_string(), "unresolved name".to_string()];
    assert_eq!(diagnostic_summary(&diagnostics), "type error | unresolved name");
    assert_eq!(diagnostic_detail_tail(2), "");
    assert_eq!(diagnostic_detail_tail(10), " ... and 2 more");
    let many = vec!["e".to_string(); 9];
    let summary = diagnostic_summary(&many);
    assert!(summary.starts_with("e | e | e | e | e | e | e | e | ... and 1 more (sha256="), "{summary}");
    assert_eq!(summary.len(), "e | e | e | e | e | e | e | e | ... and 1 more (sha256=".len() + 64 + 1);
}

#[test]
fn tracked_paths_are_the_listings_fields_in_path_order() {
    let listing = "src/main.nr\0Nargo.toml\0\0Prover.toml\0src/lib.nr\0";
    assert_eq!(tracked_paths(listing), strings(&["Nargo.toml", "Prover.toml", "src/lib.nr", "src/main.nr"]));
    assert_eq!(tracked_paths(""), Vec::<String>::new());
    assert_eq!(tracked_paths("\0\0"), Vec::<String>::new());
    assert_eq!(tracked_paths("only"), strings(&["only"]));
}

#[test]
fn texts_sort_like_str() {
    let names = strings(&["b", "a_b", "ab", "a", "Z", "é", "a"]);
    let mut expected = names.clone();
    expected.sort();
    assert_eq!(sorted_texts(names), expected);
}

#[test]
fn a_workspace_manifest_is_recognized() {
    assert!(is_workspace_manifest("[workspace]\nmembers = [\"a\"]\n"));
    assert!(!is_workspace_manifest("[package]\nname = \"a\"\n"));
}

#[test]
fn an_unrepresentable_recorded_return_leaves_the_return_check_not_run() {
    let i64_value = |v: i128| Value::Int(IntValue::canonical(true, 64, &BigInt::from_i128(v)));
    let actual = i64_value(-5);
    let mut record = pending_record("h");
    assert!(record_step(&mut record, StepReport::Loaded(None)));
    assert!(record_step(&mut record, StepReport::Compiled(None)));
    let unreadable = StepOutcome::failed(
        ComparableError::new(FailureKind::Unsupported { construct: "i64".to_string() }, "i64 is outside the field"),
        "",
    );
    let goldilocks = oracle_step(Some(Err(unreadable)), &actual, FieldId::Goldilocks);
    assert!(
        matches!(&goldilocks, StepOutcome::NotRun { reason } if reason.starts_with("recorded return:")),
        "{goldilocks:?}"
    );
    assert!(record_step(
        &mut record,
        StepReport::Interpreted(Ok((DiffValue::from_value(&Vec::new(), &actual), goldilocks)))
    ));
    assert!(record.interpret.passed(), "{:?}", record.interpret);
    let bn254 = oracle_step(Some(Ok(Some(i64_value(-5)))), &actual, FieldId::Bn254);
    assert!(bn254.passed(), "{bn254:?}");
}

#[test]
fn a_run_takes_its_steps_in_stage_order() {
    let mut record = pending_record("h");
    assert!(matches!(next_stage(&record), RunStage::Load));
    record_step(&mut record, StepReport::Loaded(None));
    assert!(matches!(next_stage(&record), RunStage::Compile));
    record_step(&mut record, StepReport::Compiled(None));
    assert!(matches!(next_stage(&record), RunStage::Project));
    record_step(&mut record, StepReport::Projected(Ok(sha256_hex("(fn main)"))));
    assert!(matches!(next_stage(&record), RunStage::Interpret));
    let failure = StepOutcome::failed(compile_error_of(false, "boom"), "");
    record_step(&mut record, StepReport::Interpreted(Err(failure)));
    assert!(matches!(next_stage(&record), RunStage::Done));
    assert_eq!(record.oracle, StepOutcome::not_run("not interpreted"));

    let mut failed = pending_record("h");
    record_step(&mut failed, StepReport::Loaded(None));
    record_step(&mut failed, StepReport::Compiled(Some(StepOutcome::failed(compile_error_of(false, "e"), ""))));
    assert!(matches!(next_stage(&failed), RunStage::Done));
}
