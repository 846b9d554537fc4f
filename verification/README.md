# ast-interpreter

A tree-walking interpreter for Noir's monomorphized programs, verified with Verus. It runs a
program under bn254 or Goldilocks and compares the field-independent parts of the results
(integers, booleans, arrays, tuples and structs); `Field` values carry the field they belong to.

## Layout

- `src/` is the verified library.
  - `ast`, `types`, `value`, `field`, `bigint`, `text`: programs, types, runtime values, prime
    fields and integers, with a mathematical model (`model`/`@`) for each.
  - `eval`, `intrinsics`, `format`: operators, casts, the builtins a program calls and the
    renderings of values, each proved against a spec function.
  - `interpreter`: the evaluator (`Machine`, `interpret`, `interpret_with_inputs`) against the
    spec evaluator `eval_m`/`run_m`, with a budget of one unit per loop iteration and call.
  - `cross_field`, `caching` and `budget`: laws about whole runs. A program that writes no field
    literal, casts nothing to `Field` and calls only field-blind builtins gives one outcome under
    every field; a global, once evaluated, is kept; a run that finishes within a budget finishes
    the same way under any larger one.
  - `input`, `capability`: the ABI input bridge and the field properties a program can rely on.
  - `diff`, `corpus`, `mavros`, `projection`: run records, cross-field verdicts, provenance and
    pin checks, the Mavros oracle's verdicts, and program fingerprints.
  - `bn254_crypto` and the black-box wrappers in `intrinsics` call `bn254_blackbox_solver`,
    `acvm`, `sha2` and `num-bigint` through trusted wrappers whose contracts name their results.
- `tests/` exercises the library on concrete programs and values.
- `app/` holds what touches the Noir toolchain, the file system, git and JSON: loading and
  monomorphizing packages, `Prover.toml` inputs, the corpus runner and the Mavros sweep.
