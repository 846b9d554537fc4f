//! The record of one program run through the interpreter and through Mavros, and the verdict
//! the two sides give together.

use vstd::prelude::*;
use vstd::string::{StrSliceExecFns, StringExecFns};

use crate::bigint::{int_decimal, nat_decimal, u64_decimal, BigInt};
use crate::error::ErrorModel;
use crate::field::{field_modulus, field_name, FieldId};
use crate::types::{Signedness, Type};
use vstd::arithmetic::power2::{lemma_pow2_pos, pow2};
use crate::input::{abi_debug, input_model, scalar_matches, AbiType, InputValue};
use crate::value::{
    bit_pattern, fits, lemma_value_models, same_value, lemma_wrapped_identity, model_debug, valid_type, value_models, wrapped, Value, ValueModel,
};
use crate::text::{
    append, bool_string, bool_text, char_position, chars_of, find_char, first_line, lemma_char_position_bounds,
    lemma_text_less_irreflexive, lemma_text_less_total, lemma_text_less_transitive, lines_from, owned, push_char,
    push_range, same_text, text_less, text_precedes,
};

verus! {

broadcast use vstd::string::group_string_axioms;

/// What the interpreter and Mavros each made of one program.
#[derive(Debug)]
pub struct Record {
    pub name: String,
    pub expect_failure: bool,
    /// `ok`, or the interpreter's failure kind and message; `not-run` when there is no program.
    pub interp: String,
    /// The interpreter's return value, rendered.
    pub interp_value: Option<String>,
    /// The recorded `return` against the interpreter's: `absent`, `agrees`, `differs` or
    /// `unreadable`; `not-run` when the interpreter failed.
    pub recorded_return: String,
    /// How far Mavros's compiler got: `ok`, or the stage and reason it stopped.
    pub mavros_compile: String,
    /// Witness generation with the return check off.
    pub witgen_unchecked: String,
    /// Witness generation declaring the interpreter's return value.
    pub witgen_declared: String,
    pub verdict: String,
}

impl Record {
    /// A record with nothing run yet.
    pub fn new(name: String, expect_failure: bool) -> (r: Record)
        ensures
            r.name == name,
            r.expect_failure == expect_failure,
            r.interp@ == "not-run"@,
            r.interp_value is None,
            r.recorded_return@ == "not-run"@,
            r.mavros_compile@ == "not-run"@,
            r.witgen_unchecked@ == "not-run"@,
            r.witgen_declared@ == "not-run"@,
            r.verdict@ == Seq::<char>::empty(),
    {
        Record {
            name,
            expect_failure,
            interp: owned("not-run"),
            interp_value: None,
            recorded_return: owned("not-run"),
            mavros_compile: owned("not-run"),
            witgen_unchecked: owned("not-run"),
            witgen_declared: owned("not-run"),
            verdict: String::new(),
        }
    }
}

/// The longest a table cell's line runs before it is cut.
pub const LINE_LIMIT: usize = 200;

/// The first line of a text, cut to [`LINE_LIMIT`] characters with `…` after a cut.
pub open spec fn bounded_line(text: Seq<char>) -> Seq<char> {
    let first = first_line(text);
    if first.len() > LINE_LIMIT {
        first.take(LINE_LIMIT as int).push('…')
    } else {
        first
    }
}

/// The first line of `text`, bounded, for a one-line table cell.
pub fn line(text: &str) -> (r: String)
    ensures
        r@ == bounded_line(text@),
{
    let chars = chars_of(text);
    let lines = lines_from(&chars, 0);
    assert(chars@.subrange(0, chars@.len() as int) =~= chars@);
    let mut out = String::new();
    if lines.len() == 0 {
        return out;
    }
    let first = &lines[0];
    if first.len() > LINE_LIMIT {
        push_range(&mut out, first, 0, LINE_LIMIT);
        push_char(&mut out, '…');
        assert(first@.subrange(0, LINE_LIMIT as int) =~= first@.take(LINE_LIMIT as int));
    } else {
        push_range(&mut out, first, 0, first.len());
        assert(first@.subrange(0, first@.len() as int) =~= first@);
    }
    out
}

/// Whether `text` starts with `prefix`.
pub fn starts_with(text: &str, prefix: &str) -> (r: bool)
    ensures
        r == prefix@.is_prefix_of(text@),
{
    let n = prefix.unicode_len();
    if n > text.unicode_len() {
        return false;
    }
    let head = text.substring_char(0, n);
    same_text(head, prefix)
}

/// Whether a Mavros compile outcome is a gap of Mavros's: it could not process the program.
pub open spec fn mavros_compile_gap(compile: Seq<char>) -> bool {
    ||| "panic"@.is_prefix_of(compile)
    ||| "fail"@.is_prefix_of(compile)
    ||| "lowering-fail"@.is_prefix_of(compile)
    ||| "lowering-panic"@.is_prefix_of(compile)
    ||| "project"@.is_prefix_of(compile)
    ||| "no program"@.is_prefix_of(compile)
}

/// One word for what the two sides say together. A side that could not process the program
/// (a panic, a lowering failure, no program) has a gap, which is neither acceptance nor
/// rejection; a Mavros rejection is a refused compile or a witness generation that traps.
pub open spec fn verdict_of(expect_failure: bool, interp: Seq<char>, compile: Seq<char>, unchecked: Seq<char>, declared: Seq<char>) -> Seq<char> {
    let interp_ok = interp == "ok"@;
    let interp_gap = "Unsupported"@.is_prefix_of(interp);
    let interp_internal = "Internal"@.is_prefix_of(interp) || "Panic"@.is_prefix_of(interp);
    let mavros_gap = mavros_compile_gap(compile) || "panic"@.is_prefix_of(unchecked);
    let mavros_rejects = "reject"@.is_prefix_of(compile) || (compile == "ok"@ && unchecked != "ok"@);
    let mavros_accepts = compile == "ok"@ && unchecked == "ok"@;
    if "frontend-reject"@.is_prefix_of(compile) {
        "frontend-reject"@
    } else if mavros_gap {
        if interp_gap || interp_internal {
            "both-gap"@
        } else {
            "mavros-gap"@
        }
    } else if interp_internal {
        "interp-internal"@
    } else if expect_failure {
        if !interp_ok && mavros_rejects {
            if interp_gap {
                "interp-gap"@
            } else {
                "agree-reject"@
            }
        } else if !interp_ok && mavros_accepts {
            if interp_gap {
                "interp-gap"@
            } else {
                "MAVROS-ACCEPTS"@
            }
        } else if interp_ok && mavros_rejects {
            "INTERP-ACCEPTS"@
        } else if interp_ok && mavros_accepts {
            "both-accept"@
        } else {
            "unclassified"@
        }
    } else if !interp_ok {
        if interp_gap {
            "interp-gap"@
        } else if mavros_accepts {
            "INTERP-REJECTS"@
        } else {
            "both-reject"@
        }
    } else if !mavros_accepts {
        "MAVROS-REJECTS"@
    } else if declared == "ok"@ || declared == "no-return"@ {
        "agree"@
    } else if "unencodable"@.is_prefix_of(declared) {
        "unencodable-return"@
    } else {
        "RETURN-MISMATCH"@
    }
}

/// A record where Mavros could not process the program (its compile outcome starts with
/// `fail`, `panic`, `lowering-fail`, `lowering-panic`, `project` or `no program`, or its
/// unchecked witness generation panicked on a program the frontend did not reject) is a Mavros
/// gap, never an acceptance or a rejection: `both-gap` when the interpreter also has a gap (an
/// unsupported feature or an internal error), else `mavros-gap`.
pub proof fn law_mavros_gaps_are_never_rejections(
    expect_failure: bool,
    interp: Seq<char>,
    compile: Seq<char>,
    unchecked: Seq<char>,
    declared: Seq<char>,
)
    requires
        "fail"@.is_prefix_of(compile) || "panic"@.is_prefix_of(compile) || "lowering-fail"@.is_prefix_of(compile)
            || "lowering-panic"@.is_prefix_of(compile) || "project"@.is_prefix_of(compile)
            || "no program"@.is_prefix_of(compile)
            || ("panic"@.is_prefix_of(unchecked) && !"frontend-reject"@.is_prefix_of(compile)),
    ensures
        verdict_of(expect_failure, interp, compile, unchecked, declared) == (if "Unsupported"@.is_prefix_of(interp)
            || "Internal"@.is_prefix_of(interp) || "Panic"@.is_prefix_of(interp) {
            "both-gap"@
        } else {
            "mavros-gap"@
        }),
{
    reveal_strlit("fail");
    reveal_strlit("panic");
    reveal_strlit("lowering-fail");
    reveal_strlit("lowering-panic");
    reveal_strlit("project");
    reveal_strlit("no program");
    reveal_strlit("frontend-reject");
    if "frontend-reject"@.is_prefix_of(compile) {
        lemma_prefix_chars("frontend-reject"@, compile);
        assert("frontend-reject"@[0] == 'f');
        assert("frontend-reject"@[1] == 'r');
        assert(compile[0] == 'f' && compile[1] == 'r');
        if "fail"@.is_prefix_of(compile) {
            lemma_prefix_chars("fail"@, compile);
        }
        if "panic"@.is_prefix_of(compile) {
            lemma_prefix_chars("panic"@, compile);
        }
        if "project"@.is_prefix_of(compile) {
            lemma_prefix_chars("project"@, compile);
        }
        if "lowering-fail"@.is_prefix_of(compile) {
            lemma_prefix_chars("lowering-fail"@, compile);
        }
        if "lowering-panic"@.is_prefix_of(compile) {
            lemma_prefix_chars("lowering-panic"@, compile);
        }
        if "no program"@.is_prefix_of(compile) {
            lemma_prefix_chars("no program"@, compile);
        }
    }
}

/// The buckets at the ends of the scale: a program the frontend rejected is `frontend-reject`
/// whatever else the record says; a program expected to pass that the interpreter runs and that
/// Mavros refuses to compile, its witness generation not having panicked, is `MAVROS-REJECTS`; one that both run, with Mavros's declared
/// witness check passing or nothing returned, is `agree`.
pub proof fn law_verdict_buckets(
    expect_failure: bool,
    interp: Seq<char>,
    compile: Seq<char>,
    unchecked: Seq<char>,
    declared: Seq<char>,
)
    ensures
        "frontend-reject"@.is_prefix_of(compile) ==> verdict_of(expect_failure, interp, compile, unchecked, declared)
            == "frontend-reject"@,
        !expect_failure && interp == "ok"@ && "reject"@.is_prefix_of(compile) && !"panic"@.is_prefix_of(unchecked)
            ==> verdict_of(expect_failure, interp, compile, unchecked, declared) == "MAVROS-REJECTS"@,
        !expect_failure && interp == "ok"@ && compile == "ok"@ && unchecked == "ok"@
            && (declared == "ok"@ || declared == "no-return"@)
            ==> verdict_of(expect_failure, interp, compile, unchecked, declared) == "agree"@,
{
    reveal_strlit("ok");
    reveal_strlit("reject");
    reveal_strlit("fail");
    reveal_strlit("panic");
    reveal_strlit("lowering-fail");
    reveal_strlit("lowering-panic");
    reveal_strlit("project");
    reveal_strlit("no program");
    reveal_strlit("frontend-reject");
    reveal_strlit("Unsupported");
    reveal_strlit("Internal");
    reveal_strlit("Panic");
    if "reject"@.is_prefix_of(compile) {
        lemma_prefix_chars("reject"@, compile);
        assert("reject"@[0] == 'r');
        assert(compile[0] == 'r');
        if "frontend-reject"@.is_prefix_of(compile) {
            lemma_prefix_chars("frontend-reject"@, compile);
        }
        if "fail"@.is_prefix_of(compile) {
            lemma_prefix_chars("fail"@, compile);
        }
        if "panic"@.is_prefix_of(compile) {
            lemma_prefix_chars("panic"@, compile);
        }
        if "project"@.is_prefix_of(compile) {
            lemma_prefix_chars("project"@, compile);
        }
        if "lowering-fail"@.is_prefix_of(compile) {
            lemma_prefix_chars("lowering-fail"@, compile);
        }
        if "lowering-panic"@.is_prefix_of(compile) {
            lemma_prefix_chars("lowering-panic"@, compile);
        }
        if "no program"@.is_prefix_of(compile) {
            lemma_prefix_chars("no program"@, compile);
        }
        assert(compile != "ok"@) by {
            if compile == "ok"@ {
                assert(compile[0] == 'o');
            }
        }
    }
}

/// A text that starts with `prefix` has its characters at their places.
proof fn lemma_prefix_chars(prefix: Seq<char>, s: Seq<char>)
    requires
        prefix.is_prefix_of(s),
    ensures
        forall|k: int| 0 <= k < prefix.len() ==> s[k] == #[trigger] prefix[k],
{
    assert forall|k: int| 0 <= k < prefix.len() implies s[k] == #[trigger] prefix[k] by {
        assert(prefix[k] == s.subrange(0, prefix.len() as int)[k]);
    }
}

/// The verdict of a record.
pub fn verdict(record: &Record) -> (r: String)
    ensures
        r@ == verdict_of(record.expect_failure, record.interp@, record.mavros_compile@, record.witgen_unchecked@,
            record.witgen_declared@),
{
    let interp = record.interp.as_str();
    let compile = record.mavros_compile.as_str();
    let unchecked = record.witgen_unchecked.as_str();
    let declared = record.witgen_declared.as_str();
    let interp_ok = same_text(interp, "ok");
    let interp_gap = starts_with(interp, "Unsupported");
    let interp_internal = starts_with(interp, "Internal") || starts_with(interp, "Panic");
    let mavros_gap = starts_with(compile, "panic") || starts_with(compile, "fail") || starts_with(compile, "lowering-fail")
        || starts_with(compile, "lowering-panic") || starts_with(compile, "project") || starts_with(compile, "no program")
        || starts_with(unchecked, "panic");
    let compile_ok = same_text(compile, "ok");
    let unchecked_ok = same_text(unchecked, "ok");
    let mavros_rejects = starts_with(compile, "reject") || (compile_ok && !unchecked_ok);
    let mavros_accepts = compile_ok && unchecked_ok;
    if starts_with(compile, "frontend-reject") {
        return owned("frontend-reject");
    }
    if mavros_gap {
        return if interp_gap || interp_internal {
            owned("both-gap")
        } else {
            owned("mavros-gap")
        };
    }
    if interp_internal {
        return owned("interp-internal");
    }
    if record.expect_failure {
        return if !interp_ok && mavros_rejects {
            if interp_gap {
                owned("interp-gap")
            } else {
                owned("agree-reject")
            }
        } else if !interp_ok && mavros_accepts {
            if interp_gap {
                owned("interp-gap")
            } else {
                owned("MAVROS-ACCEPTS")
            }
        } else if interp_ok && mavros_rejects {
            owned("INTERP-ACCEPTS")
        } else if interp_ok && mavros_accepts {
            owned("both-accept")
        } else {
            owned("unclassified")
        };
    }
    if !interp_ok {
        return if interp_gap {
            owned("interp-gap")
        } else if mavros_accepts {
            owned("INTERP-REJECTS")
        } else {
            owned("both-reject")
        };
    }
    if !mavros_accepts {
        return owned("MAVROS-REJECTS");
    }
    if same_text(declared, "ok") || same_text(declared, "no-return") {
        owned("agree")
    } else if starts_with(declared, "unencodable") {
        owned("unencodable-return")
    } else {
        owned("RETURN-MISMATCH")
    }
}

/// A text with every `|` escaped, for a markdown table cell.
pub open spec fn escaped_cell(text: Seq<char>) -> Seq<char>
    decreases text.len(),
{
    if text.len() == 0 {
        Seq::empty()
    } else {
        escaped_cell(text.drop_last()) + (if text.last() == '|' { seq!['\\', '|'] } else { seq![text.last()] })
    }
}

/// `text` with every `|` escaped.
pub fn cell(text: &str) -> (r: String)
    ensures
        r@ == escaped_cell(text@),
{
    let chars = chars_of(text);
    let mut out = String::new();
    let mut i: usize = 0;
    while i < chars.len()
        invariant
            i <= chars@.len(),
            chars@ == text@,
            out@ == escaped_cell(text@.take(i as int)),
        decreases chars@.len() - i,
    {
        assert(text@.take(i as int + 1).drop_last() =~= text@.take(i as int));
        if chars[i] == '|' {
            push_char(&mut out, '\\');
            push_char(&mut out, '|');
        } else {
            push_char(&mut out, chars[i]);
        }
        assert(out@ =~= escaped_cell(text@.take(i as int + 1)));
        i = i + 1;
    }
    assert(text@.take(text@.len() as int) =~= text@);
    out
}

/// The stem of the sweep's output files: the field, and the mode when it is not the default.
pub fn sweep_output_stem(field: FieldId, generic_builtins: bool) -> (r: String)
    ensures
        r@ == (if generic_builtins { field_name(field) + "-generic-builtins"@ } else { field_name(field) }),
{
    let mut s = field.name();
    if generic_builtins {
        append(&mut s, "-generic-builtins");
    }
    s
}


/// A value declared to the ABI as an entry point's return: each scalar is the bit pattern the
/// ABI's codec turns into a field element, and aggregates keep the shape the ABI reads.
#[derive(Debug, PartialEq)]
pub enum Declared {
    Scalar(BigInt),
    Text(String),
    List(Vec<Declared>),
    Fields(Vec<(String, Declared)>),
}

/// What a declared value denotes.
pub enum DeclaredModel {
    Scalar(int),
    Text(Seq<char>),
    List(Seq<DeclaredModel>),
    Fields(Seq<(Seq<char>, DeclaredModel)>),
}

impl Declared {
    pub open spec fn model(&self) -> DeclaredModel
        decreases self,
    {
        match self {
            Declared::Scalar(p) => DeclaredModel::Scalar(p@),
            Declared::Text(t) => DeclaredModel::Text(t@),
            Declared::List(ds) => DeclaredModel::List(
                Seq::new(ds@.len(), |i: int| if 0 <= i < ds@.len() { ds@[i].model() } else { DeclaredModel::Scalar(0) }),
            ),
            Declared::Fields(fs) => DeclaredModel::Fields(
                Seq::new(fs@.len(), |i: int| if 0 <= i < fs@.len() { (fs@[i].0@, fs@[i].1.model()) } else { (Seq::empty(), DeclaredModel::Scalar(0)) }),
            ),
        }
    }
}

/// The declaration of value `v` as a return the ABI reads as `t`: field elements by their
/// value, integers by their bit pattern, booleans as 0 or 1, arrays of the declared length,
/// tuples and structs field by field, strings as they are.
pub open spec fn declared_model(v: ValueModel, t: AbiType) -> Result<DeclaredModel, Seq<char>>
    decreases t, 0nat,
{
    match (v, t) {
        (ValueModel::Field(_, x), AbiType::Field) => Ok(DeclaredModel::Scalar(x)),
        (ValueModel::Int(s, b, x), AbiType::Integer { .. }) => if bit_pattern(x, b as nat) < 0 {
            Err("IntValue { signed: "@ + bool_text(s) + ", bits: "@ + nat_decimal(b as nat) + ", value: "@ + int_decimal(x)
                + " } has a negative bit pattern"@)
        } else {
            Ok(DeclaredModel::Scalar(bit_pattern(x, b as nat)))
        },
        (ValueModel::Bool(b), AbiType::Boolean) => Ok(DeclaredModel::Scalar(if b { 1 } else { 0 })),
        (ValueModel::Array(xs), AbiType::Array { length, typ }) => if xs.len() != length as nat {
            Err(nat_decimal(xs.len()) + " elements for an array of "@ + nat_decimal(length as nat))
        } else {
            match declared_elements(xs, *typ, 0) {
                Ok(ds) => Ok(DeclaredModel::List(ds)),
                Err(e) => Err(e),
            }
        },
        (ValueModel::Tuple(xs), AbiType::Tuple { fields }) if xs.len() == fields@.len() => match declared_each(xs, fields@, 0) {
            Ok(ds) => Ok(DeclaredModel::List(ds)),
            Err(e) => Err(e),
        },
        (ValueModel::Tuple(xs), AbiType::Struct { fields, .. }) if xs.len() == fields@.len() => match declared_named(xs, fields@, 0) {
            Ok(ds) => Ok(DeclaredModel::Fields(ds)),
            Err(e) => Err(e),
        },
        (ValueModel::Str(text), AbiType::String { .. }) => Ok(DeclaredModel::Text(text)),
        _ => Err("cannot declare "@ + model_debug(v) + " as a return of "@ + abi_debug(t)),
    }
}

/// The declarations of the values of `xs` from `i` on, each read as `t`.
pub open spec fn declared_elements(xs: Seq<ValueModel>, t: AbiType, i: nat) -> Result<Seq<DeclaredModel>, Seq<char>>
    decreases t, xs.len() - i + 1,
{
    if i >= xs.len() {
        Ok(Seq::empty())
    } else {
        match declared_model(xs[i as int], t) {
            Err(e) => Err(e),
            Ok(d) => match declared_elements(xs, t, i + 1) {
                Ok(ds) => Ok(seq![d] + ds),
                Err(e) => Err(e),
            },
        }
    }
}

/// The declarations of the values of `xs` from `i` on, each read as the type at its position.
pub open spec fn declared_each(xs: Seq<ValueModel>, ts: Seq<AbiType>, i: nat) -> Result<Seq<DeclaredModel>, Seq<char>>
    decreases ts, ts.len() - i,
{
    if i >= xs.len() || i >= ts.len() {
        Ok(Seq::empty())
    } else {
        match declared_model(xs[i as int], ts[i as int]) {
            Err(e) => Err(e),
            Ok(d) => match declared_each(xs, ts, i + 1) {
                Ok(ds) => Ok(seq![d] + ds),
                Err(e) => Err(e),
            },
        }
    }
}

/// The declarations of the values of `xs` from `i` on under the names and types of `fs`.
pub open spec fn declared_named(xs: Seq<ValueModel>, fs: Seq<(String, AbiType)>, i: nat) -> Result<Seq<(Seq<char>, DeclaredModel)>, Seq<char>>
    decreases fs, fs.len() - i,
{
    if i >= xs.len() || i >= fs.len() {
        Ok(Seq::empty())
    } else {
        match declared_model(xs[i as int], fs[i as int].1) {
            Err(e) => Err(e),
            Ok(d) => match declared_named(xs, fs, i + 1) {
                Ok(ds) => Ok(seq![(fs[i as int].0@, d)] + ds),
                Err(e) => Err(e),
            },
        }
    }
}

/// What a declaration-or-reason result denotes.
pub open spec fn declared_result(r: Result<Declared, String>) -> Result<DeclaredModel, Seq<char>> {
    match r {
        Ok(d) => Ok(d.model()),
        Err(e) => Err(e@),
    }
}


/// A well-formed field element, integer or boolean declared as a return the ABI reads as `abi`
/// reads back through the input bridge, as the element the ABI's codec gives, as the value
/// declared.
pub proof fn law_declared_scalar_reads_back(v: ValueModel, abi: AbiType, typ: Type, field: FieldId, x: BigInt)
    requires
        scalar_matches(abi, typ),
        declared_model(v, abi) == Ok::<DeclaredModel, Seq<char>>(DeclaredModel::Scalar(x@)),
        v matches ValueModel::Int(s, b, n) ==> typ == Type::Integer(
            if s { Signedness::Signed } else { Signedness::Unsigned },
            b,
        ) && valid_type(s, b as nat) && fits(s, b as nat, n),
        v matches ValueModel::Field(f, n) ==> f == field && 0 <= n < field_modulus(field),
    ensures
        input_model(InputValue::Field(Ok(x)), abi, typ, field) == Ok::<ValueModel, ErrorModel>(v),
{
    match v {
        ValueModel::Int(s, b, n) => {
            lemma_pow2_pos(b as nat);
            let m = pow2(b as nat) as int;
            if n < 0 {
                vstd::arithmetic::div_mod::lemma_mod_add_multiples_vanish(n, m);
            }
            assert(bit_pattern(n, b as nat) % m == n % m);
            assert(wrapped(s, b as nat, bit_pattern(n, b as nat)) == wrapped(s, b as nat, n));
            lemma_wrapped_identity(s, b as nat, n);
        },
        _ => {},
    }
}

/// Declare `value` as a return the ABI reads as `typ`, so that Mavros can check its own result
/// against the interpreter's; a declared scalar reads back through the input bridge as the value
/// declared (`law_declared_scalar_reads_back`).
pub fn declared_input(value: &Value, typ: &AbiType) -> (r: Result<Declared, String>)
    ensures
        declared_result(r) == declared_model(value.model(), *typ),
    decreases typ, 0nat,
{
    proof {
        lemma_value_models(*value);
    }
    match (value, typ) {
        (Value::Field(f), AbiType::Field) => Ok(Declared::Scalar(f.value())),
        (Value::Int(i), AbiType::Integer { .. }) => {
            let p = i.unsigned_repr();
            if p.is_negative() {
                let mut m = owned("IntValue { signed: ");
                append(&mut m, bool_string(i.signed).as_str());
                append(&mut m, ", bits: ");
                append(&mut m, u64_decimal(i.bits as u64).as_str());
                append(&mut m, ", value: ");
                append(&mut m, i.value.to_decimal().as_str());
                append(&mut m, " } has a negative bit pattern");
                Err(m)
            } else {
                Ok(Declared::Scalar(p))
            }
        },
        (Value::Bool(b), AbiType::Boolean) => Ok(Declared::Scalar(if *b { BigInt::one() } else { BigInt::zero() })),
        (Value::Array(xs), AbiType::Array { length, typ: element }) => {
            if xs.len() as u64 != *length as u64 {
                let mut m = u64_decimal(xs.len() as u64);
                append(&mut m, " elements for an array of ");
                append(&mut m, u64_decimal(*length as u64).as_str());
                return Err(m);
            }
            match declare_elements(xs, element) {
                Ok(ds) => Ok(listed(ds)),
                Err(e) => Err(e),
            }
        },
        (Value::Tuple(xs), AbiType::Tuple { fields }) if xs.len() == fields.len() => match declare_each(xs, fields) {
            Ok(ds) => Ok(listed(ds)),
            Err(e) => Err(e),
        },
        (Value::Tuple(xs), AbiType::Struct { fields, .. }) if xs.len() == fields.len() => match declare_named(xs, fields) {
            Ok(ds) => {
                let d = Declared::Fields(ds);
                proof {
                    assert(d.model()->Fields_0 =~= named_models(ds@));
                }
                Ok(d)
            },
            Err(e) => Err(e),
        },
        (Value::Str(text), AbiType::String { .. }) => Ok(Declared::Text(text.clone())),
        _ => {
            let mut m = owned("cannot declare ");
            append(&mut m, value.debug_text().as_str());
            append(&mut m, " as a return of ");
            append(&mut m, typ.debug_text().as_str());
            Err(m)
        },
    }
}

/// The models of declarations.
spec fn declared_models(ds: Seq<Declared>) -> Seq<DeclaredModel> {
    Seq::new(ds.len(), |i: int| ds[i].model())
}

/// The declarations as a list.
fn listed(ds: Vec<Declared>) -> (r: Declared)
    ensures
        r.model() == DeclaredModel::List(declared_models(ds@)),
{
    let r = Declared::List(ds);
    assert(r.model()->List_0 =~= declared_models(ds@));
    r
}

/// Declare every value of `xs` as `t`.
fn declare_elements(xs: &Vec<Value>, t: &AbiType) -> (r: Result<Vec<Declared>, String>)
    ensures
        match declared_elements(value_models(xs@), *t, 0) {
            Ok(ds) => r matches Ok(v) && declared_models(v@) == ds,
            Err(e) => r matches Err(x) && x@ == e,
        },
    decreases t, xs@.len() + 1,
{
    let ghost ms = value_models(xs@);
    let mut out: Vec<Declared> = Vec::new();
    let mut i: usize = 0;
    while i < xs.len()
        invariant
            i <= xs@.len(),
            ms == value_models(xs@),
            declared_elements(ms, *t, 0) == (match declared_elements(ms, *t, i as nat) {
                Ok(rest) => Ok(declared_models(out@) + rest),
                Err(e) => Err::<Seq<DeclaredModel>, Seq<char>>(e),
            }),
        decreases xs@.len() - i,
    {
        let d = match declared_input(&xs[i], t) {
            Ok(d) => d,
            Err(e) => return Err(e),
        };
        proof {
            let rest = declared_elements(ms, *t, i as nat + 1);
            assert(declared_models(out@.push(d)) =~= declared_models(out@).push(d.model()));
            if rest is Ok {
                assert(declared_models(out@) + (seq![d.model()] + rest->Ok_0) =~= declared_models(out@).push(d.model()) + rest->Ok_0);
            }
        }
        out.push(d);
        i = i + 1;
    }
    assert(declared_models(out@) + Seq::<DeclaredModel>::empty() =~= declared_models(out@));
    Ok(out)
}

/// Declare every value of `xs` as the type at its position in `ts`.
fn declare_each(xs: &Vec<Value>, ts: &Vec<AbiType>) -> (r: Result<Vec<Declared>, String>)
    ensures
        match declared_each(value_models(xs@), ts@, 0) {
            Ok(ds) => r matches Ok(v) && declared_models(v@) == ds,
            Err(e) => r matches Err(x) && x@ == e,
        },
    decreases ts, 1nat,
{
    let ghost ms = value_models(xs@);
    let mut out: Vec<Declared> = Vec::new();
    let mut i: usize = 0;
    while i < xs.len() && i < ts.len()
        invariant
            i <= xs@.len(),
            i <= ts@.len(),
            ms == value_models(xs@),
            declared_each(ms, ts@, 0) == (match declared_each(ms, ts@, i as nat) {
                Ok(rest) => Ok(declared_models(out@) + rest),
                Err(e) => Err::<Seq<DeclaredModel>, Seq<char>>(e),
            }),
        decreases ts@.len() - i,
    {
        proof {
            assert(decreases_to!(*ts => ts@));
            assert(decreases_to!(ts@ => ts@[i as int]));
        }
        let d = match declared_input(&xs[i], &ts[i]) {
            Ok(d) => d,
            Err(e) => return Err(e),
        };
        proof {
            let rest = declared_each(ms, ts@, i as nat + 1);
            assert(declared_models(out@.push(d)) =~= declared_models(out@).push(d.model()));
            if rest is Ok {
                assert(declared_models(out@) + (seq![d.model()] + rest->Ok_0) =~= declared_models(out@).push(d.model()) + rest->Ok_0);
            }
        }
        out.push(d);
        i = i + 1;
    }
    assert(declared_models(out@) + Seq::<DeclaredModel>::empty() =~= declared_models(out@));
    Ok(out)
}

/// The models of named declarations.
spec fn named_models(ds: Seq<(String, Declared)>) -> Seq<(Seq<char>, DeclaredModel)> {
    Seq::new(ds.len(), |i: int| (ds[i].0@, ds[i].1.model()))
}

/// Declare every value of `xs` under the name and type at its position in `fs`.
fn declare_named(xs: &Vec<Value>, fs: &Vec<(String, AbiType)>) -> (r: Result<Vec<(String, Declared)>, String>)
    ensures
        match declared_named(value_models(xs@), fs@, 0) {
            Ok(ds) => r matches Ok(v) && named_models(v@) == ds,
            Err(e) => r matches Err(x) && x@ == e,
        },
    decreases fs, 1nat,
{
    let ghost ms = value_models(xs@);
    let mut out: Vec<(String, Declared)> = Vec::new();
    let mut i: usize = 0;
    while i < xs.len() && i < fs.len()
        invariant
            i <= xs@.len(),
            i <= fs@.len(),
            ms == value_models(xs@),
            declared_named(ms, fs@, 0) == (match declared_named(ms, fs@, i as nat) {
                Ok(rest) => Ok(named_models(out@) + rest),
                Err(e) => Err::<Seq<(Seq<char>, DeclaredModel)>, Seq<char>>(e),
            }),
        decreases fs@.len() - i,
    {
        proof {
            assert(decreases_to!(*fs => fs@));
            assert(decreases_to!(fs@ => fs@[i as int]));
        }
        let d = match declared_input(&xs[i], &fs[i].1) {
            Ok(d) => d,
            Err(e) => return Err(e),
        };
        let name = fs[i].0.clone();
        proof {
            let rest = declared_named(ms, fs@, i as nat + 1);
            assert(named_models(out@.push((name, d))) =~= named_models(out@).push((fs@[i as int].0@, d.model())));
            if rest is Ok {
                assert(named_models(out@) + (seq![(fs@[i as int].0@, d.model())] + rest->Ok_0) =~= named_models(out@).push(
                    (fs@[i as int].0@, d.model())) + rest->Ok_0);
            }
        }
        out.push((name, d));
        i = i + 1;
    }
    assert(named_models(out@) + Seq::<(Seq<char>, DeclaredModel)>::empty() =~= named_models(out@));
    Ok(out)
}

/// The verdict bucket a record counts under: its verdict up to the first `:`.
pub open spec fn verdict_bucket(verdict: Seq<char>) -> Seq<char> {
    verdict.take(char_position(verdict, ':', 0) as int)
}

/// A sweep total's key: whether the program is from the failure corpus, and its verdict bucket.
pub open spec fn record_key(r: Record) -> (bool, Seq<char>) {
    (r.expect_failure, verdict_bucket(r.verdict@))
}

/// The keys of a sweep's records, in order.
pub open spec fn record_keys(rs: Seq<Record>) -> Seq<(bool, Seq<char>)> {
    Seq::new(rs.len(), |i: int| record_key(rs[i]))
}

/// The order of total keys: the success corpus first, then the buckets in the order of `str`.
pub open spec fn key_less(a: (bool, Seq<char>), b: (bool, Seq<char>)) -> bool {
    (!a.0 && b.0) || (a.0 == b.0 && text_less(a.1, b.1))
}

/// How many of `keys` are `k`.
pub open spec fn key_count(keys: Seq<(bool, Seq<char>)>, k: (bool, Seq<char>)) -> nat
    decreases keys.len(),
{
    if keys.len() == 0 {
        0
    } else {
        key_count(keys.drop_last(), k) + if keys.last() == k { 1nat } else { 0nat }
    }
}

/// The key of a total.
pub open spec fn total_key(t: (bool, String, usize)) -> (bool, Seq<char>) {
    (t.0, t.1@)
}

/// A key that some of `keys` is.
proof fn lemma_key_count(keys: Seq<(bool, Seq<char>)>, k: (bool, Seq<char>))
    ensures
        key_count(keys, k) <= keys.len(),
        key_count(keys, k) > 0 ==> exists|m: int| 0 <= m < keys.len() && keys[m] == k,
    decreases keys.len(),
{
    if keys.len() > 0 {
        lemma_key_count(keys.drop_last(), k);
        if key_count(keys.drop_last(), k) > 0 {
            let m = choose|m: int| 0 <= m < keys.drop_last().len() && keys.drop_last()[m] == k;
            assert(keys[m] == k);
        } else if keys.last() == k {
            assert(keys[keys.len() - 1] == k);
        }
    }
}

/// The order of keys is a strict total order.
proof fn lemma_key_order(a: (bool, Seq<char>), b: (bool, Seq<char>), c: (bool, Seq<char>))
    ensures
        !key_less(a, a),
        key_less(a, b) && key_less(b, c) ==> key_less(a, c),
        a != b ==> key_less(a, b) || key_less(b, a),
{
    lemma_text_less_irreflexive(a.1);
    if key_less(a, b) && key_less(b, c) && a.0 == b.0 && b.0 == c.0 {
        lemma_text_less_transitive(a.1, b.1, c.1);
    }
    if a != b && a.0 == b.0 {
        lemma_text_less_total(a.1, b.1);
    }
}

/// A verdict's bucket: its text up to the first colon.
pub fn bucket_of(verdict: &str) -> (r: String)
    ensures
        r@ == verdict_bucket(verdict@),
{
    let chars = chars_of(verdict);
    let end = find_char(&chars, ':', 0);
    proof {
        lemma_char_position_bounds(chars@, ':', 0);
    }
    let mut out = String::new();
    push_range(&mut out, &chars, 0, end);
    assert(out@ =~= verdict_bucket(verdict@));
    out
}

/// Whether a total's key comes before another key.
fn key_precedes(a: &(bool, String, usize), b: bool, t: &str) -> (r: bool)
    ensures
        r == key_less(total_key(*a), (b, t@)),
{
    (!a.0 && b) || (a.0 == b && text_precedes(a.1.as_str(), t))
}

/// The verdict totals of a sweep: one per corpus and verdict bucket that some record has, in key
/// order, with the number of records under it.
pub fn verdict_totals(records: &Vec<Record>) -> (r: Vec<(bool, String, usize)>)
    ensures
        forall|i: int, j: int| 0 <= i < j < r@.len() ==> key_less(total_key(#[trigger] r@[i]), total_key(#[trigger] r@[j])),
        forall|i: int| 0 <= i < r@.len() ==> (#[trigger] r@[i]).2 == key_count(record_keys(records@), total_key(r@[i])),
        forall|i: int| 0 <= i < r@.len() ==> (#[trigger] r@[i]).2 > 0,
        forall|m: int| 0 <= m < records@.len() ==> exists|i: int| 0 <= i < r@.len() && total_key(#[trigger] r@[i]) == record_key(#[trigger] records@[m]),
{
    let ghost keys = record_keys(records@);
    let mut out: Vec<(bool, String, usize)> = Vec::new();
    let mut n: usize = 0;
    while n < records.len()
        invariant
            n <= records@.len(),
            keys == record_keys(records@),
            forall|i: int, j: int| 0 <= i < j < out@.len() ==> key_less(total_key(#[trigger] out@[i]), total_key(#[trigger] out@[j])),
            forall|i: int| 0 <= i < out@.len() ==> (#[trigger] out@[i]).2 == key_count(keys.take(n as int), total_key(out@[i])),
            forall|i: int| 0 <= i < out@.len() ==> (#[trigger] out@[i]).2 > 0,
            forall|m: int| 0 <= m < n ==> exists|i: int| 0 <= i < out@.len() && total_key(#[trigger] out@[i]) == #[trigger] keys[m],
        decreases records@.len() - n,
    {
        let b = records[n].expect_failure;
        let t = bucket_of(records[n].verdict.as_str());
        let ghost key = (b, t@);
        assert(key == keys[n as int]);
        let mut k: usize = 0;
        while k < out.len() && key_precedes(&out[k], b, t.as_str())
            invariant
                k <= out@.len(),
                key == (b, t@),
                forall|j: int| 0 <= j < k ==> key_less(total_key(#[trigger] out@[j]), key),
            decreases out@.len() - k,
        {
            k = k + 1;
        }
        let ghost before = out@;
        proof {
            assert(keys.take(n + 1).drop_last() =~= keys.take(n as int));
            assert(keys.take(n + 1).last() == key);
            lemma_key_count(keys.take(n as int), key);
        }
        let found = k < out.len() && out[k].0 == b && same_text(out[k].1.as_str(), t.as_str());
        if found {
            let count = out[k].2;
            proof {
                lemma_key_count(keys.take(n as int), total_key(before[k as int]));
            }
            let name = out[k].1.clone();
            out.set(k, (b, name, count + 1));
            proof {
                assert forall|i: int| 0 <= i < out@.len() implies (#[trigger] out@[i]).2 == key_count(
                    keys.take(n + 1),
                    total_key(out@[i]),
                ) by {
                    if i != k {
                        assert(out@[i] == before[i]);
                    }
                }
                assert forall|i: int, j: int| 0 <= i < j < out@.len() implies key_less(
                    total_key(#[trigger] out@[i]),
                    total_key(#[trigger] out@[j]),
                ) by {
                    assert(total_key(out@[i]) == total_key(before[i]));
                    assert(total_key(out@[j]) == total_key(before[j]));
                }
                assert forall|m: int| 0 <= m < n + 1 implies exists|i: int|
                    0 <= i < out@.len() && total_key(#[trigger] out@[i]) == #[trigger] keys[m] by {
                    if m < n {
                        let i = choose|i: int| 0 <= i < before.len() && total_key(before[i]) == keys[m];
                        assert(total_key(out@[i]) == total_key(before[i]));
                    } else {
                        assert(total_key(out@[k as int]) == keys[m]);
                    }
                }
            }
        } else {
            proof {
                if k < before.len() {
                    lemma_key_order(total_key(before[k as int]), key, key);
                }
                if key_count(keys.take(n as int), key) > 0 {
                    let m = choose|m: int| 0 <= m < keys.take(n as int).len() && keys.take(n as int)[m] == key;
                    let i = choose|i: int| 0 <= i < before.len() && total_key(before[i]) == keys[m];
                    if i < k {
                        lemma_key_order(key, key, key);
                    } else if i > k {
                        lemma_key_order(key, total_key(before[k as int]), key);
                        lemma_key_order(total_key(before[k as int]), key, total_key(before[i]));
                    }
                }
                assert(key_count(keys.take(n as int), key) == 0);
            }
            out.insert(k, (b, t, 1));
            proof {
                assert(out@ =~= before.insert(k as int, out@[k as int]));
                assert forall|i: int| 0 <= i < out@.len() implies (#[trigger] out@[i]).2 == key_count(
                    keys.take(n + 1),
                    total_key(out@[i]),
                ) by {
                    if i < k {
                        assert(out@[i] == before[i]);
                        assert(total_key(before[i]) != key) by {
                            lemma_key_order(total_key(before[i]), key, key);
                        }
                    } else if i > k {
                        assert(out@[i] == before[i - 1]);
                        if total_key(before[i - 1]) == key {
                            lemma_key_order(key, total_key(before[k as int]), key);
                            if i - 1 > k {
                                lemma_key_order(key, total_key(before[k as int]), total_key(before[i - 1]));
                            }
                        }
                    }
                }
                assert forall|i: int, j: int| 0 <= i < j < out@.len() implies key_less(
                    total_key(#[trigger] out@[i]),
                    total_key(#[trigger] out@[j]),
                ) by {
                    if i < k && j == k {
                    } else if i < k && j > k {
                        assert(out@[j] == before[j - 1]);
                        if j - 1 > k {
                            lemma_key_order(key, total_key(before[k as int]), total_key(before[j - 1]));
                        }
                        lemma_key_order(total_key(before[i]), key, total_key(before[j - 1]));
                    } else if i == k {
                        assert(out@[j] == before[j - 1]);
                        if j - 1 > k {
                            lemma_key_order(key, total_key(before[k as int]), total_key(before[j - 1]));
                        }
                    } else if i > k {
                        assert(out@[i] == before[i - 1]);
                        assert(out@[j] == before[j - 1]);
                    }
                }
                assert forall|m: int| 0 <= m < n + 1 implies exists|i: int|
                    0 <= i < out@.len() && total_key(#[trigger] out@[i]) == #[trigger] keys[m] by {
                    if m < n {
                        let i = choose|i: int| 0 <= i < before.len() && total_key(before[i]) == keys[m];
                        if i < k {
                            assert(total_key(out@[i]) == keys[m]);
                        } else {
                            assert(total_key(out@[i + 1]) == keys[m]);
                        }
                    } else {
                        assert(total_key(out@[k as int]) == keys[m]);
                    }
                }
            }
        }
        n = n + 1;
    }
    assert(keys.take(records@.len() as int) =~= keys);
    assert forall|m: int| 0 <= m < records@.len() implies exists|i: int|
        0 <= i < out@.len() && total_key(#[trigger] out@[i]) == record_key(#[trigger] records@[m]) by {
        assert(keys[m] == record_key(records@[m]));
    }
    out
}

/// The totals table's row for one total.
pub open spec fn total_row(t: (bool, String, usize)) -> Seq<char> {
    "| "@ + (if t.0 { "execution_failure"@ } else { "execution_success"@ }) + " | "@ + t.1@ + " | "@
        + nat_decimal(t.2 as nat) + " |\n"@
}

/// The totals table's rows.
pub open spec fn total_rows(ts: Seq<(bool, String, usize)>) -> Seq<char>
    decreases ts.len(),
{
    if ts.len() == 0 {
        Seq::empty()
    } else {
        total_rows(ts.drop_last()) + total_row(ts.last())
    }
}

/// The programs table's row for one record.
pub open spec fn record_row(r: Record) -> Seq<char> {
    "| "@ + escaped_cell(r.name@) + " | "@ + escaped_cell(r.verdict@) + " | "@ + escaped_cell(r.interp@) + " | "@
        + escaped_cell(r.recorded_return@) + " | "@ + escaped_cell(r.mavros_compile@) + " | "@ + escaped_cell(
        r.witgen_unchecked@,
    ) + " | "@ + escaped_cell(r.witgen_declared@) + " |\n"@
}

/// The programs table's rows.
pub open spec fn record_rows(rs: Seq<Record>) -> Seq<char>
    decreases rs.len(),
{
    if rs.len() == 0 {
        Seq::empty()
    } else {
        record_rows(rs.drop_last()) + record_row(rs.last())
    }
}

/// The heading and the head of the totals table of a sweep's report.
pub open spec fn report_head(stem: Seq<char>) -> Seq<char> {
    "# Interpreter vs Mavros under "@ + stem + "\n\n| Corpus | Verdict | Programs |\n| --- | --- | --- |\n"@
}

/// The head of the programs table of a sweep's report.
pub open spec fn programs_head() -> Seq<char> {
    "\n| Program | Verdict | Interpreter | Recorded return | Mavros compile | Witgen, return unchecked | Witgen, interpreter's return declared |\n| --- | --- | --- | --- | --- | --- | --- |\n"@
}

/// Appends the programs table's row for one record.
fn push_record_row(md: &mut String, r: &Record)
    ensures
        final(md)@ == old(md)@ + record_row(*r),
{
    let ghost start = md@;
    append(md, "| ");
    append(md, cell(r.name.as_str()).as_str());
    append(md, " | ");
    append(md, cell(r.verdict.as_str()).as_str());
    append(md, " | ");
    append(md, cell(r.interp.as_str()).as_str());
    append(md, " | ");
    let ghost mid = md@;
    assert(mid =~= start + ("| "@ + escaped_cell(r.name@) + " | "@ + escaped_cell(r.verdict@) + " | "@
        + escaped_cell(r.interp@) + " | "@));
    append(md, cell(r.recorded_return.as_str()).as_str());
    append(md, " | ");
    append(md, cell(r.mavros_compile.as_str()).as_str());
    append(md, " | ");
    append(md, cell(r.witgen_unchecked.as_str()).as_str());
    append(md, " | ");
    append(md, cell(r.witgen_declared.as_str()).as_str());
    append(md, " |\n");
    assert(md@ =~= mid + (escaped_cell(r.recorded_return@) + " | "@ + escaped_cell(r.mavros_compile@) + " | "@
        + escaped_cell(r.witgen_unchecked@) + " | "@ + escaped_cell(r.witgen_declared@) + " |\n"@));
    assert(md@ =~= start + record_row(*r));
}

/// A sweep's Markdown report: the totals, then one row per program.
pub fn sweep_report(stem: &str, totals: &Vec<(bool, String, usize)>, records: &Vec<Record>) -> (r: String)
    ensures
        r@ == report_head(stem@) + total_rows(totals@) + programs_head() + record_rows(records@),
{
    let mut md = owned("# Interpreter vs Mavros under ");
    append(&mut md, stem);
    append(&mut md, "\n\n| Corpus | Verdict | Programs |\n| --- | --- | --- |\n");
    let mut i: usize = 0;
    while i < totals.len()
        invariant
            i <= totals@.len(),
            md@ == report_head(stem@) + total_rows(totals@.take(i as int)),
        decreases totals@.len() - i,
    {
        let t = &totals[i];
        let ghost before = md@;
        append(&mut md, "| ");
        append(&mut md, if t.0 { "execution_failure" } else { "execution_success" });
        append(&mut md, " | ");
        append(&mut md, t.1.as_str());
        append(&mut md, " | ");
        append(&mut md, u64_decimal(t.2 as u64).as_str());
        append(&mut md, " |\n");
        proof {
            assert(totals@.take(i + 1).drop_last() =~= totals@.take(i as int));
            assert(md@ =~= before + total_row(totals@[i as int]));
        }
        i = i + 1;
    }
    assert(totals@.take(totals@.len() as int) =~= totals@);
    append(&mut md, "\n| Program | Verdict | Interpreter | Recorded return | Mavros compile | Witgen, return unchecked | Witgen, interpreter's return declared |\n| --- | --- | --- | --- | --- | --- | --- |\n");
    let ghost head = md@;
    let mut i: usize = 0;
    while i < records.len()
        invariant
            i <= records@.len(),
            head == report_head(stem@) + total_rows(totals@) + programs_head(),
            md@ == head + record_rows(records@.take(i as int)),
        decreases records@.len() - i,
    {
        let ghost before = md@;
        push_record_row(&mut md, &records[i]);
        proof {
            assert(records@.take(i + 1).drop_last() =~= records@.take(i as int));
        }
        i = i + 1;
    }
    assert(records@.take(records@.len() as int) =~= records@);
    md
}

/// The recorded `return` against the interpreter's: `absent` without a `Prover.toml` or without
/// a recorded `return`, `not-run` when the interpreter failed, `agrees` when the recorded value
/// is the interpreter's, `differs` with the recorded value otherwise, and `unreadable` with the
/// reason when the recorded value could not be read.
pub open spec fn recorded_return_model(
    has_prover: bool,
    actual: Option<ValueModel>,
    recorded: Result<Option<ValueModel>, Seq<char>>,
) -> Seq<char> {
    if !has_prover {
        "absent"@
    } else {
        match actual {
            None => "not-run"@,
            Some(v) => match recorded {
                Ok(Some(x)) => if x == v {
                    "agrees"@
                } else {
                    "differs: recorded "@ + bounded_line(model_debug(x))
                },
                Ok(None) => "absent"@,
                Err(reason) => "unreadable: "@ + bounded_line(reason),
            },
        }
    }
}

/// The recorded `return` against the interpreter's, for a sweep's record; `recorded` is what
/// reading the recorded return gave (a reason when it failed), and is read only with a
/// `Prover.toml` and an interpreter result.
pub fn recorded_return_verdict(has_prover: bool, actual: Option<&Value>, recorded: Result<Option<Value>, String>) -> (r: String)
    ensures
        r@ == recorded_return_model(
            has_prover,
            match actual {
                Some(v) => Some(v.model()),
                None => None,
            },
            match recorded {
                Ok(Some(x)) => Ok(Some(x.model())),
                Ok(None) => Ok(None),
                Err(t) => Err(t@),
            },
        ),
{
    if !has_prover {
        return owned("absent");
    }
    let v = match actual {
        None => return owned("not-run"),
        Some(v) => v,
    };
    match recorded {
        Ok(Some(x)) => if same_value(&x, v) {
            owned("agrees")
        } else {
            let mut s = owned("differs: recorded ");
            append(&mut s, line(x.debug_text().as_str()).as_str());
            s
        },
        Ok(None) => owned("absent"),
        Err(reason) => {
            let mut s = owned("unreadable: ");
            append(&mut s, line(reason.as_str()).as_str());
            s
        },
    }
}

} // verus!
