//! Run records and cross-field comparisons.
//!
//! Across fields, integers, bools and structure must match; `Field` values may differ and
//! failures compare by kind. Across revisions, ledger rows retain exact values and failure
//! payloads.

use vstd::prelude::*;
use vstd::string::{StrSliceExecFns, StringExecFns};

use crate::bigint::{int_decimal, nat_decimal, u64_decimal, BigInt};
use crate::error::InterpretError;
use crate::text::{
    append, bool_string, bool_text, chars_of, debug_quoted, from_chars, is_white_space, join_spaced, lemma_words_nonempty,
    lemma_words_of_joined, lemma_words_shape, owned,
    push_char, quote_debug, trim_chars, trimmed, white_space, words,
};
use crate::value::{value_models, Value, ValueModel};
use crate::interpreter::{resolve, resolved};

verus! {

broadcast use vstd::string::group_string_axioms;

/// The dump shape's version: a dump written under another version is refused, not misread.
pub const DUMP_FORMAT_VERSION: u32 = 3;

/// A field-independent encoding of an interpreter [`Value`].
///
/// `Field` carries the element's canonical value in `[0, p)` as decimal text so a ledger row can
/// print it; the cross-field comparison still treats two field elements as equivalent whatever
/// their values. Integers carry their exact value, so the comparison is precise at every width.
#[derive(Debug, PartialEq)]
pub enum DiffValue {
    Field(String),
    Int { signed: bool, bits: u8, value: BigInt },
    Bool(bool),
    Unit,
    Str(String),
    Array(Vec<DiffValue>),
    Tuple(Vec<DiffValue>),
    Function,
}

/// What a [`DiffValue`] denotes.
pub enum DiffModel {
    Field(Seq<char>),
    Int(bool, u8, int),
    Bool(bool),
    Unit,
    Str(Seq<char>),
    Array(Seq<DiffModel>),
    Tuple(Seq<DiffModel>),
    Function,
}

impl DiffValue {
    /// What this value denotes.
    pub open spec fn model(&self) -> DiffModel
        decreases self,
    {
        match self {
            DiffValue::Field(s) => DiffModel::Field(s@),
            DiffValue::Int { signed, bits, value } => DiffModel::Int(*signed, *bits, value@),
            DiffValue::Bool(b) => DiffModel::Bool(*b),
            DiffValue::Unit => DiffModel::Unit,
            DiffValue::Str(s) => DiffModel::Str(s@),
            DiffValue::Array(vs) => DiffModel::Array(
                Seq::new(vs@.len(), |i: int| if 0 <= i < vs@.len() { vs@[i].model() } else { DiffModel::Unit }),
            ),
            DiffValue::Tuple(vs) => DiffModel::Tuple(
                Seq::new(vs@.len(), |i: int| if 0 <= i < vs@.len() { vs@[i].model() } else { DiffModel::Unit }),
            ),
            DiffValue::Function => DiffModel::Function,
        }
    }
}

/// The models of a sequence of values.
pub open spec fn diff_models(vs: Seq<DiffValue>) -> Seq<DiffModel> {
    Seq::new(vs.len(), |i: int| vs[i].model())
}

/// A reference is encoded as the value it points to: resolving a reference to a value the store
/// holds gives that value resolved with one reference fewer to follow.
pub proof fn law_reference_encodes_its_referent(store: Seq<ValueModel>, c: nat, fields: Seq<usize>, budget: nat, x: ValueModel)
    requires
        budget > 0,
        c < store.len(),
        crate::interpreter::read_path(store[c as int], crate::interpreter::field_steps(fields), 0) == Ok::<ValueModel, crate::error::ErrorModel>(x),
    ensures
        diff_of(resolved(store, ValueModel::Ref(c, fields), budget)) == diff_of(resolved(store, x, (budget - 1) as nat)),
{
}

/// The field-independent encoding of a value: a field element becomes its decimal value, a
/// function loses its identity. References are resolved through their store before encoding
/// (see `DiffValue::from_value`); one left over has no value here and encodes as `Unit`.
pub open spec fn diff_of(m: ValueModel) -> DiffModel
    decreases m,
{
    match m {
        ValueModel::Field(_, v) => DiffModel::Field(int_decimal(v)),
        ValueModel::Int(s, b, v) => DiffModel::Int(s, b, v),
        ValueModel::Bool(b) => DiffModel::Bool(b),
        ValueModel::Unit => DiffModel::Unit,
        ValueModel::Str(s) => DiffModel::Str(s),
        ValueModel::Array(xs) => DiffModel::Array(
            Seq::new(xs.len(), |i: int| if 0 <= i < xs.len() { diff_of(xs[i]) } else { DiffModel::Unit }),
        ),
        ValueModel::Tuple(xs) => DiffModel::Tuple(
            Seq::new(xs.len(), |i: int| if 0 <= i < xs.len() { diff_of(xs[i]) } else { DiffModel::Unit }),
        ),
        ValueModel::Function(_) => DiffModel::Function,
        ValueModel::Ref(..) => DiffModel::Unit,
    }
}

/// The ledger rendering of a model: `7u64`, `[1u8, 2u8]`, `(true, 3)`.
pub open spec fn diff_render(m: DiffModel) -> Seq<char>
    decreases m, 0nat,
{
    match m {
        DiffModel::Field(v) => v,
        DiffModel::Int(s, b, v) => int_decimal(v) + (if s { "i"@ } else { "u"@ }) + nat_decimal(b as nat),
        DiffModel::Bool(b) => bool_text(b),
        DiffModel::Unit => "()"@,
        DiffModel::Str(s) => debug_quoted(s),
        DiffModel::Array(xs) => "["@ + diff_render_list(xs, xs.len()) + "]"@,
        DiffModel::Tuple(xs) => "("@ + diff_render_list(xs, xs.len()) + ")"@,
        DiffModel::Function => "fn"@,
    }
}

/// The renderings of the first `n` models of `xs`, separated by `, `.
pub open spec fn diff_render_list(xs: Seq<DiffModel>, n: nat) -> Seq<char>
    decreases xs, n,
{
    if n == 0 || n > xs.len() {
        Seq::empty()
    } else if n == 1 {
        diff_render(xs[0])
    } else {
        diff_render_list(xs, (n - 1) as nat) + ", "@ + diff_render(xs[n - 1])
    }
}

/// The `Debug` rendering of a model: `Int { signed: false, bits: 8, value: 5 }`,
/// `Array([Bool(true), Unit])`.
pub open spec fn diff_debug(m: DiffModel) -> Seq<char>
    decreases m, 0nat,
{
    match m {
        DiffModel::Field(v) => "Field("@ + debug_quoted(v) + ")"@,
        DiffModel::Int(s, b, v) => "Int { signed: "@ + bool_text(s) + ", bits: "@ + nat_decimal(b as nat)
            + ", value: "@ + int_decimal(v) + " }"@,
        DiffModel::Bool(b) => "Bool("@ + bool_text(b) + ")"@,
        DiffModel::Unit => "Unit"@,
        DiffModel::Str(s) => "Str("@ + debug_quoted(s) + ")"@,
        DiffModel::Array(xs) => "Array(["@ + diff_debug_list(xs, xs.len()) + "])"@,
        DiffModel::Tuple(xs) => "Tuple(["@ + diff_debug_list(xs, xs.len()) + "])"@,
        DiffModel::Function => "Function"@,
    }
}

/// The `Debug` renderings of the first `n` models of `xs`, separated by `, `.
pub open spec fn diff_debug_list(xs: Seq<DiffModel>, n: nat) -> Seq<char>
    decreases xs, n,
{
    if n == 0 || n > xs.len() {
        Seq::empty()
    } else if n == 1 {
        diff_debug(xs[0])
    } else {
        diff_debug_list(xs, (n - 1) as nat) + ", "@ + diff_debug(xs[n - 1])
    }
}

/// Why two models are not cross-field equivalent, or `None` when they are: integers, bools,
/// strings and structure must match exactly, while field elements and functions always agree.
pub open spec fn equiv_error(a: DiffModel, b: DiffModel) -> Option<Seq<char>>
    decreases a, 0nat,
{
    match a {
        DiffModel::Field(_) if b is Field => None,
        DiffModel::Function if b is Function => None,
        DiffModel::Unit if b is Unit => None,
        DiffModel::Bool(x) if b is Bool => {
            let y = b->Bool_0;
            if x == y {
                None
            } else {
                Some("bool differs: "@ + bool_text(x) + " vs "@ + bool_text(y))
            }
        },
        DiffModel::Str(x) if b is Str => {
            let y = b->Str_0;
            if x == y {
                None
            } else {
                Some("string differs: "@ + debug_quoted(x) + " vs "@ + debug_quoted(y))
            }
        },
        DiffModel::Int(s1, b1, v1) if b is Int => {
            let (s2, b2, v2) = (b->Int_0, b->Int_1, b->Int_2);
            if s1 == s2 && b1 == b2 && v1 == v2 {
                None
            } else {
                Some("integer differs: "@ + int_decimal(v1) + " (s="@ + bool_text(s1) + ","@
                    + nat_decimal(b1 as nat) + "b) vs "@ + int_decimal(v2) + " (s="@ + bool_text(s2)
                    + ","@ + nat_decimal(b2 as nat) + "b)"@)
            }
        },
        DiffModel::Array(xs) if b is Array => elementwise_error(xs, b->Array_0, "array"@),
        DiffModel::Tuple(xs) if b is Tuple => elementwise_error(xs, b->Tuple_0, "tuple"@),
        _ => Some("shape differs: "@ + diff_debug(a) + " vs "@ + diff_debug(b)),
    }
}

/// Why two aggregates of the given kind differ: their lengths, or the first differing element.
pub open spec fn elementwise_error(xs: Seq<DiffModel>, ys: Seq<DiffModel>, kind: Seq<char>) -> Option<Seq<char>>
    decreases xs, xs.len() + 1,
{
    if xs.len() != ys.len() {
        Some(kind + " length differs: "@ + nat_decimal(xs.len()) + " vs "@ + nat_decimal(ys.len()))
    } else {
        first_element_error(xs, ys, kind, 0)
    }
}

/// The first element at or after `i` where `xs` and `ys` differ, with its index.
pub open spec fn first_element_error(xs: Seq<DiffModel>, ys: Seq<DiffModel>, kind: Seq<char>, i: nat) -> Option<Seq<char>>
    decreases xs, xs.len() - i,
{
    if i >= xs.len() {
        None
    } else {
        match equiv_error(xs[i as int], ys[i as int]) {
            Some(e) => Some(kind + "["@ + nat_decimal(i) + "]: "@ + e),
            None => first_element_error(xs, ys, kind, i + 1),
        }
    }
}


/// Aggregates whose elements have equal models have equal models.
proof fn lemma_diff_models_equal(a: Vec<DiffValue>, b: Seq<DiffModel>)
    requires
        a@.len() == b.len(),
        forall|i: int| 0 <= i < a@.len() ==> #[trigger] a@[i].model() == b[i],
    ensures
        DiffValue::Array(a).model() == DiffModel::Array(b),
        DiffValue::Tuple(a).model() == DiffModel::Tuple(b),
{
    assert forall|i: int| 0 <= i < b.len() implies #[trigger] DiffValue::Array(a).model()->Array_0[i] == b[i] by {
        assert(a@[i].model() == b[i]);
    }
    assert forall|i: int| 0 <= i < b.len() implies #[trigger] DiffValue::Tuple(a).model()->Tuple_0[i] == b[i] by {
        assert(a@[i].model() == b[i]);
    }
    assert(DiffValue::Array(a).model()->Array_0 =~= b);
    assert(DiffValue::Tuple(a).model()->Tuple_0 =~= b);
}

impl DiffValue {
    /// The field-independent encoding of `value`, whose references point into `store`: a
    /// reference is encoded as the value it points to there, following at most as many
    /// references in a chain as the store has cells.
    pub fn from_value(store: &Vec<Value>, value: &Value) -> (r: DiffValue)
        ensures
            r.model() == diff_of(resolved(value_models(store@), value.model(), store@.len())),
    {
        let resolved_value = resolve(store, store.len(), value);
        DiffValue::encode(&resolved_value)
    }

    /// The encoding of a value whose references have been resolved; one left over (a cycle, or
    /// a position no store holds) has no value to encode and becomes `Unit`.
    fn encode(value: &Value) -> (r: DiffValue)
        ensures
            r.model() == diff_of(value.model()),
        decreases value,
    {
        match value {
            Value::Field(f) => DiffValue::Field(f.value().to_decimal()),
            Value::Int(i) => DiffValue::Int { signed: i.signed, bits: i.bits, value: i.value.duplicate() },
            Value::Bool(b) => DiffValue::Bool(*b),
            Value::Unit => DiffValue::Unit,
            Value::Str(s) => DiffValue::Str(s.clone()),
            Value::Array(vs) => {
                let out = diff_values_of(vs);
                proof {
                    lemma_diff_models_equal(out, diff_of(value.model())->Array_0);
                }
                DiffValue::Array(out)
            },
            Value::Tuple(vs) => {
                let out = diff_values_of(vs);
                proof {
                    lemma_diff_models_equal(out, diff_of(value.model())->Tuple_0);
                }
                DiffValue::Tuple(out)
            },
            Value::Function(_) => DiffValue::Function,
            Value::Ref(..) => DiffValue::Unit,
        }
    }
}

/// The encodings of every value in `vs`.
fn diff_values_of(vs: &Vec<Value>) -> (r: Vec<DiffValue>)
    ensures
        r@.len() == vs@.len(),
        forall|i: int| 0 <= i < vs@.len() ==> #[trigger] r@[i].model() == diff_of(vs@[i].model()),
    decreases vs,
{
    let mut out: Vec<DiffValue> = Vec::new();
    let mut i: usize = 0;
    while i < vs.len()
        invariant
            i <= vs.len(),
            out@.len() == i,
            forall|j: int| 0 <= j < i ==> #[trigger] out@[j].model() == diff_of(vs@[j].model()),
        decreases vs.len() - i,
    {
        out.push(DiffValue::encode(&vs[i]));
        i = i + 1;
    }
    out
}

/// A list of models equals the models of the values it was built from.
proof fn lemma_list_models(vs: Seq<DiffValue>, m: Seq<DiffModel>)
    requires
        m.len() == vs.len(),
        forall|i: int| 0 <= i < vs.len() ==> #[trigger] m[i] == vs[i].model(),
    ensures
        m == diff_models(vs),
{
    assert(m =~= diff_models(vs));
}

impl DiffValue {
    /// A compact single-line rendering for ledger rows: `7u64`, `[1u8, 2u8]`, `(true, 3)`.
    pub fn render(&self) -> (r: String)
        ensures
            r@ == diff_render(self.model()),
        decreases self,
    {
        match self {
            DiffValue::Field(v) => v.clone(),
            DiffValue::Int { signed, bits, value } => {
                let mut s = value.to_decimal();
                append(&mut s, if *signed { "i" } else { "u" });
                append(&mut s, u64_decimal(*bits as u64).as_str());
                s
            },
            DiffValue::Bool(b) => bool_string(*b),
            DiffValue::Unit => owned("()"),
            DiffValue::Str(s) => quote_debug(s.as_str()),
            DiffValue::Array(xs) => {
                let inner = render_list(xs);
                proof {
                    lemma_list_models(xs@, self.model()->Array_0);
                }
                let mut s = owned("[");
                append(&mut s, inner.as_str());
                append(&mut s, "]");
                s
            },
            DiffValue::Tuple(xs) => {
                let inner = render_list(xs);
                proof {
                    lemma_list_models(xs@, self.model()->Tuple_0);
                }
                let mut s = owned("(");
                append(&mut s, inner.as_str());
                append(&mut s, ")");
                s
            },
            DiffValue::Function => owned("fn"),
        }
    }

    /// The `Debug` rendering of this value, as mismatch messages show it.
    pub fn debug_text(&self) -> (r: String)
        ensures
            r@ == diff_debug(self.model()),
        decreases self,
    {
        match self {
            DiffValue::Field(v) => {
                let mut s = owned("Field(");
                append(&mut s, quote_debug(v.as_str()).as_str());
                append(&mut s, ")");
                s
            },
            DiffValue::Int { signed, bits, value } => {
                let mut s = owned("Int { signed: ");
                append(&mut s, bool_string(*signed).as_str());
                append(&mut s, ", bits: ");
                append(&mut s, u64_decimal(*bits as u64).as_str());
                append(&mut s, ", value: ");
                append(&mut s, value.to_decimal().as_str());
                append(&mut s, " }");
                s
            },
            DiffValue::Bool(b) => {
                let mut s = owned("Bool(");
                append(&mut s, bool_string(*b).as_str());
                append(&mut s, ")");
                s
            },
            DiffValue::Unit => owned("Unit"),
            DiffValue::Str(v) => {
                let mut s = owned("Str(");
                append(&mut s, quote_debug(v.as_str()).as_str());
                append(&mut s, ")");
                s
            },
            DiffValue::Array(xs) => {
                let inner = debug_list(xs);
                proof {
                    lemma_list_models(xs@, self.model()->Array_0);
                }
                let mut s = owned("Array([");
                append(&mut s, inner.as_str());
                append(&mut s, "])");
                s
            },
            DiffValue::Tuple(xs) => {
                let inner = debug_list(xs);
                proof {
                    lemma_list_models(xs@, self.model()->Tuple_0);
                }
                let mut s = owned("Tuple([");
                append(&mut s, inner.as_str());
                append(&mut s, "])");
                s
            },
            DiffValue::Function => owned("Function"),
        }
    }
}

/// The renderings of `xs`, separated by `, `.
fn render_list(xs: &Vec<DiffValue>) -> (r: String)
    ensures
        r@ == diff_render_list(diff_models(xs@), xs@.len()),
    decreases xs,
{
    let ghost models = diff_models(xs@);
    let mut s = String::new();
    let mut i: usize = 0;
    while i < xs.len()
        invariant
            i <= xs.len(),
            models == diff_models(xs@),
            s@ == diff_render_list(models, i as nat),
        decreases xs.len() - i,
    {
        if i > 0 {
            append(&mut s, ", ");
        }
        let item = xs[i].render();
        append(&mut s, item.as_str());
        i = i + 1;
    }
    s
}

/// The `Debug` renderings of `xs`, separated by `, `.
fn debug_list(xs: &Vec<DiffValue>) -> (r: String)
    ensures
        r@ == diff_debug_list(diff_models(xs@), xs@.len()),
    decreases xs,
{
    let ghost models = diff_models(xs@);
    let mut s = String::new();
    let mut i: usize = 0;
    while i < xs.len()
        invariant
            i <= xs.len(),
            models == diff_models(xs@),
            s@ == diff_debug_list(models, i as nat),
        decreases xs.len() - i,
    {
        if i > 0 {
            append(&mut s, ", ");
        }
        let item = xs[i].debug_text();
        append(&mut s, item.as_str());
        i = i + 1;
    }
    s
}

/// Whether two values are cross-field equivalent: integers, bools, strings and structure must
/// match exactly, while `Field` values may differ. The error names the first difference.
pub fn values_equivalent(a: &DiffValue, b: &DiffValue) -> (r: Result<(), String>)
    ensures
        r is Ok <==> equiv_error(a.model(), b.model()) is None,
        r is Err ==> equiv_error(a.model(), b.model()) == Some(r->Err_0@),
    decreases a,
{
    match (a, b) {
        (DiffValue::Field(_), DiffValue::Field(_)) => Ok(()),
        (DiffValue::Function, DiffValue::Function) => Ok(()),
        (DiffValue::Unit, DiffValue::Unit) => Ok(()),
        (DiffValue::Bool(x), DiffValue::Bool(y)) => {
            if *x == *y {
                Ok(())
            } else {
                let mut s = owned("bool differs: ");
                append(&mut s, bool_string(*x).as_str());
                append(&mut s, " vs ");
                append(&mut s, bool_string(*y).as_str());
                Err(s)
            }
        },
        (DiffValue::Str(x), DiffValue::Str(y)) => {
            if *x == *y {
                Ok(())
            } else {
                let mut s = owned("string differs: ");
                append(&mut s, quote_debug(x.as_str()).as_str());
                append(&mut s, " vs ");
                append(&mut s, quote_debug(y.as_str()).as_str());
                Err(s)
            }
        },
        (
            DiffValue::Int { signed: s1, bits: b1, value: v1 },
            DiffValue::Int { signed: s2, bits: b2, value: v2 },
        ) => {
            if *s1 == *s2 && *b1 == *b2 && v1.equals(v2) {
                Ok(())
            } else {
                let mut s = owned("integer differs: ");
                append(&mut s, v1.to_decimal().as_str());
                append(&mut s, " (s=");
                append(&mut s, bool_string(*s1).as_str());
                append(&mut s, ",");
                append(&mut s, u64_decimal(*b1 as u64).as_str());
                append(&mut s, "b) vs ");
                append(&mut s, v2.to_decimal().as_str());
                append(&mut s, " (s=");
                append(&mut s, bool_string(*s2).as_str());
                append(&mut s, ",");
                append(&mut s, u64_decimal(*b2 as u64).as_str());
                append(&mut s, "b)");
                Err(s)
            }
        },
        (DiffValue::Array(xs), DiffValue::Array(ys)) => {
            proof {
                lemma_list_models(xs@, a.model()->Array_0);
                lemma_list_models(ys@, b.model()->Array_0);
            }
            elementwise(xs, ys, "array")
        },
        (DiffValue::Tuple(xs), DiffValue::Tuple(ys)) => {
            proof {
                lemma_list_models(xs@, a.model()->Tuple_0);
                lemma_list_models(ys@, b.model()->Tuple_0);
            }
            elementwise(xs, ys, "tuple")
        },
        _ => {
            let mut s = owned("shape differs: ");
            append(&mut s, a.debug_text().as_str());
            append(&mut s, " vs ");
            append(&mut s, b.debug_text().as_str());
            Err(s)
        },
    }
}

/// Compare two aggregates of the given kind element by element.
fn elementwise(xs: &Vec<DiffValue>, ys: &Vec<DiffValue>, kind: &str) -> (r: Result<(), String>)
    ensures
        r is Ok <==> elementwise_error(diff_models(xs@), diff_models(ys@), kind@) is None,
        r is Err ==> elementwise_error(diff_models(xs@), diff_models(ys@), kind@) == Some(r->Err_0@),
    decreases xs,
{
    let ghost mx = diff_models(xs@);
    let ghost my = diff_models(ys@);
    if xs.len() != ys.len() {
        let mut s = owned(kind);
        append(&mut s, " length differs: ");
        append(&mut s, u64_decimal(xs.len() as u64).as_str());
        append(&mut s, " vs ");
        append(&mut s, u64_decimal(ys.len() as u64).as_str());
        return Err(s);
    }
    let mut i: usize = 0;
    while i < xs.len()
        invariant
            i <= xs.len(),
            xs.len() == ys.len(),
            mx == diff_models(xs@),
            my == diff_models(ys@),
            first_element_error(mx, my, kind@, 0) == first_element_error(mx, my, kind@, i as nat),
        decreases xs.len() - i,
    {
        match values_equivalent(&xs[i], &ys[i]) {
            Ok(()) => {},
            Err(e) => {
                let mut s = owned(kind);
                append(&mut s, "[");
                append(&mut s, u64_decimal(i as u64).as_str());
                append(&mut s, "]: ");
                append(&mut s, e.as_str());
                return Err(s);
            },
        }
        i = i + 1;
    }
    Ok(())
}


/// A normalized failure cause. The cross-field comparison compares failures by this kind alone.
#[derive(Debug, PartialEq)]
pub enum FailureKind {
    ProjectLoad,
    CompileError,
    DependencyCompileGap,
    InputError,
    /// Normalized unsupported construct kind.
    Unsupported { construct: String },
    AssertionFailed,
    Overflow,
    DivisionByZero,
    ValueOutOfRange,
    TypeError,
    Internal,
    /// The compiler or interpreter panicked; never equivalent to a non-panic outcome.
    Panic,
    /// The interpreter's return disagrees with the recorded `return`. Only ever a step outcome:
    /// the program's verdict stays the value it returned.
    OracleMismatch,
}

/// What a [`FailureKind`] denotes, with the construct as a character sequence.
pub enum KindModel {
    ProjectLoad,
    CompileError,
    DependencyCompileGap,
    InputError,
    Unsupported(Seq<char>),
    AssertionFailed,
    Overflow,
    DivisionByZero,
    ValueOutOfRange,
    TypeError,
    Internal,
    Panic,
    OracleMismatch,
}

impl View for FailureKind {
    type V = KindModel;

    open spec fn view(&self) -> KindModel {
        match self {
            FailureKind::ProjectLoad => KindModel::ProjectLoad,
            FailureKind::CompileError => KindModel::CompileError,
            FailureKind::DependencyCompileGap => KindModel::DependencyCompileGap,
            FailureKind::InputError => KindModel::InputError,
            FailureKind::Unsupported { construct } => KindModel::Unsupported(construct@),
            FailureKind::AssertionFailed => KindModel::AssertionFailed,
            FailureKind::Overflow => KindModel::Overflow,
            FailureKind::DivisionByZero => KindModel::DivisionByZero,
            FailureKind::ValueOutOfRange => KindModel::ValueOutOfRange,
            FailureKind::TypeError => KindModel::TypeError,
            FailureKind::Internal => KindModel::Internal,
            FailureKind::Panic => KindModel::Panic,
            FailureKind::OracleMismatch => KindModel::OracleMismatch,
        }
    }
}

/// The short label of a kind: the variant name, with the construct for `Unsupported`.
pub open spec fn kind_label(k: KindModel) -> Seq<char> {
    match k {
        KindModel::ProjectLoad => "ProjectLoad"@,
        KindModel::CompileError => "CompileError"@,
        KindModel::DependencyCompileGap => "DependencyCompileGap"@,
        KindModel::InputError => "InputError"@,
        KindModel::Unsupported(c) => "Unsupported("@ + c + ")"@,
        KindModel::AssertionFailed => "AssertionFailed"@,
        KindModel::Overflow => "Overflow"@,
        KindModel::DivisionByZero => "DivisionByZero"@,
        KindModel::ValueOutOfRange => "ValueOutOfRange"@,
        KindModel::TypeError => "TypeError"@,
        KindModel::Internal => "Internal"@,
        KindModel::Panic => "Panic"@,
        KindModel::OracleMismatch => "OracleMismatch"@,
    }
}

impl FailureKind {
    /// The kind as a short label: the variant name, with the construct for `Unsupported`.
    pub fn label(&self) -> (r: String)
        ensures
            r@ == kind_label(self@),
    {
        match self {
            FailureKind::Unsupported { construct } => {
                let mut s = owned("Unsupported(");
                append(&mut s, construct.as_str());
                append(&mut s, ")");
                s
            },
            FailureKind::ProjectLoad => owned("ProjectLoad"),
            FailureKind::CompileError => owned("CompileError"),
            FailureKind::DependencyCompileGap => owned("DependencyCompileGap"),
            FailureKind::InputError => owned("InputError"),
            FailureKind::AssertionFailed => owned("AssertionFailed"),
            FailureKind::Overflow => owned("Overflow"),
            FailureKind::DivisionByZero => owned("DivisionByZero"),
            FailureKind::ValueOutOfRange => owned("ValueOutOfRange"),
            FailureKind::TypeError => owned("TypeError"),
            FailureKind::Internal => owned("Internal"),
            FailureKind::Panic => owned("Panic"),
            FailureKind::OracleMismatch => owned("OracleMismatch"),
        }
    }

    /// A copy of this kind.
    pub fn duplicate(&self) -> (r: FailureKind)
        ensures
            r@ == self@,
    {
        match self {
            FailureKind::Unsupported { construct } => FailureKind::Unsupported { construct: construct.clone() },
            FailureKind::ProjectLoad => FailureKind::ProjectLoad,
            FailureKind::CompileError => FailureKind::CompileError,
            FailureKind::DependencyCompileGap => FailureKind::DependencyCompileGap,
            FailureKind::InputError => FailureKind::InputError,
            FailureKind::AssertionFailed => FailureKind::AssertionFailed,
            FailureKind::Overflow => FailureKind::Overflow,
            FailureKind::DivisionByZero => FailureKind::DivisionByZero,
            FailureKind::ValueOutOfRange => FailureKind::ValueOutOfRange,
            FailureKind::TypeError => FailureKind::TypeError,
            FailureKind::Internal => FailureKind::Internal,
            FailureKind::Panic => FailureKind::Panic,
            FailureKind::OracleMismatch => FailureKind::OracleMismatch,
        }
    }

    /// Whether two kinds are the same kind (for `Unsupported`, of the same construct).
    pub fn same_as(&self, other: &FailureKind) -> (r: bool)
        ensures
            r == (self@ == other@),
    {
        match (self, other) {
            (FailureKind::Unsupported { construct: a }, FailureKind::Unsupported { construct: b }) => *a == *b,
            (FailureKind::ProjectLoad, FailureKind::ProjectLoad) => true,
            (FailureKind::CompileError, FailureKind::CompileError) => true,
            (FailureKind::DependencyCompileGap, FailureKind::DependencyCompileGap) => true,
            (FailureKind::InputError, FailureKind::InputError) => true,
            (FailureKind::AssertionFailed, FailureKind::AssertionFailed) => true,
            (FailureKind::Overflow, FailureKind::Overflow) => true,
            (FailureKind::DivisionByZero, FailureKind::DivisionByZero) => true,
            (FailureKind::ValueOutOfRange, FailureKind::ValueOutOfRange) => true,
            (FailureKind::TypeError, FailureKind::TypeError) => true,
            (FailureKind::Internal, FailureKind::Internal) => true,
            (FailureKind::Panic, FailureKind::Panic) => true,
            (FailureKind::OracleMismatch, FailureKind::OracleMismatch) => true,
            _ => false,
        }
    }
}

/// A failure reduced to what two runs of one program can be compared on: the kind, and the
/// payload that tells two failures of the same kind apart (the normalized assertion message, the
/// overflowing operation, the unsupported construct, the compiler's diagnostic text).
#[derive(Debug, PartialEq)]
pub struct ComparableError {
    pub kind: FailureKind,
    pub payload: String,
}

impl View for ComparableError {
    type V = (KindModel, Seq<char>);

    open spec fn view(&self) -> (KindModel, Seq<char>) {
        (self.kind@, self.payload@)
    }
}

/// How a comparable error displays: `<kind>` alone when the payload is empty, else
/// `<kind>: <payload>`.
pub open spec fn error_text(e: (KindModel, Seq<char>)) -> Seq<char> {
    if e.1.len() == 0 {
        kind_label(e.0)
    } else {
        kind_label(e.0) + ": "@ + e.1
    }
}

impl ComparableError {
    pub fn new(kind: FailureKind, payload: &str) -> (r: ComparableError)
        ensures
            r.kind@ == kind@,
            r.payload@ == payload@,
    {
        ComparableError { kind, payload: owned(payload) }
    }

    /// The error as it displays: `<kind>` or `<kind>: <payload>`.
    pub fn to_text(&self) -> (r: String)
        ensures
            r@ == error_text(self@),
    {
        let mut s = self.kind.label();
        if self.payload.unicode_len() != 0 {
            append(&mut s, ": ");
            append(&mut s, self.payload.as_str());
        }
        s
    }

    /// A copy of this error.
    pub fn duplicate(&self) -> (r: ComparableError)
        ensures
            r@ == self@,
    {
        ComparableError { kind: self.kind.duplicate(), payload: self.payload.clone() }
    }
}


/// Joining one more piece adds a space before it unless it is the first.
proof fn lemma_join_push(w: Seq<Seq<char>>, p: Seq<char>)
    ensures
        join_spaced(w.push(p)) == (if w.len() == 0 { p } else { join_spaced(w) + " "@ + p }),
{
    assert(w.push(p).drop_last() =~= w);
}

/// Extending the last piece by one character extends the joined text by that character.
proof fn lemma_join_extend(w: Seq<Seq<char>>, c: char)
    requires
        w.len() > 0,
    ensures
        join_spaced(w.drop_last().push(w.last().push(c))) == join_spaced(w).push(c),
{
    let v = w.drop_last().push(w.last().push(c));
    if w.len() > 1 {
        assert(v.drop_last() =~= w.drop_last());
        assert(join_spaced(v) =~= join_spaced(w).push(c));
    }
}

/// Normalizing a text changes nothing the second time, and gives the empty text exactly when the
/// text is empty or all white space.
pub proof fn law_normalize_text_idempotent(s: Seq<char>)
    ensures
        join_spaced(words(join_spaced(words(s)))) == join_spaced(words(s)),
        join_spaced(words(s)).len() == 0 <==> forall|i: int| 0 <= i < s.len() ==> is_white_space(#[trigger] s[i]),
{
    lemma_words_shape(s);
    lemma_words_of_joined(words(s));
}

/// Collapse every white-space run to one space and trim, so a payload is one stable line: the
/// words of `text` joined by single spaces.
pub fn normalize_text(text: &str) -> (r: String)
    ensures
        r@ == join_spaced(words(text@)),
{
    let n: usize = text.unicode_len();
    let mut out = String::new();
    let mut any: bool = false;
    let mut i: usize = 0;
    while i < n
        invariant
            i <= n,
            n == text@.len(),
            out@ == join_spaced(words(text@.take(i as int))),
            any == (words(text@.take(i as int)).len() > 0),
        decreases n - i,
    {
        let c = text.get_char(i);
        let ghost prefix = text@.take(i as int);
        let ghost next = text@.take(i as int + 1);
        assert(next.drop_last() =~= prefix);
        assert(next.last() == c);
        if !white_space(c) {
            if i > 0 && !white_space(text.get_char(i - 1)) {
                proof {
                    assert(prefix.last() == text@[i as int - 1]);
                    assert(next[next.len() - 2] == text@[i as int - 1]);
                    lemma_words_nonempty(prefix);
                    lemma_join_extend(words(prefix), c);
                }
                push_char(&mut out, c);
            } else {
                proof {
                    if i > 0 {
                        assert(next[next.len() - 2] == text@[i as int - 1]);
                    }
                    assert(words(next) == words(prefix).push(seq![c]));
                    lemma_join_push(words(prefix), seq![c]);
                    reveal_strlit(" ");
                }
                if any {
                    push_char(&mut out, ' ');
                }
                push_char(&mut out, c);
                assert(out@ =~= join_spaced(words(next)));
                any = true;
            }
        }
        i = i + 1;
    }
    assert(text@.take(n as int) =~= text@);
    out
}

/// Whether `c` ends the head of an `Unsupported` message.
pub open spec fn is_construct_delimiter(c: char) -> bool {
    c == ':' || c == '\'' || c == '('
}

/// The part of `s` before its first `:`, `'` or `(`.
pub open spec fn construct_head(s: Seq<char>) -> Seq<char>
    decreases s.len(),
{
    if s.len() == 0 {
        s
    } else if is_construct_delimiter(s[0]) {
        Seq::empty()
    } else {
        seq![s[0]] + construct_head(s.drop_first())
    }
}

/// The construct kind is the head of an `Unsupported` message, before any name, value or
/// detail, trimmed.
pub fn normalize_construct(msg: &str) -> (r: String)
    ensures
        r@ == trimmed(construct_head(msg@)),
{
    let chars = chars_of(msg);
    let n: usize = chars.len();
    let mut i: usize = 0;
    assert(chars@.subrange(0, n as int) =~= chars@);
    while i < n && !(chars[i] == ':' || chars[i] == '\'' || chars[i] == '(')
        invariant
            i <= n,
            n == chars@.len(),
            construct_head(chars@) == chars@.take(i as int) + construct_head(chars@.subrange(i as int, n as int)),
        decreases n - i,
    {
        let ghost rest = chars@.subrange(i as int, n as int);
        assert(rest.drop_first() =~= chars@.subrange(i as int + 1, n as int));
        assert(chars@.take(i as int) + seq![chars@[i as int]] =~= chars@.take(i as int + 1));
        assert(construct_head(rest) == seq![chars@[i as int]] + construct_head(rest.drop_first()));
        assert(chars@.take(i as int) + (seq![chars@[i as int]] + construct_head(rest.drop_first()))
            =~= chars@.take(i as int + 1) + construct_head(rest.drop_first()));
        i = i + 1;
    }
    assert(construct_head(chars@.subrange(i as int, n as int)) =~= Seq::<char>::empty());
    let mut head: Vec<char> = Vec::new();
    let mut j: usize = 0;
    while j < i
        invariant
            j <= i <= n,
            n == chars@.len(),
            head@ == chars@.take(j as int),
        decreases i - j,
    {
        head.push(chars[j]);
        assert(head@ =~= chars@.take(j as int + 1));
        j = j + 1;
    }
    assert(head@ =~= construct_head(chars@));
    let t = trim_chars(&head);
    from_chars(&t)
}

/// The comparable kind and payload of an interpreter error, before the payload is normalized:
/// an assertion's message (empty when it has none), the overflowing operation, the message
/// otherwise; an `Unsupported` kind names the message's construct.
pub open spec fn raw_comparable(e: InterpretError) -> (KindModel, Seq<char>) {
    match e {
        InterpretError::AssertionFailed { message, .. } => (
            KindModel::AssertionFailed,
            match message {
                Some(m) => m@,
                None => Seq::empty(),
            },
        ),
        InterpretError::Overflow(op) => (KindModel::Overflow, op@),
        InterpretError::DivisionByZero => (KindModel::DivisionByZero, Seq::empty()),
        InterpretError::ValueOutOfRange(m) => (KindModel::ValueOutOfRange, m@),
        InterpretError::InvalidInput(m) => (KindModel::InputError, m@),
        InterpretError::Type(m) => (KindModel::TypeError, m@),
        InterpretError::Unsupported(m) => (KindModel::Unsupported(trimmed(construct_head(m@))), m@),
        InterpretError::Internal(m) => (KindModel::Internal, m@),
    }
}

/// Project an [`InterpretError`] onto its comparable kind and normalized payload.
pub fn comparable_error_of(error: &InterpretError) -> (r: ComparableError)
    ensures
        r.kind@ == raw_comparable(*error).0,
        r.payload@ == join_spaced(words(raw_comparable(*error).1)),
{
    let (kind, payload) = match error {
        InterpretError::AssertionFailed { message, .. } => (
            FailureKind::AssertionFailed,
            match message {
                Some(m) => m.as_str(),
                None => "",
            },
        ),
        InterpretError::Overflow(op) => (FailureKind::Overflow, op.as_str()),
        InterpretError::DivisionByZero => (FailureKind::DivisionByZero, ""),
        InterpretError::ValueOutOfRange(m) => (FailureKind::ValueOutOfRange, m.as_str()),
        InterpretError::InvalidInput(m) => (FailureKind::InputError, m.as_str()),
        InterpretError::Type(m) => (FailureKind::TypeError, m.as_str()),
        InterpretError::Unsupported(m) => (
            FailureKind::Unsupported { construct: normalize_construct(m.as_str()) },
            m.as_str(),
        ),
        InterpretError::Internal(m) => (FailureKind::Internal, m.as_str()),
    };
    proof {
        reveal_strlit("");
    }
    let normalized = normalize_text(payload);
    ComparableError::new(kind, normalized.as_str())
}

/// The comparable kind of an [`InterpretError`], without its payload.
pub fn failure_kind_of(error: &InterpretError) -> (r: FailureKind)
    ensures
        r@ == raw_comparable(*error).0,
{
    comparable_error_of(error).kind
}


impl DiffValue {
    /// A deep copy of this value.
    pub fn duplicate(&self) -> (r: DiffValue)
        ensures
            r.model() == self.model(),
        decreases self,
    {
        match self {
            DiffValue::Field(v) => DiffValue::Field(v.clone()),
            DiffValue::Int { signed, bits, value } => DiffValue::Int { signed: *signed, bits: *bits, value: value.duplicate() },
            DiffValue::Bool(b) => DiffValue::Bool(*b),
            DiffValue::Unit => DiffValue::Unit,
            DiffValue::Str(v) => DiffValue::Str(v.clone()),
            DiffValue::Array(xs) => {
                let out = duplicate_list(xs);
                proof {
                    lemma_list_models(xs@, self.model()->Array_0);
                    lemma_diff_models_equal(out, self.model()->Array_0);
                }
                DiffValue::Array(out)
            },
            DiffValue::Tuple(xs) => {
                let out = duplicate_list(xs);
                proof {
                    lemma_list_models(xs@, self.model()->Tuple_0);
                    lemma_diff_models_equal(out, self.model()->Tuple_0);
                }
                DiffValue::Tuple(out)
            },
            DiffValue::Function => DiffValue::Function,
        }
    }
}

/// Deep copies of every value in `xs`.
fn duplicate_list(xs: &Vec<DiffValue>) -> (r: Vec<DiffValue>)
    ensures
        r@.len() == xs@.len(),
        forall|i: int| 0 <= i < xs@.len() ==> #[trigger] r@[i].model() == diff_models(xs@)[i],
    decreases xs,
{
    let mut out: Vec<DiffValue> = Vec::new();
    let mut i: usize = 0;
    while i < xs.len()
        invariant
            i <= xs.len(),
            out@.len() == i,
            forall|j: int| 0 <= j < i ==> #[trigger] out@[j].model() == diff_models(xs@)[j],
        decreases xs.len() - i,
    {
        out.push(xs[i].duplicate());
        i = i + 1;
    }
    out
}

/// The outcome of interpreting one program under one field. `detail` on `Errored` is
/// human-readable triage text only: it is never compared.
#[derive(Debug, PartialEq)]
pub enum DiffOutcome {
    Returned(DiffValue),
    Errored { error: ComparableError, detail: String },
}

/// What a [`DiffOutcome`] denotes.
pub enum OutcomeModel {
    Returned(DiffModel),
    Errored((KindModel, Seq<char>), Seq<char>),
}

impl DiffOutcome {
    /// What this outcome denotes.
    pub open spec fn model(&self) -> OutcomeModel {
        match self {
            DiffOutcome::Returned(v) => OutcomeModel::Returned(v.model()),
            DiffOutcome::Errored { error, detail } => OutcomeModel::Errored(error@, detail@),
        }
    }
}

/// An outcome that failed with the given kind.
pub open spec fn failed_with(o: OutcomeModel, k: KindModel) -> bool {
    o matches OutcomeModel::Errored(e, _) && e.0 == k
}

/// An outcome that provides no executable result to compare: an unsupported construct or a
/// dependency that does not compile.
pub open spec fn coverage_gap(o: OutcomeModel) -> bool {
    o matches OutcomeModel::Errored(e, _) && (e.0 is Unsupported || e.0 is DependencyCompileGap)
}

/// One line summing up an outcome.
pub open spec fn outcome_summary_text(o: OutcomeModel) -> Seq<char> {
    match o {
        OutcomeModel::Returned(v) => "returned "@ + diff_render(v),
        OutcomeModel::Errored(e, _) => "errored ("@ + error_text(e) + ")"@,
    }
}

/// Why two outcomes of one program under two fields are not equivalent, or `None` when they are.
/// A panic or an internal error on either side never agrees; a coverage gap on either side is
/// tolerated; two values compare by [`equiv_error`]; two failures compare by kind alone.
pub open spec fn outcome_error(a: OutcomeModel, b: OutcomeModel) -> Option<Seq<char>> {
    if failed_with(a, KindModel::Panic) || failed_with(b, KindModel::Panic) {
        Some("panic outcome: "@ + outcome_summary_text(a) + " vs "@ + outcome_summary_text(b))
    } else if failed_with(a, KindModel::Internal) || failed_with(b, KindModel::Internal) {
        Some("internal error outcome: "@ + outcome_summary_text(a) + " vs "@ + outcome_summary_text(b))
    } else if coverage_gap(a) || coverage_gap(b) {
        None
    } else {
        match a {
            OutcomeModel::Returned(x) => match b {
                OutcomeModel::Returned(y) => equiv_error(x, y),
                OutcomeModel::Errored(e, _) => Some(
                    "one field returned a value, the other errored ("@ + error_text(e) + ")"@,
                ),
            },
            OutcomeModel::Errored(ea, _) => match b {
                OutcomeModel::Returned(_) => Some(
                    "one field errored ("@ + error_text(ea) + "), the other returned a value"@,
                ),
                OutcomeModel::Errored(eb, _) => if ea.0 == eb.0 {
                    None
                } else {
                    Some("both errored, but differently: "@ + kind_label(ea.0) + " vs "@ + kind_label(eb.0))
                },
            },
        }
    }
}

/// Whether two outcomes agree only because one of them is a coverage gap.
pub open spec fn tolerated(a: OutcomeModel, b: OutcomeModel) -> bool {
    &&& !failed_with(a, KindModel::Panic)
    &&& !failed_with(b, KindModel::Panic)
    &&& !failed_with(a, KindModel::Internal)
    &&& !failed_with(b, KindModel::Internal)
    &&& (coverage_gap(a) || coverage_gap(b))
}

fn is_kind(outcome: &DiffOutcome, kind: &FailureKind) -> (r: bool)
    ensures
        r == failed_with(outcome.model(), kind@),
{
    match outcome {
        DiffOutcome::Errored { error, .. } => error.kind.same_as(kind),
        DiffOutcome::Returned(_) => false,
    }
}

fn is_panic(outcome: &DiffOutcome) -> (r: bool)
    ensures
        r == failed_with(outcome.model(), KindModel::Panic),
{
    is_kind(outcome, &FailureKind::Panic)
}

fn is_internal(outcome: &DiffOutcome) -> (r: bool)
    ensures
        r == failed_with(outcome.model(), KindModel::Internal),
{
    is_kind(outcome, &FailureKind::Internal)
}

/// Whether this outcome provides no executable result to compare.
pub fn is_coverage_gap(outcome: &DiffOutcome) -> (r: bool)
    ensures
        r == coverage_gap(outcome.model()),
{
    match outcome {
        DiffOutcome::Errored { error, .. } => match &error.kind {
            FailureKind::Unsupported { .. } => true,
            FailureKind::DependencyCompileGap => true,
            _ => false,
        },
        DiffOutcome::Returned(_) => false,
    }
}

fn outcome_summary(outcome: &DiffOutcome) -> (r: String)
    ensures
        r@ == outcome_summary_text(outcome.model()),
{
    match outcome {
        DiffOutcome::Returned(value) => {
            let mut s = owned("returned ");
            append(&mut s, value.render().as_str());
            s
        },
        DiffOutcome::Errored { error, .. } => {
            let mut s = owned("errored (");
            append(&mut s, error.to_text().as_str());
            append(&mut s, ")");
            s
        },
    }
}

/// Compare the outcomes of one program under two fields, tolerating countable coverage gaps
/// while rejecting differing values, differing failure kinds, panics and internal errors.
pub fn outcomes_equivalent(a: &DiffOutcome, b: &DiffOutcome) -> (r: Result<(), String>)
    ensures
        r is Ok <==> outcome_error(a.model(), b.model()) is None,
        r is Ok <==> outcome_error(b.model(), a.model()) is None,
        r is Err ==> outcome_error(a.model(), b.model()) == Some(r->Err_0@),
{
    proof {
        law_outcome_equivalence_symmetric(a.model(), b.model());
    }
    if is_panic(a) || is_panic(b) {
        let mut s = owned("panic outcome: ");
        append(&mut s, outcome_summary(a).as_str());
        append(&mut s, " vs ");
        append(&mut s, outcome_summary(b).as_str());
        return Err(s);
    }
    if is_internal(a) || is_internal(b) {
        let mut s = owned("internal error outcome: ");
        append(&mut s, outcome_summary(a).as_str());
        append(&mut s, " vs ");
        append(&mut s, outcome_summary(b).as_str());
        return Err(s);
    }
    if is_coverage_gap(a) || is_coverage_gap(b) {
        return Ok(());
    }
    match (a, b) {
        (DiffOutcome::Returned(x), DiffOutcome::Returned(y)) => values_equivalent(x, y),
        (DiffOutcome::Returned(_), DiffOutcome::Errored { error, .. }) => {
            let mut s = owned("one field returned a value, the other errored (");
            append(&mut s, error.to_text().as_str());
            append(&mut s, ")");
            Err(s)
        },
        (DiffOutcome::Errored { error, .. }, DiffOutcome::Returned(_)) => {
            let mut s = owned("one field errored (");
            append(&mut s, error.to_text().as_str());
            append(&mut s, "), the other returned a value");
            Err(s)
        },
        (DiffOutcome::Errored { error: ea, .. }, DiffOutcome::Errored { error: eb, .. }) => {
            if ea.kind.same_as(&eb.kind) {
                Ok(())
            } else {
                let mut s = owned("both errored, but differently: ");
                append(&mut s, ea.kind.label().as_str());
                append(&mut s, " vs ");
                append(&mut s, eb.kind.label().as_str());
                Err(s)
            }
        },
    }
}

/// Whether equivalence depends on tolerating a coverage gap.
pub fn outcome_is_tolerated(a: &DiffOutcome, b: &DiffOutcome) -> (r: bool)
    ensures
        r == tolerated(a.model(), b.model()),
{
    !is_panic(a) && !is_panic(b) && !is_internal(a) && !is_internal(b) && (is_coverage_gap(a)
        || is_coverage_gap(b))
}


/// One step of a program's run.
#[derive(Debug, PartialEq)]
pub enum StepOutcome {
    Passed,
    Failed { error: ComparableError, detail: String },
    /// The step did not run, typically because an earlier one failed.
    NotRun { reason: String },
}

/// What a [`StepOutcome`] denotes.
pub enum StepModel {
    Passed,
    Failed((KindModel, Seq<char>), Seq<char>),
    NotRun(Seq<char>),
}

impl View for StepOutcome {
    type V = StepModel;

    open spec fn view(&self) -> StepModel {
        match self {
            StepOutcome::Passed => StepModel::Passed,
            StepOutcome::Failed { error, detail } => StepModel::Failed(error@, detail@),
            StepOutcome::NotRun { reason } => StepModel::NotRun(reason@),
        }
    }
}

/// The ledger cell of a step: `ok`, `FAIL <kind>: <payload>` or `n/a: <reason>`.
pub open spec fn step_cell(s: StepModel) -> Seq<char> {
    match s {
        StepModel::Passed => "ok"@,
        StepModel::Failed(e, _) => "FAIL "@ + error_text(e),
        StepModel::NotRun(reason) => "n/a: "@ + reason,
    }
}

impl StepOutcome {
    pub fn failed(error: ComparableError, detail: &str) -> (r: StepOutcome)
        ensures
            r@ == StepModel::Failed(error@, detail@),
    {
        StepOutcome::Failed { error, detail: owned(detail) }
    }

    pub fn not_run(reason: &str) -> (r: StepOutcome)
        ensures
            r@ == StepModel::NotRun(reason@),
    {
        StepOutcome::NotRun { reason: owned(reason) }
    }

    pub fn passed(&self) -> (r: bool)
        ensures
            r == (self@ is Passed),
    {
        match self {
            StepOutcome::Passed => true,
            _ => false,
        }
    }

    /// Whether the step did not run.
    pub fn is_not_run(&self) -> (r: bool)
        ensures
            r == (self@ is NotRun),
    {
        match self {
            StepOutcome::NotRun { .. } => true,
            _ => false,
        }
    }

    pub fn failure(&self) -> (r: Option<&ComparableError>)
        ensures
            self is Failed ==> (r matches Some(e) && *e == self->Failed_error),
            !(self is Failed) ==> r is None,
    {
        match self {
            StepOutcome::Failed { error, .. } => Some(error),
            _ => None,
        }
    }

    /// The ledger cell for this step: `ok`, `FAIL <kind>: <payload>` or `n/a: <reason>`.
    pub fn render(&self) -> (r: String)
        ensures
            r@ == step_cell(self@),
    {
        match self {
            StepOutcome::Passed => owned("ok"),
            StepOutcome::Failed { error, .. } => {
                let mut s = owned("FAIL ");
                append(&mut s, error.to_text().as_str());
                s
            },
            StepOutcome::NotRun { reason } => {
                let mut s = owned("n/a: ");
                append(&mut s, reason.as_str());
                s
            },
        }
    }
}

/// Everything one run of one program produced, step by step. Each step runs under its own panic
/// guard, so a panic is recorded where it happened and the steps after it read `NotRun`.
#[derive(Debug, PartialEq)]
pub struct RunRecord {
    /// Hash of the program's normalized sources.
    pub source_hash: String,
    pub load: StepOutcome,
    pub compile: StepOutcome,
    pub interpret: StepOutcome,
    /// The interpreter's return checked against the recorded `return`.
    pub oracle: StepOutcome,
    /// Canonicalizing and hashing the program.
    pub projection: StepOutcome,
    pub returned: Option<DiffValue>,
    pub projection_hash: Option<String>,
}

/// The message of the verdict of a record with neither a value nor a failed step.
pub open spec fn no_verdict_text() -> Seq<char> {
    "record has neither a returned value nor a failed step"@
}

/// The verdict of a run: the returned value, else the first of the load, compile and interpret
/// steps that failed.
pub open spec fn verdict_of(returned: Option<DiffModel>, load: StepModel, compile: StepModel, interpret: StepModel) -> OutcomeModel {
    match returned {
        Some(v) => OutcomeModel::Returned(v),
        None => if load is Failed {
            OutcomeModel::Errored(load->Failed_0, load->Failed_1)
        } else if compile is Failed {
            OutcomeModel::Errored(compile->Failed_0, compile->Failed_1)
        } else if interpret is Failed {
            OutcomeModel::Errored(interpret->Failed_0, interpret->Failed_1)
        } else {
            OutcomeModel::Errored((KindModel::Internal, no_verdict_text()), Seq::empty())
        },
    }
}

impl RunRecord {
    /// The returned value's model, if any.
    pub open spec fn returned_model(&self) -> Option<DiffModel> {
        match self.returned {
            Some(v) => Some(v.model()),
            None => None,
        }
    }

    /// The verdict the cross-field comparison consumes.
    pub open spec fn verdict(&self) -> OutcomeModel {
        verdict_of(self.returned_model(), self.load@, self.compile@, self.interpret@)
    }

    /// The per-program verdict the cross-field comparison consumes: the returned value, else the
    /// first failed step. The oracle and projection steps never change it.
    pub fn outcome(&self) -> (r: DiffOutcome)
        ensures
            r.model() == self.verdict(),
    {
        if let Some(value) = &self.returned {
            return DiffOutcome::Returned(value.duplicate());
        }
        if let StepOutcome::Failed { error, detail } = &self.load {
            return DiffOutcome::Errored { error: error.duplicate(), detail: detail.clone() };
        }
        if let StepOutcome::Failed { error, detail } = &self.compile {
            return DiffOutcome::Errored { error: error.duplicate(), detail: detail.clone() };
        }
        if let StepOutcome::Failed { error, detail } = &self.interpret {
            return DiffOutcome::Errored { error: error.duplicate(), detail: detail.clone() };
        }
        DiffOutcome::Errored {
            error: ComparableError::new(
                FailureKind::Internal,
                "record has neither a returned value nor a failed step",
            ),
            detail: String::new(),
        }
    }
}

/// A dump's provenance, stamped when it is written so two dumps from mismatched builds are
/// refused rather than diffed into phantom divergences.
#[derive(Debug, PartialEq)]
pub struct DumpProvenance {
    pub format_version: u32,
    pub projection_version: u32,
    pub field: String,
    pub field_modulus: String,
    /// The compiler's own stamp: the commit its crates were built from.
    pub noir_rev: String,
    pub interpreter_rev: String,
    pub interpreter_dirty: bool,
    pub corpus_dir: String,
    /// Hash over every program's `source_hash`, in name order.
    pub corpus_hash: String,
    pub program_count: usize,
    /// The version of the toolchain that built the referee and the compiler.
    pub toolchain: String,
    /// The referee's enabled features, sorted.
    pub features: Vec<String>,
    pub built_at: String,
}

/// One field's corpus records plus the provenance needed to trust a cross-field diff of them.
#[derive(Debug, PartialEq)]
pub struct CrossFieldDump {
    pub provenance: DumpProvenance,
    /// Records in program-name order.
    pub records: Vec<(String, RunRecord)>,
}

/// Why a dump of the given format version is refused, or `None` for the current version.
pub open spec fn dump_version_error(version: u32) -> Option<Seq<char>> {
    if version == DUMP_FORMAT_VERSION {
        None
    } else {
        Some("dump is format "@ + nat_decimal(version as nat) + "; this referee expects "@
            + nat_decimal(DUMP_FORMAT_VERSION as nat) + " (regenerate it under both fields)"@)
    }
}

/// Accept a dump's format version only if it is the current one, naming both otherwise.
pub fn check_dump_format(version: u32) -> (r: Result<(), String>)
    ensures
        r is Ok <==> dump_version_error(version) is None,
        r is Err ==> dump_version_error(version) == Some(r->Err_0@),
{
    if version == DUMP_FORMAT_VERSION {
        return Ok(());
    }
    let mut s = owned("dump is format ");
    append(&mut s, u64_decimal(version as u64).as_str());
    append(&mut s, "; this referee expects ");
    append(&mut s, u64_decimal(DUMP_FORMAT_VERSION as u64).as_str());
    append(&mut s, " (regenerate it under both fields)");
    Err(s)
}


/// Every value is cross-field equivalent to itself.
pub proof fn law_equivalence_reflexive(m: DiffModel)
    ensures
        equiv_error(m, m) is None,
    decreases m, 0nat,
{
    match m {
        DiffModel::Array(xs) => lemma_elements_reflexive(xs, "array"@, 0),
        DiffModel::Tuple(xs) => lemma_elements_reflexive(xs, "tuple"@, 0),
        _ => {},
    }
}

proof fn lemma_elements_reflexive(xs: Seq<DiffModel>, kind: Seq<char>, i: nat)
    ensures
        first_element_error(xs, xs, kind, i) is None,
    decreases xs, xs.len() - i,
{
    if i < xs.len() {
        law_equivalence_reflexive(xs[i as int]);
        lemma_elements_reflexive(xs, kind, i + 1);
    }
}

/// Which kind of value a model is.
pub open spec fn diff_kind(m: DiffModel) -> int {
    match m {
        DiffModel::Field(_) => 0,
        DiffModel::Int(_, _, _) => 1,
        DiffModel::Bool(_) => 2,
        DiffModel::Unit => 3,
        DiffModel::Str(_) => 4,
        DiffModel::Array(_) => 5,
        DiffModel::Tuple(_) => 6,
        DiffModel::Function => 7,
    }
}

/// Integers, booleans and strings are cross-field equivalent exactly when they are equal, an
/// integer's signedness and width included; values of different kinds are never equivalent.
pub proof fn law_scalars_compare_exactly(a: DiffModel, b: DiffModel)
    ensures
        diff_kind(a) != diff_kind(b) ==> equiv_error(a, b) is Some,
        (a is Int && b is Int) ==> (equiv_error(a, b) is None <==> a == b),
        (a is Bool && b is Bool) ==> (equiv_error(a, b) is None <==> a == b),
        (a is Str && b is Str) ==> (equiv_error(a, b) is None <==> a == b),
        (a is Unit && b is Unit) ==> equiv_error(a, b) is None,
{
}

/// Two arrays, or two tuples, are cross-field equivalent exactly when they have the same length
/// and the elements at each index are equivalent. When they are not, the error names the length
/// difference, or else the first index whose elements differ, with that pair's own error.
pub proof fn law_aggregates_compare_elementwise(xs: Seq<DiffModel>, ys: Seq<DiffModel>)
    ensures
        equiv_error(DiffModel::Array(xs), DiffModel::Array(ys)) is None
            <==> (xs.len() == ys.len() && forall|k: int| 0 <= k < xs.len() ==> (#[trigger] equiv_error(xs[k], ys[k]) is None)),
        equiv_error(DiffModel::Tuple(xs), DiffModel::Tuple(ys)) is None
            <==> (xs.len() == ys.len() && forall|k: int| 0 <= k < xs.len() ==> (#[trigger] equiv_error(xs[k], ys[k]) is None)),
        forall|k: int| #![trigger equiv_error(xs[k], ys[k])]
            xs.len() == ys.len() && 0 <= k < xs.len() && equiv_error(xs[k], ys[k]) is Some
            && (forall|j: int| 0 <= j < k ==> (#[trigger] equiv_error(xs[j], ys[j]) is None))
            ==> equiv_error(DiffModel::Array(xs), DiffModel::Array(ys))
                == Some("array["@ + nat_decimal(k as nat) + "]: "@ + equiv_error(xs[k], ys[k])->Some_0)
            && equiv_error(DiffModel::Tuple(xs), DiffModel::Tuple(ys))
                == Some("tuple["@ + nat_decimal(k as nat) + "]: "@ + equiv_error(xs[k], ys[k])->Some_0),
{
    if xs.len() == ys.len() {
        lemma_first_element_error(xs, ys, "array"@, 0);
        lemma_first_element_error(xs, ys, "tuple"@, 0);
        assert(equiv_error(DiffModel::Array(xs), DiffModel::Array(ys)) == first_element_error(xs, ys, "array"@, 0));
        assert(equiv_error(DiffModel::Tuple(xs), DiffModel::Tuple(ys)) == first_element_error(xs, ys, "tuple"@, 0));
        assert forall|k: int| #![trigger equiv_error(xs[k], ys[k])]
            xs.len() == ys.len() && 0 <= k < xs.len() && equiv_error(xs[k], ys[k]) is Some
            && (forall|j: int| 0 <= j < k ==> (#[trigger] equiv_error(xs[j], ys[j]) is None))
            implies first_element_error(xs, ys, "array"@, 0)
                == Some("array"@ + "["@ + nat_decimal(k as nat) + "]: "@ + equiv_error(xs[k], ys[k])->Some_0)
            && first_element_error(xs, ys, "tuple"@, 0)
                == Some("tuple"@ + "["@ + nat_decimal(k as nat) + "]: "@ + equiv_error(xs[k], ys[k])->Some_0) by {
            assert(forall|j: int| 0 <= j < k ==> (#[trigger] equiv_error(xs[j], ys[j]) is None));
        }
        assert forall|k: int| 0 <= k < xs.len() implies
            ("array"@ + "["@ + nat_decimal(k as nat) + "]: "@ + equiv_error(xs[k], ys[k])->Some_0
                == "array["@ + nat_decimal(k as nat) + "]: "@ + equiv_error(xs[k], ys[k])->Some_0)
            && ("tuple"@ + "["@ + nat_decimal(k as nat) + "]: "@ + equiv_error(xs[k], ys[k])->Some_0
                == "tuple["@ + nat_decimal(k as nat) + "]: "@ + equiv_error(xs[k], ys[k])->Some_0) by {
            reveal_strlit("array");
            reveal_strlit("tuple");
            reveal_strlit("[");
            reveal_strlit("array[");
            reveal_strlit("tuple[");
            assert("array"@ + "["@ =~= "array["@);
            assert("tuple"@ + "["@ =~= "tuple["@);
        }
    }
}

/// The scan from `i` finds no difference exactly when every pair from `i` on is equivalent, and
/// otherwise reports the first differing pair.
proof fn lemma_first_element_error(xs: Seq<DiffModel>, ys: Seq<DiffModel>, kind: Seq<char>, i: nat)
    requires
        xs.len() == ys.len(),
    ensures
        first_element_error(xs, ys, kind, i) is None
            <==> forall|k: int| i <= k < xs.len() ==> (#[trigger] equiv_error(xs[k], ys[k]) is None),
        forall|k: int| #![trigger equiv_error(xs[k], ys[k])]
            i <= k < xs.len() && equiv_error(xs[k], ys[k]) is Some
            && (forall|j: int| i <= j < k ==> (#[trigger] equiv_error(xs[j], ys[j]) is None))
            ==> first_element_error(xs, ys, kind, i)
                == Some(kind + "["@ + nat_decimal(k as nat) + "]: "@ + equiv_error(xs[k], ys[k])->Some_0),
    decreases xs.len() - i,
{
    if i < xs.len() {
        lemma_first_element_error(xs, ys, kind, i + 1);
        assert forall|k: int| #![trigger equiv_error(xs[k], ys[k])]
            i <= k < xs.len() && equiv_error(xs[k], ys[k]) is Some
            && (forall|j: int| i <= j < k ==> (#[trigger] equiv_error(xs[j], ys[j]) is None))
            implies first_element_error(xs, ys, kind, i)
                == Some(kind + "["@ + nat_decimal(k as nat) + "]: "@ + equiv_error(xs[k], ys[k])->Some_0) by {
            if k > i {
                assert(equiv_error(xs[i as int], ys[i as int]) is None);
            }
        }
        if first_element_error(xs, ys, kind, i) is None {
            assert forall|k: int| i <= k < xs.len() implies (#[trigger] equiv_error(xs[k], ys[k]) is None) by {
                if k > i {
                    assert(first_element_error(xs, ys, kind, i + 1) is None);
                }
            }
        }
    }
}

/// Cross-field equivalence of values does not depend on which field's value comes first.
pub proof fn law_equivalence_symmetric(a: DiffModel, b: DiffModel)
    ensures
        equiv_error(a, b) is None <==> equiv_error(b, a) is None,
    decreases a, 0nat,
{
    match a {
        DiffModel::Array(xs) => if b is Array {
            if xs.len() == b->Array_0.len() {
                lemma_elements_symmetric(xs, b->Array_0, "array"@, 0);
            }
        },
        DiffModel::Tuple(xs) => if b is Tuple {
            if xs.len() == b->Tuple_0.len() {
                lemma_elements_symmetric(xs, b->Tuple_0, "tuple"@, 0);
            }
        },
        _ => {},
    }
}

proof fn lemma_elements_symmetric(xs: Seq<DiffModel>, ys: Seq<DiffModel>, kind: Seq<char>, i: nat)
    requires
        xs.len() == ys.len(),
    ensures
        first_element_error(xs, ys, kind, i) is None <==> first_element_error(ys, xs, kind, i) is None,
    decreases xs, xs.len() - i,
{
    if i < xs.len() {
        law_equivalence_symmetric(xs[i as int], ys[i as int]);
        lemma_elements_symmetric(xs, ys, kind, i + 1);
    }
}

/// Two field elements are always cross-field equivalent, whatever their values.
pub proof fn law_field_values_always_equivalent(x: Seq<char>, y: Seq<char>)
    ensures
        equiv_error(DiffModel::Field(x), DiffModel::Field(y)) is None,
{
}

/// A panic on either side is never equivalent to anything, not even to another panic.
pub proof fn law_panic_never_equivalent(a: OutcomeModel, b: OutcomeModel)
    requires
        failed_with(a, KindModel::Panic) || failed_with(b, KindModel::Panic),
    ensures
        outcome_error(a, b) is Some,
        !tolerated(a, b),
{
}

/// An internal error on either side is never equivalent to anything.
pub proof fn law_internal_never_equivalent(a: OutcomeModel, b: OutcomeModel)
    requires
        failed_with(a, KindModel::Internal) || failed_with(b, KindModel::Internal),
    ensures
        outcome_error(a, b) is Some,
        !tolerated(a, b),
{
}

/// A tolerated pair of outcomes is equivalent.
pub proof fn law_tolerated_is_equivalent(a: OutcomeModel, b: OutcomeModel)
    requires
        tolerated(a, b),
    ensures
        outcome_error(a, b) is None,
{
}

/// Cross-field equivalence of outcomes, and its tolerance, do not depend on which field's
/// outcome comes first.
pub proof fn law_outcome_equivalence_symmetric(a: OutcomeModel, b: OutcomeModel)
    ensures
        outcome_error(a, b) is None <==> outcome_error(b, a) is None,
        tolerated(a, b) == tolerated(b, a),
{
    if a is Returned && b is Returned {
        law_equivalence_symmetric(a->Returned_0, b->Returned_0);
    }
}

/// The verdict of a run is its returned value whenever it has one, and neither the oracle step,
/// the projection step nor the hashes change it.
pub proof fn law_verdict_ignores_oracle_and_projection(a: RunRecord, b: RunRecord)
    requires
        a.returned_model() == b.returned_model(),
        a.load@ == b.load@,
        a.compile@ == b.compile@,
        a.interpret@ == b.interpret@,
    ensures
        a.verdict() == b.verdict(),
        a.returned is Some ==> a.verdict() == OutcomeModel::Returned(a.returned->Some_0.model()),
{
}


impl DiffValue {
    /// Whether two values are the same value: equal models.
    pub fn same_as(&self, other: &DiffValue) -> (r: bool)
        ensures
            r == (self.model() == other.model()),
        decreases self,
    {
        match (self, other) {
            (DiffValue::Field(a), DiffValue::Field(b)) => *a == *b,
            (DiffValue::Int { signed: s1, bits: b1, value: v1 }, DiffValue::Int { signed: s2, bits: b2, value: v2 }) => {
                *s1 == *s2 && *b1 == *b2 && v1.equals(v2)
            },
            (DiffValue::Bool(a), DiffValue::Bool(b)) => *a == *b,
            (DiffValue::Unit, DiffValue::Unit) => true,
            (DiffValue::Str(a), DiffValue::Str(b)) => *a == *b,
            (DiffValue::Array(xs), DiffValue::Array(ys)) => {
                proof {
                    lemma_list_models(xs@, self.model()->Array_0);
                    lemma_list_models(ys@, other.model()->Array_0);
                }
                same_lists(xs, ys)
            },
            (DiffValue::Tuple(xs), DiffValue::Tuple(ys)) => {
                proof {
                    lemma_list_models(xs@, self.model()->Tuple_0);
                    lemma_list_models(ys@, other.model()->Tuple_0);
                }
                same_lists(xs, ys)
            },
            (DiffValue::Function, DiffValue::Function) => true,
            _ => false,
        }
    }
}

fn same_lists(xs: &Vec<DiffValue>, ys: &Vec<DiffValue>) -> (r: bool)
    ensures
        r == (diff_models(xs@) == diff_models(ys@)),
    decreases xs,
{
    if xs.len() != ys.len() {
        assert(diff_models(xs@).len() != diff_models(ys@).len());
        return false;
    }
    let mut i: usize = 0;
    while i < xs.len()
        invariant
            i <= xs@.len(),
            xs@.len() == ys@.len(),
            forall|k: int| 0 <= k < i ==> #[trigger] diff_models(xs@)[k] == diff_models(ys@)[k],
        decreases xs@.len() - i,
    {
        if !xs[i].same_as(&ys[i]) {
            assert(diff_models(xs@)[i as int] != diff_models(ys@)[i as int]);
            return false;
        }
        i = i + 1;
    }
    assert(diff_models(xs@) =~= diff_models(ys@));
    true
}

} // verus!
