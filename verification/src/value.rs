//! Runtime values and the semantics of machine integers.

use vstd::arithmetic::div_mod::lemma_mod_bound;
use vstd::arithmetic::power2::{lemma_pow2_pos, lemma_pow2_unfold, pow2};
use vstd::prelude::*;
use vstd::string::StringExecFns;

use crate::bigint::{int_decimal, nat_decimal, u64_decimal, BigInt};
use crate::error::{ErrorModel, InterpretError};
use crate::field::{field_modulus, FieldId, FieldValue};
use crate::text::{append, bool_string, bool_text, cat, debug_quoted, owned, quote_debug};

verus! {

/// A function's identity in a program.
#[derive(Clone, Copy, Debug, PartialEq, Eq, Structural)]
pub struct FuncId(pub u32);

/// A runtime value produced while interpreting a program.
///
/// Integers carry an explicit width, signedness, and their exact mathematical value (not a
/// field-reduced one), so a `u64` at or above a field's modulus survives intact and the same
/// computation yields identical integer and bool results under every field.
#[derive(Debug, PartialEq)]
pub enum Value {
    Field(FieldValue),
    Int(IntValue),
    Bool(bool),
    Unit,
    Array(Vec<Value>),
    Tuple(Vec<Value>),
    Str(String),
    Function(FuncId),
    /// A reference: a cell of the interpreter's store and the tuple fields followed into it.
    Ref(usize, Vec<usize>),
}

/// A machine integer: width, signedness, and the value.
///
/// A well-formed integer (see [`IntValue::wf`]) holds the mathematical integer in the type's
/// range: unsigned in `[0, 2^bits)`, signed in `[-2^(bits-1), 2^(bits-1))`.
#[derive(Clone, Debug, PartialEq)]
pub struct IntValue {
    pub signed: bool,
    pub bits: u8,
    pub value: BigInt,
}

/// What a value denotes, with integers as mathematical integers.
pub enum ValueModel {
    Field(FieldId, int),
    Int(bool, u8, int),
    Bool(bool),
    Unit,
    Array(Seq<ValueModel>),
    Tuple(Seq<ValueModel>),
    Str(Seq<char>),
    Function(u32),
    Ref(nat, Seq<usize>),
}

impl Value {
    /// What this value denotes.
    pub open spec fn model(&self) -> ValueModel
        decreases self,
    {
        match self {
            Value::Field(f) => ValueModel::Field(f@.0, f@.1),
            Value::Int(i) => ValueModel::Int(i.signed, i.bits, i.value@),
            Value::Bool(b) => ValueModel::Bool(*b),
            Value::Unit => ValueModel::Unit,
            Value::Array(vs) => ValueModel::Array(
                Seq::new(vs@.len(), |i: int| if 0 <= i < vs@.len() { vs@[i].model() } else { ValueModel::Unit }),
            ),
            Value::Tuple(vs) => ValueModel::Tuple(
                Seq::new(vs@.len(), |i: int| if 0 <= i < vs@.len() { vs@[i].model() } else { ValueModel::Unit }),
            ),
            Value::Str(s) => ValueModel::Str(s@),
            Value::Function(id) => ValueModel::Function(id.0),
            Value::Ref(cell, path) => ValueModel::Ref(*cell as nat, path@),
        }
    }
}

impl Value {
    /// A deep copy of this value.
    pub fn duplicate(&self) -> (r: Value)
        ensures
            r.model() == self.model(),
        decreases self,
    {
        match self {
            Value::Field(f) => Value::Field(f.duplicate()),
            Value::Int(i) => Value::Int(i.duplicate()),
            Value::Bool(b) => Value::Bool(*b),
            Value::Unit => Value::Unit,
            Value::Array(vs) => {
                let out = duplicate_all(vs);
                proof {
                    lemma_models_equal(out, *vs);
                }
                Value::Array(out)
            },
            Value::Tuple(vs) => {
                let out = duplicate_all(vs);
                proof {
                    lemma_models_equal(out, *vs);
                }
                Value::Tuple(out)
            },
            Value::Str(s) => Value::Str(s.clone()),
            Value::Function(id) => Value::Function(*id),
            Value::Ref(cell, path) => Value::Ref(*cell, path.clone()),
        }
    }
}

/// Aggregates whose elements have equal models have equal models.
proof fn lemma_models_equal(a: Vec<Value>, b: Vec<Value>)
    requires
        a@.len() == b@.len(),
        forall|i: int| 0 <= i < a@.len() ==> #[trigger] a@[i].model() == b@[i].model(),
    ensures
        Value::Array(a).model() == Value::Array(b).model(),
        Value::Tuple(a).model() == Value::Tuple(b).model(),
{
    let sa = Seq::new(a@.len(), |i: int| if 0 <= i < a@.len() { a@[i].model() } else { ValueModel::Unit });
    let sb = Seq::new(b@.len(), |i: int| if 0 <= i < b@.len() { b@[i].model() } else { ValueModel::Unit });
    assert(sa =~= sb) by {
        assert forall|i: int| 0 <= i < sa.len() implies sa[i] == sb[i] by {
            assert(a@[i].model() == b@[i].model());
        }
    }
    assert(Value::Array(a).model()->Array_0 =~= sa);
    assert(Value::Array(b).model()->Array_0 =~= sb);
    assert(Value::Tuple(a).model()->Tuple_0 =~= sa);
    assert(Value::Tuple(b).model()->Tuple_0 =~= sb);
}

/// Deep copies of every value in `vs`.
pub fn duplicate_all(vs: &Vec<Value>) -> (r: Vec<Value>)
    ensures
        r@.len() == vs@.len(),
        forall|i: int| 0 <= i < vs@.len() ==> #[trigger] r@[i].model() == vs@[i].model(),
    decreases vs,
{
    let mut out: Vec<Value> = Vec::new();
    let mut i: usize = 0;
    while i < vs.len()
        invariant
            i <= vs.len(),
            out@.len() == i,
            forall|j: int| 0 <= j < i ==> #[trigger] out@[j].model() == vs@[j].model(),
        decreases vs.len() - i,
    {
        out.push(vs[i].duplicate());
        i = i + 1;
    }
    out
}

impl Clone for Value {
    fn clone(&self) -> (r: Value)
        ensures
            r.model() == self.model(),
    {
        self.duplicate()
    }
}

/// The `Debug` rendering of a value's model: `Int(IntValue { signed: false, bits: 8, value: 5 })`,
/// `Array([Bool(true), Unit])`, with a field element shown as its canonical value.
pub open spec fn model_debug(m: ValueModel) -> Seq<char>
    decreases m, 0nat,
{
    match m {
        ValueModel::Field(_, v) => "Field("@ + int_decimal(v) + ")"@,
        ValueModel::Int(s, b, v) => "Int(IntValue { signed: "@ + bool_text(s) + ", bits: "@
            + nat_decimal(b as nat) + ", value: "@ + int_decimal(v) + " })"@,
        ValueModel::Bool(b) => "Bool("@ + bool_text(b) + ")"@,
        ValueModel::Unit => "Unit"@,
        ValueModel::Array(xs) => "Array(["@ + models_debug(xs, xs.len()) + "])"@,
        ValueModel::Tuple(xs) => "Tuple(["@ + models_debug(xs, xs.len()) + "])"@,
        ValueModel::Str(s) => "Str("@ + debug_quoted(s) + ")"@,
        ValueModel::Function(id) => "Function(FuncId("@ + nat_decimal(id as nat) + "))"@,
        ValueModel::Ref(cell, path) => "Ref("@ + nat_decimal(cell) + ", ["@ + path_debug(path, path.len()) + "])"@,
    }
}

/// The first `n` steps of a reference's path, separated by `, `.
pub open spec fn path_debug(path: Seq<usize>, n: nat) -> Seq<char>
    decreases n,
{
    if n == 0 || n > path.len() {
        Seq::empty()
    } else if n == 1 {
        nat_decimal(path[0] as nat)
    } else {
        path_debug(path, (n - 1) as nat) + ", "@ + nat_decimal(path[n - 1] as nat)
    }
}

/// The rendering of a reference's path.
fn path_text(path: &Vec<usize>) -> (r: String)
    ensures
        r@ == path_debug(path@, path@.len()),
{
    let mut s = String::new();
    let mut i: usize = 0;
    while i < path.len()
        invariant
            i <= path@.len(),
            s@ == path_debug(path@, i as nat),
        decreases path@.len() - i,
    {
        if i > 0 {
            append(&mut s, ", ");
        }
        append(&mut s, u64_decimal(path[i] as u64).as_str());
        i = i + 1;
    }
    s
}

/// The first `n` models of `xs`, rendered and separated by `, `.
pub open spec fn models_debug(xs: Seq<ValueModel>, n: nat) -> Seq<char>
    decreases xs, n,
{
    if n == 0 || n > xs.len() {
        Seq::empty()
    } else if n == 1 {
        model_debug(xs[0])
    } else {
        models_debug(xs, (n - 1) as nat) + ", "@ + model_debug(xs[n - 1])
    }
}

impl Value {
    /// The `Debug` rendering of this value, as error messages show it.
    pub fn debug_text(&self) -> (r: String)
        ensures
            r@ == model_debug(self.model()),
        decreases self,
    {
        match self {
            Value::Field(f) => {
                let mut s = owned("Field(");
                append(&mut s, f.value().to_decimal().as_str());
                append(&mut s, ")");
                s
            },
            Value::Int(i) => {
                let mut s = owned("Int(IntValue { signed: ");
                append(&mut s, bool_string(i.signed).as_str());
                append(&mut s, ", bits: ");
                append(&mut s, u64_decimal(i.bits as u64).as_str());
                append(&mut s, ", value: ");
                append(&mut s, i.value.to_decimal().as_str());
                append(&mut s, " })");
                s
            },
            Value::Bool(b) => {
                let mut s = owned("Bool(");
                append(&mut s, bool_string(*b).as_str());
                append(&mut s, ")");
                s
            },
            Value::Unit => owned("Unit"),
            Value::Array(vs) => {
                let mut s = owned("Array([");
                let inner = debug_all(vs);
                proof {
                    assert(self.model()->Array_0.len() == vs@.len());
                    assert forall|i: int| 0 <= i < vs@.len() implies
                        #[trigger] self.model()->Array_0[i] == vs@[i].model() by {}
                    lemma_models_debug_congruent(self.model()->Array_0, Seq::new(vs@.len(), |i: int| vs@[i].model()), vs@.len());
                }
                append(&mut s, inner.as_str());
                append(&mut s, "])");
                s
            },
            Value::Tuple(vs) => {
                let mut s = owned("Tuple([");
                let inner = debug_all(vs);
                proof {
                    assert(self.model()->Tuple_0.len() == vs@.len());
                    assert forall|i: int| 0 <= i < vs@.len() implies
                        #[trigger] self.model()->Tuple_0[i] == vs@[i].model() by {}
                    lemma_models_debug_congruent(self.model()->Tuple_0, Seq::new(vs@.len(), |i: int| vs@[i].model()), vs@.len());
                }
                append(&mut s, inner.as_str());
                append(&mut s, "])");
                s
            },
            Value::Str(text) => {
                let mut s = owned("Str(");
                append(&mut s, quote_debug(text.as_str()).as_str());
                append(&mut s, ")");
                s
            },
            Value::Function(id) => {
                let mut s = owned("Function(FuncId(");
                append(&mut s, u64_decimal(id.0 as u64).as_str());
                append(&mut s, "))");
                s
            },
            Value::Ref(cell, path) => {
                let mut s = owned("Ref(");
                append(&mut s, u64_decimal(*cell as u64).as_str());
                append(&mut s, ", [");
                append(&mut s, path_text(path).as_str());
                append(&mut s, "])");
                s
            },
        }
    }
}

impl Value {
    pub fn as_bool(&self) -> (r: Result<bool, InterpretError>)
        ensures
            self is Bool ==> r == Ok::<bool, InterpretError>(self->Bool_0),
            !(self is Bool) ==> (r matches Err(InterpretError::Type(m))
                && m@ == "expected bool, got "@ + model_debug(self.model())),
    {
        match self {
            Value::Bool(b) => Ok(*b),
            other => Err(InterpretError::Type(cat("expected bool, got ", other.debug_text().as_str()))),
        }
    }

    pub fn as_int(&self) -> (r: Result<&IntValue, InterpretError>)
        ensures
            self is Int ==> (r matches Ok(i) && *i == self->Int_0),
            !(self is Int) ==> (r matches Err(InterpretError::Type(m))
                && m@ == "expected integer, got "@ + model_debug(self.model())),
    {
        match self {
            Value::Int(i) => Ok(i),
            other => Err(InterpretError::Type(cat("expected integer, got ", other.debug_text().as_str()))),
        }
    }

    /// Coerce an integer value to a `usize` index: its bit pattern, which must fit 64 bits.
    pub fn as_index(&self) -> (r: Result<usize, InterpretError>)
        ensures
            !(self is Int) ==> (r matches Err(InterpretError::Type(m))
                && m@ == "expected integer, got "@ + model_debug(self.model())),
            self is Int ==> ({
                let i = self->Int_0;
                let p = bit_pattern(i.value@, i.bits as nat);
                &&& (0 <= p <= u64::MAX) ==> r == Ok::<usize, InterpretError>(p as u64 as usize)
                &&& !(0 <= p <= u64::MAX) ==> (r matches Err(InterpretError::ValueOutOfRange(m))
                    && m@ == "index out of usize range: "@ + int_decimal(p))
            }),
    {
        let iv = match self.as_int() {
            Ok(iv) => iv,
            Err(e) => return Err(e),
        };
        let repr = iv.unsigned_repr();
        match repr.to_u64() {
            Some(n) => Ok(n as usize),
            None => Err(InterpretError::ValueOutOfRange(cat("index out of usize range: ", repr.to_decimal().as_str()))),
        }
    }
}

/// `models_debug` only reads the models it renders.
proof fn lemma_models_debug_congruent(a: Seq<ValueModel>, b: Seq<ValueModel>, n: nat)
    requires
        a.len() == b.len(),
        n <= a.len(),
        forall|i: int| 0 <= i < a.len() ==> #[trigger] a[i] == b[i],
    ensures
        models_debug(a, n) == models_debug(b, n),
    decreases n,
{
    if n > 1 {
        lemma_models_debug_congruent(a, b, (n - 1) as nat);
    }
}

/// The renderings of `vs`, separated by `, `.
pub fn debug_all(vs: &Vec<Value>) -> (r: String)
    ensures
        r@ == models_debug(Seq::new(vs@.len(), |i: int| vs@[i].model()), vs@.len()),
    decreases vs,
{
    let ghost models = Seq::new(vs@.len(), |i: int| vs@[i].model());
    let mut s = String::new();
    let mut i: usize = 0;
    while i < vs.len()
        invariant
            i <= vs.len(),
            models == Seq::new(vs@.len(), |i: int| vs@[i].model()),
            s@ == models_debug(models, i as nat),
        decreases vs.len() - i,
    {
        if i > 0 {
            append(&mut s, ", ");
        }
        let item = vs[i].debug_text();
        append(&mut s, item.as_str());
        i = i + 1;
    }
    s
}

/// The models of a sequence of values.
pub open spec fn value_models(vs: Seq<Value>) -> Seq<ValueModel> {
    Seq::new(vs.len(), |i: int| vs[i].model())
}

/// The model of an aggregate is the sequence of its elements' models.
pub proof fn lemma_value_models(v: Value)
    ensures
        v is Array ==> v.model()->Array_0 == value_models(v->Array_0@),
        v is Tuple ==> v.model()->Tuple_0 == value_models(v->Tuple_0@),
{
    if v is Array {
        assert(v.model()->Array_0 =~= value_models(v->Array_0@));
    }
    if v is Tuple {
        assert(v.model()->Tuple_0 =~= value_models(v->Tuple_0@));
    }
}

/// What a value-or-error result denotes.
pub open spec fn result_model(r: Result<Value, InterpretError>) -> Result<ValueModel, ErrorModel> {
    match r {
        Ok(v) => Ok(v.model()),
        Err(e) => Err(e.model()),
    }
}

/// The least value of an integer type.
pub open spec fn type_min(signed: bool, bits: nat) -> int {
    if signed {
        -(pow2((bits - 1) as nat) as int)
    } else {
        0
    }
}

/// The greatest value of an integer type.
pub open spec fn type_max(signed: bool, bits: nat) -> int {
    if signed {
        pow2((bits - 1) as nat) - 1
    } else {
        pow2(bits) - 1
    }
}

/// Whether `v` is a value of the integer type.
pub open spec fn fits(signed: bool, bits: nat, v: int) -> bool {
    type_min(signed, bits) <= v <= type_max(signed, bits)
}

/// A signed type needs at least one bit for its sign.
pub open spec fn valid_type(signed: bool, bits: nat) -> bool {
    signed ==> bits >= 1
}

/// The two's-complement representative of `raw` in the integer type: `raw` reduced modulo
/// `2^bits`, moved into the signed range for a signed type.
pub open spec fn wrapped(signed: bool, bits: nat, raw: int) -> int {
    let u = raw % (pow2(bits) as int);
    if signed && u >= pow2((bits - 1) as nat) {
        u - pow2(bits)
    } else {
        u
    }
}

/// The `bits`-bit two's-complement bit pattern of `v`, as a natural number.
pub open spec fn bit_pattern(v: int, bits: nat) -> int {
    if v < 0 {
        v + pow2(bits)
    } else {
        v
    }
}

impl IntValue {
    /// The integer holds a value of its own type.
    pub open spec fn wf(&self) -> bool {
        &&& valid_type(self.signed, self.bits as nat)
        &&& fits(self.signed, self.bits as nat, self.value@)
    }

    /// A copy of this integer.
    pub fn duplicate(&self) -> (r: IntValue)
        ensures
            r.signed == self.signed,
            r.bits == self.bits,
            r.value@ == self.value@,
    {
        IntValue { signed: self.signed, bits: self.bits, value: self.value.duplicate() }
    }
}

/// The halves of a type's modulus: `pow2(bits) == 2 * pow2(bits - 1)`.
pub proof fn lemma_pow2_halves(bits: nat)
    requires
        bits >= 1,
    ensures
        pow2(bits) == 2 * pow2((bits - 1) as nat),
        pow2((bits - 1) as nat) >= 1,
{
    lemma_pow2_unfold(bits);
    lemma_pow2_pos((bits - 1) as nat);
}

/// A wrapped value is a value of its type.
pub proof fn lemma_wrapped_fits(signed: bool, bits: nat, raw: int)
    requires
        valid_type(signed, bits),
    ensures
        fits(signed, bits, wrapped(signed, bits, raw)),
{
    lemma_pow2_pos(bits);
    lemma_mod_bound(raw, pow2(bits) as int);
    if signed {
        lemma_pow2_halves(bits);
    }
}

/// Wrapping leaves a value of the type unchanged.
pub proof fn lemma_wrapped_identity(signed: bool, bits: nat, v: int)
    requires
        valid_type(signed, bits),
        fits(signed, bits, v),
    ensures
        wrapped(signed, bits, v) == v,
{
    let m = pow2(bits) as int;
    lemma_pow2_pos(bits);
    if signed {
        lemma_pow2_halves(bits);
    }
    if v >= 0 {
        vstd::arithmetic::div_mod::lemma_small_mod(v as nat, m as nat);
    } else {
        vstd::arithmetic::div_mod::lemma_fundamental_div_mod_converse(v, m, -1, v + m);
    }
}

/// A wrapped value is congruent to the raw value modulo `2^bits`, and its bit pattern is the raw
/// value reduced modulo `2^bits`.
pub proof fn lemma_wrapped_mod(signed: bool, bits: nat, raw: int)
    requires
        valid_type(signed, bits),
    ensures
        wrapped(signed, bits, raw) % (pow2(bits) as int) == raw % (pow2(bits) as int),
        bit_pattern(wrapped(signed, bits, raw), bits) == raw % (pow2(bits) as int),
{
    let m = pow2(bits) as int;
    lemma_pow2_pos(bits);
    lemma_mod_bound(raw, m);
    let u = raw % m;
    vstd::arithmetic::div_mod::lemma_small_mod(u as nat, m as nat);
    if signed && u >= pow2((bits - 1) as nat) {
        lemma_pow2_halves(bits);
        vstd::arithmetic::div_mod::lemma_fundamental_div_mod_converse(u - m, m, -1, u);
    }
}

/// `2^bits` as an integer.
fn pow2_big(bits: u8) -> (r: BigInt)
    ensures
        r@ == pow2(bits as nat),
{
    proof {
        vstd::arithmetic::power2::lemma_pow2(0);
        vstd::arithmetic::power::lemma_pow0(2);
    }
    BigInt::one().shl(bits as usize)
}

/// The non-negative integer value of a field element.
pub fn field_to_bigint(field: &FieldValue) -> (r: BigInt)
    ensures
        r@ == field@.1,
        0 <= r@ < field_modulus(field@.0),
{
    field.value()
}

/// Reduce `raw` into the canonical two's-complement representative for `(signed, bits)`.
pub fn wrap(signed: bool, bits: u8, raw: &BigInt) -> (r: BigInt)
    requires
        valid_type(signed, bits as nat),
    ensures
        r@ == wrapped(signed, bits as nat, raw@),
        fits(signed, bits as nat, r@),
{
    proof {
        lemma_wrapped_fits(signed, bits as nat, raw@);
        lemma_pow2_pos(bits as nat);
    }
    let modulus = pow2_big(bits);
    let u = raw.modulo(&modulus);
    if signed {
        let half = pow2_big(bits - 1);
        if !u.less_than(&half) {
            return u.sub(&modulus);
        }
    }
    u
}

impl IntValue {
    /// Construct by *wrapping* `raw` into the type's range (two's complement): the truncating
    /// constructor used for casts, `!`, and wrapping shifts. For checked arithmetic, where an
    /// out-of-range value must be an overflow error instead, use [`IntValue::checked`].
    pub fn canonical(signed: bool, bits: u8, raw: &BigInt) -> (r: IntValue)
        requires
            valid_type(signed, bits as nat),
        ensures
            r.signed == signed,
            r.bits == bits,
            r.value@ == wrapped(signed, bits as nat, raw@),
            r.wf(),
    {
        IntValue { signed, bits, value: wrap(signed, bits, raw) }
    }

    /// Inclusive `[min, max]` range for the type.
    pub fn range(signed: bool, bits: u8) -> (r: (BigInt, BigInt))
        requires
            valid_type(signed, bits as nat),
        ensures
            r.0@ == type_min(signed, bits as nat),
            r.1@ == type_max(signed, bits as nat),
    {
        if signed {
            let half = pow2_big(bits - 1);
            (half.neg(), half.sub(&BigInt::one()))
        } else {
            (BigInt::zero(), pow2_big(bits).sub(&BigInt::one()))
        }
    }

    /// Construct from a result of checked arithmetic; an overflow error naming `op` if it does not
    /// fit the type.
    pub fn checked(signed: bool, bits: u8, raw: &BigInt, op: &str) -> (r: Result<IntValue, InterpretError>)
        requires
            valid_type(signed, bits as nat),
        ensures
            fits(signed, bits as nat, raw@) ==> (r matches Ok(i) && i.signed == signed
                && i.bits == bits && i.value@ == raw@),
            !fits(signed, bits as nat, raw@) ==> (r matches Err(InterpretError::Overflow(m))
                && m@ == op@),
    {
        let (min, max) = IntValue::range(signed, bits);
        if raw.less_than(&min) || max.less_than(raw) {
            return Err(InterpretError::Overflow(owned(op)));
        }
        Ok(IntValue { signed, bits, value: raw.duplicate() })
    }

    /// The value as a non-negative integer in `[0, 2^bits)` (its two's-complement bit pattern),
    /// used for bitwise operations and conversion to a field element.
    pub fn unsigned_repr(&self) -> (r: BigInt)
        ensures
            r@ == bit_pattern(self.value@, self.bits as nat),
            self.wf() ==> 0 <= r@ < pow2(self.bits as nat),
    {
        proof {
            lemma_pow2_pos(self.bits as nat);
            if self.signed && self.bits >= 1 {
                lemma_pow2_halves(self.bits as nat);
            }
        }
        if self.value.is_negative() {
            self.value.add(&pow2_big(self.bits))
        } else {
            self.value.duplicate()
        }
    }

    /// Encode as an element of `field`: the value's bit pattern reduced into the field.
    pub fn to_field(&self, field: FieldId) -> (r: FieldValue)
        ensures
            r@ == (field, bit_pattern(self.value@, self.bits as nat) % field_modulus(field)),
    {
        FieldValue::reduce(field, &self.unsigned_repr())
    }
}

/// Whether two values denote the same value.
pub fn same_value(a: &Value, b: &Value) -> (r: bool)
    ensures
        r == (a.model() == b.model()),
    decreases a, 1nat,
{
    match (a, b) {
        (Value::Field(x), Value::Field(y)) => x.equals(y),
        (Value::Int(x), Value::Int(y)) => x.signed == y.signed && x.bits == y.bits && x.value.equals(&y.value),
        (Value::Bool(x), Value::Bool(y)) => *x == *y,
        (Value::Unit, Value::Unit) => true,
        (Value::Array(xs), Value::Array(ys)) => {
            proof {
                lemma_value_models(*a);
                lemma_value_models(*b);
            }
            same_values(xs, ys)
        },
        (Value::Tuple(xs), Value::Tuple(ys)) => {
            proof {
                lemma_value_models(*a);
                lemma_value_models(*b);
            }
            same_values(xs, ys)
        },
        (Value::Str(x), Value::Str(y)) => crate::text::same_text(x.as_str(), y.as_str()),
        (Value::Function(x), Value::Function(y)) => x.0 == y.0,
        (Value::Ref(c, p), Value::Ref(d, q)) => {
            if *c != *d || p.len() != q.len() {
                assert(a.model() != b.model());
                return false;
            }
            let mut i: usize = 0;
            while i < p.len()
                invariant
                    i <= p@.len(),
                    p@.len() == q@.len(),
                    p@.take(i as int) == q@.take(i as int),
                    a.model() == ValueModel::Ref(*c as nat, p@),
                    b.model() == ValueModel::Ref(*d as nat, q@),
                decreases p@.len() - i,
            {
                if p[i] != q[i] {
                    assert(p@[i as int] != q@[i as int]);
                    assert(p@ != q@);
                    assert(a.model() == ValueModel::Ref(*c as nat, p@));
                    assert(b.model() == ValueModel::Ref(*d as nat, q@));
                    assert(a.model()->Ref_1 != b.model()->Ref_1);
                    return false;
                }
                assert(p@.take(i + 1) =~= p@.take(i as int).push(p@[i as int]));
                assert(q@.take(i + 1) =~= q@.take(i as int).push(q@[i as int]));
                i = i + 1;
            }
            assert(p@ =~= p@.take(p@.len() as int));
            assert(q@ =~= q@.take(q@.len() as int));
            true
        },
        _ => false,
    }
}

/// Whether two lists of values denote the same values.
fn same_values(xs: &Vec<Value>, ys: &Vec<Value>) -> (r: bool)
    ensures
        r == (value_models(xs@) == value_models(ys@)),
    decreases xs, 0nat,
{
    if xs.len() != ys.len() {
        proof {
            assert(value_models(xs@).len() != value_models(ys@).len());
        }
        return false;
    }
    let mut i: usize = 0;
    while i < xs.len()
        invariant
            i <= xs@.len(),
            xs@.len() == ys@.len(),
            forall|j: int| 0 <= j < i ==> #[trigger] xs@[j].model() == ys@[j].model(),
        decreases xs@.len() - i,
    {
        if !same_value(&xs[i], &ys[i]) {
            proof {
                assert(value_models(xs@)[i as int] != value_models(ys@)[i as int]);
            }
            return false;
        }
        i = i + 1;
    }
    assert(value_models(xs@) =~= value_models(ys@));
    true
}

} // verus!
