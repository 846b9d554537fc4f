//! The value semantics of operators and casts.

use vstd::arithmetic::power2::pow2;
use vstd::prelude::*;

use crate::bigint::{lemma_trunc_div_rem, floor_shr, nat_and, nat_decimal, nat_or, nat_xor, trunc_div, trunc_rem, u64_decimal, BigInt};
use crate::error::{ErrorModel, InterpretError};
use crate::error::Location;
use crate::field::{field_modulus, FieldId, FieldValue};
use crate::types::{type_debug, Signedness, Type};
use vstd::arithmetic::power::pow;
use crate::text::{append, bool_string, bool_text, cat, owned};
use crate::value::{model_debug, result_model, ValueModel, bit_pattern, fits, lemma_pow2_halves, lemma_wrapped_identity, lemma_wrapped_mod, type_max, type_min, valid_type, wrapped, IntValue, Value};
use vstd::arithmetic::power2::{lemma_pow2_pos, lemma_pow2_strictly_increases};

verus! {

/// A binary operator.
#[derive(Clone, Copy, Debug, PartialEq, Eq, Structural)]
pub enum BinaryOpKind {
    Add,
    Subtract,
    Multiply,
    Divide,
    Equal,
    NotEqual,
    Less,
    LessEqual,
    Greater,
    GreaterEqual,
    And,
    Or,
    Xor,
    ShiftRight,
    ShiftLeft,
    Modulo,
}

/// The operator's name as `Debug` shows it.
pub open spec fn op_name(op: BinaryOpKind) -> Seq<char> {
    match op {
        BinaryOpKind::Add => "Add"@,
        BinaryOpKind::Subtract => "Subtract"@,
        BinaryOpKind::Multiply => "Multiply"@,
        BinaryOpKind::Divide => "Divide"@,
        BinaryOpKind::Equal => "Equal"@,
        BinaryOpKind::NotEqual => "NotEqual"@,
        BinaryOpKind::Less => "Less"@,
        BinaryOpKind::LessEqual => "LessEqual"@,
        BinaryOpKind::Greater => "Greater"@,
        BinaryOpKind::GreaterEqual => "GreaterEqual"@,
        BinaryOpKind::And => "And"@,
        BinaryOpKind::Or => "Or"@,
        BinaryOpKind::Xor => "Xor"@,
        BinaryOpKind::ShiftRight => "ShiftRight"@,
        BinaryOpKind::ShiftLeft => "ShiftLeft"@,
        BinaryOpKind::Modulo => "Modulo"@,
    }
}

impl BinaryOpKind {
    /// The operator's name.
    pub fn name(&self) -> (r: String)
        ensures
            r@ == op_name(*self),
    {
        match self {
            BinaryOpKind::Add => owned("Add"),
            BinaryOpKind::Subtract => owned("Subtract"),
            BinaryOpKind::Multiply => owned("Multiply"),
            BinaryOpKind::Divide => owned("Divide"),
            BinaryOpKind::Equal => owned("Equal"),
            BinaryOpKind::NotEqual => owned("NotEqual"),
            BinaryOpKind::Less => owned("Less"),
            BinaryOpKind::LessEqual => owned("LessEqual"),
            BinaryOpKind::Greater => owned("Greater"),
            BinaryOpKind::GreaterEqual => owned("GreaterEqual"),
            BinaryOpKind::And => owned("And"),
            BinaryOpKind::Or => owned("Or"),
            BinaryOpKind::Xor => owned("Xor"),
            BinaryOpKind::ShiftRight => owned("ShiftRight"),
            BinaryOpKind::ShiftLeft => owned("ShiftLeft"),
            BinaryOpKind::Modulo => owned("Modulo"),
        }
    }
}

/// What an integer operation yields, before it becomes a value or an error.
pub enum IntOutcome {
    Bool(bool),
    Int(int),
    Overflow(Seq<char>),
    DivisionByZero,
}

/// The result of a checked operation: the exact value, or an overflow naming the operation.
pub open spec fn checked_outcome(signed: bool, bits: nat, v: int, op: Seq<char>) -> IntOutcome {
    if fits(signed, bits, v) {
        IntOutcome::Int(v)
    } else {
        IntOutcome::Overflow(op)
    }
}

/// The shift amount a shift operand denotes: its bit pattern, which must fit 64 bits and be
/// below the width; otherwise the overflow the shift reports.
pub open spec fn shift_outcome(bits: nat, amount_pattern: int, overshift: Seq<char>) -> Option<Seq<char>> {
    if !(0 <= amount_pattern <= u64::MAX) {
        Some("shift amount"@)
    } else if amount_pattern >= bits {
        Some(overshift)
    } else {
        None
    }
}

/// Noir's semantics of a binary operator on two integers of one type `(signed, bits)`:
/// comparisons read the values; `+ - *` and `/` are checked; `/` truncates toward zero and `%`
/// takes the dividend's sign, erring on a zero divisor, with `MIN % -1` an overflow as Rust's
/// `checked_rem` has it; bitwise operators act on the two's-complement bit patterns; `<<` wraps
/// to the width and `>>` is logical for unsigned and arithmetic for signed types, both erring
/// when the amount is not below the width.
pub open spec fn int_binary_outcome(op: BinaryOpKind, signed: bool, bits: nat, a: int, b: int) -> IntOutcome {
    match op {
        BinaryOpKind::Equal => IntOutcome::Bool(a == b),
        BinaryOpKind::NotEqual => IntOutcome::Bool(a != b),
        BinaryOpKind::Less => IntOutcome::Bool(a < b),
        BinaryOpKind::LessEqual => IntOutcome::Bool(a <= b),
        BinaryOpKind::Greater => IntOutcome::Bool(a > b),
        BinaryOpKind::GreaterEqual => IntOutcome::Bool(a >= b),
        BinaryOpKind::Add => checked_outcome(signed, bits, a + b, "addition"@),
        BinaryOpKind::Subtract => checked_outcome(signed, bits, a - b, "subtraction"@),
        BinaryOpKind::Multiply => checked_outcome(signed, bits, a * b, "multiplication"@),
        BinaryOpKind::Divide => if b == 0 {
            IntOutcome::DivisionByZero
        } else {
            checked_outcome(signed, bits, trunc_div(a, b), "division"@)
        },
        BinaryOpKind::Modulo => if b == 0 {
            IntOutcome::DivisionByZero
        } else if signed && a == type_min(signed, bits) && b == -1 {
            IntOutcome::Overflow("modulo"@)
        } else {
            IntOutcome::Int(wrapped(signed, bits, trunc_rem(a, b)))
        },
        BinaryOpKind::And => IntOutcome::Int(wrapped(signed, bits,
            nat_and(bit_pattern(a, bits) as nat, bit_pattern(b, bits) as nat) as int)),
        BinaryOpKind::Or => IntOutcome::Int(wrapped(signed, bits,
            nat_or(bit_pattern(a, bits) as nat, bit_pattern(b, bits) as nat) as int)),
        BinaryOpKind::Xor => IntOutcome::Int(wrapped(signed, bits,
            nat_xor(bit_pattern(a, bits) as nat, bit_pattern(b, bits) as nat) as int)),
        BinaryOpKind::ShiftLeft => match shift_outcome(bits, bit_pattern(b, bits), "shift-left amount >= bit width"@) {
            Some(m) => IntOutcome::Overflow(m),
            None => IntOutcome::Int(wrapped(signed, bits,
                bit_pattern(a, bits) * pow2(bit_pattern(b, bits) as nat))),
        },
        BinaryOpKind::ShiftRight => match shift_outcome(bits, bit_pattern(b, bits), "shift-right amount >= bit width"@) {
            Some(m) => IntOutcome::Overflow(m),
            None => IntOutcome::Int(wrapped(signed, bits, floor_shr(a, bit_pattern(b, bits) as nat))),
        },
    }
}

/// The message for a binary operator applied to integers of two different types.
pub open spec fn int_mismatch_message(op: BinaryOpKind, a: IntValue, b: IntValue) -> Seq<char> {
    "binary "@ + op_name(op) + " on mismatched integer types: (signed="@ + bool_text(a.signed)
        + ","@ + nat_decimal(a.bits as nat) + "b) vs (signed="@ + bool_text(b.signed) + ","@
        + nat_decimal(b.bits as nat) + "b)"@
}

/// Whether `r` is the value or error an integer outcome denotes, at type `(signed, bits)`.
pub open spec fn denotes_int_outcome(r: Result<Value, InterpretError>, signed: bool, bits: u8, o: IntOutcome) -> bool {
    match o {
        IntOutcome::Bool(x) => r matches Ok(Value::Bool(y)) && y == x,
        IntOutcome::Int(v) => r matches Ok(Value::Int(i)) && i.signed == signed && i.bits == bits
            && i.value@ == v && i.wf(),
        IntOutcome::Overflow(m) => r matches Err(InterpretError::Overflow(s)) && s@ == m,
        IntOutcome::DivisionByZero => r matches Err(InterpretError::DivisionByZero),
    }
}

/// The shift amount `b` denotes: its bit pattern when that fits 64 bits.
fn shift_amount(b: &IntValue) -> (r: Result<u64, InterpretError>)
    ensures
        (0 <= bit_pattern(b.value@, b.bits as nat) <= u64::MAX) ==> r == Ok::<u64, InterpretError>(
            bit_pattern(b.value@, b.bits as nat) as u64),
        !(0 <= bit_pattern(b.value@, b.bits as nat) <= u64::MAX) ==> (r matches Err(
            InterpretError::Overflow(m)) && m@ == "shift amount"@),
{
    match b.unsigned_repr().to_u64() {
        Some(n) => Ok(n),
        None => Err(InterpretError::Overflow(owned("shift amount"))),
    }
}

/// Apply `op` to two integers.
pub fn eval_int_binary(op: BinaryOpKind, a: IntValue, b: IntValue) -> (r: Result<Value, InterpretError>)
    requires
        a.wf(),
        b.wf(),
    ensures
        (a.signed != b.signed || a.bits != b.bits) ==> (r matches Err(InterpretError::Type(m))
            && m@ == int_mismatch_message(op, a, b)),
        (a.signed == b.signed && a.bits == b.bits) ==> denotes_int_outcome(r, a.signed, a.bits,
            int_binary_outcome(op, a.signed, a.bits as nat, a.value@, b.value@)),
{
    if a.signed != b.signed || a.bits != b.bits {
        let mut m = owned("binary ");
        append(&mut m, op.name().as_str());
        append(&mut m, " on mismatched integer types: (signed=");
        append(&mut m, bool_string(a.signed).as_str());
        append(&mut m, ",");
        append(&mut m, u64_decimal(a.bits as u64).as_str());
        append(&mut m, "b) vs (signed=");
        append(&mut m, bool_string(b.signed).as_str());
        append(&mut m, ",");
        append(&mut m, u64_decimal(b.bits as u64).as_str());
        append(&mut m, "b)");
        return Err(InterpretError::Type(m));
    }
    let signed = a.signed;
    let bits = a.bits;
    match op {
        BinaryOpKind::Equal => return Ok(Value::Bool(a.value.equals(&b.value))),
        BinaryOpKind::NotEqual => return Ok(Value::Bool(!a.value.equals(&b.value))),
        BinaryOpKind::Less => return Ok(Value::Bool(a.value.less_than(&b.value))),
        BinaryOpKind::LessEqual => return Ok(Value::Bool(!b.value.less_than(&a.value))),
        BinaryOpKind::Greater => return Ok(Value::Bool(b.value.less_than(&a.value))),
        BinaryOpKind::GreaterEqual => return Ok(Value::Bool(!a.value.less_than(&b.value))),
        _ => {},
    }
    let result = match op {
        BinaryOpKind::Add => match IntValue::checked(signed, bits, &a.value.add(&b.value), "addition") {
            Ok(i) => i,
            Err(e) => return Err(e),
        },
        BinaryOpKind::Subtract => match IntValue::checked(signed, bits, &a.value.sub(&b.value), "subtraction") {
            Ok(i) => i,
            Err(e) => return Err(e),
        },
        BinaryOpKind::Multiply => match IntValue::checked(signed, bits, &a.value.mul(&b.value), "multiplication") {
            Ok(i) => i,
            Err(e) => return Err(e),
        },
        BinaryOpKind::Divide => {
            if b.value.is_zero() {
                return Err(InterpretError::DivisionByZero);
            }
            match IntValue::checked(signed, bits, &a.value.div_trunc(&b.value), "division") {
                Ok(i) => i,
                Err(e) => return Err(e),
            }
        },
        BinaryOpKind::Modulo => {
            if b.value.is_zero() {
                return Err(InterpretError::DivisionByZero);
            }
            let (min, _) = IntValue::range(signed, bits);
            if signed && a.value.equals(&min) && b.value.equals(&BigInt::from_i128(-1)) {
                return Err(InterpretError::Overflow(owned("modulo")));
            }
            IntValue::canonical(signed, bits, &a.value.rem_trunc(&b.value))
        },
        BinaryOpKind::And => IntValue::canonical(signed, bits, &a.unsigned_repr().bitand(&b.unsigned_repr())),
        BinaryOpKind::Or => IntValue::canonical(signed, bits, &a.unsigned_repr().bitor(&b.unsigned_repr())),
        BinaryOpKind::Xor => IntValue::canonical(signed, bits, &a.unsigned_repr().bitxor(&b.unsigned_repr())),
        BinaryOpKind::ShiftLeft => {
            let amount = match shift_amount(&b) {
                Ok(n) => n,
                Err(e) => return Err(e),
            };
            if amount >= bits as u64 {
                return Err(InterpretError::Overflow(owned("shift-left amount >= bit width")));
            }
            IntValue::canonical(signed, bits, &a.unsigned_repr().shl(amount as usize))
        },
        _ => {
            let amount = match shift_amount(&b) {
                Ok(n) => n,
                Err(e) => return Err(e),
            };
            if amount >= bits as u64 {
                return Err(InterpretError::Overflow(owned("shift-right amount >= bit width")));
            }
            IntValue::canonical(signed, bits, &a.value.shr(amount as usize))
        },
    };
    Ok(Value::Int(result))
}


/// What an integer outcome denotes at type `(signed, bits)`.
pub open spec fn int_outcome_model(signed: bool, bits: u8, o: IntOutcome) -> Result<ValueModel, ErrorModel> {
    match o {
        IntOutcome::Bool(x) => Ok(ValueModel::Bool(x)),
        IntOutcome::Int(v) => Ok(ValueModel::Int(signed, bits, v)),
        IntOutcome::Overflow(m) => Err(ErrorModel::Overflow(m)),
        IntOutcome::DivisionByZero => Err(ErrorModel::DivisionByZero),
    }
}

/// The message for integers of two different types meeting at an operator.
pub open spec fn int_types_mismatch(op: BinaryOpKind, sa: bool, ba: u8, sb: bool, bb: u8) -> Seq<char> {
    "binary "@ + op_name(op) + " on mismatched integer types: (signed="@ + bool_text(sa)
        + ","@ + nat_decimal(ba as nat) + "b) vs (signed="@ + bool_text(sb) + ","@
        + nat_decimal(bb as nat) + "b)"@
}

/// Whether two values are aggregates of one kind (the shapes that lower to an `Eq`/`Ord` call).
pub open spec fn same_shape(a: ValueModel, b: ValueModel) -> bool {
    ||| (a is Array && b is Array)
    ||| (a is Tuple && b is Tuple)
    ||| (a is Str && b is Str)
    ||| (a is Unit && b is Unit)
}

/// Whether two values are aggregates of one kind.
pub fn same_aggregate_shape(a: &Value, b: &Value) -> (r: bool)
    ensures
        r == same_shape(a.model(), b.model()),
{
    match (a, b) {
        (Value::Array(_), Value::Array(_)) => true,
        (Value::Tuple(_), Value::Tuple(_)) => true,
        (Value::Str(_), Value::Str(_)) => true,
        (Value::Unit, Value::Unit) => true,
        _ => false,
    }
}

/// Field division: the product with the divisor's inverse, taken as `b^(p-2)`.
pub open spec fn field_quotient(p: int, a: int, b: int) -> int {
    (a * (pow(b, (p - 2) as nat) % p)) % p
}

/// A binary operator on two field elements of one field.
pub open spec fn field_binary_model(op: BinaryOpKind, f: crate::field::FieldId, a: int, b: int) -> Result<ValueModel, ErrorModel> {
    let p = field_modulus(f);
    match op {
        BinaryOpKind::Add => Ok(ValueModel::Field(f, (a + b) % p)),
        BinaryOpKind::Subtract => Ok(ValueModel::Field(f, (a - b) % p)),
        BinaryOpKind::Multiply => Ok(ValueModel::Field(f, (a * b) % p)),
        BinaryOpKind::Divide => if b == 0 {
            Err(ErrorModel::DivisionByZero)
        } else {
            Ok(ValueModel::Field(f, field_quotient(p, a, b)))
        },
        BinaryOpKind::Equal => Ok(ValueModel::Bool(a == b)),
        BinaryOpKind::NotEqual => Ok(ValueModel::Bool(a != b)),
        _ => Err(ErrorModel::Type("ordering/bitwise operators are not defined on Field"@)),
    }
}

/// A binary operator on two booleans, ordered `false < true`.
pub open spec fn bool_binary_model(op: BinaryOpKind, a: bool, b: bool) -> Result<ValueModel, ErrorModel> {
    match op {
        BinaryOpKind::And => Ok(ValueModel::Bool(a && b)),
        BinaryOpKind::Or => Ok(ValueModel::Bool(a || b)),
        BinaryOpKind::Xor => Ok(ValueModel::Bool(a != b)),
        BinaryOpKind::Equal => Ok(ValueModel::Bool(a == b)),
        BinaryOpKind::NotEqual => Ok(ValueModel::Bool(a != b)),
        BinaryOpKind::Less => Ok(ValueModel::Bool(!a && b)),
        BinaryOpKind::LessEqual => Ok(ValueModel::Bool(!a || b)),
        BinaryOpKind::Greater => Ok(ValueModel::Bool(a && !b)),
        BinaryOpKind::GreaterEqual => Ok(ValueModel::Bool(a || !b)),
        _ => Err(ErrorModel::Type("operator "@ + op_name(op) + " not defined on bool"@)),
    }
}

/// The semantics of a binary operator on two values: integers of one type, two field elements,
/// or two booleans; a pair of aggregates of one kind is a coverage gap (their comparisons lower
/// to trait-impl calls), and any other pair is ill-typed.
pub open spec fn binary_model(op: BinaryOpKind, lhs: ValueModel, rhs: ValueModel) -> Result<ValueModel, ErrorModel> {
    match (lhs, rhs) {
        (ValueModel::Int(sa, ba, a), ValueModel::Int(sb, bb, b)) => if sa != sb || ba != bb {
            Err(ErrorModel::Type(int_types_mismatch(op, sa, ba, sb, bb)))
        } else {
            int_outcome_model(sa, ba, int_binary_outcome(op, sa, ba as nat, a, b))
        },
        (ValueModel::Field(f, a), ValueModel::Field(_, b)) => field_binary_model(op, f, a, b),
        (ValueModel::Bool(a), ValueModel::Bool(b)) => bool_binary_model(op, a, b),
        (l, r) => if same_shape(l, r) {
            Err(ErrorModel::Unsupported("binary "@ + op_name(op)
                + " on aggregate operands (should lower to a trait-impl call)"@))
        } else {
            Err(ErrorModel::Type("binary operator "@ + op_name(op) + " on mismatched operands "@
                + model_debug(l) + ", "@ + model_debug(r)))
        },
    }
}

/// Operands the interpreter can hand an operator: integers hold values of their own types, and
/// two field elements belong to one field.
pub open spec fn operands_ok(lhs: Value, rhs: Value) -> bool {
    &&& (lhs matches Value::Int(i) ==> i.wf())
    &&& (rhs matches Value::Int(i) ==> i.wf())
    &&& ((lhs is Field && rhs is Field) ==> lhs->Field_0@.0 == rhs->Field_0@.0)
}

/// Apply a binary operator to two values.
pub fn eval_binary(op: BinaryOpKind, lhs: Value, rhs: Value) -> (r: Result<Value, InterpretError>)
    requires
        operands_ok(lhs, rhs),
    ensures
        result_model(r) == binary_model(op, lhs.model(), rhs.model()),
{
    match (lhs, rhs) {
        (Value::Int(a), Value::Int(b)) => {
            let r = eval_int_binary(op, a, b);
            proof {
                if r is Ok {
                    assert(result_model(r) == binary_model(op, lhs.model(), rhs.model()));
                }
            }
            r
        },
        (Value::Field(a), Value::Field(b)) => match op {
            BinaryOpKind::Add => Ok(Value::Field(a.add(&b))),
            BinaryOpKind::Subtract => Ok(Value::Field(a.sub(&b))),
            BinaryOpKind::Multiply => Ok(Value::Field(a.mul(&b))),
            BinaryOpKind::Divide => {
                if b.value().is_zero() {
                    return Err(InterpretError::DivisionByZero);
                }
                Ok(Value::Field(a.div(&b)))
            },
            BinaryOpKind::Equal => Ok(Value::Bool(a.equals(&b))),
            BinaryOpKind::NotEqual => Ok(Value::Bool(!a.equals(&b))),
            _ => Err(InterpretError::Type(owned("ordering/bitwise operators are not defined on Field"))),
        },
        (Value::Bool(a), Value::Bool(b)) => match op {
            BinaryOpKind::And => Ok(Value::Bool(a && b)),
            BinaryOpKind::Or => Ok(Value::Bool(a || b)),
            BinaryOpKind::Xor => Ok(Value::Bool(a != b)),
            BinaryOpKind::Equal => Ok(Value::Bool(a == b)),
            BinaryOpKind::NotEqual => Ok(Value::Bool(a != b)),
            BinaryOpKind::Less => Ok(Value::Bool(!a && b)),
            BinaryOpKind::LessEqual => Ok(Value::Bool(!a || b)),
            BinaryOpKind::Greater => Ok(Value::Bool(a && !b)),
            BinaryOpKind::GreaterEqual => Ok(Value::Bool(a || !b)),
            _ => {
                let mut m = owned("operator ");
                append(&mut m, op.name().as_str());
                append(&mut m, " not defined on bool");
                Err(InterpretError::Type(m))
            },
        },
        (l, r) => {
            if same_aggregate_shape(&l, &r) {
                let mut m = owned("binary ");
                append(&mut m, op.name().as_str());
                append(&mut m, " on aggregate operands (should lower to a trait-impl call)");
                Err(InterpretError::Unsupported(m))
            } else {
                let mut m = owned("binary operator ");
                append(&mut m, op.name().as_str());
                append(&mut m, " on mismatched operands ");
                append(&mut m, l.debug_text().as_str());
                append(&mut m, ", ");
                append(&mut m, r.debug_text().as_str());
                Err(InterpretError::Type(m))
            }
        },
    }
}

/// The comparisons of two integers of one type order them as integers: `<` and `<=` hold
/// exactly when the first is below, or at most, the second, `>` and `>=` are those with the
/// operands swapped, `<=` is the negation of the swapped `<`, every value is `<=` and `>=`
/// itself and never `<` or `>` itself, and `==` and `!=` are equality and its negation.
pub proof fn law_comparisons_order_integers(signed: bool, bits: nat, a: int, b: int)
    ensures
        int_binary_outcome(BinaryOpKind::Less, signed, bits, a, b) == IntOutcome::Bool(a < b),
        int_binary_outcome(BinaryOpKind::LessEqual, signed, bits, a, b) == IntOutcome::Bool(a <= b),
        int_binary_outcome(BinaryOpKind::Greater, signed, bits, a, b) == IntOutcome::Bool(b < a),
        int_binary_outcome(BinaryOpKind::GreaterEqual, signed, bits, a, b) == IntOutcome::Bool(b <= a),
        int_binary_outcome(BinaryOpKind::Equal, signed, bits, a, b) == IntOutcome::Bool(a == b),
        int_binary_outcome(BinaryOpKind::NotEqual, signed, bits, a, b) == IntOutcome::Bool(a != b),
        int_binary_outcome(BinaryOpKind::LessEqual, signed, bits, a, b)
            == IntOutcome::Bool(!(int_binary_outcome(BinaryOpKind::Less, signed, bits, b, a)->Bool_0)),
        int_binary_outcome(BinaryOpKind::GreaterEqual, signed, bits, a, b)
            == int_binary_outcome(BinaryOpKind::LessEqual, signed, bits, b, a),
        int_binary_outcome(BinaryOpKind::Greater, signed, bits, a, b)
            == int_binary_outcome(BinaryOpKind::Less, signed, bits, b, a),
        int_binary_outcome(BinaryOpKind::LessEqual, signed, bits, a, a) == IntOutcome::Bool(true),
        int_binary_outcome(BinaryOpKind::GreaterEqual, signed, bits, a, a) == IntOutcome::Bool(true),
        int_binary_outcome(BinaryOpKind::Less, signed, bits, a, a) == IntOutcome::Bool(false),
        int_binary_outcome(BinaryOpKind::Greater, signed, bits, a, a) == IntOutcome::Bool(false),
        int_binary_outcome(BinaryOpKind::Equal, signed, bits, a, a) == IntOutcome::Bool(true),
{
}

/// Addition, subtraction and multiplication of integers of one type give the exact
/// mathematical result when it lies within the type's range, and overflow, naming the
/// operation, exactly when it does not.
pub proof fn law_checked_arithmetic(signed: bool, bits: nat, a: int, b: int)
    ensures
        int_binary_outcome(BinaryOpKind::Add, signed, bits, a, b) == (if type_min(signed, bits) <= a + b <= type_max(signed, bits) {
            IntOutcome::Int(a + b)
        } else {
            IntOutcome::Overflow("addition"@)
        }),
        int_binary_outcome(BinaryOpKind::Subtract, signed, bits, a, b) == (if type_min(signed, bits) <= a - b <= type_max(signed, bits) {
            IntOutcome::Int(a - b)
        } else {
            IntOutcome::Overflow("subtraction"@)
        }),
        int_binary_outcome(BinaryOpKind::Multiply, signed, bits, a, b) == (if type_min(signed, bits) <= a * b <= type_max(signed, bits) {
            IntOutcome::Int(a * b)
        } else {
            IntOutcome::Overflow("multiplication"@)
        }),
{
}

/// Division and remainder: for operands of one type and a nonzero divisor, other than the signed
/// `MIN / -1`, both succeed, and the quotient times the divisor plus the remainder is the
/// dividend.
pub proof fn law_div_mod_identity(signed: bool, bits: nat, a: int, b: int)
    requires
        valid_type(signed, bits),
        fits(signed, bits, a),
        fits(signed, bits, b),
        b != 0,
        !(signed && a == type_min(signed, bits) && b == -1),
    ensures
        int_binary_outcome(BinaryOpKind::Divide, signed, bits, a, b) matches IntOutcome::Int(q)
            && int_binary_outcome(BinaryOpKind::Modulo, signed, bits, a, b) matches IntOutcome::Int(r)
            && q * b + r == a,
{
    lemma_trunc_div_rem(a, b);
    lemma_pow2_pos(bits);
    if signed {
        lemma_pow2_halves(bits);
    }
    let q = trunc_div(a, b);
    let r = trunc_rem(a, b);
    assert(fits(signed, bits, q));
    assert(fits(signed, bits, r));
    lemma_wrapped_identity(signed, bits, r);
    assert(q * b == b * q) by (nonlinear_arith);
}

/// The signed `MIN / -1` and `MIN % -1` overflow.
pub proof fn law_min_div_mod_neg_one_overflow(bits: nat)
    requires
        bits >= 1,
    ensures
        int_binary_outcome(BinaryOpKind::Divide, true, bits, type_min(true, bits), -1)
            == IntOutcome::Overflow("division"@),
        int_binary_outcome(BinaryOpKind::Modulo, true, bits, type_min(true, bits), -1)
            == IntOutcome::Overflow("modulo"@),
{
    lemma_pow2_halves(bits);
    lemma_trunc_div_rem(type_min(true, bits), -1);
}

/// Division and remainder by zero are division-by-zero errors.
pub proof fn law_div_mod_by_zero(op: BinaryOpKind, signed: bool, bits: nat, a: int)
    requires
        op == BinaryOpKind::Divide || op == BinaryOpKind::Modulo,
    ensures
        int_binary_outcome(op, signed, bits, a, 0) == IntOutcome::DivisionByZero,
{
}

/// Shifting by an amount whose bit pattern is not below the width overflows, in both
/// directions.
pub proof fn law_over_shift_overflows(signed: bool, bits: nat, a: int, b: int)
    requires
        bit_pattern(b, bits) >= bits,
    ensures
        int_binary_outcome(BinaryOpKind::ShiftLeft, signed, bits, a, b) is Overflow,
        int_binary_outcome(BinaryOpKind::ShiftRight, signed, bits, a, b) is Overflow,
{
}

/// An in-range shift: `<<` keeps the low `bits` bits of the shifted bit pattern, and `>>` is
/// the floor of the value divided by `2^amount`.
pub proof fn law_in_range_shifts(signed: bool, bits: nat, a: int, b: int)
    requires
        valid_type(signed, bits),
        bits <= u8::MAX,
        fits(signed, bits, a),
        0 <= bit_pattern(b, bits) < bits,
    ensures
        int_binary_outcome(BinaryOpKind::ShiftLeft, signed, bits, a, b) matches IntOutcome::Int(v)
            && bit_pattern(v, bits) == (bit_pattern(a, bits) * pow2(bit_pattern(b, bits) as nat))
            % (pow2(bits) as int),
        int_binary_outcome(BinaryOpKind::ShiftRight, signed, bits, a, b) == IntOutcome::Int(
            a / (pow2(bit_pattern(b, bits) as nat) as int)),
{
    let n = bit_pattern(b, bits) as nat;
    lemma_wrapped_mod(signed, bits, bit_pattern(a, bits) * pow2(n));
    lemma_pow2_pos(n);
    lemma_pow2_pos(bits);
    if signed {
        lemma_pow2_halves(bits);
    }
    let d = pow2(n) as int;
    let q = a / d;
    vstd::arithmetic::div_mod::lemma_fundamental_div_mod(a, d);
    vstd::arithmetic::div_mod::lemma_mod_bound(a, d);
    if a >= 0 {
        vstd::arithmetic::div_mod::lemma_div_pos_is_pos(a, d);
        vstd::arithmetic::div_mod::lemma_div_nonincreasing(a, d);
    } else {
        assert(a <= q < 0) by (nonlinear_arith)
            requires
                a < 0,
                d >= 1,
                a == d * q + a % d,
                0 <= a % d < d,
        ;
    }
    assert(fits(signed, bits, q));
    lemma_wrapped_identity(signed, bits, q);
}

/// Flipping an integer's signedness at its width and flipping it back gives the value back, and
/// the flip keeps the bit pattern.
pub proof fn law_sign_flip_roundtrip(signed: bool, bits: nat, v: int)
    requires
        bits >= 1,
        fits(signed, bits, v),
    ensures
        wrapped(signed, bits, wrapped(!signed, bits, v)) == v,
        bit_pattern(wrapped(!signed, bits, v), bits) == bit_pattern(v, bits),
{
    let w = wrapped(!signed, bits, v);
    lemma_wrapped_mod(!signed, bits, v);
    lemma_wrapped_mod(signed, bits, v);
    lemma_wrapped_identity(signed, bits, v);
    assert(wrapped(signed, bits, w) == wrapped(signed, bits, v));
}

/// Widening an integer to a wider type keeps its value, and narrowing it back does too.
pub proof fn law_widen_narrow_roundtrip(signed: bool, bits: nat, wider: nat, v: int)
    requires
        bits >= 1,
        bits <= wider,
        fits(signed, bits, v),
    ensures
        wrapped(signed, wider, v) == v,
        wrapped(signed, bits, wrapped(signed, wider, v)) == v,
{
    lemma_pow2_halves(bits);
    lemma_pow2_halves(wider);
    if bits < wider {
        lemma_pow2_strictly_increases(bits, wider);
        lemma_pow2_strictly_increases((bits - 1) as nat, (wider - 1) as nat);
    }
    assert(fits(signed, wider, v));
    lemma_wrapped_identity(signed, wider, v);
    lemma_wrapped_identity(signed, bits, v);
}


/// A unary operator.
#[derive(Clone, Copy, Debug, PartialEq, Eq, Structural)]
pub enum UnaryOp {
    Minus,
    Not,
    Reference { mutable: bool },
    Dereference { implicitly_added: bool },
}

/// The semantics of a unary operator on a value: `-` is checked negation of an integer or the
/// field negation; `!` is boolean negation or the complement of an integer's bit pattern.
/// References are the interpreter's to take, never this function's.
pub open spec fn unary_model(op: UnaryOp, v: ValueModel) -> Result<ValueModel, ErrorModel> {
    match op {
        UnaryOp::Minus => match v {
            ValueModel::Int(s, b, x) => int_outcome_model(s, b, checked_outcome(s, b as nat, -x, "negation"@)),
            ValueModel::Field(f, x) => Ok(ValueModel::Field(f, (-x) % field_modulus(f))),
            _ => Err(ErrorModel::Type("cannot negate "@ + model_debug(v))),
        },
        UnaryOp::Not => match v {
            ValueModel::Bool(b) => Ok(ValueModel::Bool(!b)),
            ValueModel::Int(s, b, x) => Ok(ValueModel::Int(s, b, wrapped(s, b as nat,
                (pow2(b as nat) - 1) - bit_pattern(x, b as nat)))),
            _ => Err(ErrorModel::Type("cannot apply `!` to "@ + model_debug(v))),
        },
        _ => Err(ErrorModel::Internal("reference/dereference reached eval_unary"@)),
    }
}

/// Apply a unary operator to a value.
pub fn eval_unary(op: UnaryOp, rhs: Value) -> (r: Result<Value, InterpretError>)
    requires
        rhs matches Value::Int(i) ==> i.wf(),
    ensures
        result_model(r) == unary_model(op, rhs.model()),
        r matches Ok(Value::Int(i)) ==> i.wf(),
{
    match op {
        UnaryOp::Minus => match rhs {
            Value::Int(i) => {
                let negated = i.value.neg();
                match IntValue::checked(i.signed, i.bits, &negated, "negation") {
                    Ok(v) => {
                        proof {
                            reveal_strlit("negation");
                        }
                        Ok(Value::Int(v))
                    },
                    Err(e) => Err(e),
                }
            },
            Value::Field(f) => Ok(Value::Field(f.neg())),
            other => Err(InterpretError::Type(cat("cannot negate ", other.debug_text().as_str()))),
        },
        UnaryOp::Not => match rhs {
            Value::Bool(b) => Ok(Value::Bool(!b)),
            Value::Int(i) => {
                proof {
                    lemma_pow2_pos(i.bits as nat);
                }
                let mask = BigInt::one().shl(i.bits as usize).sub(&BigInt::one());
                proof {
                    vstd::arithmetic::power2::lemma_pow2(0);
                    vstd::arithmetic::power::lemma_pow0(2);
                }
                let complemented = mask.sub(&i.unsigned_repr());
                Ok(Value::Int(IntValue::canonical(i.signed, i.bits, &complemented)))
            },
            other => Err(InterpretError::Type(cat("cannot apply `!` to ", other.debug_text().as_str()))),
        },
        _ => Err(InterpretError::Internal(owned("reference/dereference reached eval_unary"))),
    }
}

/// The semantics of a cast to `target` in a program compiled under `field`: an unsigned
/// integer's bit pattern or a boolean becomes a field element; a value of any numeric kind is
/// truncated modulo `2^bits` into an integer type; only a boolean casts to bool. A signed
/// integer never casts to `Field`.
pub open spec fn cast_model(field: FieldId, v: ValueModel, target: Type) -> Result<ValueModel, ErrorModel> {
    match target {
        Type::Field => match v {
            ValueModel::Int(s, b, x) => if s {
                Err(ErrorModel::Type("cast of a signed integer to Field (rejected by Noir's type checker)"@))
            } else {
                Ok(ValueModel::Field(field, bit_pattern(x, b as nat) % field_modulus(field)))
            },
            ValueModel::Bool(b) => Ok(ValueModel::Field(field, if b { 1 } else { 0 })),
            ValueModel::Field(f, x) => Ok(ValueModel::Field(f, x)),
            _ => Err(ErrorModel::Type("cannot cast "@ + model_debug(v) + " to Field"@)),
        },
        Type::Integer(sg, bits) => {
            let signed = sg == Signedness::Signed;
            match v {
                ValueModel::Int(_, _, x) => Ok(ValueModel::Int(signed, bits, wrapped(signed, bits as nat, x))),
                ValueModel::Bool(b) => Ok(ValueModel::Int(signed, bits, wrapped(signed, bits as nat, if b { 1 } else { 0 }))),
                ValueModel::Field(_, x) => Ok(ValueModel::Int(signed, bits, wrapped(signed, bits as nat, x))),
                _ => Err(ErrorModel::Type("cannot cast "@ + model_debug(v) + " to an integer"@)),
            }
        },
        Type::Bool => match v {
            ValueModel::Bool(b) => Ok(ValueModel::Bool(b)),
            _ => Err(ErrorModel::Type("cannot cast "@ + model_debug(v) + " to bool (rejected by Noir's type checker)"@)),
        },
        _ => Err(ErrorModel::Unsupported("cast to "@ + type_debug(target))),
    }
}

/// Cast a value to `target` in a program compiled under `field`.
pub fn eval_cast(field: FieldId, value: Value, target: &Type) -> (r: Result<Value, InterpretError>)
    requires
        target matches Type::Integer(s, b) ==> valid_type(s == Signedness::Signed, b as nat),
    ensures
        result_model(r) == cast_model(field, value.model(), *target),
        r matches Ok(Value::Int(i)) ==> i.wf(),
{
    match target {
        Type::Field => match value {
            Value::Int(i) => {
                if i.signed {
                    Err(InterpretError::Type(owned("cast of a signed integer to Field (rejected by Noir's type checker)")))
                } else {
                    Ok(Value::Field(i.to_field(field)))
                }
            },
            Value::Bool(b) => Ok(Value::Field(if b { FieldValue::one(field) } else { FieldValue::zero(field) })),
            Value::Field(f) => Ok(Value::Field(f)),
            other => {
                let mut m = owned("cannot cast ");
                append(&mut m, other.debug_text().as_str());
                append(&mut m, " to Field");
                Err(InterpretError::Type(m))
            },
        },
        Type::Integer(sg, bits) => {
            let signed = *sg == Signedness::Signed;
            let raw = match value {
                Value::Int(i) => i.value,
                Value::Bool(b) => if b { BigInt::one() } else { BigInt::zero() },
                Value::Field(f) => f.value(),
                other => {
                    let mut m = owned("cannot cast ");
                    append(&mut m, other.debug_text().as_str());
                    append(&mut m, " to an integer");
                    return Err(InterpretError::Type(m));
                },
            };
            Ok(Value::Int(IntValue::canonical(signed, *bits, &raw)))
        },
        Type::Bool => match value {
            Value::Bool(b) => Ok(Value::Bool(b)),
            other => {
                let mut m = owned("cannot cast ");
                append(&mut m, other.debug_text().as_str());
                append(&mut m, " to bool (rejected by Noir's type checker)");
                Err(InterpretError::Type(m))
            },
        },
        other => Err(InterpretError::Unsupported(cat("cast to ", other.debug_text().as_str()))),
    }
}

/// Whether a value holds a field element anywhere.
pub open spec fn holds_field(m: ValueModel) -> bool
    decreases m,
{
    match m {
        ValueModel::Field(_, _) => true,
        ValueModel::Array(xs) => exists|i: int| 0 <= i < xs.len() && holds_field(#[trigger] xs[i]),
        ValueModel::Tuple(xs) => exists|i: int| 0 <= i < xs.len() && holds_field(#[trigger] xs[i]),
        _ => false,
    }
}

/// Whether a value holds a field element anywhere.
pub fn contains_field(value: &Value) -> (r: bool)
    ensures
        r == holds_field(value.model()),
    decreases value,
{
    match value {
        Value::Field(_) => true,
        Value::Array(vs) => any_contains_field(vs, value),
        Value::Tuple(vs) => any_contains_field(vs, value),
        _ => false,
    }
}

fn any_contains_field(vs: &Vec<Value>, whole: &Value) -> (r: bool)
    requires
        *whole == Value::Array(*vs) || *whole == Value::Tuple(*vs),
    ensures
        r == holds_field(whole.model()),
    decreases vs,
{
    let mut i: usize = 0;
    while i < vs.len()
        invariant
            i <= vs.len(),
            *whole == Value::Array(*vs) || *whole == Value::Tuple(*vs),
            forall|j: int| 0 <= j < i ==> !holds_field(#[trigger] vs@[j].model()),
        decreases vs.len() - i,
    {
        if contains_field(&vs[i]) {
            proof {
                let xs = if whole is Array { whole.model()->Array_0 } else { whole.model()->Tuple_0 };
                assert(xs[i as int] == vs@[i as int].model());
            }
            return true;
        }
        i = i + 1;
    }
    proof {
        let xs = if whole is Array { whole.model()->Array_0 } else { whole.model()->Tuple_0 };
        assert forall|j: int| 0 <= j < xs.len() implies !holds_field(#[trigger] xs[j]) by {
            assert(xs[j] == vs@[j].model());
        }
    }
    false
}

/// The failure of an index past the end of an array.
pub fn index_out_of_bounds(location: Location, index: usize, len: usize) -> (r: InterpretError)
    ensures
        r matches InterpretError::AssertionFailed { location: l, message: Some(m) } && l == location
            && m@ == "Index out of bounds, array has size "@ + nat_decimal(len as nat) + ", but index was "@
            + nat_decimal(index as nat),
{
    let mut m = owned("Index out of bounds, array has size ");
    append(&mut m, u64_decimal(len as u64).as_str());
    append(&mut m, ", but index was ");
    append(&mut m, u64_decimal(index as u64).as_str());
    InterpretError::AssertionFailed { location, message: Some(m) }
}

/// A signed literal as an element of `field`: a negative value maps to the modulus minus its
/// magnitude.
pub fn bigint_to_field(field: FieldId, value: &BigInt) -> (r: FieldValue)
    ensures
        r@ == (field, value@ % field_modulus(field)),
{
    FieldValue::reduce(field, value)
}


/// The pattern a match case tests.
#[derive(Debug, PartialEq)]
pub enum Constructor {
    True,
    False,
    Unit,
    /// An integer or field literal.
    Int(BigInt),
    /// The sole case of a tuple match, with the names of its element types.
    Tuple(Vec<String>),
    /// A struct's sole case, or an enum variant by index, with the name of its type.
    Variant { name: String, enum_type: bool, index: usize },
    Range(BigInt, BigInt),
}

/// Whether `scrutinee` satisfies the pattern: the tag is the value itself for int, bool and
/// field leaves, and the `Field` at tuple index 0 for an enum.
pub open spec fn case_match_model(c: Constructor, v: ValueModel) -> Result<bool, ErrorModel> {
    match c {
        Constructor::Unit | Constructor::Tuple(_) => Ok(true),
        Constructor::Variant { enum_type, index, .. } => if !enum_type {
            Ok(true)
        } else {
            match v {
                ValueModel::Tuple(xs) => if xs.len() == 0 {
                    Err(ErrorModel::Type("enum value missing its Field tag"@))
                } else {
                    match xs[0] {
                        ValueModel::Field(_, tag) => Ok(tag == index),
                        _ => Err(ErrorModel::Type("enum tag is not a Field"@)),
                    }
                },
                _ => Err(ErrorModel::Type("match on non-enum value "@ + model_debug(v))),
            }
        },
        Constructor::True => match v {
            ValueModel::Bool(b) => Ok(b),
            _ => Err(ErrorModel::Type("expected bool, got "@ + model_debug(v))),
        },
        Constructor::False => match v {
            ValueModel::Bool(b) => Ok(!b),
            _ => Err(ErrorModel::Type("expected bool, got "@ + model_debug(v))),
        },
        Constructor::Int(want) => match v {
            ValueModel::Field(f, x) => Ok(x == want@ % field_modulus(f)),
            ValueModel::Int(_, _, x) => Ok(x == want@),
            _ => Err(ErrorModel::Type("expected integer, got "@ + model_debug(v))),
        },
        Constructor::Range(_, _) => Err(ErrorModel::Unsupported("match range pattern"@)),
    }
}

/// Whether a result denotes the boolean or the error of `s`.
pub open spec fn bool_agrees(r: Result<bool, InterpretError>, s: Result<bool, ErrorModel>) -> bool {
    match s {
        Ok(b) => r == Ok::<bool, InterpretError>(b),
        Err(e) => r matches Err(x) && x.model() == e,
    }
}

/// Whether `scrutinee` satisfies `constructor`.
pub fn case_matches(constructor: &Constructor, scrutinee: &Value) -> (r: Result<bool, InterpretError>)
    ensures
        bool_agrees(r, case_match_model(*constructor, scrutinee.model())),
{
    match constructor {
        Constructor::Unit => Ok(true),
        Constructor::Tuple(_) => Ok(true),
        Constructor::Variant { enum_type, index, .. } => {
            if !*enum_type {
                return Ok(true);
            }
            let fields = match scrutinee {
                Value::Tuple(fields) => fields,
                _ => return Err(InterpretError::Type(cat("match on non-enum value ", scrutinee.debug_text().as_str()))),
            };
            if fields.len() == 0 {
                return Err(InterpretError::Type(owned("enum value missing its Field tag")));
            }
            proof {
                assert(scrutinee.model()->Tuple_0[0] == fields@[0].model());
            }
            match &fields[0] {
                Value::Field(tag) => {
                    let want = BigInt::from_u128(*index as u128);
                    Ok(tag.value().equals(&want))
                },
                _ => Err(InterpretError::Type(owned("enum tag is not a Field"))),
            }
        },
        Constructor::True => scrutinee.as_bool(),
        Constructor::False => match scrutinee.as_bool() {
            Ok(b) => Ok(!b),
            Err(e) => Err(e),
        },
        Constructor::Int(want) => match scrutinee {
            Value::Field(f) => Ok(f.equals(&bigint_to_field(f.field(), want))),
            _ => match scrutinee.as_int() {
                Ok(i) => Ok(i.value.equals(want)),
                Err(e) => Err(e),
            },
        },
        Constructor::Range(..) => Err(InterpretError::Unsupported(owned("match range pattern"))),
    }
}

/// The values a matched case binds to its `arguments` argument locals, in order: the fields of a
/// tuple or struct scrutinee, or the payload of the enum variant (the tuple after the tag's
/// position), each copied so a bound variable never aliases the scrutinee.
pub open spec fn case_arguments_model(c: Constructor, arguments: nat, v: ValueModel) -> Result<Seq<ValueModel>, ErrorModel> {
    if arguments == 0 {
        Ok(Seq::empty())
    } else {
        let payload: Result<Seq<ValueModel>, ErrorModel> = match c {
            Constructor::Variant { enum_type: true, index, .. } => match v {
                ValueModel::Tuple(variants) => if index + 1 < variants.len() && variants[index + 1] is Tuple {
                    Ok(variants[index + 1]->Tuple_0)
                } else {
                    Err(ErrorModel::Type("enum variant payload missing"@))
                },
                _ => Err(ErrorModel::Type("enum scrutinee is not a tuple"@)),
            },
            _ => match v {
                ValueModel::Tuple(fields) => Ok(fields),
                _ => Err(ErrorModel::Type("tuple/struct scrutinee is not a tuple"@)),
            },
        };
        match payload {
            Ok(fields) => if fields.len() != arguments {
                Err(ErrorModel::Internal("match arity mismatch: "@ + nat_decimal(fields.len()) + " payload vs "@
                    + nat_decimal(arguments) + " bindings"@))
            } else {
                Ok(fields)
            },
            Err(e) => Err(e),
        }
    }
}

/// The values a matched case with `arguments` argument locals binds, in order.
pub fn bind_case_arguments(constructor: &Constructor, arguments: usize, scrutinee: &Value) -> (r: Result<Vec<Value>, InterpretError>)
    ensures
        match case_arguments_model(*constructor, arguments as nat, scrutinee.model()) {
            Ok(ms) => r matches Ok(vs) && vs@.len() == ms.len() && forall|i: int| 0 <= i < ms.len() ==> #[trigger] vs@[i].model() == ms[i],
            Err(e) => r matches Err(x) && x.model() == e,
        },
{
    if arguments == 0 {
        return Ok(Vec::new());
    }
    let fields: &Vec<Value> = match constructor {
        Constructor::Variant { enum_type: true, index, .. } => {
            let variants = match scrutinee {
                Value::Tuple(variants) => variants,
                _ => return Err(InterpretError::Type(owned("enum scrutinee is not a tuple"))),
            };
            if variants.len() == 0 || *index >= variants.len() - 1 {
                return Err(InterpretError::Type(owned("enum variant payload missing")));
            }
            match &variants[*index + 1] {
                Value::Tuple(fields) => {
                    proof {
                        assert(scrutinee.model()->Tuple_0[*index + 1] == variants@[*index + 1].model());
                    }
                    fields
                },
                _ => {
                    proof {
                        assert(scrutinee.model()->Tuple_0[*index + 1] == variants@[*index + 1].model());
                    }
                    return Err(InterpretError::Type(owned("enum variant payload missing")));
                },
            }
        },
        _ => match scrutinee {
            Value::Tuple(fields) => fields,
            _ => return Err(InterpretError::Type(owned("tuple/struct scrutinee is not a tuple"))),
        },
    };
    if fields.len() != arguments {
        let mut m = owned("match arity mismatch: ");
        append(&mut m, u64_decimal(fields.len() as u64).as_str());
        append(&mut m, " payload vs ");
        append(&mut m, u64_decimal(arguments as u64).as_str());
        append(&mut m, " bindings");
        return Err(InterpretError::Internal(m));
    }
    Ok(crate::value::duplicate_all(fields))
}

} // verus!
