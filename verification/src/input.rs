//! Bridging a program's inputs, as its ABI describes and encodes them, into interpreter values,
//! and checking caller-built inputs.
//!
//! Each scalar leaf arrives as the ABI's scalar codec encoded it for the leaf's ABI type and the
//! program's field: the element, or the codec's refusal. The ABI type supplies the struct field
//! order that the lowered tuple type of the program loses.

use vstd::prelude::*;
use vstd::string::StringExecFns;

use crate::bigint::{int_decimal, nat_decimal, u64_decimal, BigInt};
use crate::error::{ErrorModel, InterpretError};
use crate::field::{field_modulus, field_name, FieldId, FieldValue};
use crate::text::{append, cat, debug_quoted, owned, quote_debug};
use crate::types::{type_debug, Signedness, Type};
use crate::value::{fits, lemma_value_models, result_model, value_models, wrapped, IntValue, Value, ValueModel};

verus! {

broadcast use vstd::string::group_string_axioms;

/// Whether an ABI integer is signed.
#[derive(Clone, Copy, Debug, PartialEq, Eq, Structural)]
pub enum AbiSign {
    Unsigned,
    Signed,
}

/// How a program's ABI describes a value.
#[derive(Debug, PartialEq)]
pub enum AbiType {
    Field,
    Array { length: u32, typ: Box<AbiType> },
    Integer { sign: AbiSign, width: u32 },
    Boolean,
    Struct { path: String, fields: Vec<(String, AbiType)> },
    String { length: u32 },
    Tuple { fields: Vec<AbiType> },
}

/// An input value as the ABI reads it.
#[derive(Debug, PartialEq)]
pub enum InputValue {
    /// A scalar: the element the ABI's scalar codec encoded, or its refusal.
    Field(Result<BigInt, String>),
    String(String),
    Vec(Vec<InputValue>),
    /// A struct's fields by name.
    Struct(Vec<(String, InputValue)>),
}

/// The `Debug` rendering of an ABI type.
pub open spec fn abi_debug(t: AbiType) -> Seq<char>
    decreases t, 0nat,
{
    match t {
        AbiType::Field => "Field"@,
        AbiType::Array { length, typ } => "Array { length: "@ + nat_decimal(length as nat) + ", typ: "@ + abi_debug(*typ)
            + " }"@,
        AbiType::Integer { sign, width } => "Integer { sign: "@ + (if sign == AbiSign::Signed {
            "Signed"@
        } else {
            "Unsigned"@
        }) + ", width: "@ + nat_decimal(width as nat) + " }"@,
        AbiType::Boolean => "Boolean"@,
        AbiType::Struct { path, fields } => "Struct { path: "@ + debug_quoted(path@) + ", fields: ["@
            + abi_fields_debug(fields@, fields@.len()) + "] }"@,
        AbiType::String { length } => "String { length: "@ + nat_decimal(length as nat) + " }"@,
        AbiType::Tuple { fields } => "Tuple { fields: ["@ + abi_list_debug(fields@, fields@.len()) + "] }"@,
    }
}

/// The `Debug` renderings of the first `n` ABI types, separated by `, `.
pub open spec fn abi_list_debug(ts: Seq<AbiType>, n: nat) -> Seq<char>
    decreases ts, n,
{
    if n == 0 || n > ts.len() {
        Seq::empty()
    } else if n == 1 {
        abi_debug(ts[0])
    } else {
        abi_list_debug(ts, (n - 1) as nat) + ", "@ + abi_debug(ts[n - 1])
    }
}

/// The `Debug` renderings of the first `n` named fields: `("x", Field)`.
pub open spec fn abi_fields_debug(fs: Seq<(String, AbiType)>, n: nat) -> Seq<char>
    decreases fs, n,
{
    if n == 0 || n > fs.len() {
        Seq::empty()
    } else {
        let item = "("@ + debug_quoted(fs[n - 1].0@) + ", "@ + abi_debug(fs[n - 1].1) + ")"@;
        if n == 1 {
            item
        } else {
            abi_fields_debug(fs, (n - 1) as nat) + ", "@ + item
        }
    }
}

/// The `Debug` rendering of an input value.
pub open spec fn input_debug(v: InputValue) -> Seq<char>
    decreases v, 0nat,
{
    match v {
        InputValue::Field(Ok(x)) => "Field("@ + int_decimal(x@) + ")"@,
        InputValue::Field(Err(e)) => "Field(Err("@ + debug_quoted(e@) + "))"@,
        InputValue::String(s) => "String("@ + debug_quoted(s@) + ")"@,
        InputValue::Vec(vs) => "Vec(["@ + input_list_debug(vs@, vs@.len()) + "])"@,
        InputValue::Struct(fs) => "Struct({"@ + input_fields_debug(fs@, fs@.len()) + "})"@,
    }
}

/// The `Debug` renderings of the first `n` input values, separated by `, `.
pub open spec fn input_list_debug(vs: Seq<InputValue>, n: nat) -> Seq<char>
    decreases vs, n,
{
    if n == 0 || n > vs.len() {
        Seq::empty()
    } else if n == 1 {
        input_debug(vs[0])
    } else {
        input_list_debug(vs, (n - 1) as nat) + ", "@ + input_debug(vs[n - 1])
    }
}

/// The `Debug` renderings of the first `n` named input fields: `"x": Field(1)`.
pub open spec fn input_fields_debug(fs: Seq<(String, InputValue)>, n: nat) -> Seq<char>
    decreases fs, n,
{
    if n == 0 || n > fs.len() {
        Seq::empty()
    } else {
        let item = debug_quoted(fs[n - 1].0@) + ": "@ + input_debug(fs[n - 1].1);
        if n == 1 {
            item
        } else {
            input_fields_debug(fs, (n - 1) as nat) + ", "@ + item
        }
    }
}

impl AbiType {
    /// The `Debug` rendering of this ABI type, as error messages show it.
    pub fn debug_text(&self) -> (r: String)
        ensures
            r@ == abi_debug(*self),
        decreases self,
    {
        match self {
            AbiType::Field => owned("Field"),
            AbiType::Array { length, typ } => {
                let mut s = owned("Array { length: ");
                append(&mut s, u64_decimal(*length as u64).as_str());
                append(&mut s, ", typ: ");
                append(&mut s, typ.debug_text().as_str());
                append(&mut s, " }");
                s
            },
            AbiType::Integer { sign, width } => {
                let mut s = owned("Integer { sign: ");
                append(&mut s, if *sign == AbiSign::Signed { "Signed" } else { "Unsigned" });
                append(&mut s, ", width: ");
                append(&mut s, u64_decimal(*width as u64).as_str());
                append(&mut s, " }");
                s
            },
            AbiType::Boolean => owned("Boolean"),
            AbiType::Struct { path, fields } => {
                let mut s = owned("Struct { path: ");
                append(&mut s, quote_debug(path.as_str()).as_str());
                append(&mut s, ", fields: [");
                append(&mut s, abi_fields_text(fields).as_str());
                append(&mut s, "] }");
                s
            },
            AbiType::String { length } => {
                let mut s = owned("String { length: ");
                append(&mut s, u64_decimal(*length as u64).as_str());
                append(&mut s, " }");
                s
            },
            AbiType::Tuple { fields } => {
                let mut s = owned("Tuple { fields: [");
                append(&mut s, abi_list_text(fields).as_str());
                append(&mut s, "] }");
                s
            },
        }
    }
}

fn abi_fields_text(fields: &Vec<(String, AbiType)>) -> (r: String)
    ensures
        r@ == abi_fields_debug(fields@, fields@.len()),
    decreases fields,
{
    let mut s = String::new();
    let mut i: usize = 0;
    while i < fields.len()
        invariant
            i <= fields@.len(),
            s@ == abi_fields_debug(fields@, i as nat),
        decreases fields@.len() - i,
    {
        if i > 0 {
            append(&mut s, ", ");
        }
        append(&mut s, "(");
        append(&mut s, quote_debug(fields[i].0.as_str()).as_str());
        append(&mut s, ", ");
        append(&mut s, fields[i].1.debug_text().as_str());
        append(&mut s, ")");
        i = i + 1;
    }
    s
}

fn abi_list_text(fields: &Vec<AbiType>) -> (r: String)
    ensures
        r@ == abi_list_debug(fields@, fields@.len()),
    decreases fields,
{
    let mut s = String::new();
    let mut i: usize = 0;
    while i < fields.len()
        invariant
            i <= fields@.len(),
            s@ == abi_list_debug(fields@, i as nat),
        decreases fields@.len() - i,
    {
        if i > 0 {
            append(&mut s, ", ");
        }
        append(&mut s, fields[i].debug_text().as_str());
        i = i + 1;
    }
    s
}

impl InputValue {
    /// The `Debug` rendering of this input value, as error messages show it.
    #[verifier::loop_isolation(false)]
    pub fn debug_text(&self) -> (r: String)
        ensures
            r@ == input_debug(*self),
        decreases self,
    {
        match self {
            InputValue::Field(Ok(x)) => {
                let mut s = owned("Field(");
                append(&mut s, x.to_decimal().as_str());
                append(&mut s, ")");
                s
            },
            InputValue::Field(Err(e)) => {
                let mut s = owned("Field(Err(");
                append(&mut s, quote_debug(e.as_str()).as_str());
                append(&mut s, "))");
                s
            },
            InputValue::String(v) => {
                let mut s = owned("String(");
                append(&mut s, quote_debug(v.as_str()).as_str());
                append(&mut s, ")");
                s
            },
            InputValue::Vec(vs) => {
                let mut s = owned("Vec([");
                let mut i: usize = 0;
                let ghost start = s@;
                while i < vs.len()
                    invariant
                        i <= vs@.len(),
                        s@ == start + input_list_debug(vs@, i as nat),
                    decreases vs@.len() - i,
                {
                    if i > 0 {
                        append(&mut s, ", ");
                    }
                    append(&mut s, vs[i].debug_text().as_str());
                    i = i + 1;
                }
                append(&mut s, "])");
                s
            },
            InputValue::Struct(fs) => {
                let mut s = owned("Struct({");
                let mut i: usize = 0;
                let ghost start = s@;
                while i < fs.len()
                    invariant
                        i <= fs@.len(),
                        s@ == start + input_fields_debug(fs@, i as nat),
                    decreases fs@.len() - i,
                {
                    if i > 0 {
                        append(&mut s, ", ");
                    }
                    append(&mut s, quote_debug(fs[i].0.as_str()).as_str());
                    append(&mut s, ": ");
                    append(&mut s, fs[i].1.debug_text().as_str());
                    i = i + 1;
                }
                append(&mut s, "})");
                s
            },
        }
    }
}


/// Whether every signed integer type in a type has a bit for its sign.
pub open spec fn widths_ok(t: Type) -> bool
    decreases t,
{
    match t {
        Type::Integer(s, b) => s == Signedness::Signed ==> b >= 1,
        Type::Array(_, e) => widths_ok(*e),
        Type::FmtString(_, e) => widths_ok(*e),
        Type::Vector(e) => widths_ok(*e),
        Type::Reference(e, _) => widths_ok(*e),
        Type::Tuple(ts) => forall|i: int| 0 <= i < ts@.len() ==> widths_ok(#[trigger] ts@[i]),
        Type::Function(args, ret, env, _) => (forall|i: int| 0 <= i < args@.len() ==> widths_ok(#[trigger] args@[i]))
            && widths_ok(*ret) && widths_ok(*env),
        _ => true,
    }
}

/// Whether every signed integer type in a type has a bit for its sign.
pub fn widths_valid(t: &Type) -> (r: bool)
    ensures
        r == widths_ok(*t),
    decreases t,
{
    match t {
        Type::Integer(s, b) => !(*s == Signedness::Signed && *b == 0),
        Type::Array(_, e) => widths_valid(e),
        Type::FmtString(_, e) => widths_valid(e),
        Type::Vector(e) => widths_valid(e),
        Type::Reference(e, _) => widths_valid(e),
        Type::Tuple(ts) => all_widths_valid(ts),
        Type::Function(args, ret, env, _) => all_widths_valid(args) && widths_valid(ret) && widths_valid(env),
        _ => true,
    }
}

/// Whether every type of `ts` passes [`widths_valid`].
fn all_widths_valid(ts: &Vec<Type>) -> (r: bool)
    ensures
        r == (forall|i: int| 0 <= i < ts@.len() ==> widths_ok(#[trigger] ts@[i])),
    decreases ts,
{
    let mut i: usize = 0;
    while i < ts.len()
        invariant
            i <= ts@.len(),
            forall|j: int| 0 <= j < i ==> widths_ok(#[trigger] ts@[j]),
        decreases ts@.len() - i,
    {
        proof {
            assert(decreases_to!(*ts => ts@));
            assert(decreases_to!(ts@ => ts@[i as int]));
        }
        if !widths_valid(&ts[i]) {
            return false;
        }
        i = i + 1;
    }
    true
}

/// Whether the ABI describes the scalar type the program declares.
pub open spec fn scalar_matches(abi: AbiType, typ: Type) -> bool {
    match (abi, typ) {
        (AbiType::Field, Type::Field) => true,
        (AbiType::Boolean, Type::Bool) => true,
        (AbiType::Integer { sign, width }, Type::Integer(s, b)) => (sign == AbiSign::Signed) == (s == Signedness::Signed)
            && width == b as u32,
        _ => false,
    }
}

/// Whether the ABI describes the scalar `typ` the program declares. Both come from one
/// compilation, so a mismatch is an internal error.
pub fn scalar_abi_matches(abi_type: &AbiType, typ: &Type) -> (r: bool)
    ensures
        r == scalar_matches(*abi_type, *typ),
{
    match (abi_type, typ) {
        (AbiType::Field, Type::Field) => true,
        (AbiType::Boolean, Type::Bool) => true,
        (AbiType::Integer { sign, width }, Type::Integer(s, b)) => (*sign == AbiSign::Signed) == (*s
            == Signedness::Signed) && *width == *b as u32,
        _ => false,
    }
}

/// The position of the first field named `name`.
pub open spec fn field_position(map: Seq<(String, InputValue)>, name: Seq<char>, i: nat) -> Option<nat>
    decreases map.len() - i,
{
    if i >= map.len() {
        None
    } else if map[i as int].0@ == name {
        Some(i)
    } else {
        field_position(map, name, i + 1)
    }
}

/// The value an input denotes for a parameter of type `typ` in a program compiled under
/// `field`: a scalar's encoded element as a field element, an integer (its two's-complement
/// pattern read at the type's width) or a boolean; arrays, tuples and structs element by
/// element, a struct's fields in the ABI's order. ABI shapes that disagree with the type are
/// internal errors; an input of the wrong shape or size is invalid input.
pub open spec fn input_model(input: InputValue, abi: AbiType, typ: Type, field: FieldId) -> Result<ValueModel, ErrorModel>
    decreases input, 0nat,
{
    let unsupported = Err(ErrorModel::Unsupported("input value "@ + input_debug(input) + " for parameter type "@
        + type_debug(typ)));
    match input {
        InputValue::Field(enc) => if typ is Field || typ is Integer || typ is Bool {
            if !scalar_matches(abi, typ) {
                Err(ErrorModel::Internal("ABI type "@ + abi_debug(abi) + " does not describe "@ + type_debug(typ)))
            } else {
                match enc {
                    Err(e) => Err(ErrorModel::InvalidInput("input does not fit "@ + abi_debug(abi) + ": "@ + e@)),
                    Ok(x) => match typ {
                        Type::Integer(s, b) => Ok(ValueModel::Int(s == Signedness::Signed, b,
                            wrapped(s == Signedness::Signed, b as nat, x@))),
                        Type::Bool => Ok(ValueModel::Bool(x@ == 1)),
                        _ => if 0 <= x@ < field_modulus(field) {
                            Ok(ValueModel::Field(field, x@))
                        } else {
                            Err(ErrorModel::Internal("an encoded element is not below its modulus"@))
                        },
                    },
                }
            }
        } else {
            unsupported
        },
        InputValue::Vec(es) => match typ {
            Type::Array(length, et) => match abi {
                AbiType::Array { length: al, typ: eabi } => if al != length {
                    Err(ErrorModel::Internal("array ABI length is "@ + nat_decimal(al as nat) + ", type expects "@
                        + nat_decimal(length as nat)))
                } else if es@.len() != length {
                    Err(ErrorModel::InvalidInput("array input has "@ + nat_decimal(es@.len()) + " elements, type expects "@
                        + nat_decimal(length as nat)))
                } else {
                    match inputs_alike(es@, *eabi, *et, field, 0) {
                        Ok(vs) => Ok(ValueModel::Array(vs)),
                        Err(e) => Err(e),
                    }
                },
                _ => Err(ErrorModel::Internal("ABI type "@ + abi_debug(abi) + " is not an array"@)),
            },
            Type::Tuple(ts) => match abi {
                AbiType::Tuple { fields } => if fields@.len() != ts@.len() {
                    Err(ErrorModel::Internal("tuple ABI has "@ + nat_decimal(fields@.len()) + " fields, type expects "@
                        + nat_decimal(ts@.len())))
                } else if es@.len() != ts@.len() {
                    Err(ErrorModel::InvalidInput("tuple input has "@ + nat_decimal(es@.len()) + " elements, type expects "@
                        + nat_decimal(ts@.len())))
                } else {
                    match inputs_each(es@, fields@, ts@, field, 0) {
                        Ok(vs) => Ok(ValueModel::Tuple(vs)),
                        Err(e) => Err(e),
                    }
                },
                _ => Err(ErrorModel::Internal("ABI type "@ + abi_debug(abi) + " is not a tuple"@)),
            },
            _ => unsupported,
        },
        InputValue::Struct(map) => match typ {
            Type::Tuple(ts) => match abi {
                AbiType::Struct { fields, .. } => if fields@.len() != ts@.len() {
                    Err(ErrorModel::Internal("struct ABI has "@ + nat_decimal(fields@.len()) + " fields, type expects "@
                        + nat_decimal(ts@.len())))
                } else {
                    match inputs_named(map@, fields@, ts@, field, 0) {
                        Ok(vs) => Ok(ValueModel::Tuple(vs)),
                        Err(e) => Err(e),
                    }
                },
                _ => Err(ErrorModel::Internal("ABI type "@ + abi_debug(abi) + " is not a struct"@)),
            },
            _ => unsupported,
        },
        InputValue::String(s) => if typ is String {
            Ok(ValueModel::Str(s@))
        } else {
            unsupported
        },
    }
}

/// The values of the inputs `es` from `i` on, all of one ABI type and type.
pub open spec fn inputs_alike(es: Seq<InputValue>, abi: AbiType, typ: Type, field: FieldId, i: nat) -> Result<Seq<ValueModel>, ErrorModel>
    decreases es, es.len() - i,
{
    if i >= es.len() {
        Ok(Seq::empty())
    } else {
        match input_model(es[i as int], abi, typ, field) {
            Ok(v) => match inputs_alike(es, abi, typ, field, i + 1) {
                Ok(rest) => Ok(seq![v] + rest),
                Err(e) => Err(e),
            },
            Err(e) => Err(e),
        }
    }
}

/// The values of the inputs `es` from `i` on, each of its own ABI type and type.
pub open spec fn inputs_each(es: Seq<InputValue>, abis: Seq<AbiType>, ts: Seq<Type>, field: FieldId, i: nat) -> Result<Seq<ValueModel>, ErrorModel>
    decreases es, es.len() - i,
{
    if i >= es.len() || i >= abis.len() || i >= ts.len() {
        Ok(Seq::empty())
    } else {
        match input_model(es[i as int], abis[i as int], ts[i as int], field) {
            Ok(v) => match inputs_each(es, abis, ts, field, i + 1) {
                Ok(rest) => Ok(seq![v] + rest),
                Err(e) => Err(e),
            },
            Err(e) => Err(e),
        }
    }
}

/// The values of a struct's fields from `i` on, in the ABI's order, each looked up by name.
pub open spec fn inputs_named(map: Seq<(String, InputValue)>, fields: Seq<(String, AbiType)>, ts: Seq<Type>, field: FieldId, i: nat) -> Result<Seq<ValueModel>, ErrorModel>
    decreases map, fields.len() - i,
{
    if i >= fields.len() || i >= ts.len() {
        Ok(Seq::empty())
    } else {
        match field_position(map, fields[i as int].0@, 0) {
            None => Err(ErrorModel::Internal("ABI struct has no field '"@ + fields[i as int].0@ + "'"@)),
            Some(k) => if k < map.len() {
                match input_model(map[k as int].1, fields[i as int].1, ts[i as int], field) {
                    Ok(v) => match inputs_named(map, fields, ts, field, i + 1) {
                        Ok(rest) => Ok(seq![v] + rest),
                        Err(e) => Err(e),
                    },
                    Err(e) => Err(e),
                }
            } else {
                Err(ErrorModel::Internal("ABI struct has no field '"@ + fields[i as int].0@ + "'"@))
            },
        }
    }
}


/// Whether `r` is the list of values or the error `s` describes.
pub open spec fn values_agree(r: Result<Vec<Value>, InterpretError>, s: Result<Seq<ValueModel>, ErrorModel>) -> bool {
    match s {
        Ok(ms) => r matches Ok(vs) && value_models(vs@) == ms,
        Err(e) => r matches Err(x) && x.model() == e,
    }
}

/// Map one input, as the ABI reads and encodes it, onto a program type, producing a value.
pub fn value_from_input(input: &InputValue, abi_type: &AbiType, typ: &Type, field: FieldId) -> (r: Result<Value, InterpretError>)
    requires
        widths_ok(*typ),
    ensures
        result_model(r) == input_model(*input, *abi_type, *typ, field),
    decreases input, 1nat,
{
    match input {
        InputValue::Field(enc) => {
            match typ {
                Type::Field | Type::Integer(..) | Type::Bool => {},
                _ => return Err(unsupported_input(input, typ)),
            }
            if !scalar_abi_matches(abi_type, typ) {
                let mut m = owned("ABI type ");
                append(&mut m, abi_type.debug_text().as_str());
                append(&mut m, " does not describe ");
                append(&mut m, typ.debug_text().as_str());
                return Err(InterpretError::Internal(m));
            }
            let x = match enc {
                Ok(x) => x,
                Err(e) => {
                    let mut m = owned("input does not fit ");
                    append(&mut m, abi_type.debug_text().as_str());
                    append(&mut m, ": ");
                    append(&mut m, e.as_str());
                    return Err(InterpretError::InvalidInput(m));
                },
            };
            match typ {
                Type::Integer(s, b) => Ok(Value::Int(IntValue::canonical(*s == Signedness::Signed, *b, x))),
                Type::Bool => Ok(Value::Bool(x.equals(&BigInt::one()))),
                _ => match FieldValue::try_from_bigint(field, x) {
                    Some(f) => Ok(Value::Field(f)),
                    None => Err(InterpretError::Internal(owned("an encoded element is not below its modulus"))),
                },
            }
        },
        InputValue::Vec(es) => match typ {
            Type::Array(length, et) => match abi_type {
                AbiType::Array { length: al, typ: eabi } => {
                    if *al != *length {
                        let mut m = owned("array ABI length is ");
                        append(&mut m, u64_decimal(*al as u64).as_str());
                        append(&mut m, ", type expects ");
                        append(&mut m, u64_decimal(*length as u64).as_str());
                        return Err(InterpretError::Internal(m));
                    }
                    if es.len() != *length as usize {
                        let mut m = owned("array input has ");
                        append(&mut m, u64_decimal(es.len() as u64).as_str());
                        append(&mut m, " elements, type expects ");
                        append(&mut m, u64_decimal(*length as u64).as_str());
                        return Err(InterpretError::InvalidInput(m));
                    }
                    match values_alike(es, eabi, et, field) {
                        Ok(vs) => {
                            let r = Value::Array(vs);
                            proof {
                                lemma_value_models(r);
                            }
                            Ok(r)
                        },
                        Err(e) => Err(e),
                    }
                },
                _ => Err(InterpretError::Internal(cat(cat("ABI type ", abi_type.debug_text().as_str()).as_str(), " is not an array"))),
            },
            Type::Tuple(ts) => match abi_type {
                AbiType::Tuple { fields } => {
                    if fields.len() != ts.len() {
                        let mut m = owned("tuple ABI has ");
                        append(&mut m, u64_decimal(fields.len() as u64).as_str());
                        append(&mut m, " fields, type expects ");
                        append(&mut m, u64_decimal(ts.len() as u64).as_str());
                        return Err(InterpretError::Internal(m));
                    }
                    if es.len() != ts.len() {
                        let mut m = owned("tuple input has ");
                        append(&mut m, u64_decimal(es.len() as u64).as_str());
                        append(&mut m, " elements, type expects ");
                        append(&mut m, u64_decimal(ts.len() as u64).as_str());
                        return Err(InterpretError::InvalidInput(m));
                    }
                    match values_each(es, fields, ts, field) {
                        Ok(vs) => {
                            let r = Value::Tuple(vs);
                            proof {
                                lemma_value_models(r);
                            }
                            Ok(r)
                        },
                        Err(e) => Err(e),
                    }
                },
                _ => Err(InterpretError::Internal(cat(cat("ABI type ", abi_type.debug_text().as_str()).as_str(), " is not a tuple"))),
            },
            _ => Err(unsupported_input(input, typ)),
        },
        InputValue::Struct(map) => match typ {
            Type::Tuple(ts) => match abi_type {
                AbiType::Struct { fields, .. } => {
                    if fields.len() != ts.len() {
                        let mut m = owned("struct ABI has ");
                        append(&mut m, u64_decimal(fields.len() as u64).as_str());
                        append(&mut m, " fields, type expects ");
                        append(&mut m, u64_decimal(ts.len() as u64).as_str());
                        return Err(InterpretError::Internal(m));
                    }
                    match values_named(map, fields, ts, field) {
                        Ok(vs) => {
                            let r = Value::Tuple(vs);
                            proof {
                                lemma_value_models(r);
                            }
                            Ok(r)
                        },
                        Err(e) => Err(e),
                    }
                },
                _ => Err(InterpretError::Internal(cat(cat("ABI type ", abi_type.debug_text().as_str()).as_str(), " is not a struct"))),
            },
            _ => Err(unsupported_input(input, typ)),
        },
        InputValue::String(text) => match typ {
            Type::String(_) => Ok(Value::Str(text.clone())),
            _ => Err(unsupported_input(input, typ)),
        },
    }
}

fn unsupported_input(input: &InputValue, typ: &Type) -> (r: InterpretError)
    ensures
        r.model() == ErrorModel::Unsupported("input value "@ + input_debug(*input) + " for parameter type "@ + type_debug(*typ)),
{
    let mut m = owned("input value ");
    append(&mut m, input.debug_text().as_str());
    append(&mut m, " for parameter type ");
    append(&mut m, typ.debug_text().as_str());
    InterpretError::Unsupported(m)
}

fn values_alike(es: &Vec<InputValue>, abi: &AbiType, typ: &Type, field: FieldId) -> (r: Result<Vec<Value>, InterpretError>)
    requires
        widths_ok(*typ),
    ensures
        values_agree(r, inputs_alike(es@, *abi, *typ, field, 0)),
    decreases es, 0nat,
{
    let mut out: Vec<Value> = Vec::new();
    let mut i: usize = 0;
    while i < es.len()
        invariant
            i <= es@.len(),
            widths_ok(*typ),
            inputs_alike(es@, *abi, *typ, field, 0) == (match inputs_alike(es@, *abi, *typ, field, i as nat) {
                Ok(rest) => Ok(value_models(out@) + rest),
                Err(e) => Err::<Seq<ValueModel>, ErrorModel>(e),
            }),
        decreases es@.len() - i,
    {
        match value_from_input(&es[i], abi, typ, field) {
            Ok(v) => {
                let ghost before = value_models(out@);
                out.push(v);
                proof {
                    assert(value_models(out@) =~= before.push(v.model()));
                    let r = inputs_alike(es@, *abi, *typ, field, i as nat + 1);
                    if r is Ok {
                        assert(before + (seq![v.model()] + r->Ok_0) =~= before.push(v.model()) + r->Ok_0);
                    }
                }
            },
            Err(e) => return Err(e),
        }
        i = i + 1;
    }
    assert(value_models(out@) + Seq::<ValueModel>::empty() =~= value_models(out@));
    Ok(out)
}

fn values_each(es: &Vec<InputValue>, abis: &Vec<AbiType>, ts: &Vec<Type>, field: FieldId) -> (r: Result<Vec<Value>, InterpretError>)
    requires
        es@.len() == abis@.len(),
        es@.len() == ts@.len(),
        forall|i: int| 0 <= i < ts@.len() ==> widths_ok(#[trigger] ts@[i]),
    ensures
        values_agree(r, inputs_each(es@, abis@, ts@, field, 0)),
    decreases es, 0nat,
{
    let mut out: Vec<Value> = Vec::new();
    let mut i: usize = 0;
    while i < es.len()
        invariant
            i <= es@.len(),
            es@.len() == abis@.len(),
            es@.len() == ts@.len(),
            forall|i: int| 0 <= i < ts@.len() ==> widths_ok(#[trigger] ts@[i]),
            inputs_each(es@, abis@, ts@, field, 0) == (match inputs_each(es@, abis@, ts@, field, i as nat) {
                Ok(rest) => Ok(value_models(out@) + rest),
                Err(e) => Err::<Seq<ValueModel>, ErrorModel>(e),
            }),
        decreases es@.len() - i,
    {
        match value_from_input(&es[i], &abis[i], &ts[i], field) {
            Ok(v) => {
                let ghost before = value_models(out@);
                out.push(v);
                proof {
                    assert(value_models(out@) =~= before.push(v.model()));
                    let r = inputs_each(es@, abis@, ts@, field, i as nat + 1);
                    if r is Ok {
                        assert(before + (seq![v.model()] + r->Ok_0) =~= before.push(v.model()) + r->Ok_0);
                    }
                }
            },
            Err(e) => return Err(e),
        }
        i = i + 1;
    }
    assert(value_models(out@) + Seq::<ValueModel>::empty() =~= value_models(out@));
    Ok(out)
}

fn position_of(map: &Vec<(String, InputValue)>, name: &String) -> (r: Option<usize>)
    ensures
        r is None <==> field_position(map@, name@, 0) is None,
        r matches Some(j) ==> field_position(map@, name@, 0) == Some(j as nat) && j < map@.len(),
{
    let mut i: usize = 0;
    while i < map.len()
        invariant
            i <= map@.len(),
            field_position(map@, name@, 0) == field_position(map@, name@, i as nat),
        decreases map@.len() - i,
    {
        if map[i].0 == *name {
            return Some(i);
        }
        i = i + 1;
    }
    None
}

#[verifier::loop_isolation(false)]
fn values_named(map: &Vec<(String, InputValue)>, fields: &Vec<(String, AbiType)>, ts: &Vec<Type>, field: FieldId) -> (r: Result<Vec<Value>, InterpretError>)
    requires
        fields@.len() == ts@.len(),
        forall|i: int| 0 <= i < ts@.len() ==> widths_ok(#[trigger] ts@[i]),
    ensures
        values_agree(r, inputs_named(map@, fields@, ts@, field, 0)),
    decreases map, 0nat,
{
    let mut out: Vec<Value> = Vec::new();
    let mut i: usize = 0;
    while i < fields.len()
        invariant
            i <= fields@.len(),
            inputs_named(map@, fields@, ts@, field, 0) == (match inputs_named(map@, fields@, ts@, field, i as nat) {
                Ok(rest) => Ok(value_models(out@) + rest),
                Err(e) => Err::<Seq<ValueModel>, ErrorModel>(e),
            }),
        decreases fields@.len() - i,
    {
        let k = match position_of(map, &fields[i].0) {
            Some(k) => k,
            None => {
                let mut m = owned("ABI struct has no field '");
                append(&mut m, fields[i].0.as_str());
                append(&mut m, "'");
                return Err(InterpretError::Internal(m));
            },
        };
        proof {
            assert(decreases_to!(*map => map@));
            assert(decreases_to!(map@ => map@[k as int]));
        }
        match value_from_input(&map[k].1, &fields[i].1, &ts[i], field) {
            Ok(v) => {
                let ghost before = value_models(out@);
                out.push(v);
                proof {
                    assert(value_models(out@) =~= before.push(v.model()));
                    let r = inputs_named(map@, fields@, ts@, field, i as nat + 1);
                    if r is Ok {
                        assert(before + (seq![v.model()] + r->Ok_0) =~= before.push(v.model()) + r->Ok_0);
                    }
                }
            },
            Err(e) => return Err(e),
        }
        i = i + 1;
    }
    assert(value_models(out@) + Seq::<ValueModel>::empty() =~= value_models(out@));
    Ok(out)
}


/// The letter of an integer type's signedness.
pub open spec fn sign_letter(signed: bool) -> Seq<char> {
    if signed {
        "i"@
    } else {
        "u"@
    }
}

/// Why an integer input is not a value of the type it declares, if it is not.
pub open spec fn int_problem(signed: bool, bits: u8, v: int) -> Option<ErrorModel> {
    if bits == 0 {
        Some(ErrorModel::InvalidInput("integer input declares the empty type "@ + sign_letter(signed) + "0"@))
    } else if !fits(signed, bits as nat, v) {
        Some(ErrorModel::InvalidInput("integer input "@ + int_decimal(v) + " is not a value of "@ + sign_letter(signed)
            + nat_decimal(bits as nat)))
    } else {
        None
    }
}

/// Check that an integer input is a value of the type it declares.
pub fn check_int(iv: &IntValue) -> (r: Result<(), InterpretError>)
    ensures
        match int_problem(iv.signed, iv.bits, iv.value@) {
            Some(e) => r matches Err(x) && x.model() == e,
            None => r is Ok && iv.wf(),
        },
{
    let sign = if iv.signed { "i" } else { "u" };
    if iv.bits == 0 {
        let mut m = owned("integer input declares the empty type ");
        append(&mut m, sign);
        append(&mut m, "0");
        return Err(InterpretError::InvalidInput(m));
    }
    let (min, max) = IntValue::range(iv.signed, iv.bits);
    if iv.value.less_than(&min) || max.less_than(&iv.value) {
        let mut m = owned("integer input ");
        append(&mut m, iv.value.to_decimal().as_str());
        append(&mut m, " is not a value of ");
        append(&mut m, sign);
        append(&mut m, u64_decimal(iv.bits as u64).as_str());
        return Err(InterpretError::InvalidInput(m));
    }
    Ok(())
}

/// The first problem of an input in the field of a program: a field element of another field,
/// an integer outside its own type, or a reference. A reference is a position in a run's store,
/// and a run starts with an empty store, so no input can hold one that points anywhere.
pub open spec fn input_problem(m: ValueModel, field: FieldId) -> Option<ErrorModel>
    decreases m, 0nat,
{
    match m {
        ValueModel::Field(f, _) => if f != field {
            Some(ErrorModel::InvalidInput("Field input belongs to "@ + field_name(f) + ", but the program uses "@
                + field_name(field)))
        } else {
            None
        },
        ValueModel::Int(s, b, v) => int_problem(s, b, v),
        ValueModel::Array(xs) => first_problem(xs, field, 0),
        ValueModel::Tuple(xs) => first_problem(xs, field, 0),
        ValueModel::Ref(..) => Some(ErrorModel::InvalidInput("a reference is not an input"@)),
        _ => None,
    }
}

/// The first problem among the inputs `xs` from `i` on.
pub open spec fn first_problem(xs: Seq<ValueModel>, field: FieldId, i: nat) -> Option<ErrorModel>
    decreases xs, xs.len() - i,
{
    if i >= xs.len() {
        None
    } else {
        match input_problem(xs[i as int], field) {
            Some(e) => Some(e),
            None => first_problem(xs, field, i + 1),
        }
    }
}

fn check_value(value: &Value, field: FieldId) -> (r: Result<(), InterpretError>)
    ensures
        match input_problem(value.model(), field) {
            Some(e) => r matches Err(x) && x.model() == e,
            None => r is Ok,
        },
    decreases value, 1nat,
{
    match value {
        Value::Field(f) => {
            if f.field() != field {
                let mut m = owned("Field input belongs to ");
                append(&mut m, f.field().name().as_str());
                append(&mut m, ", but the program uses ");
                append(&mut m, field.name().as_str());
                return Err(InterpretError::InvalidInput(m));
            }
            Ok(())
        },
        Value::Int(iv) => check_int(iv),
        Value::Array(vs) => {
            proof {
                lemma_value_models(*value);
            }
            check_all(vs, field)
        },
        Value::Tuple(vs) => {
            proof {
                lemma_value_models(*value);
            }
            check_all(vs, field)
        },
        Value::Ref(..) => Err(InterpretError::InvalidInput(owned("a reference is not an input"))),
        _ => Ok(()),
    }
}

fn check_all(vs: &Vec<Value>, field: FieldId) -> (r: Result<(), InterpretError>)
    ensures
        match first_problem(value_models(vs@), field, 0) {
            Some(e) => r matches Err(x) && x.model() == e,
            None => r is Ok,
        },
    decreases vs, 0nat,
{
    let ghost xs = value_models(vs@);
    let mut i: usize = 0;
    while i < vs.len()
        invariant
            i <= vs@.len(),
            xs == value_models(vs@),
            first_problem(xs, field, 0) == first_problem(xs, field, i as nat),
        decreases vs@.len() - i,
    {
        match check_value(&vs[i], field) {
            Ok(()) => {},
            Err(e) => return Err(e),
        }
        i = i + 1;
    }
    Ok(())
}

/// Check the invariants the interpreter relies on but cannot restore from caller-built values:
/// every field element belongs to `field`, and every integer is a value of its own type.
pub fn validate_inputs(inputs: &Vec<Value>, field: FieldId) -> (r: Result<(), InterpretError>)
    ensures
        match first_problem(value_models(inputs@), field, 0) {
            Some(e) => r matches Err(x) && x.model() == e,
            None => r is Ok,
        },
{
    check_all(inputs, field)
}

/// Whether every field element of a value belongs to `field` and every integer is a value of
/// its own type.
pub open spec fn sound_input(m: ValueModel, field: FieldId) -> bool
    decreases m,
{
    match m {
        ValueModel::Field(f, _) => f == field,
        ValueModel::Int(s, b, v) => b >= 1 && fits(s, b as nat, v),
        ValueModel::Array(xs) => forall|i: int| 0 <= i < xs.len() ==> sound_input(#[trigger] xs[i], field),
        ValueModel::Tuple(xs) => forall|i: int| 0 <= i < xs.len() ==> sound_input(#[trigger] xs[i], field),
        ValueModel::Ref(..) => false,
        _ => true,
    }
}

/// Validation accepts exactly the inputs whose field elements all belong to the program's field
/// and whose integers are all values of their own types.
pub proof fn law_validation_accepts_exactly_sound_inputs(m: ValueModel, field: FieldId)
    ensures
        input_problem(m, field) is None <==> sound_input(m, field),
    decreases m, 0nat,
{
    match m {
        ValueModel::Array(xs) => lemma_first_problem(xs, field, 0),
        ValueModel::Tuple(xs) => lemma_first_problem(xs, field, 0),
        _ => {},
    }
}

proof fn lemma_first_problem(xs: Seq<ValueModel>, field: FieldId, i: nat)
    ensures
        first_problem(xs, field, i) is None <==> forall|k: int| i <= k < xs.len() ==> sound_input(#[trigger] xs[k], field),
    decreases xs, xs.len() - i,
{
    if i < xs.len() {
        law_validation_accepts_exactly_sound_inputs(xs[i as int], field);
        lemma_first_problem(xs, field, i + 1);
    }
}


/// The position of the first named entry called `name`.
pub open spec fn name_position<T>(entries: Seq<(String, T)>, name: Seq<char>, i: nat) -> Option<nat>
    decreases entries.len() - i,
{
    if i >= entries.len() {
        None
    } else if entries[i as int].0@ == name {
        Some(i)
    } else {
        name_position(entries, name, i + 1)
    }
}

fn find_named<T>(entries: &Vec<(String, T)>, name: &String) -> (r: Option<usize>)
    ensures
        r is None <==> name_position(entries@, name@, 0) is None,
        r matches Some(j) ==> name_position(entries@, name@, 0) == Some(j as nat) && j < entries@.len(),
{
    let mut i: usize = 0;
    while i < entries.len()
        invariant
            i <= entries@.len(),
            name_position(entries@, name@, 0) == name_position(entries@, name@, i as nat),
        decreases entries@.len() - i,
    {
        if entries[i].0 == *name {
            return Some(i);
        }
        i = i + 1;
    }
    None
}

/// The inputs of an entry point's parameters from `i` on, each the parsed input of that name
/// read as the ABI parameter of that name describes it.
pub open spec fn bound_inputs(
    parsed: Seq<(String, InputValue)>,
    abi: Seq<(String, AbiType)>,
    params: Seq<(String, Type)>,
    field: FieldId,
    i: nat,
) -> Result<Seq<ValueModel>, ErrorModel>
    decreases params.len() - i,
{
    if i >= params.len() {
        Ok(Seq::empty())
    } else {
        let name = params[i as int].0@;
        match name_position(abi, name, 0) {
            None => Err(ErrorModel::Internal("no ABI parameter named '"@ + name + "'"@)),
            Some(a) => match name_position(parsed, name, 0) {
                None => Err(ErrorModel::Internal("no parsed input for '"@ + name + "'"@)),
                Some(p) => match input_model(parsed[p as int].1, abi[a as int].1, params[i as int].1, field) {
                    Err(e) => Err(e),
                    Ok(v) => match bound_inputs(parsed, abi, params, field, i + 1) {
                        Ok(rest) => Ok(seq![v] + rest),
                        Err(e) => Err(e),
                    },
                },
            },
        }
    }
}

/// Bind parsed inputs to an entry point's parameters in order: each parameter takes the parsed
/// input of its name, read as the ABI parameter of its name describes it.
pub fn inputs_from_parsed(
    parsed: &Vec<(String, InputValue)>,
    abi: &Vec<(String, AbiType)>,
    params: &Vec<(String, Type)>,
    field: FieldId,
) -> (r: Result<Vec<Value>, InterpretError>)
    requires
        forall|i: int| 0 <= i < params@.len() ==> widths_ok(#[trigger] params@[i].1),
    ensures
        values_agree(r, bound_inputs(parsed@, abi@, params@, field, 0)),
{
    let mut out: Vec<Value> = Vec::new();
    let mut i: usize = 0;
    while i < params.len()
        invariant
            i <= params@.len(),
            forall|i: int| 0 <= i < params@.len() ==> widths_ok(#[trigger] params@[i].1),
            bound_inputs(parsed@, abi@, params@, field, 0) == (match bound_inputs(parsed@, abi@, params@, field, i as nat) {
                Ok(rest) => Ok(value_models(out@) + rest),
                Err(e) => Err::<Seq<ValueModel>, ErrorModel>(e),
            }),
        decreases params@.len() - i,
    {
        let name = &params[i].0;
        let a = match find_named(abi, name) {
            Some(a) => a,
            None => return Err(InterpretError::Internal(cat(cat("no ABI parameter named '", name.as_str()).as_str(), "'"))),
        };
        let p = match find_named(parsed, name) {
            Some(p) => p,
            None => return Err(InterpretError::Internal(cat(cat("no parsed input for '", name.as_str()).as_str(), "'"))),
        };
        match value_from_input(&parsed[p].1, &abi[a].1, &params[i].1, field) {
            Ok(v) => {
                let ghost before = value_models(out@);
                out.push(v);
                proof {
                    assert(value_models(out@) =~= before.push(v.model()));
                    let r = bound_inputs(parsed@, abi@, params@, field, i as nat + 1);
                    if r is Ok {
                        assert(before + (seq![v.model()] + r->Ok_0) =~= before.push(v.model()) + r->Ok_0);
                    }
                }
            },
            Err(e) => return Err(e),
        }
        i = i + 1;
    }
    assert(value_models(out@) + Seq::<ValueModel>::empty() =~= value_models(out@));
    Ok(out)
}

/// The return recorded among the parsed inputs under `return`, read as the ABI's return type
/// describes it: none when nothing is recorded.
pub open spec fn recorded_return_model(parsed: Seq<(String, InputValue)>, abi_return: Option<AbiType>, return_type: Type, field: FieldId) -> Result<Option<ValueModel>, ErrorModel> {
    match name_position(parsed, "return"@, 0) {
        None => Ok(None),
        Some(p) => match abi_return {
            None => Err(ErrorModel::Internal("Prover.toml parsed a return value but the ABI declares no return type"@)),
            Some(abi) => match input_model(parsed[p as int].1, abi, return_type, field) {
                Ok(v) => Ok(Some(v)),
                Err(e) => Err(e),
            },
        },
    }
}

/// Decode the entry point's return value recorded among the parsed inputs, if any.
pub fn expected_return_from_parsed(
    parsed: &Vec<(String, InputValue)>,
    abi_return: &Option<AbiType>,
    return_type: &Type,
    field: FieldId,
) -> (r: Result<Option<Value>, InterpretError>)
    requires
        widths_ok(*return_type),
    ensures
        match recorded_return_model(parsed@, *abi_return, *return_type, field) {
            Ok(None) => r matches Ok(None),
            Ok(Some(m)) => r matches Ok(Some(v)) && v.model() == m,
            Err(e) => r matches Err(x) && x.model() == e,
        },
{
    let key = owned("return");
    let p = match find_named(parsed, &key) {
        Some(p) => p,
        None => return Ok(None),
    };
    let abi = match abi_return {
        Some(abi) => abi,
        None => return Err(InterpretError::Internal(owned("Prover.toml parsed a return value but the ABI declares no return type"))),
    };
    match value_from_input(&parsed[p].1, abi, return_type, field) {
        Ok(v) => Ok(Some(v)),
        Err(e) => Err(e),
    }
}

} // verus!
