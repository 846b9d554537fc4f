//! Field-independent builtins a program calls directly: vector operations, length,
//! string/byte conversions, field decomposition, and the black boxes over machine words.

use vstd::arithmetic::power2::pow2;
use acvm::blackbox_solver;
use vstd::prelude::*;
use vstd::string::{StrSliceExecFns, StringExecFns, StringSliceAdditionalSpecFns};
use vstd::utf8::{decode_utf8, valid_utf8};

use crate::bigint::{bit_length, int_decimal, nat_decimal, radix_digits, u64_decimal, BigInt};
use crate::types::{type_debug, Type};
use crate::bn254_crypto::{bn254_call_model, is_bn254_black_box};
use crate::error::{ErrorModel, InterpretError, Location};
use crate::field::FieldId;
use crate::text::{append, cat, owned, same_text};
use crate::value::{
    bit_pattern, lemma_value_models, model_debug, models_debug, result_model, value_models, wrapped, IntValue,
    Value, ValueModel,
};

verus! {

broadcast use vstd::string::group_string_axioms;

/// The error for an intrinsic called with the wrong number of arguments.
pub open spec fn arity_error(got: nat, expected: nat) -> ErrorModel {
    ErrorModel::Internal("intrinsic arity mismatch: got "@ + nat_decimal(got) + " args, expected "@
        + nat_decimal(expected))
}

/// Take exactly `N` arguments out of a call; any other count is an interpreter bug.
pub fn take<const N: usize>(args: Vec<Value>) -> (r: Result<Vec<Value>, InterpretError>)
    ensures
        args@.len() == N ==> (r matches Ok(v) && v@ == args@),
        args@.len() != N ==> (r matches Err(e) && e.model() == arity_error(args@.len(), N as nat)),
{
    let len = args.len();
    if len != N {
        let mut m = owned("intrinsic arity mismatch: got ");
        append(&mut m, u64_decimal(len as u64).as_str());
        append(&mut m, " args, expected ");
        append(&mut m, u64_decimal(N as u64).as_str());
        return Err(InterpretError::Internal(m));
    }
    Ok(args)
}

/// The elements of an array or vector value.
pub fn into_array(value: Value) -> (r: Result<Vec<Value>, InterpretError>)
    ensures
        value is Array ==> (r matches Ok(v) && v == value->Array_0),
        !(value is Array) ==> (r matches Err(InterpretError::Type(m)) && m@ == "expected a slice/array, got "@
            + model_debug(value.model())),
{
    match value {
        Value::Array(elements) => Ok(elements),
        other => Err(InterpretError::Type(cat("expected a slice/array, got ", other.debug_text().as_str()))),
    }
}

/// The index an integer value denotes, as `Value::as_index` reads it.
pub open spec fn index_model(m: ValueModel) -> Result<usize, ErrorModel> {
    match m {
        ValueModel::Int(_, b, v) => {
            let p = bit_pattern(v, b as nat);
            if 0 <= p <= u64::MAX {
                Ok(p as u64 as usize)
            } else {
                Err(ErrorModel::ValueOutOfRange("index out of usize range: "@ + int_decimal(p)))
            }
        },
        _ => Err(ErrorModel::Type("expected integer, got "@ + model_debug(m))),
    }
}

pub(crate) proof fn lemma_as_index(v: Value, r: Result<usize, InterpretError>)
    requires
        !(v is Int) ==> (r matches Err(InterpretError::Type(m)) && m@ == "expected integer, got "@ + model_debug(v.model())),
        v is Int ==> ({
            let i = v->Int_0;
            let p = bit_pattern(i.value@, i.bits as nat);
            &&& (0 <= p <= u64::MAX) ==> r == Ok::<usize, InterpretError>(p as u64 as usize)
            &&& !(0 <= p <= u64::MAX) ==> (r matches Err(InterpretError::ValueOutOfRange(m))
                && m@ == "index out of usize range: "@ + int_decimal(p))
        }),
    ensures
        match index_model(v.model()) {
            Ok(i) => r == Ok::<usize, InterpretError>(i),
            Err(e) => r matches Err(x) && x.model() == e,
        },
{
}

/// `array_len(array)`: the length as a `u32`.
pub open spec fn array_len_model(args: Seq<ValueModel>) -> Result<ValueModel, ErrorModel> {
    if args.len() == 0 {
        Err(ErrorModel::Internal("array_len expects one argument"@))
    } else {
        match args[0] {
            ValueModel::Array(xs) => Ok(ValueModel::Int(false, 32, wrapped(false, 32, xs.len() as int))),
            other => Err(ErrorModel::Type("array_len on a non-array "@ + model_debug(other))),
        }
    }
}

/// The length of the array argument.
pub fn array_len(args: &Vec<Value>) -> (r: Result<Value, InterpretError>)
    ensures
        result_model(r) == array_len_model(value_models(args@)),
        r matches Ok(Value::Int(i)) ==> i.wf(),
{
    if args.len() == 0 {
        return Err(InterpretError::Internal(owned("array_len expects one argument")));
    }
    match &args[0] {
        Value::Array(elements) => {
            proof {
                lemma_value_models(args@[0]);
            }
            let n = BigInt::from_u128(elements.len() as u128);
            Ok(Value::Int(IntValue::canonical(false, 32, &n)))
        },
        other => Err(InterpretError::Type(cat("array_len on a non-array ", other.debug_text().as_str()))),
    }
}

/// The failure of a vector operation out of bounds.
pub open spec fn bounds_failure(location: Location, message: Seq<char>) -> ErrorModel {
    ErrorModel::AssertionFailed(location, Some(message))
}

/// `vector_push_back(vector, x)` / `vector_push_front(vector, x)`.
pub open spec fn vector_push_model(args: Seq<ValueModel>, back: bool) -> Result<ValueModel, ErrorModel> {
    if args.len() != 2 {
        Err(arity_error(args.len(), 2))
    } else {
        match args[0] {
            ValueModel::Array(xs) => Ok(ValueModel::Array(if back { xs.push(args[1]) } else { seq![args[1]] + xs })),
            other => Err(ErrorModel::Type("expected a slice/array, got "@ + model_debug(other))),
        }
    }
}

/// Add an element at the back or the front of a vector.
pub fn vector_push(args: Vec<Value>, back: bool) -> (r: Result<Value, InterpretError>)
    ensures
        result_model(r) == vector_push_model(value_models(args@), back),
{
    let ghost am = value_models(args@);
    let mut args = match take::<2>(args) {
        Ok(v) => v,
        Err(e) => return Err(e),
    };
    let elem = args.pop().unwrap();
    let array = args.pop().unwrap();
    proof {
        lemma_value_models(array);
    }
    let mut elements = match into_array(array) {
        Ok(v) => v,
        Err(e) => return Err(e),
    };
    let ghost before = value_models(elements@);
    if back {
        elements.push(elem);
    } else {
        elements.insert(0, elem);
    }
    proof {
        lemma_value_models(Value::Array(elements));
        if back {
            assert(value_models(elements@) =~= before.push(am[1]));
        } else {
            assert(value_models(elements@) =~= seq![am[1]] + before);
        }
    }
    Ok(Value::Array(elements))
}

/// `vector_pop_back(vector)`: the rest and the last element.
pub open spec fn vector_pop_back_model(args: Seq<ValueModel>, location: Location) -> Result<ValueModel, ErrorModel> {
    if args.len() != 1 {
        Err(arity_error(args.len(), 1))
    } else {
        match args[0] {
            ValueModel::Array(xs) => if xs.len() == 0 {
                Err(bounds_failure(location, "Index out of bounds: vector_pop_back called on empty vector"@))
            } else {
                Ok(ValueModel::Tuple(seq![ValueModel::Array(xs.drop_last()), xs.last()]))
            },
            other => Err(ErrorModel::Type("expected a slice/array, got "@ + model_debug(other))),
        }
    }
}

/// Remove the last element of a vector, returning the rest and that element.
pub fn vector_pop_back(args: Vec<Value>, location: Location) -> (r: Result<Value, InterpretError>)
    ensures
        result_model(r) == vector_pop_back_model(value_models(args@), location),
{
    let mut args = match take::<1>(args) {
        Ok(v) => v,
        Err(e) => return Err(e),
    };
    let array = args.pop().unwrap();
    proof {
        lemma_value_models(array);
    }
    let mut elements = match into_array(array) {
        Ok(v) => v,
        Err(e) => return Err(e),
    };
    let ghost before = value_models(elements@);
    if elements.len() == 0 {
        return Err(InterpretError::AssertionFailed {
            location,
            message: Some(owned("Index out of bounds: vector_pop_back called on empty vector")),
        });
    }
    let last = elements.pop().unwrap();
    let rest = Value::Array(elements);
    proof {
        lemma_value_models(rest);
        assert(value_models(elements@) =~= before.drop_last());
    }
    let out = Value::Tuple(vec![rest, last]);
    proof {
        lemma_value_models(out);
        assert(value_models(out->Tuple_0@) =~= seq![ValueModel::Array(before.drop_last()), before.last()]);
    }
    Ok(out)
}


/// `vector_pop_front(vector)`: the first element and the rest.
pub open spec fn vector_pop_front_model(args: Seq<ValueModel>, location: Location) -> Result<ValueModel, ErrorModel> {
    if args.len() != 1 {
        Err(arity_error(args.len(), 1))
    } else {
        match args[0] {
            ValueModel::Array(xs) => if xs.len() == 0 {
                Err(bounds_failure(location, "Index out of bounds: vector_pop_front called on empty vector"@))
            } else {
                Ok(ValueModel::Tuple(seq![xs[0], ValueModel::Array(xs.drop_first())]))
            },
            other => Err(ErrorModel::Type("expected a slice/array, got "@ + model_debug(other))),
        }
    }
}

/// Remove the first element of a vector, returning that element and the rest.
pub fn vector_pop_front(args: Vec<Value>, location: Location) -> (r: Result<Value, InterpretError>)
    ensures
        result_model(r) == vector_pop_front_model(value_models(args@), location),
{
    let mut args = match take::<1>(args) {
        Ok(v) => v,
        Err(e) => return Err(e),
    };
    let array = args.pop().unwrap();
    proof {
        lemma_value_models(array);
    }
    let mut elements = match into_array(array) {
        Ok(v) => v,
        Err(e) => return Err(e),
    };
    let ghost before = value_models(elements@);
    if elements.len() == 0 {
        return Err(InterpretError::AssertionFailed {
            location,
            message: Some(owned("Index out of bounds: vector_pop_front called on empty vector")),
        });
    }
    let first = elements.remove(0);
    let rest = Value::Array(elements);
    proof {
        lemma_value_models(rest);
        assert(value_models(elements@) =~= before.drop_first());
    }
    let out = Value::Tuple(vec![first, rest]);
    proof {
        lemma_value_models(out);
        assert(value_models(out->Tuple_0@) =~= seq![before[0], ValueModel::Array(before.drop_first())]);
    }
    Ok(out)
}

/// `vector_insert(vector, index, x)`: `x` inserted before position `index`.
pub open spec fn vector_insert_model(args: Seq<ValueModel>, location: Location) -> Result<ValueModel, ErrorModel> {
    if args.len() != 3 {
        Err(arity_error(args.len(), 3))
    } else {
        match args[0] {
            ValueModel::Array(xs) => match index_model(args[1]) {
                Ok(i) => if i > xs.len() {
                    Err(bounds_failure(location, "Index out of bounds: vector_insert: index "@ + nat_decimal(i as nat)
                        + " is out of bounds for a vector of length "@ + nat_decimal(xs.len())))
                } else {
                    Ok(ValueModel::Array(xs.insert(i as int, args[2])))
                },
                Err(e) => Err(e),
            },
            other => Err(ErrorModel::Type("expected a slice/array, got "@ + model_debug(other))),
        }
    }
}

/// Insert an element into a vector.
pub fn vector_insert(args: Vec<Value>, location: Location) -> (r: Result<Value, InterpretError>)
    ensures
        result_model(r) == vector_insert_model(value_models(args@), location),
{
    let ghost am = value_models(args@);
    let mut args = match take::<3>(args) {
        Ok(v) => v,
        Err(e) => return Err(e),
    };
    let elem = args.pop().unwrap();
    let index = args.pop().unwrap();
    let array = args.pop().unwrap();
    proof {
        lemma_value_models(array);
    }
    let mut elements = match into_array(array) {
        Ok(v) => v,
        Err(e) => return Err(e),
    };
    let ghost before = value_models(elements@);
    let ir = index.as_index();
    proof {
        lemma_as_index(index, ir);
    }
    let i = match ir {
        Ok(i) => i,
        Err(e) => return Err(e),
    };
    if i > elements.len() {
        let mut m = owned("Index out of bounds: vector_insert: index ");
        append(&mut m, u64_decimal(i as u64).as_str());
        append(&mut m, " is out of bounds for a vector of length ");
        append(&mut m, u64_decimal(elements.len() as u64).as_str());
        return Err(InterpretError::AssertionFailed { location, message: Some(m) });
    }
    elements.insert(i, elem);
    proof {
        lemma_value_models(Value::Array(elements));
        assert(value_models(elements@) =~= before.insert(i as int, am[2]));
    }
    Ok(Value::Array(elements))
}

/// `vector_remove(vector, index)`: the rest and the removed element.
pub open spec fn vector_remove_model(args: Seq<ValueModel>, location: Location) -> Result<ValueModel, ErrorModel> {
    if args.len() != 2 {
        Err(arity_error(args.len(), 2))
    } else {
        match args[0] {
            ValueModel::Array(xs) => match index_model(args[1]) {
                Ok(i) => if xs.len() == 0 {
                    Err(bounds_failure(location, "Index out of bounds: vector_remove called on empty vector"@))
                } else if i >= xs.len() {
                    Err(bounds_failure(location, "Index out of bounds: vector_remove: index "@ + nat_decimal(i as nat)
                        + " is out of bounds for a vector of length "@ + nat_decimal(xs.len())))
                } else {
                    Ok(ValueModel::Tuple(seq![ValueModel::Array(xs.remove(i as int)), xs[i as int]]))
                },
                Err(e) => Err(e),
            },
            other => Err(ErrorModel::Type("expected a slice/array, got "@ + model_debug(other))),
        }
    }
}

/// Remove the element at an index of a vector, returning the rest and that element.
pub fn vector_remove(args: Vec<Value>, location: Location) -> (r: Result<Value, InterpretError>)
    ensures
        result_model(r) == vector_remove_model(value_models(args@), location),
{
    let mut args = match take::<2>(args) {
        Ok(v) => v,
        Err(e) => return Err(e),
    };
    let index = args.pop().unwrap();
    let array = args.pop().unwrap();
    proof {
        lemma_value_models(array);
    }
    let mut elements = match into_array(array) {
        Ok(v) => v,
        Err(e) => return Err(e),
    };
    let ghost before = value_models(elements@);
    let ir = index.as_index();
    proof {
        lemma_as_index(index, ir);
    }
    let i = match ir {
        Ok(i) => i,
        Err(e) => return Err(e),
    };
    if elements.len() == 0 {
        return Err(InterpretError::AssertionFailed {
            location,
            message: Some(owned("Index out of bounds: vector_remove called on empty vector")),
        });
    }
    if i >= elements.len() {
        let mut m = owned("Index out of bounds: vector_remove: index ");
        append(&mut m, u64_decimal(i as u64).as_str());
        append(&mut m, " is out of bounds for a vector of length ");
        append(&mut m, u64_decimal(elements.len() as u64).as_str());
        return Err(InterpretError::AssertionFailed { location, message: Some(m) });
    }
    let removed = elements.remove(i);
    let rest = Value::Array(elements);
    proof {
        lemma_value_models(rest);
        assert(value_models(elements@) =~= before.remove(i as int));
    }
    let out = Value::Tuple(vec![rest, removed]);
    proof {
        lemma_value_models(out);
        assert(value_models(out->Tuple_0@) =~= seq![ValueModel::Array(before.remove(i as int)), before[i as int]]);
    }
    Ok(out)
}

/// The `u8` values of some bytes.
pub open spec fn byte_values(bytes: Seq<u8>) -> Seq<ValueModel> {
    Seq::new(bytes.len(), |i: int| ValueModel::Int(false, 8, bytes[i] as int))
}

/// `str_as_bytes(s)`: the UTF-8 bytes of a string as `u8` values.
pub open spec fn str_as_bytes_model(args: Seq<ValueModel>) -> Result<ValueModel, ErrorModel> {
    if args.len() != 1 {
        Err(arity_error(args.len(), 1))
    } else {
        match args[0] {
            ValueModel::Str(s) => Ok(ValueModel::Array(byte_values(vstd::utf8::encode_utf8(s)))),
            other => Err(ErrorModel::Type("str_as_bytes on a non-string "@ + model_debug(other))),
        }
    }
}

/// The UTF-8 bytes of the string argument, as `u8` values.
pub fn str_as_bytes(args: Vec<Value>) -> (r: Result<Value, InterpretError>)
    ensures
        result_model(r) == str_as_bytes_model(value_models(args@)),
        r matches Ok(Value::Array(vs)) ==> forall|i: int| 0 <= i < vs@.len() ==> (#[trigger] vs@[i] matches Value::Int(x) && x.wf()),
{
    let mut args = match take::<1>(args) {
        Ok(v) => v,
        Err(e) => return Err(e),
    };
    let value = args.pop().unwrap();
    match value {
        Value::Str(s) => {
            let bytes = s.as_str().as_bytes();
            let mut out: Vec<Value> = Vec::new();
            let mut i: usize = 0;
            while i < bytes.len()
                invariant
                    i <= bytes@.len(),
                    bytes@ == vstd::utf8::encode_utf8(s@),
                    out@.len() == i,
                    forall|j: int| 0 <= j < i ==> #[trigger] out@[j].model() == ValueModel::Int(false, 8, bytes@[j] as int),
                    forall|j: int| 0 <= j < i ==> (#[trigger] out@[j] matches Value::Int(x) && x.wf()),
                decreases bytes@.len() - i,
            {
                let b = bytes[i];
                out.push(Value::Int(IntValue { signed: false, bits: 8, value: BigInt::from_u128(b as u128) }));
                proof {
                    vstd::arithmetic::power2::lemma2_to64();
                }
                i = i + 1;
            }
            let result = Value::Array(out);
            proof {
                lemma_value_models(result);
                assert(value_models(out@) =~= byte_values(bytes@));
            }
            Ok(result)
        },
        other => Err(InterpretError::Type(cat("str_as_bytes on a non-string ", other.debug_text().as_str()))),
    }
}


/// The text `FromUtf8Error` displays for bytes that are not UTF-8.
pub uninterp spec fn utf8_error_text(bytes: Seq<u8>) -> Seq<char>;

/// `String::from_utf8`: the string the bytes encode when they are valid UTF-8; otherwise the
/// error's display, named [`utf8_error_text`].
#[verifier::external_body]
pub(crate) fn string_from_utf8(bytes: Vec<u8>) -> (r: Result<String, String>)
    ensures
        r is Ok <==> valid_utf8(bytes@),
        r matches Ok(s) ==> s@ == decode_utf8(bytes@),
        r matches Err(t) ==> t@ == utf8_error_text(bytes@),
{
    String::from_utf8(bytes).map_err(|e| e.to_string())
}

/// The byte an element of a string's byte array denotes: its index, which must fit a `u8`.
pub open spec fn string_byte_model(m: ValueModel) -> Result<u8, ErrorModel> {
    match index_model(m) {
        Ok(i) => if i <= 255 {
            Ok(i as u8)
        } else {
            Err(ErrorModel::Type("string byte out of range"@))
        },
        Err(e) => Err(e),
    }
}

/// The bytes of the elements `xs` from `i` on, or the error of the first that is not one.
pub open spec fn string_bytes_from(xs: Seq<ValueModel>, i: nat) -> Result<Seq<u8>, ErrorModel>
    decreases xs.len() - i,
{
    if i >= xs.len() {
        Ok(Seq::empty())
    } else {
        match string_byte_model(xs[i as int]) {
            Ok(b) => match string_bytes_from(xs, i + 1) {
                Ok(rest) => Ok(seq![b] + rest),
                Err(e) => Err(e),
            },
            Err(e) => Err(e),
        }
    }
}

/// The prefix of the message for bytes that are not UTF-8.
pub open spec fn non_utf8_prefix() -> Seq<char> {
    "array_as_str_unchecked on non-UTF-8 bytes: "@
}

/// `array_as_str_unchecked(bytes)`: the string the byte array encodes; bytes that are not
/// UTF-8 are unsupported, with the [`non_utf8_prefix`] and the decoder's text.
pub open spec fn array_as_str_model(args: Seq<ValueModel>) -> Result<ValueModel, ErrorModel> {
    if args.len() != 1 {
        Err(arity_error(args.len(), 1))
    } else {
        match args[0] {
            ValueModel::Array(xs) => match string_bytes_from(xs, 0) {
                Ok(bytes) => if valid_utf8(bytes) {
                    Ok(ValueModel::Str(decode_utf8(bytes)))
                } else {
                    Err(ErrorModel::Unsupported(non_utf8_prefix() + utf8_error_text(bytes)))
                },
                Err(e) => Err(e),
            },
            other => Err(ErrorModel::Type("expected a slice/array, got "@ + model_debug(other))),
        }
    }
}

/// The string whose UTF-8 bytes the array argument holds.
#[verifier::loop_isolation(false)]
pub fn array_as_str_unchecked(args: Vec<Value>) -> (r: Result<Value, InterpretError>)
    ensures
        result_model(r) == array_as_str_model(value_models(args@)),
{
    let ghost am = value_models(args@);
    let mut args = match take::<1>(args) {
        Ok(v) => v,
        Err(e) => return Err(e),
    };
    let value = args.pop().unwrap();
    proof {
        lemma_value_models(value);
    }
    let elements = match into_array(value) {
        Ok(v) => v,
        Err(e) => return Err(e),
    };
    let ghost xs = value_models(elements@);
    assert(am.len() == 1 && am[0] == ValueModel::Array(xs));
    let mut bytes: Vec<u8> = Vec::new();
    let mut i: usize = 0;
    while i < elements.len()
        invariant
            i <= elements@.len(),
            xs == value_models(elements@),
            am.len() == 1,
            am[0] == ValueModel::Array(xs),
            string_bytes_from(xs, 0) == (match string_bytes_from(xs, i as nat) {
                Ok(rest) => Ok(bytes@ + rest),
                Err(e) => Err::<Seq<u8>, ErrorModel>(e),
            }),
        decreases elements@.len() - i,
    {
        let ir = elements[i].as_index();
        proof {
            lemma_as_index(elements@[i as int], ir);
        }
        let index = match ir {
            Ok(index) => index,
            Err(e) => return Err(e),
        };
        if index > 255 {
            return Err(InterpretError::Type(owned("string byte out of range")));
        }
        let b: u8 = index as u8;
        proof {
            let r = string_bytes_from(xs, i as nat + 1);
            if r is Ok {
                assert(bytes@ + (seq![b] + r->Ok_0) =~= bytes@.push(b) + r->Ok_0);
            }
        }
        bytes.push(b);
        i = i + 1;
    }
    assert(bytes@ + Seq::<u8>::empty() =~= bytes@);
    match string_from_utf8(bytes) {
        Ok(s) => Ok(Value::Str(s)),
        Err(text) => {
            let m = cat("array_as_str_unchecked on non-UTF-8 bytes: ", text.as_str());
            Err(InterpretError::Unsupported(m))
        },
    }
}

/// `static_assert(condition, message, …)`: unit when the condition holds, else a failed
/// assertion carrying the message when one is given as a string.
pub open spec fn static_assert_model(args: Seq<ValueModel>, location: Location) -> Result<ValueModel, ErrorModel> {
    if args.len() == 0 {
        Err(ErrorModel::Internal("static_assert expects a condition"@))
    } else {
        match args[0] {
            ValueModel::Bool(b) => if b {
                Ok(ValueModel::Unit)
            } else {
                Err(ErrorModel::AssertionFailed(location, if args.len() > 1 && args[1] is Str {
                    Some(args[1]->Str_0)
                } else {
                    None
                }))
            },
            other => Err(ErrorModel::Type("expected bool, got "@ + model_debug(other))),
        }
    }
}

/// Check a static assertion at run time.
pub fn static_assert(args: &Vec<Value>, location: Location) -> (r: Result<Value, InterpretError>)
    ensures
        result_model(r) == static_assert_model(value_models(args@), location),
{
    if args.len() == 0 {
        return Err(InterpretError::Internal(owned("static_assert expects a condition")));
    }
    match args[0].as_bool() {
        Ok(true) => Ok(Value::Unit),
        Ok(false) => {
            let message = if args.len() > 1 {
                match &args[1] {
                    Value::Str(s) => Some(s.clone()),
                    _ => None,
                }
            } else {
                None
            };
            Err(InterpretError::AssertionFailed { location, message })
        },
        Err(e) => Err(e),
    }
}

/// `apply_range_constraint(value, bit_size)`: the field element's value must fit `bit_size`
/// bits, else the range constraint fails.
pub open spec fn range_constraint_model(args: Seq<ValueModel>, location: Location) -> Result<ValueModel, ErrorModel> {
    if args.len() == 0 {
        Err(ErrorModel::Internal("apply_range_constraint expects a value"@))
    } else {
        match args[0] {
            ValueModel::Field(_, x) => match arg_u64_model(args, 1) {
                Ok(bit_size) => if bit_length(x as nat) > bit_size {
                    Err(ErrorModel::AssertionFailed(location, Some("call to assert_max_bit_size"@)))
                } else {
                    Ok(ValueModel::Unit)
                },
                Err(e) => Err(e),
            },
            other => Err(ErrorModel::Type("apply_range_constraint on a non-field "@ + model_debug(other))),
        }
    }
}

/// Check that a field element fits a number of bits.
pub fn apply_range_constraint(args: &Vec<Value>, location: Location) -> (r: Result<Value, InterpretError>)
    ensures
        result_model(r) == range_constraint_model(value_models(args@), location),
{
    if args.len() == 0 {
        return Err(InterpretError::Internal(owned("apply_range_constraint expects a value")));
    }
    let value = match &args[0] {
        Value::Field(f) => f.value(),
        other => return Err(InterpretError::Type(cat("apply_range_constraint on a non-field ", other.debug_text().as_str()))),
    };
    let bit_size = match arg_u64(args, 1) {
        Ok(b) => b,
        Err(e) => return Err(e),
    };
    if value.bits() > bit_size {
        return Err(InterpretError::AssertionFailed { location, message: Some(owned("call to assert_max_bit_size")) });
    }
    Ok(Value::Unit)
}

/// `__field_less_than(x, y)`: whether `x < y` as canonical integers.
pub open spec fn field_less_than_model(args: Seq<ValueModel>) -> Result<ValueModel, ErrorModel> {
    if args.len() == 2 && args[0] is Field && args[1] is Field {
        Ok(ValueModel::Bool(args[0]->Field_1 < args[1]->Field_1))
    } else {
        Err(ErrorModel::Type("field_less_than expects two fields, got ["@ + models_debug(args, args.len()) + "]"@))
    }
}

/// Compare two field elements as canonical integers.
pub fn field_less_than(args: &Vec<Value>) -> (r: Result<Value, InterpretError>)
    ensures
        result_model(r) == field_less_than_model(value_models(args@)),
{
    if args.len() == 2 {
        if let (Value::Field(x), Value::Field(y)) = (&args[0], &args[1]) {
            return Ok(Value::Bool(x.value_less_than(y)));
        }
    }
    let mut m = owned("field_less_than expects two fields, got [");
    append(&mut m, crate::value::debug_all(args).as_str());
    append(&mut m, "]");
    proof {
        assert(Seq::new(args@.len(), |i: int| args@[i].model()) =~= value_models(args@));
    }
    Err(InterpretError::Type(m))
}

/// Argument `i` as a `u64`: an integer's bit pattern, which must fit.
pub open spec fn arg_u64_model(args: Seq<ValueModel>, i: nat) -> Result<u64, ErrorModel> {
    if i >= args.len() {
        Err(ErrorModel::Internal("intrinsic missing argument "@ + nat_decimal(i)))
    } else {
        match args[i as int] {
            ValueModel::Int(_, b, v) => {
                let p = bit_pattern(v, b as nat);
                if 0 <= p <= u64::MAX {
                    Ok(p as u64)
                } else {
                    Err(ErrorModel::Type("value exceeds u64"@))
                }
            },
            other => Err(ErrorModel::Type("expected integer, got "@ + model_debug(other))),
        }
    }
}

/// Argument `i` of a call as a `u64`.
pub fn arg_u64(args: &Vec<Value>, i: usize) -> (r: Result<u64, InterpretError>)
    ensures
        match arg_u64_model(value_models(args@), i as nat) {
            Ok(n) => r == Ok::<u64, InterpretError>(n),
            Err(e) => r matches Err(x) && x.model() == e,
        },
{
    if i >= args.len() {
        return Err(InterpretError::Internal(cat("intrinsic missing argument ", u64_decimal(i as u64).as_str())));
    }
    let iv = match args[i].as_int() {
        Ok(iv) => iv,
        Err(e) => return Err(e),
    };
    match iv.unsigned_repr().to_u64() {
        Some(n) => Ok(n),
        None => Err(InterpretError::Type(owned("value exceeds u64"))),
    }
}


/// Digit `k` of a little-endian decomposition, zero past its end.
pub open spec fn digit_at(digits: Seq<u8>, k: int) -> u8 {
    if 0 <= k < digits.len() {
        digits[k]
    } else {
        0
    }
}

/// The limbs of a decomposition into `count` digits, in output order: booleans for bits,
/// `u8`s otherwise; big-endian reverses the little-endian order.
pub open spec fn radix_limbs(digits: Seq<u8>, count: nat, big_endian: bool, is_bits: bool) -> Seq<ValueModel> {
    Seq::new(count, |i: int| {
        let d = digit_at(digits, if big_endian { count - 1 - i } else { i });
        if is_bits {
            ValueModel::Bool(d != 0)
        } else {
            ValueModel::Int(false, 8, d as int)
        }
    })
}

/// The radix a decomposition uses: 2 for bits, else the second argument, which must fit a
/// `u32`.
pub open spec fn radix_model(args: Seq<ValueModel>, is_bits: bool) -> Result<nat, ErrorModel> {
    if is_bits {
        Ok(2)
    } else if args.len() < 2 {
        Err(ErrorModel::Internal("radix decomposition expects a radix argument"@))
    } else {
        match index_model(args[1]) {
            Ok(i) => if i <= u32::MAX {
                Ok(i as nat)
            } else {
                Err(ErrorModel::Type("radix out of range"@))
            },
            Err(e) => Err(e),
        }
    }
}

/// Field decomposition into as many radix digits as the returned array holds: little-endian,
/// zero-padded, reversed for big-endian; a value with more digits fails the decomposition.
pub open spec fn to_radix_model(
    args: Seq<ValueModel>,
    big_endian: bool,
    is_bits: bool,
    return_type: Type,
    location: Location,
) -> Result<ValueModel, ErrorModel> {
    if args.len() == 0 {
        Err(ErrorModel::Internal("decomposition expects a field argument"@))
    } else {
        match args[0] {
            ValueModel::Field(_, x) => match radix_model(args, is_bits) {
                Err(e) => Err(e),
                Ok(radix) => match return_type {
                    Type::Array(count, _) => if !(2 <= radix <= 256) {
                        Err(ErrorModel::Type("radix "@ + nat_decimal(radix) + " must be in [2, 256]"@))
                    } else if count < radix_digits(x as nat, radix).len() {
                        Err(ErrorModel::AssertionFailed(location, Some("Field failed to decompose into specified "@
                            + nat_decimal(count as nat) + " limbs"@)))
                    } else {
                        Ok(ValueModel::Array(radix_limbs(radix_digits(x as nat, radix), count as nat, big_endian, is_bits)))
                    },
                    other => Err(ErrorModel::Type("decomposition return type is not an array: "@ + type_debug(other))),
                },
            },
            other => Err(ErrorModel::Type("decomposition of a non-field "@ + model_debug(other))),
        }
    }
}

/// Decompose a field element into radix digits (`to_le_radix`, `to_be_radix`, `to_le_bits`,
/// `to_be_bits`).
pub fn to_radix(
    args: &Vec<Value>,
    big_endian: bool,
    is_bits: bool,
    return_type: &Type,
    location: Location,
) -> (r: Result<Value, InterpretError>)
    ensures
        result_model(r) == to_radix_model(value_models(args@), big_endian, is_bits, *return_type, location),
        r matches Ok(Value::Array(vs)) ==> forall|i: int| 0 <= i < vs@.len() ==> (#[trigger] vs@[i] matches Value::Int(x) ==> x.wf()),
{
    if args.len() == 0 {
        return Err(InterpretError::Internal(owned("decomposition expects a field argument")));
    }
    let value = match &args[0] {
        Value::Field(f) => f.value(),
        other => return Err(InterpretError::Type(cat("decomposition of a non-field ", other.debug_text().as_str()))),
    };
    let radix: u32 = if is_bits {
        2
    } else {
        if args.len() < 2 {
            return Err(InterpretError::Internal(owned("radix decomposition expects a radix argument")));
        }
        let ir = args[1].as_index();
        proof {
            lemma_as_index(args@[1], ir);
        }
        match ir {
            Ok(i) => {
                if i > u32::MAX as usize {
                    return Err(InterpretError::Type(owned("radix out of range")));
                }
                i as u32
            },
            Err(e) => return Err(e),
        }
    };
    let count: u32 = match return_type {
        Type::Array(len, _) => *len,
        other => return Err(InterpretError::Type(cat("decomposition return type is not an array: ", other.debug_text().as_str()))),
    };
    if radix < 2 || radix > 256 {
        let mut m = owned("radix ");
        append(&mut m, u64_decimal(radix as u64).as_str());
        append(&mut m, " must be in [2, 256]");
        return Err(InterpretError::Type(m));
    }
    let digits: Vec<u8> = if value.is_zero() {
        Vec::new()
    } else {
        value.to_radix_le(radix)
    };
    if (count as usize) < digits.len() {
        let mut m = owned("Field failed to decompose into specified ");
        append(&mut m, u64_decimal(count as u64).as_str());
        append(&mut m, " limbs");
        return Err(InterpretError::AssertionFailed { location, message: Some(m) });
    }
    let ghost expected = radix_limbs(digits@, count as nat, big_endian, is_bits);
    let n: usize = count as usize;
    let mut limbs: Vec<Value> = Vec::new();
    let mut i: usize = 0;
    while i < n
        invariant
            i <= n,
            n == count as nat,
            expected == radix_limbs(digits@, count as nat, big_endian, is_bits),
            limbs@.len() == i,
            forall|j: int| 0 <= j < i ==> #[trigger] limbs@[j].model() == expected[j],
            forall|j: int| 0 <= j < i ==> (#[trigger] limbs@[j] matches Value::Int(x) ==> x.wf()),
        decreases n - i,
    {
        let k: usize = if big_endian { n - 1 - i } else { i };
        let d: u8 = if k < digits.len() { digits[k] } else { 0 };
        if is_bits {
            limbs.push(Value::Bool(d != 0));
        } else {
            proof {
                vstd::arithmetic::power2::lemma2_to64();
            }
            limbs.push(Value::Int(IntValue { signed: false, bits: 8, value: BigInt::from_u128(d as u128) }));
        }
        i = i + 1;
    }
    let result = Value::Array(limbs);
    proof {
        lemma_value_models(result);
        assert(value_models(limbs@) =~= expected);
    }
    Ok(result)
}

/// The value of little-endian digits in base `radix`.
pub open spec fn digits_value(digits: Seq<u8>, radix: nat) -> nat
    decreases digits.len(),
{
    if digits.len() == 0 {
        0
    } else {
        digits[0] as nat + radix * digits_value(digits.drop_first(), radix)
    }
}

/// A decomposition loses nothing: its digits are each below the radix and recompose to the
/// value decomposed.
pub proof fn law_radix_digits_recompose(n: nat, radix: nat)
    requires
        2 <= radix <= 256,
    ensures
        digits_value(radix_digits(n, radix), radix) == n,
        forall|k: int| 0 <= k < radix_digits(n, radix).len() ==> (#[trigger] radix_digits(n, radix)[k]) < radix,
    decreases n,
{
    if n > 0 {
        vstd::arithmetic::div_mod::lemma_div_decreases(n as int, radix as int);
        law_radix_digits_recompose(n / radix, radix);
        let ds = radix_digits(n, radix);
        assert(ds.drop_first() =~= radix_digits(n / radix, radix));
        vstd::arithmetic::div_mod::lemma_fundamental_div_mod(n as int, radix as int);
        assert forall|k: int| 0 <= k < ds.len() implies (#[trigger] ds[k]) < radix by {
            if k > 0 {
                assert(ds[k] == radix_digits(n / radix, radix)[k - 1]);
            }
        }
    }
}


/// A value has at most `count` digits in base `radix` exactly when it is below `radix^count`.
pub proof fn lemma_radix_digits_fit(n: nat, radix: nat, count: nat)
    requires
        2 <= radix,
    ensures
        radix_digits(n, radix).len() <= count <==> n < vstd::arithmetic::power::pow(radix as int, count),
    decreases count,
{
    vstd::arithmetic::power::lemma_pow_positive(radix as int, count);
    if n == 0 {
    } else if count == 0 {
        vstd::arithmetic::power::lemma_pow0(radix as int);
    } else {
        vstd::arithmetic::div_mod::lemma_div_decreases(n as int, radix as int);
        lemma_radix_digits_fit(n / radix, radix, (count - 1) as nat);
        vstd::arithmetic::power::lemma_pow_adds(radix as int, 1, (count - 1) as nat);
        vstd::arithmetic::power::lemma_pow1(radix as int);
        let m = vstd::arithmetic::power::pow(radix as int, (count - 1) as nat);
        vstd::arithmetic::power::lemma_pow_positive(radix as int, (count - 1) as nat);
        vstd::arithmetic::div_mod::lemma_fundamental_div_mod(n as int, radix as int);
        assert((n / radix < m) <==> (n < radix * m)) by (nonlinear_arith)
            requires
                n == radix * (n / radix) + n % radix,
                0 <= n % radix < radix,
                radix >= 2,
                m > 0,
        ;
        assert(radix * m == vstd::arithmetic::power::pow(radix as int, count));
    }
}

/// A decomposition into the limbs of an array of `count` fails exactly when the value is at
/// least `radix^count`.
pub proof fn law_to_radix_fails_exactly_when_too_large(
    args: Seq<ValueModel>,
    big_endian: bool,
    is_bits: bool,
    return_type: Type,
    location: Location,
)
    requires
        args.len() > 0,
        args[0] matches ValueModel::Field(_, x) && x >= 0,
        radix_model(args, is_bits) matches Ok(radix) && 2 <= radix <= 256,
        return_type is Array,
    ensures
        to_radix_model(args, big_endian, is_bits, return_type, location) is Err <==> args[0]->Field_1
            >= vstd::arithmetic::power::pow(radix_model(args, is_bits)->Ok_0 as int, return_type->Array_0 as nat),
{
    lemma_radix_digits_fit(args[0]->Field_1 as nat, radix_model(args, is_bits)->Ok_0, return_type->Array_0 as nat);
}

/// The digit a limb stands for: a bit's 0 or 1, or a byte's value.
pub open spec fn limb_digit(l: ValueModel) -> int {
    match l {
        ValueModel::Bool(b) => if b { 1 } else { 0 },
        ValueModel::Int(_, _, x) => x,
        _ => 0,
    }
}

/// The digits the limbs stand for, in order.
pub open spec fn limb_digits(ls: Seq<ValueModel>) -> Seq<u8> {
    Seq::new(ls.len(), |i: int| limb_digit(ls[i]) as u8)
}

/// `digits` padded with zeros to `n` digits.
pub open spec fn padded_digits(digits: Seq<u8>, n: nat) -> Seq<u8> {
    Seq::new(n, |i: int| digit_at(digits, i))
}

/// Padding digits with zeros does not change their value.
proof fn lemma_padded_value(digits: Seq<u8>, n: nat, radix: nat)
    requires
        digits.len() <= n,
    ensures
        digits_value(padded_digits(digits, n), radix) == digits_value(digits, radix),
    decreases n,
{
    if n > 0 {
        let p = padded_digits(digits, n);
        if digits.len() == 0 {
            assert(p.drop_first() =~= padded_digits(digits, (n - 1) as nat));
            lemma_padded_value(digits, (n - 1) as nat, radix);
            assert(p[0] == 0);
            assert(digits_value(p.drop_first(), radix) == 0);
            assert(radix * 0 == 0) by (nonlinear_arith);
        } else {
            assert(p[0] == digits[0]);
            assert(p.drop_first() =~= padded_digits(digits.drop_first(), (n - 1) as nat));
            lemma_padded_value(digits.drop_first(), (n - 1) as nat, radix);
        }
    }
}

/// A decomposition that succeeds gives exactly as many limbs as the array holds, each a digit
/// below the radix, whose little-endian value is the value decomposed; the big-endian result is
/// the little-endian one reversed.
pub proof fn law_to_radix_limbs(args: Seq<ValueModel>, is_bits: bool, return_type: Type, location: Location)
    requires
        args.len() > 0,
        args[0] matches ValueModel::Field(_, x) && x >= 0,
        radix_model(args, is_bits) matches Ok(radix) && 2 <= radix <= 256,
        return_type is Array,
        to_radix_model(args, false, is_bits, return_type, location) is Ok,
    ensures
        ({
            let radix = radix_model(args, is_bits)->Ok_0;
            let little = to_radix_model(args, false, is_bits, return_type, location)->Ok_0->Array_0;
            &&& little.len() == return_type->Array_0
            &&& forall|i: int| 0 <= i < little.len() ==> 0 <= limb_digit(#[trigger] little[i]) < radix
            &&& digits_value(limb_digits(little), radix) == args[0]->Field_1
            &&& to_radix_model(args, true, is_bits, return_type, location) == Ok::<ValueModel, ErrorModel>(
                ValueModel::Array(little.reverse()),
            )
        }),
{
    let radix = radix_model(args, is_bits)->Ok_0;
    let x = args[0]->Field_1 as nat;
    let n = return_type->Array_0 as nat;
    let ds = radix_digits(x, radix);
    law_radix_digits_recompose(x, radix);
    let little = radix_limbs(ds, n, false, is_bits);
    assert forall|i: int| 0 <= i < little.len() implies 0 <= limb_digit(#[trigger] little[i]) < radix
        && limb_digit(little[i]) == digit_at(ds, i) by {
        if 0 <= i < ds.len() {
            assert(ds[i] < radix);
        }
    }
    assert(limb_digits(little) =~= padded_digits(ds, n));
    lemma_padded_value(ds, n, radix);
    assert(radix_limbs(ds, n, true, is_bits) =~= little.reverse());
}

/// The error of a black box that refuses its inputs, carrying the solver's message.
pub open spec fn black_box_error(text: Seq<char>) -> ErrorModel {
    ErrorModel::ValueOutOfRange("black box: "@ + text)
}

/// A black-box failure: well-typed inputs can still break a black box's value constraints.
pub fn black_box_failure(text: &str) -> (r: InterpretError)
    ensures
        r.model() == black_box_error(text@),
{
    InterpretError::ValueOutOfRange(cat("black box: ", text))
}

/// The word an array element denotes for a black box over `bits`-bit words: an unsigned
/// integer whose value fits.
pub open spec fn word_model(m: ValueModel, bits: nat) -> Result<u64, ErrorModel> {
    match m {
        ValueModel::Int(false, _, v) => if 0 <= v < pow2(bits) && v <= u64::MAX {
            Ok(v as u64)
        } else {
            Err(ErrorModel::Type("array element "@ + int_decimal(v) + " does not fit the black box's word"@))
        },
        _ => Err(ErrorModel::Type("expected an unsigned integer array element, got "@ + model_debug(m))),
    }
}

/// The words of the elements `xs` from `i` on, or the error of the first that is not one.
pub open spec fn words_from(xs: Seq<ValueModel>, bits: nat, i: nat) -> Result<Seq<u64>, ErrorModel>
    decreases xs.len() - i,
{
    if i >= xs.len() {
        Ok(Seq::empty())
    } else {
        match word_model(xs[i as int], bits) {
            Ok(w) => match words_from(xs, bits, i + 1) {
                Ok(rest) => Ok(seq![w] + rest),
                Err(e) => Err(e),
            },
            Err(e) => Err(e),
        }
    }
}

/// The words of an array value for a black box over `bits`-bit words.
pub open spec fn words_model(m: ValueModel, bits: nat) -> Result<Seq<u64>, ErrorModel> {
    match m {
        ValueModel::Array(xs) => words_from(xs, bits, 0),
        _ => Err(ErrorModel::Type("expected a slice/array, got "@ + model_debug(m))),
    }
}

/// The elements of an unsigned integer array as machine words of `bits` bits (8, 32 or 64).
#[verifier::loop_isolation(false)]
pub fn words(value: Value, bits: u32) -> (r: Result<Vec<u64>, InterpretError>)
    requires
        bits == 8 || bits == 32 || bits == 64,
    ensures
        match words_model(value.model(), bits as nat) {
            Ok(ws) => r matches Ok(v) && v@ == ws,
            Err(e) => r matches Err(x) && x.model() == e,
        },
{
    proof {
        lemma_value_models(value);
        vstd::arithmetic::power2::lemma2_to64();
    }
    let ghost vm = value.model();
    let elements = match into_array(value) {
        Ok(v) => v,
        Err(e) => return Err(e),
    };
    let ghost xs = value_models(elements@);
    let limit: u64 = if bits == 8 { 255 } else if bits == 32 { 0xffff_ffff } else { 0xffff_ffff_ffff_ffff };
    assert(limit == pow2(bits as nat) - 1);
    let mut out: Vec<u64> = Vec::new();
    let mut i: usize = 0;
    while i < elements.len()
        invariant
            i <= elements@.len(),
            xs == value_models(elements@),
            vm == ValueModel::Array(xs),
            limit == pow2(bits as nat) - 1,
            words_from(xs, bits as nat, 0) == (match words_from(xs, bits as nat, i as nat) {
                Ok(rest) => Ok(out@ + rest),
                Err(e) => Err::<Seq<u64>, ErrorModel>(e),
            }),
        decreases elements@.len() - i,
    {
        let w: u64 = match &elements[i] {
            Value::Int(iv) => {
                if iv.signed {
                    return Err(InterpretError::Type(cat("expected an unsigned integer array element, got ", elements[i].debug_text().as_str())));
                }
                let fits = match iv.value.to_u64() {
                    Some(w) => w <= limit,
                    None => false,
                };
                if !fits {
                    let mut m = owned("array element ");
                    append(&mut m, iv.value.to_decimal().as_str());
                    append(&mut m, " does not fit the black box's word");
                    return Err(InterpretError::Type(m));
                }
                iv.value.to_u64().unwrap()
            },
            other => return Err(InterpretError::Type(cat("expected an unsigned integer array element, got ", other.debug_text().as_str()))),
        };
        proof {
            let r = words_from(xs, bits as nat, i as nat + 1);
            if r is Ok {
                assert(out@ + (seq![w] + r->Ok_0) =~= out@.push(w) + r->Ok_0);
            }
        }
        out.push(w);
        i = i + 1;
    }
    assert(out@ + Seq::<u64>::empty() =~= out@);
    Ok(out)
}

/// The error for a black-box argument of the wrong length.
pub open spec fn length_error(what: Seq<char>, n: nat) -> ErrorModel {
    ErrorModel::Type(what + " is not "@ + nat_decimal(n) + " elements long"@)
}

/// The values, which must be exactly `N` of them.
pub fn fixed<const N: usize, T>(values: Vec<T>, what: &str) -> (r: Result<Vec<T>, InterpretError>)
    ensures
        values@.len() == N ==> (r matches Ok(v) && v@ == values@),
        values@.len() != N ==> (r matches Err(e) && e.model() == length_error(what@, N as nat)),
{
    if values.len() != N {
        let mut m = owned(what);
        append(&mut m, " is not ");
        append(&mut m, u64_decimal(N as u64).as_str());
        append(&mut m, " elements long");
        return Err(InterpretError::Type(m));
    }
    Ok(values)
}

/// An array of `bits`-bit unsigned integers holding the words.
pub open spec fn word_array_model(ws: Seq<u64>, bits: u8) -> ValueModel {
    ValueModel::Array(Seq::new(ws.len(), |i: int| ValueModel::Int(false, bits, wrapped(false, bits as nat, ws[i] as int))))
}

/// The words as an array of `bits`-bit unsigned integers.
pub fn word_array(ws: Vec<u64>, bits: u8) -> (r: Value)
    ensures
        r.model() == word_array_model(ws@, bits),
{
    let mut out: Vec<Value> = Vec::new();
    let mut i: usize = 0;
    while i < ws.len()
        invariant
            i <= ws@.len(),
            out@.len() == i,
            forall|j: int| 0 <= j < i ==> #[trigger] out@[j].model() == ValueModel::Int(false, bits,
                wrapped(false, bits as nat, ws@[j] as int)),
        decreases ws@.len() - i,
    {
        let w = BigInt::from_u128(ws[i] as u128);
        out.push(Value::Int(IntValue::canonical(false, bits, &w)));
        i = i + 1;
    }
    let result = Value::Array(out);
    proof {
        lemma_value_models(result);
        assert(value_models(out@) =~= word_array_model(ws@, bits)->Array_0);
    }
    result
}


/// The state after one SHA-256 compression of a 16-word block into an 8-word state.
pub uninterp spec fn sha256_compression_of(state: Seq<u32>, block: Seq<u32>) -> Seq<u32>;

/// The Keccak-f[1600] permutation of a 25-lane state.
pub uninterp spec fn keccakf1600_of(state: Seq<u64>) -> Seq<u64>;

/// The BLAKE2s-256 digest of some bytes.
pub uninterp spec fn blake2s_of(input: Seq<u8>) -> Seq<u8>;

/// The BLAKE3 digest of some bytes.
pub uninterp spec fn blake3_of(input: Seq<u8>) -> Seq<u8>;

/// AES-128 in CBC mode, without padding, of whole blocks under an IV and a key.
pub uninterp spec fn aes128_encrypt_of(input: Seq<u8>, iv: Seq<u8>, key: Seq<u8>) -> Result<Seq<u8>, Seq<char>>;

/// Whether an ECDSA signature over secp256k1 verifies for a hashed message and public key.
pub uninterp spec fn ecdsa_secp256k1_of(hashed_message: Seq<u8>, x: Seq<u8>, y: Seq<u8>, signature: Seq<u8>) -> Result<bool, Seq<char>>;

/// Whether an ECDSA signature over secp256r1 verifies for a hashed message and public key.
pub uninterp spec fn ecdsa_secp256r1_of(hashed_message: Seq<u8>, x: Seq<u8>, y: Seq<u8>, signature: Seq<u8>) -> Result<bool, Seq<char>>;

/// `acvm_blackbox_solver::sha256_compression`: compresses the block into the state in place;
/// the new state is named [`sha256_compression_of`].
#[verifier::external_body]
fn solver_sha256_compression(state: &Vec<u32>, block: &Vec<u32>) -> (r: Vec<u32>)
    requires
        state@.len() == 8,
        block@.len() == 16,
    ensures
        r@ == sha256_compression_of(state@, block@),
        r@.len() == 8,
{
    let mut s: [u32; 8] = state.as_slice().try_into().unwrap();
    let b: [u32; 16] = block.as_slice().try_into().unwrap();
    blackbox_solver::sha256_compression(&mut s, &b);
    s.to_vec()
}

/// `acvm_blackbox_solver::keccakf1600`: the permuted state, named [`keccakf1600_of`]; the source
/// never returns its error.
#[verifier::external_body]
fn solver_keccakf1600(state: &Vec<u64>) -> (r: Result<Vec<u64>, String>)
    requires
        state@.len() == 25,
    ensures
        r is Ok,
        r is Ok ==> r->Ok_0@ == keccakf1600_of(state@) && r->Ok_0@.len() == 25,
{
    let s: [u64; 25] = state.as_slice().try_into().unwrap();
    blackbox_solver::keccakf1600(s).map(|out| out.to_vec()).map_err(|e| e.to_string())
}

/// `acvm_blackbox_solver::blake2s`: the 32-byte digest, named [`blake2s_of`]; the source never
/// returns its error.
#[verifier::external_body]
fn solver_blake2s(input: &Vec<u8>) -> (r: Result<Vec<u8>, String>)
    ensures
        r is Ok,
        r is Ok ==> r->Ok_0@ == blake2s_of(input@) && r->Ok_0@.len() == 32,
{
    blackbox_solver::blake2s(input).map(|out| out.to_vec()).map_err(|e| e.to_string())
}

/// `acvm_blackbox_solver::blake3`: the 32-byte digest, named [`blake3_of`]; the source never
/// returns its error.
#[verifier::external_body]
fn solver_blake3(input: &Vec<u8>) -> (r: Result<Vec<u8>, String>)
    ensures
        r is Ok,
        r is Ok ==> r->Ok_0@ == blake3_of(input@) && r->Ok_0@.len() == 32,
{
    blackbox_solver::blake3(input).map(|out| out.to_vec()).map_err(|e| e.to_string())
}

/// `acvm_blackbox_solver::aes128_encrypt`: fails exactly when the input is not whole 16-byte
/// blocks; otherwise the ciphertext, as long as the input, named [`aes128_encrypt_of`].
#[verifier::external_body]
fn solver_aes128_encrypt(input: &Vec<u8>, iv: &Vec<u8>, key: &Vec<u8>) -> (r: Result<Vec<u8>, String>)
    requires
        iv@.len() == 16,
        key@.len() == 16,
    ensures
        r is Ok <==> input@.len() % 16 == 0,
        r matches Ok(v) ==> aes128_encrypt_of(input@, iv@, key@) is Ok && aes128_encrypt_of(input@, iv@, key@)->Ok_0 == v@
            && v@.len() == input@.len(),
        r matches Err(t) ==> aes128_encrypt_of(input@, iv@, key@) is Err && aes128_encrypt_of(input@, iv@, key@)->Err_0 == t@,
{
    let iv: [u8; 16] = iv.as_slice().try_into().unwrap();
    let key: [u8; 16] = key.as_slice().try_into().unwrap();
    blackbox_solver::aes128_encrypt(input, iv, key).map_err(|e| e.to_string())
}

/// `acvm_blackbox_solver::ecdsa_secp256k1_verify`: the verdict, or the error's display, named
/// [`ecdsa_secp256k1_of`].
#[verifier::external_body]
fn solver_ecdsa_secp256k1(msg: &Vec<u8>, x: &Vec<u8>, y: &Vec<u8>, signature: &Vec<u8>) -> (r: Result<bool, String>)
    requires
        msg@.len() == 32,
        x@.len() == 32,
        y@.len() == 32,
        signature@.len() == 64,
    ensures
        r matches Ok(b) ==> ecdsa_secp256k1_of(msg@, x@, y@, signature@) is Ok && ecdsa_secp256k1_of(msg@, x@, y@, signature@)->Ok_0 == b,
        r matches Err(t) ==> ecdsa_secp256k1_of(msg@, x@, y@, signature@) is Err && ecdsa_secp256k1_of(msg@, x@, y@, signature@)->Err_0
            == t@,
{
    let msg: [u8; 32] = msg.as_slice().try_into().unwrap();
    let x: [u8; 32] = x.as_slice().try_into().unwrap();
    let y: [u8; 32] = y.as_slice().try_into().unwrap();
    let signature: [u8; 64] = signature.as_slice().try_into().unwrap();
    blackbox_solver::ecdsa_secp256k1_verify(&msg, &x, &y, &signature).map_err(|e| e.to_string())
}

/// `acvm_blackbox_solver::ecdsa_secp256r1_verify`: the verdict, or the error's display, named
/// [`ecdsa_secp256r1_of`].
#[verifier::external_body]
fn solver_ecdsa_secp256r1(msg: &Vec<u8>, x: &Vec<u8>, y: &Vec<u8>, signature: &Vec<u8>) -> (r: Result<bool, String>)
    requires
        msg@.len() == 32,
        x@.len() == 32,
        y@.len() == 32,
        signature@.len() == 64,
    ensures
        r matches Ok(b) ==> ecdsa_secp256r1_of(msg@, x@, y@, signature@) is Ok && ecdsa_secp256r1_of(msg@, x@, y@, signature@)->Ok_0 == b,
        r matches Err(t) ==> ecdsa_secp256r1_of(msg@, x@, y@, signature@) is Err && ecdsa_secp256r1_of(msg@, x@, y@, signature@)->Err_0
            == t@,
{
    let msg: [u8; 32] = msg.as_slice().try_into().unwrap();
    let x: [u8; 32] = x.as_slice().try_into().unwrap();
    let y: [u8; 32] = y.as_slice().try_into().unwrap();
    let signature: [u8; 64] = signature.as_slice().try_into().unwrap();
    blackbox_solver::ecdsa_secp256r1_verify(&msg, &x, &y, &signature).map_err(|e| e.to_string())
}

/// Narrow words known to fit 32 bits.
pub open spec fn narrow32(ws: Seq<u64>) -> Seq<u32> {
    Seq::new(ws.len(), |i: int| ws[i] as u32)
}

/// Narrow words known to fit 8 bits.
pub open spec fn narrow8(ws: Seq<u64>) -> Seq<u8> {
    Seq::new(ws.len(), |i: int| ws[i] as u8)
}

/// Widen 32-bit words.
pub open spec fn widen32(ws: Seq<u32>) -> Seq<u64> {
    Seq::new(ws.len(), |i: int| ws[i] as u64)
}

/// Widen bytes.
pub open spec fn widen8(ws: Seq<u8>) -> Seq<u64> {
    Seq::new(ws.len(), |i: int| ws[i] as u64)
}

fn to_u32s(ws: &Vec<u64>) -> (r: Vec<u32>)
    requires
        forall|i: int| 0 <= i < ws@.len() ==> #[trigger] ws@[i] <= u32::MAX,
    ensures
        r@ == narrow32(ws@),
{
    let mut out: Vec<u32> = Vec::new();
    let mut i: usize = 0;
    while i < ws.len()
        invariant
            i <= ws@.len(),
            forall|k: int| 0 <= k < ws@.len() ==> #[trigger] ws@[k] <= u32::MAX,
            out@ == narrow32(ws@.take(i as int)),
        decreases ws@.len() - i,
    {
        out.push(ws[i] as u32);
        assert(narrow32(ws@.take(i as int + 1)) =~= narrow32(ws@.take(i as int)).push(ws@[i as int] as u32));
        i = i + 1;
    }
    assert(ws@.take(ws@.len() as int) =~= ws@);
    out
}

pub(crate) fn to_u8s(ws: &Vec<u64>) -> (r: Vec<u8>)
    requires
        forall|i: int| 0 <= i < ws@.len() ==> #[trigger] ws@[i] <= u8::MAX,
    ensures
        r@ == narrow8(ws@),
{
    let mut out: Vec<u8> = Vec::new();
    let mut i: usize = 0;
    while i < ws.len()
        invariant
            i <= ws@.len(),
            forall|k: int| 0 <= k < ws@.len() ==> #[trigger] ws@[k] <= u8::MAX,
            out@ == narrow8(ws@.take(i as int)),
        decreases ws@.len() - i,
    {
        out.push(ws[i] as u8);
        assert(narrow8(ws@.take(i as int + 1)) =~= narrow8(ws@.take(i as int)).push(ws@[i as int] as u8));
        i = i + 1;
    }
    assert(ws@.take(ws@.len() as int) =~= ws@);
    out
}

fn from_u32s(ws: &Vec<u32>) -> (r: Vec<u64>)
    ensures
        r@ == widen32(ws@),
{
    let mut out: Vec<u64> = Vec::new();
    let mut i: usize = 0;
    while i < ws.len()
        invariant
            i <= ws@.len(),
            out@ == widen32(ws@.take(i as int)),
        decreases ws@.len() - i,
    {
        out.push(ws[i] as u64);
        assert(widen32(ws@.take(i as int + 1)) =~= widen32(ws@.take(i as int)).push(ws@[i as int] as u64));
        i = i + 1;
    }
    assert(ws@.take(ws@.len() as int) =~= ws@);
    out
}

fn from_u8s(ws: &Vec<u8>) -> (r: Vec<u64>)
    ensures
        r@ == widen8(ws@),
{
    let mut out: Vec<u64> = Vec::new();
    let mut i: usize = 0;
    while i < ws.len()
        invariant
            i <= ws@.len(),
            out@ == widen8(ws@.take(i as int)),
        decreases ws@.len() - i,
    {
        out.push(ws[i] as u64);
        assert(widen8(ws@.take(i as int + 1)) =~= widen8(ws@.take(i as int)).push(ws@[i as int] as u64));
        i = i + 1;
    }
    assert(ws@.take(ws@.len() as int) =~= ws@);
    out
}

/// Every word of a successful decoding fits the word size.
proof fn lemma_words_fit(xs: Seq<ValueModel>, bits: nat, i: nat)
    requires
        words_from(xs, bits, i) is Ok,
        bits <= 64,
    ensures
        forall|k: int| 0 <= k < words_from(xs, bits, i)->Ok_0.len() ==> (#[trigger] words_from(xs, bits, i)->Ok_0[k]) < pow2(bits),
    decreases xs.len() - i,
{
    if i < xs.len() {
        lemma_words_fit(xs, bits, i + 1);
        let ws = words_from(xs, bits, i)->Ok_0;
        assert forall|k: int| 0 <= k < ws.len() implies (#[trigger] ws[k]) < pow2(bits) by {
            if k > 0 {
                assert(ws[k] == words_from(xs, bits, i + 1)->Ok_0[k - 1]);
            }
        }
    }
}

pub(crate) proof fn lemma_words_model_fit(m: ValueModel, bits: nat)
    requires
        words_model(m, bits) is Ok,
        bits <= 64,
    ensures
        forall|k: int| 0 <= k < words_model(m, bits)->Ok_0.len() ==> (#[trigger] words_model(m, bits)->Ok_0[k]) < pow2(bits),
{
    lemma_words_fit(m->Array_0, bits, 0);
}

/// `sha256_compression(input, state)`: one compression round over `u32` words.
pub open spec fn sha256_compression_model(args: Seq<ValueModel>) -> Result<ValueModel, ErrorModel> {
    if args.len() != 2 {
        Err(arity_error(args.len(), 2))
    } else {
        match words_model(args[0], 32) {
            Err(e) => Err(e),
            Ok(block) => if block.len() != 16 {
                Err(length_error("sha256 block"@, 16))
            } else {
                match words_model(args[1], 32) {
                    Err(e) => Err(e),
                    Ok(state) => if state.len() != 8 {
                        Err(length_error("sha256 state"@, 8))
                    } else {
                        Ok(word_array_model(widen32(sha256_compression_of(narrow32(state), narrow32(block))), 32))
                    },
                }
            },
        }
    }
}

/// One SHA-256 compression round.
pub fn sha256_compression(args: Vec<Value>) -> (r: Result<Value, InterpretError>)
    ensures
        result_model(r) == sha256_compression_model(value_models(args@)),
{
    let ghost am = value_models(args@);
    let mut args = match take::<2>(args) {
        Ok(v) => v,
        Err(e) => return Err(e),
    };
    let state = args.pop().unwrap();
    let input = args.pop().unwrap();
    proof {
        vstd::arithmetic::power2::lemma2_to64();
    }
    let input = match words(input, 32) {
        Ok(v) => v,
        Err(e) => return Err(e),
    };
    proof {
        lemma_words_model_fit(am[0], 32);
    }
    let input = match fixed::<16, u64>(input, "sha256 block") {
        Ok(v) => v,
        Err(e) => return Err(e),
    };
    let state = match words(state, 32) {
        Ok(v) => v,
        Err(e) => return Err(e),
    };
    proof {
        lemma_words_model_fit(am[1], 32);
    }
    let state = match fixed::<8, u64>(state, "sha256 state") {
        Ok(v) => v,
        Err(e) => return Err(e),
    };
    let out = solver_sha256_compression(&to_u32s(&state), &to_u32s(&input));
    Ok(word_array(from_u32s(&out), 32))
}

/// `keccakf1600(state)`: the permutation of 25 `u64` lanes.
pub open spec fn keccakf1600_model(args: Seq<ValueModel>) -> Result<ValueModel, ErrorModel> {
    if args.len() != 1 {
        Err(arity_error(args.len(), 1))
    } else {
        match words_model(args[0], 64) {
            Err(e) => Err(e),
            Ok(state) => if state.len() != 25 {
                Err(length_error("keccak state"@, 25))
            } else {
                Ok(word_array_model(keccakf1600_of(state), 64))
            },
        }
    }
}

/// The Keccak-f[1600] permutation.
pub fn keccakf1600(args: Vec<Value>) -> (r: Result<Value, InterpretError>)
    ensures
        result_model(r) == keccakf1600_model(value_models(args@)),
{
    let mut args = match take::<1>(args) {
        Ok(v) => v,
        Err(e) => return Err(e),
    };
    let state = args.pop().unwrap();
    let state = match words(state, 64) {
        Ok(v) => v,
        Err(e) => return Err(e),
    };
    let state = match fixed::<25, u64>(state, "keccak state") {
        Ok(v) => v,
        Err(e) => return Err(e),
    };
    match solver_keccakf1600(&state) {
        Ok(out) => Ok(word_array(out, 64)),
        Err(e) => Err(black_box_failure(e.as_str())),
    }
}

/// The byte hashes a program can call.
#[derive(Clone, Copy, Debug, PartialEq, Eq, Structural)]
pub enum HashFunction {
    Blake2s,
    Blake3,
}

/// The digest a hash function gives.
pub open spec fn digest_of(hash: HashFunction, input: Seq<u8>) -> Seq<u8> {
    match hash {
        HashFunction::Blake2s => blake2s_of(input),
        HashFunction::Blake3 => blake3_of(input),
    }
}

/// `blake2s(input)` / `blake3(input)`: the 32-byte digest of a byte array.
pub open spec fn hash_bytes_model(args: Seq<ValueModel>, hash: HashFunction) -> Result<ValueModel, ErrorModel> {
    if args.len() != 1 {
        Err(arity_error(args.len(), 1))
    } else {
        match words_model(args[0], 8) {
            Err(e) => Err(e),
            Ok(input) => Ok(word_array_model(widen8(digest_of(hash, narrow8(input))), 8)),
        }
    }
}

/// A 32-byte digest of a byte array.
pub fn hash_bytes(args: Vec<Value>, hash: HashFunction) -> (r: Result<Value, InterpretError>)
    ensures
        result_model(r) == hash_bytes_model(value_models(args@), hash),
{
    let ghost am = value_models(args@);
    let mut args = match take::<1>(args) {
        Ok(v) => v,
        Err(e) => return Err(e),
    };
    let input = args.pop().unwrap();
    proof {
        vstd::arithmetic::power2::lemma2_to64();
    }
    let input = match words(input, 8) {
        Ok(v) => v,
        Err(e) => return Err(e),
    };
    proof {
        lemma_words_model_fit(am[0], 8);
    }
    let bytes = to_u8s(&input);
    let digest = match hash {
        HashFunction::Blake2s => solver_blake2s(&bytes),
        HashFunction::Blake3 => solver_blake3(&bytes),
    };
    match digest {
        Ok(d) => Ok(word_array(from_u8s(&d), 8)),
        Err(e) => Err(black_box_failure(e.as_str())),
    }
}

/// `aes128_encrypt(input, iv, key)` over whole blocks: the ciphertext, or a black-box failure
/// when the input is not whole blocks.
pub open spec fn aes128_encrypt_model(args: Seq<ValueModel>) -> Result<ValueModel, ErrorModel> {
    if args.len() != 3 {
        Err(arity_error(args.len(), 3))
    } else {
        match words_model(args[0], 8) {
            Err(e) => Err(e),
            Ok(input) => match words_model(args[1], 8) {
                Err(e) => Err(e),
                Ok(iv) => if iv.len() != 16 {
                    Err(length_error("aes iv"@, 16))
                } else {
                    match words_model(args[2], 8) {
                        Err(e) => Err(e),
                        Ok(key) => if key.len() != 16 {
                            Err(length_error("aes key"@, 16))
                        } else if input.len() % 16 != 0 {
                            Err(black_box_error(aes128_encrypt_of(narrow8(input), narrow8(iv), narrow8(key))->Err_0))
                        } else {
                            Ok(word_array_model(widen8(aes128_encrypt_of(narrow8(input), narrow8(iv), narrow8(key))->Ok_0), 8))
                        },
                    }
                },
            },
        }
    }
}

/// AES-128 encryption of whole blocks.
pub fn aes128_encrypt(args: Vec<Value>) -> (r: Result<Value, InterpretError>)
    ensures
        result_model(r) == aes128_encrypt_model(value_models(args@)),
{
    let ghost am = value_models(args@);
    let mut args = match take::<3>(args) {
        Ok(v) => v,
        Err(e) => return Err(e),
    };
    let key = args.pop().unwrap();
    let iv = args.pop().unwrap();
    let input = args.pop().unwrap();
    proof {
        vstd::arithmetic::power2::lemma2_to64();
    }
    let input = match words(input, 8) {
        Ok(v) => v,
        Err(e) => return Err(e),
    };
    let iv = match words(iv, 8) {
        Ok(v) => v,
        Err(e) => return Err(e),
    };
    let iv = match fixed::<16, u64>(iv, "aes iv") {
        Ok(v) => v,
        Err(e) => return Err(e),
    };
    let key = match words(key, 8) {
        Ok(v) => v,
        Err(e) => return Err(e),
    };
    let key = match fixed::<16, u64>(key, "aes key") {
        Ok(v) => v,
        Err(e) => return Err(e),
    };
    proof {
        lemma_words_model_fit(am[0], 8);
        lemma_words_model_fit(am[1], 8);
        lemma_words_model_fit(am[2], 8);
    }
    match solver_aes128_encrypt(&to_u8s(&input), &to_u8s(&iv), &to_u8s(&key)) {
        Ok(out) => Ok(word_array(from_u8s(&out), 8)),
        Err(e) => Err(black_box_failure(e.as_str())),
    }
}

/// The ECDSA curves a program can verify signatures over.
#[derive(Clone, Copy, Debug, PartialEq, Eq, Structural)]
pub enum EcdsaCurve {
    Secp256k1,
    Secp256r1,
}

/// The verdict on a signature over a curve, or the solver's refusal.
pub open spec fn ecdsa_valid(curve: EcdsaCurve, msg: Seq<u8>, x: Seq<u8>, y: Seq<u8>, signature: Seq<u8>) -> Result<bool, Seq<char>> {
    match curve {
        EcdsaCurve::Secp256k1 => ecdsa_secp256k1_of(msg, x, y, signature),
        EcdsaCurve::Secp256r1 => ecdsa_secp256r1_of(msg, x, y, signature),
    }
}

/// `ecdsa_*(public_key_x, public_key_y, signature, hashed_message, predicate)`: a false
/// predicate skips the check and reports the signature valid.
pub open spec fn ecdsa_verify_model(args: Seq<ValueModel>, curve: EcdsaCurve) -> Result<ValueModel, ErrorModel> {
    if args.len() != 5 {
        Err(arity_error(args.len(), 5))
    } else {
        match args[4] {
            ValueModel::Bool(false) => Ok(ValueModel::Bool(true)),
            ValueModel::Bool(true) => match words_model(args[3], 8) {
                Err(e) => Err(e),
                Ok(msg) => if msg.len() != 32 {
                    Err(length_error("hashed message"@, 32))
                } else {
                    match words_model(args[0], 8) {
                        Err(e) => Err(e),
                        Ok(x) => if x.len() != 32 {
                            Err(length_error("public key x"@, 32))
                        } else {
                            match words_model(args[1], 8) {
                                Err(e) => Err(e),
                                Ok(y) => if y.len() != 32 {
                                    Err(length_error("public key y"@, 32))
                                } else {
                                    match words_model(args[2], 8) {
                                        Err(e) => Err(e),
                                        Ok(sig) => if sig.len() != 64 {
                                            Err(length_error("signature"@, 64))
                                        } else {
                                            match ecdsa_valid(curve, narrow8(msg), narrow8(x), narrow8(y), narrow8(sig)) {
                                                Ok(b) => Ok(ValueModel::Bool(b)),
                                                Err(t) => Err(black_box_error(t)),
                                            }
                                        },
                                    }
                                },
                            }
                        },
                    }
                },
            },
            other => Err(ErrorModel::Type("expected bool, got "@ + model_debug(other))),
        }
    }
}

/// Verify an ECDSA signature.
pub fn ecdsa_verify(args: Vec<Value>, curve: EcdsaCurve) -> (r: Result<Value, InterpretError>)
    ensures
        result_model(r) == ecdsa_verify_model(value_models(args@), curve),
{
    let ghost am = value_models(args@);
    let mut args = match take::<5>(args) {
        Ok(v) => v,
        Err(e) => return Err(e),
    };
    let predicate = args.pop().unwrap();
    let hashed_message = args.pop().unwrap();
    let signature = args.pop().unwrap();
    let public_key_y = args.pop().unwrap();
    let public_key_x = args.pop().unwrap();
    match predicate.as_bool() {
        Ok(true) => {},
        Ok(false) => return Ok(Value::Bool(true)),
        Err(e) => return Err(e),
    }
    proof {
        vstd::arithmetic::power2::lemma2_to64();
    }
    let msg = match words(hashed_message, 8) {
        Ok(v) => v,
        Err(e) => return Err(e),
    };
    let msg = match fixed::<32, u64>(msg, "hashed message") {
        Ok(v) => v,
        Err(e) => return Err(e),
    };
    let x = match words(public_key_x, 8) {
        Ok(v) => v,
        Err(e) => return Err(e),
    };
    let x = match fixed::<32, u64>(x, "public key x") {
        Ok(v) => v,
        Err(e) => return Err(e),
    };
    let y = match words(public_key_y, 8) {
        Ok(v) => v,
        Err(e) => return Err(e),
    };
    let y = match fixed::<32, u64>(y, "public key y") {
        Ok(v) => v,
        Err(e) => return Err(e),
    };
    let sig = match words(signature, 8) {
        Ok(v) => v,
        Err(e) => return Err(e),
    };
    let sig = match fixed::<64, u64>(sig, "signature") {
        Ok(v) => v,
        Err(e) => return Err(e),
    };
    proof {
        lemma_words_model_fit(am[0], 8);
        lemma_words_model_fit(am[1], 8);
        lemma_words_model_fit(am[2], 8);
        lemma_words_model_fit(am[3], 8);
    }
    let (m8, x8, y8, s8) = (to_u8s(&msg), to_u8s(&x), to_u8s(&y), to_u8s(&sig));
    let verdict = match curve {
        EcdsaCurve::Secp256k1 => solver_ecdsa_secp256k1(&m8, &x8, &y8, &s8),
        EcdsaCurve::Secp256r1 => solver_ecdsa_secp256r1(&m8, &x8, &y8, &s8),
    };
    match verdict {
        Ok(valid) => Ok(Value::Bool(valid)),
        Err(e) => Err(black_box_failure(e.as_str())),
    }
}


/// The only argument of a call, passed through.
pub open spec fn identity_model(args: Seq<ValueModel>) -> Result<ValueModel, ErrorModel> {
    if args.len() != 1 {
        Err(arity_error(args.len(), 1))
    } else {
        Ok(args[0])
    }
}

/// What a call of the builtin `name` gives. `return_type` supplies a decomposition's limb
/// count, `location` labels runtime assertion failures, `unconstrained` tells whether the call
/// runs in an unconstrained function, and `field` is the program's field: bn254's black boxes
/// run only under bn254.
pub open spec fn intrinsic_model(
    name: Seq<char>,
    args: Seq<ValueModel>,
    return_type: Type,
    location: Location,
    unconstrained: bool,
    field: FieldId,
) -> Result<ValueModel, ErrorModel> {
    if name == "array_len"@ {
        array_len_model(args)
    } else if name == "as_vector"@ {
        identity_model(args)
    } else if name == "vector_push_back"@ {
        vector_push_model(args, true)
    } else if name == "vector_push_front"@ {
        vector_push_model(args, false)
    } else if name == "vector_pop_back"@ {
        vector_pop_back_model(args, location)
    } else if name == "vector_pop_front"@ {
        vector_pop_front_model(args, location)
    } else if name == "vector_insert"@ {
        vector_insert_model(args, location)
    } else if name == "vector_remove"@ {
        vector_remove_model(args, location)
    } else if name == "str_as_bytes"@ {
        str_as_bytes_model(args)
    } else if name == "array_as_str_unchecked"@ {
        array_as_str_model(args)
    } else if name == "to_le_radix"@ {
        to_radix_model(args, false, false, return_type, location)
    } else if name == "to_be_radix"@ {
        to_radix_model(args, true, false, return_type, location)
    } else if name == "to_le_bits"@ {
        to_radix_model(args, false, true, return_type, location)
    } else if name == "to_be_bits"@ {
        to_radix_model(args, true, true, return_type, location)
    } else if name == "is_unconstrained"@ {
        Ok(ValueModel::Bool(unconstrained))
    } else if name == "static_assert"@ {
        static_assert_model(args, location)
    } else if name == "black_box"@ {
        identity_model(args)
    } else if name == "as_witness"@ || name == "assert_constant"@ {
        Ok(ValueModel::Unit)
    } else if name == "apply_range_constraint"@ {
        range_constraint_model(args, location)
    } else if name == "field_less_than"@ {
        field_less_than_model(args)
    } else if name == "sha256_compression"@ {
        sha256_compression_model(args)
    } else if name == "keccakf1600"@ {
        keccakf1600_model(args)
    } else if name == "blake2s"@ {
        hash_bytes_model(args, HashFunction::Blake2s)
    } else if name == "blake3"@ {
        hash_bytes_model(args, HashFunction::Blake3)
    } else if name == "aes128_encrypt"@ {
        aes128_encrypt_model(args)
    } else if name == "ecdsa_secp256k1"@ {
        ecdsa_verify_model(args, EcdsaCurve::Secp256k1)
    } else if name == "ecdsa_secp256r1"@ {
        ecdsa_verify_model(args, EcdsaCurve::Secp256r1)
    } else if name == "print"@ {
        Ok(ValueModel::Unit)
    } else if is_bn254_black_box(name) && field == FieldId::Bn254 {
        bn254_call_model(name, args, return_type)
    } else {
        Err(ErrorModel::Unsupported("intrinsic '"@ + name + "'"@))
    }
}

/// The only argument of a call.
fn single(args: Vec<Value>) -> (r: Result<Value, InterpretError>)
    ensures
        result_model(r) == identity_model(value_models(args@)),
{
    let mut args = match take::<1>(args) {
        Ok(v) => v,
        Err(e) => return Err(e),
    };
    Ok(args.pop().unwrap())
}

/// Dispatch a call of a builtin by name.
pub fn call_intrinsic(
    name: &str,
    args: Vec<Value>,
    return_type: &Type,
    location: Location,
    unconstrained: bool,
    field: FieldId,
) -> (r: Result<Value, InterpretError>)
    ensures
        result_model(r) == intrinsic_model(name@, value_models(args@), *return_type, location, unconstrained, field),
{
    if same_text(name, "array_len") {
        array_len(&args)
    } else if same_text(name, "as_vector") {
        single(args)
    } else if same_text(name, "vector_push_back") {
        vector_push(args, true)
    } else if same_text(name, "vector_push_front") {
        vector_push(args, false)
    } else if same_text(name, "vector_pop_back") {
        vector_pop_back(args, location)
    } else if same_text(name, "vector_pop_front") {
        vector_pop_front(args, location)
    } else if same_text(name, "vector_insert") {
        vector_insert(args, location)
    } else if same_text(name, "vector_remove") {
        vector_remove(args, location)
    } else if same_text(name, "str_as_bytes") {
        str_as_bytes(args)
    } else if same_text(name, "array_as_str_unchecked") {
        array_as_str_unchecked(args)
    } else if same_text(name, "to_le_radix") {
        to_radix(&args, false, false, return_type, location)
    } else if same_text(name, "to_be_radix") {
        to_radix(&args, true, false, return_type, location)
    } else if same_text(name, "to_le_bits") {
        to_radix(&args, false, true, return_type, location)
    } else if same_text(name, "to_be_bits") {
        to_radix(&args, true, true, return_type, location)
    } else if same_text(name, "is_unconstrained") {
        Ok(Value::Bool(unconstrained))
    } else if same_text(name, "static_assert") {
        static_assert(&args, location)
    } else if same_text(name, "black_box") {
        single(args)
    } else if same_text(name, "as_witness") || same_text(name, "assert_constant") {
        Ok(Value::Unit)
    } else if same_text(name, "apply_range_constraint") {
        apply_range_constraint(&args, location)
    } else if same_text(name, "field_less_than") {
        field_less_than(&args)
    } else if same_text(name, "sha256_compression") {
        sha256_compression(args)
    } else if same_text(name, "keccakf1600") {
        keccakf1600(args)
    } else if same_text(name, "blake2s") {
        hash_bytes(args, HashFunction::Blake2s)
    } else if same_text(name, "blake3") {
        hash_bytes(args, HashFunction::Blake3)
    } else if same_text(name, "aes128_encrypt") {
        aes128_encrypt(args)
    } else if same_text(name, "ecdsa_secp256k1") {
        ecdsa_verify(args, EcdsaCurve::Secp256k1)
    } else if same_text(name, "ecdsa_secp256r1") {
        ecdsa_verify(args, EcdsaCurve::Secp256r1)
    } else if same_text(name, "print") {
        Ok(Value::Unit)
    } else if (same_text(name, "multi_scalar_mul") || same_text(name, "embedded_curve_add") || same_text(
        name,
        "poseidon2_permutation",
    ) || same_text(name, "derive_pedersen_generators")) && field == FieldId::Bn254 {
        crate::bn254_crypto::call(name, args, return_type)
    } else {
        let mut m = owned("intrinsic '");
        append(&mut m, name);
        append(&mut m, "'");
        Err(InterpretError::Unsupported(m))
    }
}

} // verus!
