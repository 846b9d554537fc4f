//! Rendering values the way Noir's `print` and format strings show them.

use vstd::prelude::*;
use vstd::string::StringExecFns;

use crate::bigint::{int_decimal, nat_decimal, u64_decimal};
use crate::error::{ErrorModel, InterpretError, Location};
use crate::field::short_hex;
use crate::text::{append, bool_string, bool_text, debug_quoted, owned, quote_debug};
use crate::types::PrintableType;
use crate::value::{lemma_value_models, model_debug, value_models, Value, ValueModel};
use crate::interpreter::{field_steps, read_path, read_path_exec, steps_of};

verus! {

broadcast use vstd::string::group_string_axioms;

/// The `Debug` rendering of a printable type: `Array { length: 3, typ: Field }`.
pub open spec fn printable_debug(p: PrintableType) -> Seq<char>
    decreases p, 0nat,
{
    match p {
        PrintableType::Field => "Field"@,
        PrintableType::Array { length, typ } => "Array { length: "@ + nat_decimal(length as nat) + ", typ: "@
            + printable_debug(*typ) + " }"@,
        PrintableType::Vector { typ } => "Vector { typ: "@ + printable_debug(*typ) + " }"@,
        PrintableType::Tuple { types } => "Tuple { types: ["@ + printable_list_debug(types@, types@.len()) + "] }"@,
        PrintableType::SignedInteger { width } => "SignedInteger { width: "@ + nat_decimal(width as nat) + " }"@,
        PrintableType::UnsignedInteger { width } => "UnsignedInteger { width: "@ + nat_decimal(width as nat) + " }"@,
        PrintableType::Boolean => "Boolean"@,
        PrintableType::Struct { name, fields } => "Struct { name: "@ + debug_quoted(name@) + ", fields: ["@
            + field_list_debug(fields@, fields@.len()) + "] }"@,
        PrintableType::Enum { name, variants } => "Enum { name: "@ + debug_quoted(name@) + ", variants: ["@
            + variant_list_debug(variants@, variants@.len()) + "] }"@,
        PrintableType::String { length } => "String { length: "@ + nat_decimal(length as nat) + " }"@,
        PrintableType::FmtString { length, typ } => "FmtString { length: "@ + nat_decimal(length as nat)
            + ", typ: "@ + printable_debug(*typ) + " }"@,
        PrintableType::Function { arguments, return_type, env, unconstrained } => "Function { arguments: ["@
            + printable_list_debug(arguments@, arguments@.len()) + "], return_type: "@ + printable_debug(*return_type)
            + ", env: "@ + printable_debug(*env) + ", unconstrained: "@ + bool_text(unconstrained) + " }"@,
        PrintableType::Reference { typ, mutable } => "Reference { typ: "@ + printable_debug(*typ) + ", mutable: "@
            + bool_text(mutable) + " }"@,
        PrintableType::Unit => "Unit"@,
    }
}

/// The `Debug` renderings of the first `n` printable types of `ts`, separated by `, `.
pub open spec fn printable_list_debug(ts: Seq<PrintableType>, n: nat) -> Seq<char>
    decreases ts, n,
{
    if n == 0 || n > ts.len() {
        Seq::empty()
    } else if n == 1 {
        printable_debug(ts[0])
    } else {
        printable_list_debug(ts, (n - 1) as nat) + ", "@ + printable_debug(ts[n - 1])
    }
}

/// The `Debug` renderings of the first `n` named fields of `fs`: `("x", Field)`.
pub open spec fn field_list_debug(fs: Seq<(String, PrintableType)>, n: nat) -> Seq<char>
    decreases fs, n,
{
    if n == 0 || n > fs.len() {
        Seq::empty()
    } else {
        let f = fs[n - 1];
        let item = "("@ + debug_quoted(f.0@) + ", "@ + printable_debug(f.1) + ")"@;
        if n == 1 {
            item
        } else {
            field_list_debug(fs, (n - 1) as nat) + ", "@ + item
        }
    }
}

/// The `Debug` renderings of the first `n` variants of `vs`: `("Some", [Field])`.
pub open spec fn variant_list_debug(vs: Seq<(String, Vec<PrintableType>)>, n: nat) -> Seq<char>
    decreases vs, n,
{
    if n == 0 || n > vs.len() {
        Seq::empty()
    } else {
        let v = vs[n - 1];
        let item = "("@ + debug_quoted(v.0@) + ", ["@ + printable_list_debug(v.1@, v.1@.len()) + "])"@;
        if n == 1 {
            item
        } else {
            variant_list_debug(vs, (n - 1) as nat) + ", "@ + item
        }
    }
}


impl PrintableType {
    /// The `Debug` rendering of this printable type, as error messages show it.
    pub fn debug_text(&self) -> (r: String)
        ensures
            r@ == printable_debug(*self),
        decreases self,
    {
        match self {
            PrintableType::Field => owned("Field"),
            PrintableType::Array { length, typ } => {
                let mut s = owned("Array { length: ");
                append(&mut s, u64_decimal(*length as u64).as_str());
                append(&mut s, ", typ: ");
                append(&mut s, typ.debug_text().as_str());
                append(&mut s, " }");
                s
            },
            PrintableType::Vector { typ } => {
                let mut s = owned("Vector { typ: ");
                append(&mut s, typ.debug_text().as_str());
                append(&mut s, " }");
                s
            },
            PrintableType::Tuple { types } => {
                let mut s = owned("Tuple { types: [");
                append(&mut s, printables_debug(types).as_str());
                append(&mut s, "] }");
                s
            },
            PrintableType::SignedInteger { width } => {
                let mut s = owned("SignedInteger { width: ");
                append(&mut s, u64_decimal(*width as u64).as_str());
                append(&mut s, " }");
                s
            },
            PrintableType::UnsignedInteger { width } => {
                let mut s = owned("UnsignedInteger { width: ");
                append(&mut s, u64_decimal(*width as u64).as_str());
                append(&mut s, " }");
                s
            },
            PrintableType::Boolean => owned("Boolean"),
            PrintableType::Struct { name, fields } => {
                let mut s = owned("Struct { name: ");
                append(&mut s, quote_debug(name.as_str()).as_str());
                append(&mut s, ", fields: [");
                append(&mut s, fields_debug(fields).as_str());
                append(&mut s, "] }");
                s
            },
            PrintableType::Enum { name, variants } => {
                let mut s = owned("Enum { name: ");
                append(&mut s, quote_debug(name.as_str()).as_str());
                append(&mut s, ", variants: [");
                append(&mut s, variants_debug(variants).as_str());
                append(&mut s, "] }");
                s
            },
            PrintableType::String { length } => {
                let mut s = owned("String { length: ");
                append(&mut s, u64_decimal(*length as u64).as_str());
                append(&mut s, " }");
                s
            },
            PrintableType::FmtString { length, typ } => {
                let mut s = owned("FmtString { length: ");
                append(&mut s, u64_decimal(*length as u64).as_str());
                append(&mut s, ", typ: ");
                append(&mut s, typ.debug_text().as_str());
                append(&mut s, " }");
                s
            },
            PrintableType::Function { arguments, return_type, env, unconstrained } => {
                let mut s = owned("Function { arguments: [");
                append(&mut s, printables_debug(arguments).as_str());
                append(&mut s, "], return_type: ");
                append(&mut s, return_type.debug_text().as_str());
                append(&mut s, ", env: ");
                append(&mut s, env.debug_text().as_str());
                append(&mut s, ", unconstrained: ");
                append(&mut s, bool_string(*unconstrained).as_str());
                append(&mut s, " }");
                s
            },
            PrintableType::Reference { typ, mutable } => {
                let mut s = owned("Reference { typ: ");
                append(&mut s, typ.debug_text().as_str());
                append(&mut s, ", mutable: ");
                append(&mut s, bool_string(*mutable).as_str());
                append(&mut s, " }");
                s
            },
            PrintableType::Unit => owned("Unit"),
        }
    }
}

fn printables_debug(ts: &Vec<PrintableType>) -> (r: String)
    ensures
        r@ == printable_list_debug(ts@, ts@.len()),
    decreases ts,
{
    let mut s = String::new();
    let mut i: usize = 0;
    while i < ts.len()
        invariant
            i <= ts.len(),
            s@ == printable_list_debug(ts@, i as nat),
        decreases ts.len() - i,
    {
        if i > 0 {
            append(&mut s, ", ");
        }
        append(&mut s, ts[i].debug_text().as_str());
        i = i + 1;
    }
    s
}

fn fields_debug(fs: &Vec<(String, PrintableType)>) -> (r: String)
    ensures
        r@ == field_list_debug(fs@, fs@.len()),
    decreases fs,
{
    let mut s = String::new();
    let mut i: usize = 0;
    while i < fs.len()
        invariant
            i <= fs.len(),
            s@ == field_list_debug(fs@, i as nat),
        decreases fs.len() - i,
    {
        if i > 0 {
            append(&mut s, ", ");
        }
        append(&mut s, "(");
        append(&mut s, quote_debug(fs[i].0.as_str()).as_str());
        append(&mut s, ", ");
        append(&mut s, fs[i].1.debug_text().as_str());
        append(&mut s, ")");
        i = i + 1;
    }
    s
}

fn variants_debug(vs: &Vec<(String, Vec<PrintableType>)>) -> (r: String)
    ensures
        r@ == variant_list_debug(vs@, vs@.len()),
    decreases vs,
{
    let mut s = String::new();
    let mut i: usize = 0;
    while i < vs.len()
        invariant
            i <= vs.len(),
            s@ == variant_list_debug(vs@, i as nat),
        decreases vs.len() - i,
    {
        if i > 0 {
            append(&mut s, ", ");
        }
        append(&mut s, "(");
        append(&mut s, quote_debug(vs[i].0.as_str()).as_str());
        append(&mut s, ", [");
        append(&mut s, printables_debug(&vs[i].1).as_str());
        append(&mut s, "])");
        i = i + 1;
    }
    s
}


/// Parts joined with `, `.
pub open spec fn comma_joined(parts: Seq<Seq<char>>) -> Seq<char>
    decreases parts.len(),
{
    if parts.len() == 0 {
        Seq::empty()
    } else if parts.len() == 1 {
        parts[0]
    } else {
        comma_joined(parts.drop_last()) + ", "@ + parts.last()
    }
}

/// The message for a value that does not fit its printable type.
pub open spec fn format_mismatch(v: ValueModel, t: PrintableType) -> Seq<char> {
    "cannot format value "@ + model_debug(v) + " as printable type "@ + printable_debug(t)
}

/// `parts` in front of the parts of `r`, or `r`'s error.
pub open spec fn prefixed(parts: Seq<Seq<char>>, r: Result<Seq<Seq<char>>, Seq<char>>) -> Result<Seq<Seq<char>>, Seq<char>> {
    match r {
        Ok(rest) => Ok(parts + rest),
        Err(e) => Err(e),
    }
}

/// The text in `open` and `close` around the joined parts, or the parts' error.
pub open spec fn enclosed(open: Seq<char>, r: Result<Seq<Seq<char>>, Seq<char>>, close: Seq<char>) -> Result<Seq<char>, Seq<char>> {
    match r {
        Ok(parts) => Ok(open + comma_joined(parts) + close),
        Err(e) => Err(e),
    }
}

/// How Noir shows the value `v` of printable type `t`: a field element in short hexadecimal,
/// an integer in decimal, sequences and tuples in brackets, structs and enum variants by name.
/// A reference of a type other than a reference's shows the value it points to in `store`,
/// following at most `budget` references. The error is the message for the innermost value that
/// does not fit its type.
pub open spec fn format_result(store: Seq<ValueModel>, budget: nat, v: ValueModel, t: PrintableType) -> Result<Seq<char>, Seq<char>>
    decreases budget, v, 0nat,
{
    let mismatch = Err(format_mismatch(v, t));
    match v {
        ValueModel::Field(_, x) => if t is Field {
            Ok(short_hex(x as nat))
        } else {
            mismatch
        },
        ValueModel::Int(_, _, x) => if t is SignedInteger || t is UnsignedInteger {
            Ok(int_decimal(x))
        } else {
            mismatch
        },
        ValueModel::Bool(b) => if t is Boolean {
            Ok(bool_text(b))
        } else {
            mismatch
        },
        ValueModel::Str(s) => if t is String || t is FmtString {
            Ok(s)
        } else {
            mismatch
        },
        ValueModel::Unit => if t is Unit {
            Ok("()"@)
        } else {
            mismatch
        },
        ValueModel::Array(xs) => match t {
            PrintableType::Array { typ, .. } => enclosed("["@, format_all(store, budget, xs, *typ, 0), "]"@),
            PrintableType::Vector { typ } => enclosed("@["@, format_all(store, budget, xs, *typ, 0), "]"@),
            _ => mismatch,
        },
        ValueModel::Tuple(xs) => match t {
            PrintableType::Tuple { types } => if xs.len() == types@.len() {
                match format_each(store, budget, xs, types@, 0) {
                    Ok(parts) => Ok("("@ + (if parts.len() == 1 { parts[0] + ","@ } else { comma_joined(parts) }) + ")"@),
                    Err(e) => Err(e),
                }
            } else {
                mismatch
            },
            PrintableType::Struct { name, fields } => if xs.len() == fields@.len() {
                enclosed(name@ + " { "@, format_fields(store, budget, xs, fields@, 0), " }"@)
            } else {
                mismatch
            },
            PrintableType::Enum { name, variants } => if xs.len() == 0 || !(xs[0] is Field) {
                mismatch
            } else {
                let tag = xs[0]->Field_1;
                if !(0 <= tag <= usize::MAX) || tag >= variants@.len() || tag + 1 >= xs.len()
                    || !(xs[tag + 1] is Tuple) {
                    mismatch
                } else {
                    let variant = variants@[tag];
                    let vals = xs[tag + 1]->Tuple_0;
                    if vals.len() != variant.1@.len() {
                        mismatch
                    } else {
                        match format_each(store, budget, vals, variant.1@, 0) {
                            Ok(parts) => Ok(name@ + "::"@ + variant.0@ + (if parts.len() == 0 {
                                Seq::empty()
                            } else {
                                "("@ + comma_joined(parts) + ")"@
                            })),
                            Err(e) => Err(e),
                        }
                    }
                }
            },
            _ => mismatch,
        },
        ValueModel::Function(_) => if t is Function {
            Ok("<<"@ + printable_debug(t) + ">>"@)
        } else {
            mismatch
        },
        ValueModel::Ref(c, fields) => match t {
            PrintableType::Reference { mutable, .. } => Ok(if mutable { "<<mutable ref>>"@ } else { "<<ref>>"@ }),
            _ => if budget > 0 && c < store.len() {
                match read_path(store[c as int], field_steps(fields), 0) {
                    Ok(x) => format_result(store, (budget - 1) as nat, x, t),
                    Err(_) => mismatch,
                }
            } else {
                mismatch
            },
        },
    }
}

/// The renderings of `xs` from `i` on, all of printable type `t`.
pub open spec fn format_all(store: Seq<ValueModel>, budget: nat, xs: Seq<ValueModel>, t: PrintableType, i: nat) -> Result<Seq<Seq<char>>, Seq<char>>
    decreases budget, xs, xs.len() - i,
{
    if i >= xs.len() {
        Ok(Seq::empty())
    } else {
        match format_result(store, budget, xs[i as int], t) {
            Ok(s) => prefixed(seq![s], format_all(store, budget, xs, t, i + 1)),
            Err(e) => Err(e),
        }
    }
}

/// The renderings of `xs` from `i` on, each of its own printable type in `ts`.
pub open spec fn format_each(store: Seq<ValueModel>, budget: nat, xs: Seq<ValueModel>, ts: Seq<PrintableType>, i: nat) -> Result<Seq<Seq<char>>, Seq<char>>
    decreases budget, xs, xs.len() - i,
{
    if i >= xs.len() || i >= ts.len() {
        Ok(Seq::empty())
    } else {
        match format_result(store, budget, xs[i as int], ts[i as int]) {
            Ok(s) => prefixed(seq![s], format_each(store, budget, xs, ts, i + 1)),
            Err(e) => Err(e),
        }
    }
}

/// The renderings `name: value` of the struct fields `xs` from `i` on.
pub open spec fn format_fields(store: Seq<ValueModel>, budget: nat, xs: Seq<ValueModel>, fs: Seq<(String, PrintableType)>, i: nat) -> Result<Seq<Seq<char>>, Seq<char>>
    decreases budget, xs, xs.len() - i,
{
    if i >= xs.len() || i >= fs.len() {
        Ok(Seq::empty())
    } else {
        match format_result(store, budget, xs[i as int], fs[i as int].1) {
            Ok(s) => prefixed(seq![fs[i as int].0@ + ": "@ + s], format_fields(store, budget, xs, fs, i + 1)),
            Err(e) => Err(e),
        }
    }
}


/// Whether `r` is the text or the type error that `s` describes.
pub open spec fn format_agrees(r: Result<String, InterpretError>, s: Result<Seq<char>, Seq<char>>) -> bool {
    match s {
        Ok(x) => r matches Ok(y) && y@ == x,
        Err(m) => r matches Err(InterpretError::Type(y)) && y@ == m,
    }
}

/// The texts of a sequence of strings.
pub open spec fn texts(v: Seq<String>) -> Seq<Seq<char>> {
    Seq::new(v.len(), |i: int| v[i]@)
}

/// Whether `r` is the list of parts or the type error that `s` describes.
pub open spec fn parts_agree(r: Result<Vec<String>, InterpretError>, s: Result<Seq<Seq<char>>, Seq<char>>) -> bool {
    match s {
        Ok(x) => r matches Ok(y) && texts(y@) == x,
        Err(m) => r matches Err(InterpretError::Type(y)) && y@ == m,
    }
}

/// Pushing one more part extends the texts by it.
proof fn lemma_texts_push(v: Seq<String>, s: String)
    ensures
        texts(v.push(s)) == texts(v).push(s@),
{
    assert(texts(v.push(s)) =~= texts(v).push(s@));
}

/// The parts joined with `, `.
pub fn join_parts(parts: &Vec<String>) -> (r: String)
    ensures
        r@ == comma_joined(texts(parts@)),
{
    let mut s = String::new();
    let mut i: usize = 0;
    while i < parts.len()
        invariant
            i <= parts.len(),
            s@ == comma_joined(texts(parts@.take(i as int))),
        decreases parts.len() - i,
    {
        let ghost before = texts(parts@.take(i as int));
        assert(texts(parts@.take(i as int + 1)) =~= before.push(parts@[i as int]@));
        assert(before.push(parts@[i as int]@).drop_last() =~= before);
        if i > 0 {
            append(&mut s, ", ");
        }
        append(&mut s, parts[i].as_str());
        i = i + 1;
    }
    assert(parts@.take(parts@.len() as int) =~= parts@);
    s
}

/// Render `value` as Noir shows a value of printable type `typ`.
pub fn format_value(store: &Vec<Value>, budget: usize, value: &Value, typ: &PrintableType) -> (r: Result<String, InterpretError>)
    ensures
        format_agrees(r, format_result(value_models(store@), budget as nat, value.model(), *typ)),
    decreases budget, value, 1nat,
{
    match value {
        Value::Field(f) => {
            if let PrintableType::Field = typ {
                return Ok(f.to_short_hex());
            }
        },
        Value::Int(i) => {
            match typ {
                PrintableType::SignedInteger { .. } => return Ok(i.value.to_decimal()),
                PrintableType::UnsignedInteger { .. } => return Ok(i.value.to_decimal()),
                _ => {},
            }
        },
        Value::Bool(b) => {
            if let PrintableType::Boolean = typ {
                return Ok(bool_string(*b));
            }
        },
        Value::Str(text) => {
            match typ {
                PrintableType::String { .. } => return Ok(text.clone()),
                PrintableType::FmtString { .. } => return Ok(text.clone()),
                _ => {},
            }
        },
        Value::Unit => {
            if let PrintableType::Unit = typ {
                return Ok(owned("()"));
            }
        },
        Value::Array(vs) => {
            proof {
                lemma_value_models(*value);
            }
            match typ {
                PrintableType::Array { typ: element, .. } => {
                    return format_sequence(store, budget, vs, element, "[", "]");
                },
                PrintableType::Vector { typ: element } => {
                    return format_sequence(store, budget, vs, element, "@[", "]");
                },
                _ => {},
            }
        },
        Value::Tuple(vs) => {
            proof {
                lemma_value_models(*value);
            }
            match typ {
                PrintableType::Tuple { types } => {
                    if vs.len() == types.len() {
                        let parts = match format_each_of(store, budget, vs, types) {
                            Ok(parts) => parts,
                            Err(e) => return Err(e),
                        };
                        let mut s = owned("(");
                        assert(texts(parts@).len() == parts@.len());
                        if parts.len() == 1 {
                            append(&mut s, parts[0].as_str());
                            append(&mut s, ",");
                            assert(texts(parts@)[0] == parts@[0]@);
                            append(&mut s, ")");
                            assert(s@ =~= "("@ + (parts@[0]@ + ","@) + ")"@);
                        } else {
                            let joined = join_parts(&parts);
                            append(&mut s, joined.as_str());
                            append(&mut s, ")");
                        }
                        return Ok(s);
                    }
                },
                PrintableType::Struct { name, fields } => {
                    if vs.len() == fields.len() {
                        let parts = match format_fields_of(store, budget, vs, fields) {
                            Ok(parts) => parts,
                            Err(e) => return Err(e),
                        };
                        let mut s = name.clone();
                        append(&mut s, " { ");
                        let joined = join_parts(&parts);
                        append(&mut s, joined.as_str());
                        append(&mut s, " }");
                        assert(s@ =~= (name@ + " { "@) + joined@ + " }"@);
                        return Ok(s);
                    }
                },
                PrintableType::Enum { name, variants } => {
                    return format_variant(store, budget, value, vs, name, variants, typ);
                },
                _ => {},
            }
        },
        Value::Function(_) => {
            if let PrintableType::Function { .. } = typ {
                let mut s = owned("<<");
                append(&mut s, typ.debug_text().as_str());
                append(&mut s, ">>");
                return Ok(s);
            }
        },
        Value::Ref(c, fields) => {
            if let PrintableType::Reference { mutable, .. } = typ {
                return Ok(owned(if *mutable { "<<mutable ref>>" } else { "<<ref>>" }));
            }
            if budget > 0 && *c < store.len() {
                let path = steps_of(fields);
                match read_path_exec(&store[*c], &path, 0) {
                    Ok(x) => return format_value(store, budget - 1, &x, typ),
                    Err(_) => {},
                }
            }
        },
    }
    Err(format_mismatch_error(value, typ))
}

fn format_mismatch_error(value: &Value, typ: &PrintableType) -> (r: InterpretError)
    ensures
        r matches InterpretError::Type(m) && m@ == format_mismatch(value.model(), *typ),
{
    let mut s = owned("cannot format value ");
    append(&mut s, value.debug_text().as_str());
    append(&mut s, " as printable type ");
    append(&mut s, typ.debug_text().as_str());
    InterpretError::Type(s)
}

/// Render an enum value: a tuple whose first element is the variant's `Field` tag and whose
/// element after the tag's position holds the variant's payload.
fn format_variant(
    store: &Vec<Value>,
    budget: usize,
    value: &Value,
    vs: &Vec<Value>,
    name: &String,
    variants: &Vec<(String, Vec<PrintableType>)>,
    typ: &PrintableType,
) -> (r: Result<String, InterpretError>)
    requires
        *value == Value::Tuple(*vs),
        *typ == (PrintableType::Enum { name: *name, variants: *variants }),
    ensures
        format_agrees(r, format_result(value_models(store@), budget as nat, value.model(), *typ)),
    decreases budget, value, 0nat,
{
    proof {
        lemma_value_models(*value);
    }
    if vs.len() == 0 {
        return Err(format_mismatch_error(value, typ));
    }
    let tag_value = match &vs[0] {
        Value::Field(f) => f.value(),
        _ => return Err(format_mismatch_error(value, typ)),
    };
    let tag: usize = match tag_value.to_u64() {
        Some(t) => {
            if t > usize::MAX as u64 {
                return Err(format_mismatch_error(value, typ));
            }
            t as usize
        },
        None => return Err(format_mismatch_error(value, typ)),
    };
    if tag >= variants.len() || tag >= vs.len() - 1 {
        return Err(format_mismatch_error(value, typ));
    }
    let payload = &vs[tag + 1];
    let vals = match payload {
        Value::Tuple(vals) => vals,
        _ => return Err(format_mismatch_error(value, typ)),
    };
    let (variant_name, types) = (&variants[tag].0, &variants[tag].1);
    if vals.len() != types.len() {
        return Err(format_mismatch_error(value, typ));
    }
    proof {
        lemma_value_models(*payload);
        assert(decreases_to!(*value => *vs));
        assert(decreases_to!(*vs => vs@));
        assert(decreases_to!(vs@ => vs@[tag + 1]));
        assert(decreases_to!(*payload => *vals));
    }
    let parts = match format_each_of(store, budget, vals, types) {
        Ok(parts) => parts,
        Err(e) => return Err(e),
    };
    let mut s = name.clone();
    append(&mut s, "::");
    append(&mut s, variant_name.as_str());
    if parts.len() != 0 {
        let joined = join_parts(&parts);
        append(&mut s, "(");
        append(&mut s, joined.as_str());
        append(&mut s, ")");
        assert(s@ =~= name@ + "::"@ + variant_name@ + ("("@ + joined@ + ")"@));
    } else {
        assert(s@ =~= name@ + "::"@ + variant_name@ + Seq::<char>::empty());
    }
    assert(texts(parts@).len() == parts@.len());
    Ok(s)
}

/// Render `values`, all of printable type `typ`, joined and enclosed.
fn format_sequence(store: &Vec<Value>, budget: usize, values: &Vec<Value>, typ: &PrintableType, open: &str, close: &str) -> (r: Result<String, InterpretError>)
    ensures
        format_agrees(r, enclosed(open@, format_all(value_models(store@), budget as nat, value_models(values@), *typ, 0), close@)),
    decreases budget, values, 1nat,
{
    let parts = match format_all_of(store, budget, values, typ) {
        Ok(parts) => parts,
        Err(e) => return Err(e),
    };
    let mut s = owned(open);
    append(&mut s, join_parts(&parts).as_str());
    append(&mut s, close);
    Ok(s)
}

fn format_all_of(store: &Vec<Value>, budget: usize, values: &Vec<Value>, typ: &PrintableType) -> (r: Result<Vec<String>, InterpretError>)
    ensures
        parts_agree(r, format_all(value_models(store@), budget as nat, value_models(values@), *typ, 0)),
    decreases budget, values, 0nat,
{
    let ghost xs = value_models(values@);
    let ghost store_m = value_models(store@);
    let mut out: Vec<String> = Vec::new();
    let mut i: usize = 0;
    while i < values.len()
        invariant
            i <= values.len(),
            xs == value_models(values@),
            format_all(store_m, budget as nat, xs, *typ, 0) == prefixed(texts(out@), format_all(store_m, budget as nat, xs, *typ, i as nat)),
            store_m == value_models(store@),
        decreases values.len() - i,
    {
        match format_value(store, budget, &values[i], typ) {
            Ok(s) => {
                proof {
                    lemma_texts_push(out@, s);
                    let r = format_all(store_m, budget as nat, xs, *typ, i as nat + 1);
                    if r is Ok {
                        assert(texts(out@) + (seq![s@] + r->Ok_0) =~= texts(out@).push(s@) + r->Ok_0);
                    }
                }
                out.push(s);
            },
            Err(e) => return Err(e),
        }
        i = i + 1;
    }
    assert(texts(out@) + Seq::<Seq<char>>::empty() =~= texts(out@));
    Ok(out)
}

fn format_each_of(store: &Vec<Value>, budget: usize, values: &Vec<Value>, types: &Vec<PrintableType>) -> (r: Result<Vec<String>, InterpretError>)
    requires
        values@.len() == types@.len(),
    ensures
        parts_agree(r, format_each(value_models(store@), budget as nat, value_models(values@), types@, 0)),
    decreases budget, values, 0nat,
{
    let ghost xs = value_models(values@);
    let ghost store_m = value_models(store@);
    let mut out: Vec<String> = Vec::new();
    let mut i: usize = 0;
    while i < values.len()
        invariant
            i <= values.len(),
            values@.len() == types@.len(),
            xs == value_models(values@),
            format_each(store_m, budget as nat, xs, types@, 0) == prefixed(texts(out@), format_each(store_m, budget as nat, xs, types@, i as nat)),
            store_m == value_models(store@),
        decreases values.len() - i,
    {
        match format_value(store, budget, &values[i], &types[i]) {
            Ok(s) => {
                proof {
                    lemma_texts_push(out@, s);
                    let r = format_each(store_m, budget as nat, xs, types@, i as nat + 1);
                    if r is Ok {
                        assert(texts(out@) + (seq![s@] + r->Ok_0) =~= texts(out@).push(s@) + r->Ok_0);
                    }
                }
                out.push(s);
            },
            Err(e) => return Err(e),
        }
        i = i + 1;
    }
    assert(texts(out@) + Seq::<Seq<char>>::empty() =~= texts(out@));
    Ok(out)
}

fn format_fields_of(store: &Vec<Value>, budget: usize, values: &Vec<Value>, fields: &Vec<(String, PrintableType)>) -> (r: Result<Vec<String>, InterpretError>)
    requires
        values@.len() == fields@.len(),
    ensures
        parts_agree(r, format_fields(value_models(store@), budget as nat, value_models(values@), fields@, 0)),
    decreases budget, values, 0nat,
{
    let ghost xs = value_models(values@);
    let ghost store_m = value_models(store@);
    let mut out: Vec<String> = Vec::new();
    let mut i: usize = 0;
    while i < values.len()
        invariant
            i <= values.len(),
            values@.len() == fields@.len(),
            xs == value_models(values@),
            format_fields(store_m, budget as nat, xs, fields@, 0) == prefixed(texts(out@), format_fields(store_m, budget as nat, xs, fields@, i as nat)),
            store_m == value_models(store@),
        decreases values.len() - i,
    {
        match format_value(store, budget, &values[i], &fields[i].1) {
            Ok(v) => {
                let mut s = fields[i].0.clone();
                append(&mut s, ": ");
                append(&mut s, v.as_str());
                proof {
                    lemma_texts_push(out@, s);
                    let r = format_fields(store_m, budget as nat, xs, fields@, i as nat + 1);
                    if r is Ok {
                        assert(texts(out@) + (seq![s@] + r->Ok_0) =~= texts(out@).push(s@) + r->Ok_0);
                    }
                }
                out.push(s);
            },
            Err(e) => return Err(e),
        }
        i = i + 1;
    }
    assert(texts(out@) + Seq::<Seq<char>>::empty() =~= texts(out@));
    Ok(out)
}


/// A piece of a format string: literal text, or a `{name}` interpolation.
#[derive(Debug, PartialEq)]
pub enum FmtStrFragment {
    String(String),
    Interpolation(String, Location),
}

/// The rendering of fragments `i..` of a format string whose interpolations take the captures
/// from `k` on, or the error the rendering meets first.
pub open spec fn fmt_from(
    store: Seq<ValueModel>,
    fragments: Seq<FmtStrFragment>,
    values: Seq<ValueModel>,
    types: Seq<PrintableType>,
    i: nat,
    k: nat,
) -> Result<Seq<char>, ErrorModel>
    decreases fragments.len() - i,
{
    if i >= fragments.len() {
        if k < values.len() {
            Err(ErrorModel::Internal("fmt-string has fewer interpolations than captures"@))
        } else {
            Ok(Seq::empty())
        }
    } else {
        match fragments[i as int] {
            FmtStrFragment::String(s) => match fmt_from(store, fragments, values, types, i + 1, k) {
                Ok(rest) => Ok(s@ + rest),
                Err(e) => Err(e),
            },
            FmtStrFragment::Interpolation(_, _) => if k >= values.len() {
                Err(ErrorModel::Internal("fmt-string has more interpolations than captures"@))
            } else {
                match format_result(store, store.len(), values[k as int], types[k as int]) {
                    Err(m) => Err(ErrorModel::Type(m)),
                    Ok(text) => match fmt_from(store, fragments, values, types, i + 1, k + 1) {
                        Ok(rest) => Ok(text + rest),
                        Err(e) => Err(e),
                    },
                }
            },
        }
    }
}

/// The rendering of a format string with the given captures and their printable types.
pub open spec fn fmt_result(store: Seq<ValueModel>, fragments: Seq<FmtStrFragment>, values: Seq<ValueModel>, types: Seq<PrintableType>) -> Result<Seq<char>, ErrorModel> {
    if values.len() != types.len() {
        Err(ErrorModel::Internal("fmt-string has "@ + nat_decimal(values.len()) + " captures but "@
            + nat_decimal(types.len()) + " capture types"@))
    } else {
        fmt_from(store, fragments, values, types, 0, 0)
    }
}

/// `text` in front of the text of `r`, or `r`'s error.
pub open spec fn after(text: Seq<char>, r: Result<Seq<char>, ErrorModel>) -> Result<Seq<char>, ErrorModel> {
    match r {
        Ok(rest) => Ok(text + rest),
        Err(e) => Err(e),
    }
}

/// Whether `r` is the text or the error that `s` describes.
pub open spec fn text_agrees(r: Result<String, InterpretError>, s: Result<Seq<char>, ErrorModel>) -> bool {
    match s {
        Ok(x) => r matches Ok(y) && y@ == x,
        Err(e) => r matches Err(y) && y.model() == e,
    }
}

/// Render a format string: its literal pieces, and each interpolation replaced by the next
/// capture rendered as its printable type.
pub fn format_fmt_str(
    store: &Vec<Value>,
    fragments: &Vec<FmtStrFragment>,
    values: &Vec<Value>,
    types: &Vec<PrintableType>,
) -> (r: Result<String, InterpretError>)
    ensures
        text_agrees(r, fmt_result(value_models(store@), fragments@, value_models(values@), types@)),
{
    let ghost vm = value_models(values@);
    let ghost sm = value_models(store@);
    if values.len() != types.len() {
        let mut s = owned("fmt-string has ");
        append(&mut s, u64_decimal(values.len() as u64).as_str());
        append(&mut s, " captures but ");
        append(&mut s, u64_decimal(types.len() as u64).as_str());
        append(&mut s, " capture types");
        return Err(InterpretError::Internal(s));
    }
    let mut out = String::new();
    let mut k: usize = 0;
    let mut i: usize = 0;
    while i < fragments.len()
        invariant
            i <= fragments.len(),
            k <= values.len(),
            values.len() == types.len(),
            vm == value_models(values@),
            sm == value_models(store@),
            fmt_from(sm, fragments@, vm, types@, 0, 0) == after(out@, fmt_from(sm, fragments@, vm, types@, i as nat, k as nat)),
        decreases fragments.len() - i,
    {
        match &fragments[i] {
            FmtStrFragment::String(piece) => {
                proof {
                    let r = fmt_from(sm, fragments@, vm, types@, i as nat + 1, k as nat);
                    if r is Ok {
                        assert(out@ + (piece@ + r->Ok_0) =~= (out@ + piece@) + r->Ok_0);
                    }
                }
                append(&mut out, piece.as_str());
            },
            FmtStrFragment::Interpolation(..) => {
                if k >= values.len() {
                    return Err(InterpretError::Internal(owned("fmt-string has more interpolations than captures")));
                }
                let text = match format_value(store, store.len(), &values[k], &types[k]) {
                    Ok(text) => text,
                    Err(e) => return Err(e),
                };
                proof {
                    let r = fmt_from(sm, fragments@, vm, types@, i as nat + 1, k as nat + 1);
                    if r is Ok {
                        assert(out@ + (text@ + r->Ok_0) =~= (out@ + text@) + r->Ok_0);
                    }
                }
                append(&mut out, text.as_str());
                k = k + 1;
            },
        }
        i = i + 1;
    }
    if k < values.len() {
        return Err(InterpretError::Internal(owned("fmt-string has fewer interpolations than captures")));
    }
    assert(out@ + Seq::<char>::empty() =~= out@);
    Ok(out)
}

/// The struct fields from `i` on render, one after another, as `name: value`, where each value
/// is the field's own rendering, when every one of them renders.
proof fn lemma_fields_render(store: Seq<ValueModel>, budget: nat, xs: Seq<ValueModel>, fs: Seq<(String, PrintableType)>, i: nat)
    requires
        xs.len() == fs.len(),
        i <= xs.len(),
        forall|k: int| i <= k < xs.len() ==> (#[trigger] format_result(store, budget, xs[k], fs[k].1)) is Ok,
    ensures
        format_fields(store, budget, xs, fs, i) == Ok::<Seq<Seq<char>>, Seq<char>>(Seq::new((xs.len() - i) as nat, |k: int|
            fs[i + k].0@ + ": "@ + format_result(store, budget, xs[i + k], fs[i + k].1)->Ok_0)),
    decreases xs.len() - i,
{
    if i < xs.len() {
        lemma_fields_render(store, budget, xs, fs, i + 1);
        assert(format_result(store, budget, xs[i as int], fs[i as int].1) is Ok);
        let rest = Seq::new((xs.len() - (i + 1)) as nat, |k: int|
            fs[i + 1 + k].0@ + ": "@ + format_result(store, budget, xs[i + 1 + k], fs[i + 1 + k].1)->Ok_0);
        let all = Seq::new((xs.len() - i) as nat, |k: int|
            fs[i + k].0@ + ": "@ + format_result(store, budget, xs[i + k], fs[i + k].1)->Ok_0);
        let first = fs[i as int].0@ + ": "@ + format_result(store, budget, xs[i as int], fs[i as int].1)->Ok_0;
        assert(seq![first] + rest =~= all);
    } else {
        assert(Seq::new((xs.len() - i) as nat, |k: int|
            fs[i + k].0@ + ": "@ + format_result(store, budget, xs[i + k], fs[i + k].1)->Ok_0) =~= Seq::<Seq<char>>::empty());
    }
}

/// A struct renders as its name, then, between `{ ` and ` }` and separated by `, `, each field
/// as its name, `: ` and the rendering of its value, in order; when a field's value does not
/// render, the struct takes the error of the first such field.
pub proof fn law_struct_renders_named_fields(store: Seq<ValueModel>, budget: nat, xs: Seq<ValueModel>, t: PrintableType)
    requires
        t is Struct,
        xs.len() == t->Struct_fields@.len(),
    ensures
        (forall|k: int| 0 <= k < xs.len() ==> (#[trigger] format_result(store, budget, xs[k], t->Struct_fields@[k].1)) is Ok)
            ==> format_result(store, budget, ValueModel::Tuple(xs), t) == Ok::<Seq<char>, Seq<char>>(t->Struct_name@ + " { "@
                + comma_joined(Seq::new(xs.len(), |k: int| t->Struct_fields@[k].0@ + ": "@
                    + format_result(store, budget, xs[k], t->Struct_fields@[k].1)->Ok_0)) + " }"@),
        forall|k: int| #![trigger format_result(store, budget, xs[k], t->Struct_fields@[k].1)]
            0 <= k < xs.len() && format_result(store, budget, xs[k], t->Struct_fields@[k].1) is Err
            && (forall|j: int| 0 <= j < k ==> (#[trigger] format_result(store, budget, xs[j], t->Struct_fields@[j].1)) is Ok)
            ==> format_result(store, budget, ValueModel::Tuple(xs), t) == format_result(store, budget, xs[k], t->Struct_fields@[k].1),
{
    let fs = t->Struct_fields@;
    if forall|k: int| 0 <= k < xs.len() ==> (#[trigger] format_result(store, budget, xs[k], fs[k].1)) is Ok {
        lemma_fields_render(store, budget, xs, fs, 0);
        assert(Seq::new((xs.len() - 0) as nat, |k: int| fs[0 + k].0@ + ": "@ + format_result(store, budget, xs[0 + k], fs[0 + k].1)->Ok_0)
            =~= Seq::new(xs.len(), |k: int| fs[k].0@ + ": "@ + format_result(store, budget, xs[k], fs[k].1)->Ok_0));
    }
    assert forall|k: int| #![trigger format_result(store, budget, xs[k], fs[k].1)]
        0 <= k < xs.len() && format_result(store, budget, xs[k], fs[k].1) is Err
        && (forall|j: int| 0 <= j < k ==> (#[trigger] format_result(store, budget, xs[j], fs[j].1)) is Ok)
        implies format_result(store, budget, ValueModel::Tuple(xs), t) == format_result(store, budget, xs[k], fs[k].1) by {
        lemma_fields_first_error(store, budget, xs, fs, 0, k);
    }
}

/// The rendering of the fields from `i` on fails with the error of the first field, at `k`,
/// that does not render.
proof fn lemma_fields_first_error(store: Seq<ValueModel>, budget: nat, xs: Seq<ValueModel>, fs: Seq<(String, PrintableType)>, i: nat, k: int)
    requires
        xs.len() == fs.len(),
        i <= k < xs.len(),
        format_result(store, budget, xs[k], fs[k].1) is Err,
        forall|j: int| i <= j < k ==> (#[trigger] format_result(store, budget, xs[j], fs[j].1)) is Ok,
    ensures
        format_fields(store, budget, xs, fs, i) == Err::<Seq<Seq<char>>, Seq<char>>(format_result(store, budget, xs[k], fs[k].1)->Err_0),
    decreases k - i,
{
    if i < k {
        assert(format_result(store, budget, xs[i as int], fs[i as int].1) is Ok);
        lemma_fields_first_error(store, budget, xs, fs, i + 1, k);
    }
}

/// The elements of `xs` from `i` on, all of type `t`, render one after another as their own
/// renderings, when every one of them renders.
proof fn lemma_all_render(store: Seq<ValueModel>, budget: nat, xs: Seq<ValueModel>, t: PrintableType, i: nat)
    requires
        i <= xs.len(),
        forall|k: int| i <= k < xs.len() ==> (#[trigger] format_result(store, budget, xs[k], t)) is Ok,
    ensures
        format_all(store, budget, xs, t, i) == Ok::<Seq<Seq<char>>, Seq<char>>(Seq::new((xs.len() - i) as nat, |k: int|
            format_result(store, budget, xs[i + k], t)->Ok_0)),
    decreases xs.len() - i,
{
    if i < xs.len() {
        lemma_all_render(store, budget, xs, t, i + 1);
        assert(format_result(store, budget, xs[i as int], t) is Ok);
        assert(seq![format_result(store, budget, xs[i as int], t)->Ok_0] + Seq::new((xs.len() - (i + 1)) as nat, |k: int|
            format_result(store, budget, xs[i + 1 + k], t)->Ok_0) =~= Seq::new((xs.len() - i) as nat, |k: int|
            format_result(store, budget, xs[i + k], t)->Ok_0));
    } else {
        assert(Seq::new((xs.len() - i) as nat, |k: int| format_result(store, budget, xs[i + k], t)->Ok_0)
            =~= Seq::<Seq<char>>::empty());
    }
}

/// The elements of `xs` from `i` on, each of its own type in `ts`, render one after another as
/// their own renderings, when every one of them renders.
proof fn lemma_each_render(store: Seq<ValueModel>, budget: nat, xs: Seq<ValueModel>, ts: Seq<PrintableType>, i: nat)
    requires
        i <= xs.len(),
        xs.len() == ts.len(),
        forall|k: int| i <= k < xs.len() ==> (#[trigger] format_result(store, budget, xs[k], ts[k])) is Ok,
    ensures
        format_each(store, budget, xs, ts, i) == Ok::<Seq<Seq<char>>, Seq<char>>(Seq::new((xs.len() - i) as nat, |k: int|
            format_result(store, budget, xs[i + k], ts[i + k])->Ok_0)),
    decreases xs.len() - i,
{
    if i < xs.len() {
        lemma_each_render(store, budget, xs, ts, i + 1);
        assert(format_result(store, budget, xs[i as int], ts[i as int]) is Ok);
        assert(seq![format_result(store, budget, xs[i as int], ts[i as int])->Ok_0] + Seq::new((xs.len() - (i + 1)) as nat, |k: int|
            format_result(store, budget, xs[i + 1 + k], ts[i + 1 + k])->Ok_0) =~= Seq::new((xs.len() - i) as nat, |k: int|
            format_result(store, budget, xs[i + k], ts[i + k])->Ok_0));
    } else {
        assert(Seq::new((xs.len() - i) as nat, |k: int| format_result(store, budget, xs[i + k], ts[i + k])->Ok_0)
            =~= Seq::<Seq<char>>::empty());
    }
}

/// An array renders as `[`, its elements' renderings in order separated by `, `, and `]`; a
/// vector the same way after `@`.
pub proof fn law_sequences_render_their_elements(store: Seq<ValueModel>, budget: nat, xs: Seq<ValueModel>, t: PrintableType)
    requires
        t is Array || t is Vector,
    ensures
        t is Array && (forall|k: int| 0 <= k < xs.len() ==> (#[trigger] format_result(store, budget, xs[k], *t->Array_typ)) is Ok)
            ==> format_result(store, budget, ValueModel::Array(xs), t) == Ok::<Seq<char>, Seq<char>>("["@
                + comma_joined(Seq::new(xs.len(), |k: int| format_result(store, budget, xs[k], *t->Array_typ)->Ok_0)) + "]"@),
        t is Vector && (forall|k: int| 0 <= k < xs.len() ==> (#[trigger] format_result(store, budget, xs[k], *t->Vector_typ)) is Ok)
            ==> format_result(store, budget, ValueModel::Array(xs), t) == Ok::<Seq<char>, Seq<char>>("@["@
                + comma_joined(Seq::new(xs.len(), |k: int| format_result(store, budget, xs[k], *t->Vector_typ)->Ok_0)) + "]"@),
{
    let e = if t is Array { *t->Array_typ } else { *t->Vector_typ };
    if forall|k: int| 0 <= k < xs.len() ==> (#[trigger] format_result(store, budget, xs[k], e)) is Ok {
        lemma_all_render(store, budget, xs, e, 0);
        assert(Seq::new((xs.len() - 0) as nat, |k: int| format_result(store, budget, xs[0 + k], e)->Ok_0)
            =~= Seq::new(xs.len(), |k: int| format_result(store, budget, xs[k], e)->Ok_0));
    }
}

/// A tuple renders as `(`, its elements' renderings, each of its own type, separated by `, `,
/// and `)`, with a `,` after the only element of a one-element tuple.
pub proof fn law_tuples_render_their_elements(store: Seq<ValueModel>, budget: nat, xs: Seq<ValueModel>, t: PrintableType)
    requires
        t is Tuple,
        xs.len() == t->Tuple_types@.len(),
        forall|k: int| 0 <= k < xs.len() ==> (#[trigger] format_result(store, budget, xs[k], t->Tuple_types@[k])) is Ok,
    ensures
        xs.len() == 1 ==> format_result(store, budget, ValueModel::Tuple(xs), t) == Ok::<Seq<char>, Seq<char>>("("@
            + format_result(store, budget, xs[0], t->Tuple_types@[0])->Ok_0 + ",)"@),
        xs.len() != 1 ==> format_result(store, budget, ValueModel::Tuple(xs), t) == Ok::<Seq<char>, Seq<char>>("("@
            + comma_joined(Seq::new(xs.len(), |k: int| format_result(store, budget, xs[k], t->Tuple_types@[k])->Ok_0)) + ")"@),
{
    let ts = t->Tuple_types@;
    lemma_each_render(store, budget, xs, ts, 0);
    let parts = Seq::new(xs.len(), |k: int| format_result(store, budget, xs[k], ts[k])->Ok_0);
    assert(Seq::new((xs.len() - 0) as nat, |k: int| format_result(store, budget, xs[0 + k], ts[0 + k])->Ok_0) =~= parts);
    if xs.len() == 1 {
        reveal_strlit(",");
        reveal_strlit(",)");
        reveal_strlit(")");
        assert(parts[0] + ","@ + ")"@ =~= parts[0] + ",)"@);
        assert("("@ + (parts[0] + ","@) + ")"@ =~= "("@ + parts[0] + ",)"@);
    }
}

} // verus!
