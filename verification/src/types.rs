//! The types of a monomorphized program, and the printable types that formatting reads.

use vstd::prelude::*;

use crate::bigint::{nat_decimal, u64_decimal};
use crate::error::InterpretError;
use crate::text::{append, bool_string, bool_text, owned};

verus! {

/// Whether an integer type is signed.
#[derive(Clone, Copy, Debug, PartialEq, Eq, Structural)]
pub enum Signedness {
    Unsigned,
    Signed,
}

/// A type of the monomorphized program.
#[derive(Debug, PartialEq)]
pub enum Type {
    Field,
    Array(u32, Box<Type>),
    Integer(Signedness, u8),
    Bool,
    String(u32),
    FmtString(u32, Box<Type>),
    Unit,
    Tuple(Vec<Type>),
    Vector(Box<Type>),
    Reference(Box<Type>, bool),
    Function(Vec<Type>, Box<Type>, Box<Type>, bool),
}

/// The `Debug` name of a signedness.
pub open spec fn signedness_text(s: Signedness) -> Seq<char> {
    match s {
        Signedness::Unsigned => "Unsigned"@,
        Signedness::Signed => "Signed"@,
    }
}

/// The `Debug` name of an integer width: the named sizes by name, any other by its number.
pub open spec fn bit_size_debug(b: u8) -> Seq<char> {
    if b == 1 {
        "One"@
    } else if b == 8 {
        "Eight"@
    } else if b == 16 {
        "Sixteen"@
    } else if b == 32 {
        "ThirtyTwo"@
    } else if b == 64 {
        "SixtyFour"@
    } else if b == 128 {
        "HundredTwentyEight"@
    } else {
        nat_decimal(b as nat)
    }
}

/// The `Debug` name of an integer width.
pub fn bit_size_text(b: u8) -> (r: String)
    ensures
        r@ == bit_size_debug(b),
{
    if b == 1 {
        owned("One")
    } else if b == 8 {
        owned("Eight")
    } else if b == 16 {
        owned("Sixteen")
    } else if b == 32 {
        owned("ThirtyTwo")
    } else if b == 64 {
        owned("SixtyFour")
    } else if b == 128 {
        owned("HundredTwentyEight")
    } else {
        u64_decimal(b as u64)
    }
}

/// The `Debug` rendering of a type: `Array(3, Field)`, `Tuple([Bool, Unit])`.
pub open spec fn type_debug(t: Type) -> Seq<char>
    decreases t, 0nat,
{
    match t {
        Type::Field => "Field"@,
        Type::Array(n, e) => "Array("@ + nat_decimal(n as nat) + ", "@ + type_debug(*e) + ")"@,
        Type::Integer(s, b) => "Integer("@ + signedness_text(s) + ", "@ + bit_size_debug(b) + ")"@,
        Type::Bool => "Bool"@,
        Type::String(n) => "String("@ + nat_decimal(n as nat) + ")"@,
        Type::FmtString(n, e) => "FmtString("@ + nat_decimal(n as nat) + ", "@ + type_debug(*e) + ")"@,
        Type::Unit => "Unit"@,
        Type::Tuple(ts) => "Tuple(["@ + type_debug_list(ts@, ts@.len()) + "])"@,
        Type::Vector(e) => "Vector("@ + type_debug(*e) + ")"@,
        Type::Reference(e, m) => "Reference("@ + type_debug(*e) + ", "@ + bool_text(m) + ")"@,
        Type::Function(args, ret, env, u) => "Function(["@ + type_debug_list(args@, args@.len()) + "], "@
            + type_debug(*ret) + ", "@ + type_debug(*env) + ", "@ + bool_text(u) + ")"@,
    }
}

/// The `Debug` renderings of the first `n` types of `ts`, separated by `, `.
pub open spec fn type_debug_list(ts: Seq<Type>, n: nat) -> Seq<char>
    decreases ts, n,
{
    if n == 0 || n > ts.len() {
        Seq::empty()
    } else if n == 1 {
        type_debug(ts[0])
    } else {
        type_debug_list(ts, (n - 1) as nat) + ", "@ + type_debug(ts[n - 1])
    }
}

impl Type {
    /// The `Debug` rendering of this type, as error messages show it.
    pub fn debug_text(&self) -> (r: String)
        ensures
            r@ == type_debug(*self),
        decreases self,
    {
        match self {
            Type::Field => owned("Field"),
            Type::Array(n, e) => {
                let mut s = owned("Array(");
                append(&mut s, u64_decimal(*n as u64).as_str());
                append(&mut s, ", ");
                append(&mut s, e.debug_text().as_str());
                append(&mut s, ")");
                s
            },
            Type::Integer(sg, b) => {
                let mut s = owned("Integer(");
                append(&mut s, match sg {
                    Signedness::Unsigned => "Unsigned",
                    Signedness::Signed => "Signed",
                });
                append(&mut s, ", ");
                append(&mut s, bit_size_text(*b).as_str());
                append(&mut s, ")");
                s
            },
            Type::Bool => owned("Bool"),
            Type::String(n) => {
                let mut s = owned("String(");
                append(&mut s, u64_decimal(*n as u64).as_str());
                append(&mut s, ")");
                s
            },
            Type::FmtString(n, e) => {
                let mut s = owned("FmtString(");
                append(&mut s, u64_decimal(*n as u64).as_str());
                append(&mut s, ", ");
                append(&mut s, e.debug_text().as_str());
                append(&mut s, ")");
                s
            },
            Type::Unit => owned("Unit"),
            Type::Tuple(ts) => {
                let mut s = owned("Tuple([");
                append(&mut s, types_debug(ts).as_str());
                append(&mut s, "])");
                s
            },
            Type::Vector(e) => {
                let mut s = owned("Vector(");
                append(&mut s, e.debug_text().as_str());
                append(&mut s, ")");
                s
            },
            Type::Reference(e, m) => {
                let mut s = owned("Reference(");
                append(&mut s, e.debug_text().as_str());
                append(&mut s, ", ");
                append(&mut s, bool_string(*m).as_str());
                append(&mut s, ")");
                s
            },
            Type::Function(args, ret, env, u) => {
                let mut s = owned("Function([");
                append(&mut s, types_debug(args).as_str());
                append(&mut s, "], ");
                append(&mut s, ret.debug_text().as_str());
                append(&mut s, ", ");
                append(&mut s, env.debug_text().as_str());
                append(&mut s, ", ");
                append(&mut s, bool_string(*u).as_str());
                append(&mut s, ")");
                s
            },
        }
    }
}

/// The `Debug` renderings of `ts`, separated by `, `.
fn types_debug(ts: &Vec<Type>) -> (r: String)
    ensures
        r@ == type_debug_list(ts@, ts@.len()),
    decreases ts,
{
    let mut s = String::new();
    let mut i: usize = 0;
    while i < ts.len()
        invariant
            i <= ts.len(),
            s@ == type_debug_list(ts@, i as nat),
        decreases ts.len() - i,
    {
        if i > 0 {
            append(&mut s, ", ");
        }
        append(&mut s, ts[i].debug_text().as_str());
        i = i + 1;
    }
    s
}

/// The signedness and width of an integer type.
pub fn int_type(typ: &Type) -> (r: Option<(bool, u8)>)
    ensures
        r == (match *typ {
            Type::Integer(s, b) => Some((s == Signedness::Signed, b)),
            _ => None::<(bool, u8)>,
        }),
{
    match typ {
        Type::Integer(s, b) => Some((*s == Signedness::Signed, *b)),
        _ => None,
    }
}

/// A type as formatting sees it.
#[derive(Debug, PartialEq)]
pub enum PrintableType {
    Field,
    Array { length: u32, typ: Box<PrintableType> },
    Vector { typ: Box<PrintableType> },
    Tuple { types: Vec<PrintableType> },
    SignedInteger { width: u32 },
    UnsignedInteger { width: u32 },
    Boolean,
    Struct { name: String, fields: Vec<(String, PrintableType)> },
    Enum { name: String, variants: Vec<(String, Vec<PrintableType>)> },
    String { length: u32 },
    FmtString { length: u32, typ: Box<PrintableType> },
    Function {
        arguments: Vec<PrintableType>,
        return_type: Box<PrintableType>,
        env: Box<PrintableType>,
        unconstrained: bool,
    },
    Reference { typ: Box<PrintableType>, mutable: bool },
    Unit,
}

/// Whether `p` is the printable form of `t`: the same shape, with an integer's signedness
/// choosing the printable integer kind.
pub open spec fn printable_of(t: Type, p: PrintableType) -> bool
    decreases t,
{
    match t {
        Type::Field => p is Field,
        Type::Array(n, e) => p matches PrintableType::Array { length, typ } && length == n
            && printable_of(*e, *typ),
        Type::Integer(s, b) => if s == Signedness::Signed {
            p matches PrintableType::SignedInteger { width } && width == b as u32
        } else {
            p matches PrintableType::UnsignedInteger { width } && width == b as u32
        },
        Type::Bool => p is Boolean,
        Type::String(n) => p matches PrintableType::String { length } && length == n,
        Type::FmtString(n, e) => p matches PrintableType::FmtString { length, typ } && length == n
            && printable_of(*e, *typ),
        Type::Unit => p is Unit,
        Type::Tuple(ts) => p matches PrintableType::Tuple { types } && types@.len() == ts@.len()
            && forall|i: int| 0 <= i < ts@.len() ==> printable_of(#[trigger] ts@[i], types@[i]),
        Type::Vector(e) => p matches PrintableType::Vector { typ } && printable_of(*e, *typ),
        Type::Reference(e, m) => p matches PrintableType::Reference { typ, mutable } && mutable == m
            && printable_of(*e, *typ),
        Type::Function(args, ret, env, u) => p matches PrintableType::Function {
            arguments,
            return_type,
            env: penv,
            unconstrained,
        } && unconstrained == u && arguments@.len() == args@.len() && (forall|i: int|
            0 <= i < args@.len() ==> printable_of(#[trigger] args@[i], arguments@[i]))
            && printable_of(*ret, *return_type) && printable_of(*env, *penv),
    }
}

/// The printable form of a type.
pub fn printable_type(typ: &Type) -> (r: PrintableType)
    ensures
        printable_of(*typ, r),
    decreases typ,
{
    match typ {
        Type::Field => PrintableType::Field,
        Type::Array(n, e) => PrintableType::Array { length: *n, typ: Box::new(printable_type(e)) },
        Type::Integer(s, b) => {
            if *s == Signedness::Signed {
                PrintableType::SignedInteger { width: *b as u32 }
            } else {
                PrintableType::UnsignedInteger { width: *b as u32 }
            }
        },
        Type::Bool => PrintableType::Boolean,
        Type::String(n) => PrintableType::String { length: *n },
        Type::FmtString(n, e) => PrintableType::FmtString { length: *n, typ: Box::new(printable_type(e)) },
        Type::Unit => PrintableType::Unit,
        Type::Tuple(ts) => PrintableType::Tuple { types: printable_types(ts) },
        Type::Vector(e) => PrintableType::Vector { typ: Box::new(printable_type(e)) },
        Type::Reference(e, m) => PrintableType::Reference { typ: Box::new(printable_type(e)), mutable: *m },
        Type::Function(args, ret, env, u) => PrintableType::Function {
            arguments: printable_types(args),
            return_type: Box::new(printable_type(ret)),
            env: Box::new(printable_type(env)),
            unconstrained: *u,
        },
    }
}

/// The printable forms of `ts`.
pub fn printable_types(ts: &Vec<Type>) -> (r: Vec<PrintableType>)
    ensures
        r@.len() == ts@.len(),
        forall|i: int| 0 <= i < ts@.len() ==> printable_of(#[trigger] ts@[i], r@[i]),
    decreases ts,
{
    let mut out: Vec<PrintableType> = Vec::new();
    let mut i: usize = 0;
    while i < ts.len()
        invariant
            i <= ts.len(),
            out@.len() == i,
            forall|j: int| 0 <= j < i ==> printable_of(#[trigger] ts@[j], out@[j]),
        decreases ts.len() - i,
    {
        out.push(printable_type(&ts[i]));
        i = i + 1;
    }
    out
}

/// Whether a type holds a tuple anywhere: an aggregate whose field names and struct identity the
/// monomorphized program no longer carries.
pub open spec fn has_erased_aggregate(t: Type) -> bool
    decreases t,
{
    match t {
        Type::Tuple(_) => true,
        Type::Array(_, e) => has_erased_aggregate(*e),
        Type::Vector(e) => has_erased_aggregate(*e),
        Type::Reference(e, _) => has_erased_aggregate(*e),
        Type::Function(args, ret, env, _) => (exists|i: int| 0 <= i < args@.len()
            && has_erased_aggregate(#[trigger] args@[i])) || has_erased_aggregate(*ret)
            || has_erased_aggregate(*env),
        _ => false,
    }
}

/// Whether a type holds a tuple anywhere.
pub fn type_contains_erased_aggregate(typ: &Type) -> (r: bool)
    ensures
        r == has_erased_aggregate(*typ),
    decreases typ,
{
    match typ {
        Type::Tuple(_) => true,
        Type::Array(_, e) => type_contains_erased_aggregate(e),
        Type::Vector(e) => type_contains_erased_aggregate(e),
        Type::Reference(e, _) => type_contains_erased_aggregate(e),
        Type::Function(args, ret, env, _) => {
            any_erased(args) || type_contains_erased_aggregate(ret) || type_contains_erased_aggregate(env)
        },
        _ => false,
    }
}

/// Whether any of `ts` holds a tuple anywhere.
fn any_erased(ts: &Vec<Type>) -> (r: bool)
    ensures
        r == (exists|i: int| 0 <= i < ts@.len() && has_erased_aggregate(#[trigger] ts@[i])),
    decreases ts,
{
    let mut i: usize = 0;
    while i < ts.len()
        invariant
            i <= ts.len(),
            forall|j: int| 0 <= j < i ==> !has_erased_aggregate(#[trigger] ts@[j]),
        decreases ts.len() - i,
    {
        if type_contains_erased_aggregate(&ts[i]) {
            return true;
        }
        i = i + 1;
    }
    false
}

/// The printable types of a format string's captures: refused when one of them holds an
/// aggregate whose type metadata was erased.
pub fn capture_printable_types(types: &Vec<Type>) -> (r: Result<Vec<PrintableType>, InterpretError>)
    ensures
        (exists|i: int| 0 <= i < types@.len() && has_erased_aggregate(#[trigger] types@[i])) ==> (r matches Err(
            InterpretError::Unsupported(m)) && m@ == "format string interpolating an aggregate with erased type metadata"@),
        !(exists|i: int| 0 <= i < types@.len() && has_erased_aggregate(#[trigger] types@[i])) ==> (r matches Ok(ps)
            && ps@.len() == types@.len() && forall|i: int| 0 <= i < types@.len() ==> printable_of(
            #[trigger] types@[i], ps@[i])),
{
    if any_erased(types) {
        return Err(InterpretError::Unsupported(owned("format string interpolating an aggregate with erased type metadata")));
    }
    Ok(printable_types(types))
}

} // verus!
