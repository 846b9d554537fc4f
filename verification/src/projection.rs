//! Fingerprint monomorphized programs, ignoring source locations, debug data and item IDs.
//!
//! The canonical text numbers functions, globals and locals in the order the text first meets
//! them: functions and globals from the entry point on, breadth first, locals afresh in every
//! function body and global initializer. Bump [`PROJECTION_VERSION`] whenever the format changes.

use vstd::prelude::*;

use crate::ast::{
    Definition, Expression, Function, Global, Ident, InlineType, LValue, Literal, MatchCase, Parameter, Program,
    Visibility,
};
use crate::bigint::{int_decimal, nat_decimal, u64_decimal};
use crate::corpus::{hex_digit, hex_text, is_hex_digit, sha256_hex, sha256_of};
use crate::field::hex_char;
use crate::eval::{op_name, Constructor, UnaryOp};
use crate::format::FmtStrFragment;
use crate::text::{append, bool_string, bool_text, debug_quoted, owned, push_char, quote_debug};
use crate::format::printable_debug;
use crate::types::type_debug;
use vstd::utf8::encode_utf8;

verus! {

broadcast use vstd::string::group_string_axioms;

/// The version of the canonical text; part of the text's first line.
pub const PROJECTION_VERSION: u32 = 2;

/// Where the canonical text stands while it is written: the text so far, the functions and
/// globals numbered so far (a number is a position) with the ones not yet written starting at
/// `next_function` and `next_global`, and the locals numbered in the current body.
pub struct Numbering {
    pub out: Seq<char>,
    pub functions: Seq<u32>,
    pub next_function: nat,
    pub globals: Seq<u32>,
    pub next_global: nat,
    pub locals: Seq<u32>,
}

/// The first position at or after `i` that holds `id`.
pub open spec fn position(ids: Seq<u32>, id: u32, i: nat) -> Option<nat>
    decreases ids.len() - i,
{
    if i >= ids.len() {
        None
    } else if ids[i as int] == id {
        Some(i)
    } else {
        position(ids, id, i + 1)
    }
}

/// `s` with `text` written.
pub open spec fn put(s: Numbering, text: Seq<char>) -> Numbering {
    Numbering { out: s.out + text, ..s }
}

/// The number of function `id`, numbering it (and queueing it) when it is new.
pub open spec fn number_function(s: Numbering, id: u32) -> (Numbering, nat) {
    match position(s.functions, id, 0) {
        Some(n) => (s, n),
        None => (Numbering { functions: s.functions.push(id), ..s }, s.functions.len()),
    }
}

/// The number of global `id`, numbering it (and queueing it) when it is new.
pub open spec fn number_global(s: Numbering, id: u32) -> (Numbering, nat) {
    match position(s.globals, id, 0) {
        Some(n) => (s, n),
        None => (Numbering { globals: s.globals.push(id), ..s }, s.globals.len()),
    }
}

/// The number of local `id` in the current body, numbering it when it is new.
pub open spec fn number_local(s: Numbering, id: u32) -> (Numbering, nat) {
    match position(s.locals, id, 0) {
        Some(n) => (s, n),
        None => (Numbering { locals: s.locals.push(id), ..s }, s.locals.len()),
    }
}

/// A numbered name: `l#3`, `g#0`, `f#1`.
pub open spec fn numbered(prefix: Seq<char>, n: nat) -> Seq<char> {
    prefix + nat_decimal(n)
}

/// The `Debug` rendering of a unary operator.
pub open spec fn unary_debug(op: UnaryOp) -> Seq<char> {
    match op {
        UnaryOp::Minus => "Minus"@,
        UnaryOp::Not => "Not"@,
        UnaryOp::Reference { mutable } => "Reference { mutable: "@ + bool_text(mutable) + " }"@,
        UnaryOp::Dereference { implicitly_added } => "Dereference { implicitly_added: "@ + bool_text(implicitly_added)
            + " }"@,
    }
}

/// The `Debug` rendering of a visibility.
pub open spec fn visibility_debug(v: Visibility) -> Seq<char> {
    match v {
        Visibility::Public => "Public"@,
        Visibility::Private => "Private"@,
        Visibility::CallData(n) => "CallData("@ + nat_decimal(n as nat) + ")"@,
        Visibility::ReturnData => "ReturnData"@,
    }
}

/// The name an inline type is written with.
pub open spec fn inline_text(t: InlineType) -> Seq<char> {
    match t {
        InlineType::Inline => "inline"@,
        InlineType::InlineAlways => "inline_always"@,
        InlineType::NoPredicates => "no_predicates"@,
        InlineType::Fold => "fold"@,
    }
}

/// A byte as ASCII with escapes: `\t`, `\r`, `\n`, `\\`, `\'`, `\"`, printable ASCII as
/// itself, and every other byte as `\x` and two lowercase hexadecimal digits.
pub open spec fn escape_byte(b: u8) -> Seq<char> {
    if b == 9 {
        seq!['\\', 't']
    } else if b == 13 {
        seq!['\\', 'r']
    } else if b == 10 {
        seq!['\\', 'n']
    } else if b == 92 {
        seq!['\\', '\\']
    } else if b == 39 {
        seq!['\\', '\'']
    } else if b == 34 {
        seq!['\\', '"']
    } else if 32 <= b && b <= 126 {
        seq![b as char]
    } else {
        seq!['\\', 'x', hex_char(b as nat / 16), hex_char(b as nat % 16)]
    }
}

/// The bytes of a string literal, escaped byte by byte.
pub open spec fn escape_ascii(bytes: Seq<u8>) -> Seq<char>
    decreases bytes.len(),
{
    if bytes.len() == 0 {
        Seq::empty()
    } else {
        escape_ascii(bytes.drop_last()) + escape_byte(bytes.last())
    }
}

/// A name a definition is written as, numbering the item or local it names.
pub open spec fn definition_text(s: Numbering, d: Definition) -> (Numbering, Seq<char>) {
    match d {
        Definition::Local(id) => {
            let (s1, n) = number_local(s, id);
            (s1, numbered("l#"@, n))
        },
        Definition::Global(id) => {
            let (s1, n) = number_global(s, id);
            (s1, numbered("g#"@, n))
        },
        Definition::Function(id) => {
            let (s1, n) = number_function(s, id);
            (s1, numbered("f#"@, n))
        },
        Definition::Builtin(name) => (s, "builtin:"@ + debug_quoted(name@)),
        Definition::LowLevel(name) => (s, "lowlevel:"@ + debug_quoted(name@)),
        Definition::Oracle { name, pure } => (s, "oracle:"@ + debug_quoted(name@) + ":pure="@ + bool_text(pure)),
    }
}

/// The text of a match pattern.
pub open spec fn constructor_text(c: Constructor) -> Seq<char> {
    match c {
        Constructor::True => "true"@,
        Constructor::False => "false"@,
        Constructor::Unit => "unit"@,
        Constructor::Int(v) => "(int "@ + int_decimal(v@) + ")"@,
        Constructor::Tuple(names) => "(tuple "@ + nat_decimal(names@.len()) + quoted_names(names@, names@.len()) + ")"@,
        Constructor::Variant { name, enum_type, index } => "(variant "@ + debug_quoted(name@) + " "@ + nat_decimal(
            index as nat,
        ) + " enum="@ + bool_text(enum_type) + ")"@,
        Constructor::Range(low, high) => "(range "@ + int_decimal(low@) + " "@ + int_decimal(high@) + ")"@,
    }
}

/// The first `n` names, each quoted after a space.
pub open spec fn quoted_names(names: Seq<String>, n: nat) -> Seq<char>
    decreases n,
{
    if n == 0 || n > names.len() {
        Seq::empty()
    } else {
        quoted_names(names, (n - 1) as nat) + " "@ + debug_quoted(names[n - 1]@)
    }
}

/// The text of the first `n` format string fragments.
pub open spec fn fragments_text(fs: Seq<FmtStrFragment>, n: nat) -> Seq<char>
    decreases n,
{
    if n == 0 || n > fs.len() {
        Seq::empty()
    } else {
        fragments_text(fs, (n - 1) as nat) + match fs[n - 1] {
            FmtStrFragment::String(t) => " (s "@ + debug_quoted(t@) + ")"@,
            FmtStrFragment::Interpolation(name, _) => " (i "@ + debug_quoted(name@) + ")"@,
        }
    }
}

/// `s` after writing expression `e`.
pub open spec fn expr_text(s: Numbering, e: Expression) -> Numbering
    decreases e, 0nat,
{
    match e {
        Expression::Ident(ident) => {
            let (s1, d) = definition_text(s, ident.definition);
            put(s1, "(ident "@ + d + " mut="@ + bool_text(ident.mutable) + " "@ + debug_quoted(ident.name@) + " "@
                + type_debug(ident.typ) + ")"@)
        },
        Expression::Literal(l) => literal_text(s, l),
        Expression::Block(es) => put(exprs_text(put(s, "(block"@), es@, 0), ")"@),
        Expression::Unary { operator, rhs, result_type, skip, .. } => {
            let s1 = put(s, "(unary "@ + unary_debug(operator) + " skip="@ + bool_text(skip) + " "@ + type_debug(result_type)
                + " "@);
            put(expr_text(s1, *rhs), ")"@)
        },
        Expression::Binary { lhs, operator, rhs, .. } => {
            let s1 = expr_text(put(s, "(binary "@ + op_name(operator) + " "@), *lhs);
            put(expr_text(put(s1, " "@), *rhs), ")"@)
        },
        Expression::Index { collection, index, element_type, .. } => {
            let s1 = expr_text(put(s, "(index "@ + type_debug(element_type) + " "@), *collection);
            put(expr_text(put(s1, " "@), *index), ")"@)
        },
        Expression::Cast { lhs, typ, .. } => put(expr_text(put(s, "(cast "@ + type_debug(typ) + " "@), *lhs), ")"@),
        Expression::For { index_variable, index_name, index_type, start_range, end_range, inclusive, block } => {
            let (s1, l) = number_local(s, index_variable);
            let s2 = put(s1, "(for "@ + numbered("l#"@, l) + " "@ + debug_quoted(index_name@) + " "@ + type_debug(index_type)
                + " inclusive="@ + bool_text(inclusive) + " "@);
            let s3 = expr_text(s2, *start_range);
            let s4 = expr_text(put(s3, " "@), *end_range);
            put(expr_text(put(s4, " "@), *block), ")"@)
        },
        Expression::Loop(body) => put(expr_text(put(s, "(loop "@), *body), ")"@),
        Expression::While { condition, body } => {
            let s1 = expr_text(put(s, "(while "@), *condition);
            put(expr_text(put(s1, " "@), *body), ")"@)
        },
        Expression::If { condition, consequence, alternative, typ } => {
            let s1 = expr_text(put(s, "(if "@ + type_debug(typ) + " "@), *condition);
            let s2 = expr_text(put(s1, " "@), *consequence);
            let s3 = match alternative {
                Some(a) => put(expr_text(put(s2, " (else "@), *a), ")"@),
                None => put(s2, " none"@),
            };
            put(s3, ")"@)
        },
        Expression::Match { variable, variable_name, cases, default_case, typ } => {
            let (s1, l) = number_local(s, variable);
            let s2 = put(s1, "(match "@ + numbered("l#"@, l) + " "@ + debug_quoted(variable_name@) + " "@ + type_debug(typ));
            let s3 = cases_text(s2, cases@, 0);
            let s4 = match default_case {
                Some(d) => put(expr_text(put(s3, " (default "@), *d), ")"@),
                None => put(s3, " none"@),
            };
            put(s4, ")"@)
        },
        Expression::Tuple(es) => put(exprs_text(put(s, "(tuple"@), es@, 0), ")"@),
        Expression::ExtractTupleField(inner, index) => put(
            expr_text(put(s, "(field "@ + nat_decimal(index as nat) + " "@), *inner),
            ")"@,
        ),
        Expression::Call { func, arguments, return_type, .. } => {
            let s1 = expr_text(put(s, "(call "@ + type_debug(return_type) + " "@), *func);
            put(exprs_text(s1, arguments@, 0), ")"@)
        },
        Expression::Let { id, mutable, name, expression } => {
            let (s1, l) = number_local(s, id);
            let s2 = put(s1, "(let "@ + numbered("l#"@, l) + " mut="@ + bool_text(mutable) + " "@ + debug_quoted(name@) + " "@);
            put(expr_text(s2, *expression), ")"@)
        },
        Expression::Constrain { condition, message, .. } => {
            let s1 = expr_text(put(s, "(constrain "@), *condition);
            let s2 = match message {
                Some(m) => put(expr_text(put(s1, " (msg "@ + printable_debug(m.1) + " "@), *m.0), ")"@),
                None => put(s1, " none"@),
            };
            put(s2, ")"@)
        },
        Expression::Assign { lvalue, expression } => {
            let s1 = lvalue_text(put(s, "(assign "@), lvalue);
            put(expr_text(put(s1, " "@), *expression), ")"@)
        },
        Expression::Semi(inner) => put(expr_text(put(s, "(semi "@), *inner), ")"@),
        Expression::Clone(inner) => put(expr_text(put(s, "(clone "@), *inner), ")"@),
        Expression::Drop(inner) => put(expr_text(put(s, "(drop "@), *inner), ")"@),
        Expression::Break => put(s, "break"@),
        Expression::Continue => put(s, "continue"@),
    }
}

/// `s` after writing each expression of `es` from `i` on, each after a space.
pub open spec fn exprs_text(s: Numbering, es: Seq<Expression>, i: nat) -> Numbering
    decreases es, es.len() - i,
{
    if i >= es.len() {
        s
    } else {
        exprs_text(expr_text(put(s, " "@), es[i as int]), es, i + 1)
    }
}

/// `s` after writing the match cases of `cs` from `i` on.
pub open spec fn cases_text(s: Numbering, cs: Seq<MatchCase>, i: nat) -> Numbering
    decreases cs, cs.len() - i,
{
    if i >= cs.len() {
        s
    } else {
        let c = cs[i as int];
        let s1 = put(s, " (case "@ + constructor_text(c.constructor) + " (args"@);
        let s2 = case_arguments_text(s1, c.arguments@, 0);
        let s3 = put(expr_text(put(s2, ") "@), c.branch), ")"@);
        cases_text(s3, cs, i + 1)
    }
}

/// `s` after writing a case's argument locals from `i` on.
pub open spec fn case_arguments_text(s: Numbering, args: Seq<(u32, String)>, i: nat) -> Numbering
    decreases args.len() - i,
{
    if i >= args.len() {
        s
    } else {
        let (s1, l) = number_local(s, args[i as int].0);
        case_arguments_text(put(s1, " "@ + numbered("l#"@, l) + ":"@ + debug_quoted(args[i as int].1@)), args, i + 1)
    }
}

/// `s` after writing literal `l`.
pub open spec fn literal_text(s: Numbering, l: Literal) -> Numbering
    decreases l, 0nat,
{
    match l {
        Literal::Array { typ, contents } => put(exprs_text(put(s, "(array "@ + type_debug(typ)), contents@, 0), ")"@),
        Literal::Vector { typ, contents } => put(exprs_text(put(s, "(vector "@ + type_debug(typ)), contents@, 0), ")"@),
        Literal::Repeated { element, length, is_vector, typ } => {
            let s1 = put(s, "(repeated "@ + type_debug(typ) + " "@ + nat_decimal(length as nat) + " vector="@ + bool_text(
                is_vector,
            ) + " "@);
            put(expr_text(s1, *element), ")"@)
        },
        Literal::Integer(v, typ, _) => put(s, "(int "@ + int_decimal(v@) + " "@ + type_debug(typ) + ")"@),
        Literal::Bool(b) => put(s, "(bool "@ + bool_text(b) + ")"@),
        Literal::Unit => put(s, "unit"@),
        Literal::Str(bytes) => put(s, "(str \""@ + escape_ascii(bytes@) + "\")"@),
        Literal::FmtStr(fragments, count, captures, _) => {
            let s1 = put(s, "(fmtstr "@ + nat_decimal(count as nat) + " ["@ + fragments_text(fragments@, fragments@.len())
                + " ] "@);
            put(expr_text(s1, *captures), ")"@)
        },
    }
}

/// `s` after writing the assignable place `lv`.
pub open spec fn lvalue_text(s: Numbering, lv: LValue) -> Numbering
    decreases lv, 0nat,
{
    match lv {
        LValue::Ident(ident) => {
            let (s1, d) = definition_text(s, ident.definition);
            put(s1, "(lident "@ + d + " mut="@ + bool_text(ident.mutable) + " "@ + debug_quoted(ident.name@) + " "@
                + type_debug(ident.typ) + ")"@)
        },
        LValue::Index { array, index, element_type, .. } => {
            let s1 = lvalue_text(put(s, "(lindex "@ + type_debug(element_type) + " "@), *array);
            put(expr_text(put(s1, " "@), *index), ")"@)
        },
        LValue::MemberAccess { object, field_index } => put(
            lvalue_text(put(s, "(lmember "@ + nat_decimal(field_index as nat) + " "@), *object),
            ")"@,
        ),
        LValue::Dereference { reference, element_type } => put(
            lvalue_text(put(s, "(lderef "@ + type_debug(element_type) + " "@), *reference),
            ")"@,
        ),
        LValue::Clone(inner) => put(lvalue_text(put(s, "(lclone "@), *inner), ")"@),
    }
}

/// The first position at or after `i` of a function with id `id`.
pub open spec fn function_position(fs: Seq<Function>, id: u32, i: nat) -> Option<nat>
    decreases fs.len() - i,
{
    if i >= fs.len() {
        None
    } else if fs[i as int].id == id {
        Some(i)
    } else {
        function_position(fs, id, i + 1)
    }
}

/// The function with id `id`: the one at position `id` when it has that id, else the first one
/// that has it.
pub open spec fn function_by_id(p: Program, id: u32) -> Option<nat> {
    if (id as nat) < p.functions@.len() && p.functions@[id as int].id == id {
        Some(id as nat)
    } else {
        function_position(p.functions@, id, 0)
    }
}

/// The first position at or after `i` of a global with id `id`.
pub open spec fn global_position(gs: Seq<Global>, id: u32, i: nat) -> Option<nat>
    decreases gs.len() - i,
{
    if i >= gs.len() {
        None
    } else if gs[i as int].id == id {
        Some(i)
    } else {
        global_position(gs, id, i + 1)
    }
}

/// `s` after writing the parameters of `ps` from `i` on.
pub open spec fn parameters_text(s: Numbering, ps: Seq<Parameter>, i: nat) -> Numbering
    decreases ps.len() - i,
{
    if i >= ps.len() {
        s
    } else {
        let q = ps[i as int];
        let (s1, l) = number_local(s, q.id);
        let s2 = put(s1, " ("@ + numbered("l#"@, l) + " mut="@ + bool_text(q.mutable) + " "@ + debug_quoted(q.name@) + " "@
            + type_debug(q.typ) + " "@ + visibility_debug(q.visibility) + ")"@);
        parameters_text(s2, ps, i + 1)
    }
}

/// The number an item has, or 0 for one that has none.
pub open spec fn number_of(ids: Seq<u32>, id: u32) -> nat {
    match position(ids, id, 0) {
        Some(n) => n,
        None => 0,
    }
}

/// `s` after writing function `id`: its header, parameters, return type and body, with locals
/// numbered afresh; or a line saying it is missing.
pub open spec fn function_text(p: Program, s: Numbering, id: u32) -> Numbering {
    let n = number_of(s.functions, id);
    match function_by_id(p, id) {
        None => put(s, " (fn "@ + numbered("f#"@, n) + " missing)\n"@),
        Some(k) => {
            let f = p.functions@[k as int];
            let s1 = put(Numbering { locals: Seq::empty(), ..s }, " (fn "@ + numbered("f#"@, n) + " "@ + debug_quoted(f.name@)
                + " unconstrained="@ + bool_text(f.unconstrained) + " inline="@ + inline_text(f.inline_type) + " entry="@
                + bool_text(f.is_entry_point) + " allow_constant_return="@ + bool_text(f.allow_constant_return)
                + " visibility="@ + visibility_debug(f.return_visibility) + "\n  (params"@);
            let s2 = parameters_text(s1, f.parameters@, 0);
            let s3 = put(s2, ")\n  -> "@ + type_debug(f.return_type) + "\n  "@);
            put(expr_text(s3, f.body), ")\n"@)
        },
    }
}

/// `s` after writing global `id` and its initializer, with locals numbered afresh; or a line
/// saying it is missing.
pub open spec fn global_text(p: Program, s: Numbering, id: u32) -> Numbering {
    let n = number_of(s.globals, id);
    match global_position(p.globals@, id, 0) {
        None => put(s, " (global "@ + numbered("g#"@, n) + " missing)\n"@),
        Some(k) => {
            let g = p.globals@[k as int];
            let s1 = put(Numbering { locals: Seq::empty(), ..s }, " (global "@ + numbered("g#"@, n) + " "@ + debug_quoted(g.name@)
                + " "@ + type_debug(g.typ) + " "@);
            put(expr_text(s1, g.expression), ")\n"@)
        },
    }
}

/// `s` after writing the queued functions, then the queued globals, as long as there are any,
/// for at most `budget` items.
pub open spec fn drained(p: Program, s: Numbering, budget: nat) -> Numbering
    decreases budget,
{
    if budget == 0 {
        s
    } else if s.next_function < s.functions.len() {
        let id = s.functions[s.next_function as int];
        drained(p, function_text(p, Numbering { next_function: s.next_function + 1, ..s }, id), (budget - 1) as nat)
    } else if s.next_global < s.globals.len() {
        let id = s.globals[s.next_global as int];
        drained(p, global_text(p, Numbering { next_global: s.next_global + 1, ..s }, id), (budget - 1) as nat)
    } else {
        s
    }
}

/// The ids of the functions of `fs` from `i` on that `numbered` does not hold, in order.
pub open spec fn unnumbered_functions(fs: Seq<Function>, numbered: Seq<u32>, i: nat) -> Seq<u32>
    decreases fs.len() - i,
{
    if i >= fs.len() {
        Seq::empty()
    } else {
        let rest = unnumbered_functions(fs, numbered, i + 1);
        if position(numbered, fs[i as int].id, 0) is None {
            seq![fs[i as int].id] + rest
        } else {
            rest
        }
    }
}

/// The ids of the globals of `gs` from `i` on that `numbered` does not hold, in order.
pub open spec fn unnumbered_globals(gs: Seq<Global>, numbered: Seq<u32>, i: nat) -> Seq<u32>
    decreases gs.len() - i,
{
    if i >= gs.len() {
        Seq::empty()
    } else {
        let rest = unnumbered_globals(gs, numbered, i + 1);
        if position(numbered, gs[i as int].id, 0) is None {
            seq![gs[i as int].id] + rest
        } else {
            rest
        }
    }
}

/// `s` after numbering the functions `ids` from `i` on.
pub open spec fn number_functions(s: Numbering, ids: Seq<u32>, i: nat) -> Numbering
    decreases ids.len() - i,
{
    if i >= ids.len() {
        s
    } else {
        number_functions(number_function(s, ids[i as int]).0, ids, i + 1)
    }
}

/// `s` after numbering the globals `ids` from `i` on.
pub open spec fn number_globals(s: Numbering, ids: Seq<u32>, i: nat) -> Numbering
    decreases ids.len() - i,
{
    if i >= ids.len() {
        s
    } else {
        number_globals(number_global(s, ids[i as int]).0, ids, i + 1)
    }
}

/// The most items the canonical text writes; no program has more.
pub open spec fn item_budget() -> nat {
    usize::MAX as nat
}

/// The state where the text starts: its first line written, nothing numbered.
pub open spec fn start_numbering() -> Numbering {
    Numbering {
        out: "(program v2\n"@,
        functions: Seq::empty(),
        next_function: 0,
        globals: Seq::empty(),
        next_global: 0,
        locals: Seq::empty(),
    }
}

/// The canonical text of `p`: the entry point (function 0) and everything it reaches, then,
/// under `(unreachable`, the functions and globals nothing reached, in program order, and what
/// they reach.
pub open spec fn canonical_text_of(p: Program) -> Seq<char> {
    let s1 = drained(p, number_function(start_numbering(), 0).0, item_budget());
    let lf = unnumbered_functions(p.functions@, s1.functions, 0);
    let lg = unnumbered_globals(p.globals@, s1.globals, 0);
    let s2 = if lf.len() == 0 && lg.len() == 0 {
        s1
    } else {
        let s3 = number_globals(number_functions(put(s1, " (unreachable\n"@), lf, 0), lg, 0);
        put(drained(p, s3, item_budget()), " )\n"@)
    };
    s2.out + ")\n"@
}

/// The writer of the canonical text.
struct Canonicalizer {
    out: String,
    functions: Vec<u32>,
    next_function: usize,
    globals: Vec<u32>,
    next_global: usize,
    locals: Vec<u32>,
}

impl View for Canonicalizer {
    type V = Numbering;

    closed spec fn view(&self) -> Numbering {
        Numbering {
            out: self.out@,
            functions: self.functions@,
            next_function: self.next_function as nat,
            globals: self.globals@,
            next_global: self.next_global as nat,
            locals: self.locals@,
        }
    }
}

/// The first position of `id` in `ids`.
fn find_id(ids: &Vec<u32>, id: u32) -> (r: Option<usize>)
    ensures
        r is Some <==> position(ids@, id, 0) is Some,
        r matches Some(k) ==> position(ids@, id, 0) == Some(k as nat),
{
    let mut i: usize = 0;
    while i < ids.len()
        invariant
            i <= ids@.len(),
            position(ids@, id, 0) == position(ids@, id, i as nat),
        decreases ids@.len() - i,
    {
        if ids[i] == id {
            return Some(i);
        }
        i = i + 1;
    }
    None
}

impl Canonicalizer {
    fn put(&mut self, text: &str)
        ensures
            final(self)@ == put(old(self)@, text@),
    {
        append(&mut self.out, text);
    }

    fn function_id(&mut self, id: u32) -> (n: usize)
        ensures
            (final(self)@, n as nat) == number_function(old(self)@, id),
    {
        match find_id(&self.functions, id) {
            Some(n) => n,
            None => {
                let n = self.functions.len();
                self.functions.push(id);
                n
            },
        }
    }

    fn global_id(&mut self, id: u32) -> (n: usize)
        ensures
            (final(self)@, n as nat) == number_global(old(self)@, id),
    {
        match find_id(&self.globals, id) {
            Some(n) => n,
            None => {
                let n = self.globals.len();
                self.globals.push(id);
                n
            },
        }
    }

    fn local_id(&mut self, id: u32) -> (n: usize)
        ensures
            (final(self)@, n as nat) == number_local(old(self)@, id),
    {
        match find_id(&self.locals, id) {
            Some(n) => n,
            None => {
                let n = self.locals.len();
                self.locals.push(id);
                n
            },
        }
    }
}

/// A numbered name.
fn numbered_name(prefix: &str, n: usize) -> (r: String)
    ensures
        r@ == numbered(prefix@, n as nat),
{
    let mut s = owned(prefix);
    append(&mut s, u64_decimal(n as u64).as_str());
    s
}

/// The `Debug` rendering of a unary operator.
fn unary_string(op: UnaryOp) -> (r: String)
    ensures
        r@ == unary_debug(op),
{
    match op {
        UnaryOp::Minus => owned("Minus"),
        UnaryOp::Not => owned("Not"),
        UnaryOp::Reference { mutable } => {
            let mut t = owned("Reference { mutable: ");
            append(&mut t, bool_string(mutable).as_str());
            append(&mut t, " }");
            t
        },
        UnaryOp::Dereference { implicitly_added } => {
            let mut t = owned("Dereference { implicitly_added: ");
            append(&mut t, bool_string(implicitly_added).as_str());
            append(&mut t, " }");
            t
        },
    }
}

/// The `Debug` rendering of a visibility.
fn visibility_string(v: Visibility) -> (r: String)
    ensures
        r@ == visibility_debug(v),
{
    match v {
        Visibility::Public => owned("Public"),
        Visibility::Private => owned("Private"),
        Visibility::CallData(n) => {
            let mut t = owned("CallData(");
            append(&mut t, u64_decimal(n as u64).as_str());
            append(&mut t, ")");
            t
        },
        Visibility::ReturnData => owned("ReturnData"),
    }
}

/// The name an inline type is written with.
fn inline_string(t: InlineType) -> (r: String)
    ensures
        r@ == inline_text(t),
{
    match t {
        InlineType::Inline => owned("inline"),
        InlineType::InlineAlways => owned("inline_always"),
        InlineType::NoPredicates => owned("no_predicates"),
        InlineType::Fold => owned("fold"),
    }
}

/// A string literal's bytes, escaped as ASCII.
pub fn escape_bytes(bytes: &Vec<u8>) -> (r: String)
    ensures
        r@ == escape_ascii(bytes@),
{
    let mut out = String::new();
    let mut i: usize = 0;
    while i < bytes.len()
        invariant
            i <= bytes@.len(),
            out@ == escape_ascii(bytes@.take(i as int)),
        decreases bytes@.len() - i,
    {
        assert(bytes@.take(i as int + 1).drop_last() =~= bytes@.take(i as int));
        let b = bytes[i];
        if b == 9 {
            push_char(&mut out, '\\');
            push_char(&mut out, 't');
        } else if b == 13 {
            push_char(&mut out, '\\');
            push_char(&mut out, 'r');
        } else if b == 10 {
            push_char(&mut out, '\\');
            push_char(&mut out, 'n');
        } else if b == 92 {
            push_char(&mut out, '\\');
            push_char(&mut out, '\\');
        } else if b == 39 {
            push_char(&mut out, '\\');
            push_char(&mut out, '\'');
        } else if b == 34 {
            push_char(&mut out, '\\');
            push_char(&mut out, '"');
        } else if 32 <= b && b <= 126 {
            push_char(&mut out, b as char);
        } else {
            push_char(&mut out, '\\');
            push_char(&mut out, 'x');
            push_char(&mut out, hex_digit(b / 16));
            push_char(&mut out, hex_digit(b % 16));
        }
        assert(out@ =~= escape_ascii(bytes@.take(i as int + 1)));
        i = i + 1;
    }
    assert(bytes@.take(bytes@.len() as int) =~= bytes@);
    out
}

/// The text of a match pattern.
fn constructor_string(c: &Constructor) -> (r: String)
    ensures
        r@ == constructor_text(*c),
{
    match c {
        Constructor::True => owned("true"),
        Constructor::False => owned("false"),
        Constructor::Unit => owned("unit"),
        Constructor::Int(v) => {
            let mut t = owned("(int ");
            append(&mut t, v.to_decimal().as_str());
            append(&mut t, ")");
            t
        },
        Constructor::Tuple(names) => {
            let mut t = owned("(tuple ");
            append(&mut t, u64_decimal(names.len() as u64).as_str());
            let mut i: usize = 0;
            while i < names.len()
                invariant
                    i <= names@.len(),
                    t@ == "(tuple "@ + nat_decimal(names@.len()) + quoted_names(names@, i as nat),
                decreases names@.len() - i,
            {
                append(&mut t, " ");
                append(&mut t, quote_debug(names[i].as_str()).as_str());
                i = i + 1;
            }
            append(&mut t, ")");
            t
        },
        Constructor::Variant { name, enum_type, index } => {
            let mut t = owned("(variant ");
            append(&mut t, quote_debug(name.as_str()).as_str());
            append(&mut t, " ");
            append(&mut t, u64_decimal(*index as u64).as_str());
            append(&mut t, " enum=");
            append(&mut t, bool_string(*enum_type).as_str());
            append(&mut t, ")");
            t
        },
        Constructor::Range(low, high) => {
            let mut t = owned("(range ");
            append(&mut t, low.to_decimal().as_str());
            append(&mut t, " ");
            append(&mut t, high.to_decimal().as_str());
            append(&mut t, ")");
            t
        },
    }
}

/// The text of a format string's fragments.
fn fragments_string(fs: &Vec<FmtStrFragment>) -> (r: String)
    ensures
        r@ == fragments_text(fs@, fs@.len()),
{
    let mut t = String::new();
    let mut i: usize = 0;
    while i < fs.len()
        invariant
            i <= fs@.len(),
            t@ == fragments_text(fs@, i as nat),
        decreases fs@.len() - i,
    {
        match &fs[i] {
            FmtStrFragment::String(text) => {
                append(&mut t, " (s ");
                append(&mut t, quote_debug(text.as_str()).as_str());
                append(&mut t, ")");
            },
            FmtStrFragment::Interpolation(name, _) => {
                append(&mut t, " (i ");
                append(&mut t, quote_debug(name.as_str()).as_str());
                append(&mut t, ")");
            },
        }
        i = i + 1;
    }
    t
}

impl Canonicalizer {
    fn definition(&mut self, d: &Definition) -> (r: String)
        ensures
            (final(self)@, r@) == definition_text(old(self)@, *d),
    {
        match d {
            Definition::Local(id) => {
                let n = self.local_id(*id);
                numbered_name("l#", n)
            },
            Definition::Global(id) => {
                let n = self.global_id(*id);
                numbered_name("g#", n)
            },
            Definition::Function(id) => {
                let n = self.function_id(*id);
                numbered_name("f#", n)
            },
            Definition::Builtin(name) => {
                let mut t = owned("builtin:");
                append(&mut t, quote_debug(name.as_str()).as_str());
                t
            },
            Definition::LowLevel(name) => {
                let mut t = owned("lowlevel:");
                append(&mut t, quote_debug(name.as_str()).as_str());
                t
            },
            Definition::Oracle { name, pure } => {
                let mut t = owned("oracle:");
                append(&mut t, quote_debug(name.as_str()).as_str());
                append(&mut t, ":pure=");
                append(&mut t, bool_string(*pure).as_str());
                t
            },
        }
    }

    fn exprs(&mut self, es: &Vec<Expression>)
        ensures
            final(self)@ == exprs_text(old(self)@, es@, 0),
        decreases es, 1nat,
    {
        let mut i: usize = 0;
        while i < es.len()
            invariant
                i <= es@.len(),
                exprs_text(old(self)@, es@, 0) == exprs_text(self@, es@, i as nat),
            decreases es@.len() - i,
        {
            proof {
                assert(decreases_to!(*es => es@));
                assert(decreases_to!(es@ => es@[i as int]));
            }
            self.put(" ");
            self.expr(&es[i]);
            i = i + 1;
        }
    }

    fn case_arguments(&mut self, args: &Vec<(u32, String)>)
        ensures
            final(self)@ == case_arguments_text(old(self)@, args@, 0),
    {
        let mut i: usize = 0;
        while i < args.len()
            invariant
                i <= args@.len(),
                case_arguments_text(old(self)@, args@, 0) == case_arguments_text(self@, args@, i as nat),
            decreases args@.len() - i,
        {
            let l = self.local_id(args[i].0);
            let mut t = owned(" ");
            append(&mut t, numbered_name("l#", l).as_str());
            append(&mut t, ":");
            append(&mut t, quote_debug(args[i].1.as_str()).as_str());
            self.put(t.as_str());
            i = i + 1;
        }
    }

    fn cases(&mut self, cs: &Vec<MatchCase>)
        ensures
            final(self)@ == cases_text(old(self)@, cs@, 0),
        decreases cs, 1nat,
    {
        let mut i: usize = 0;
        while i < cs.len()
            invariant
                i <= cs@.len(),
                cases_text(old(self)@, cs@, 0) == cases_text(self@, cs@, i as nat),
            decreases cs@.len() - i,
        {
            proof {
                assert(decreases_to!(*cs => cs@));
                assert(decreases_to!(cs@ => cs@[i as int]));
            }
            let c = &cs[i];
            let mut t = owned(" (case ");
            append(&mut t, constructor_string(&c.constructor).as_str());
            append(&mut t, " (args");
            self.put(t.as_str());
            self.case_arguments(&c.arguments);
            self.put(") ");
            self.expr(&c.branch);
            self.put(")");
            i = i + 1;
        }
    }

    fn literal(&mut self, l: &Literal)
        ensures
            final(self)@ == literal_text(old(self)@, *l),
        decreases l, 0nat,
    {
        match l {
            Literal::Array { typ, contents } => {
                let mut t = owned("(array ");
                append(&mut t, typ.debug_text().as_str());
                self.put(t.as_str());
                self.exprs(contents);
                self.put(")");
            },
            Literal::Vector { typ, contents } => {
                let mut t = owned("(vector ");
                append(&mut t, typ.debug_text().as_str());
                self.put(t.as_str());
                self.exprs(contents);
                self.put(")");
            },
            Literal::Repeated { element, length, is_vector, typ } => {
                let mut t = owned("(repeated ");
                append(&mut t, typ.debug_text().as_str());
                append(&mut t, " ");
                append(&mut t, u64_decimal(*length as u64).as_str());
                append(&mut t, " vector=");
                append(&mut t, bool_string(*is_vector).as_str());
                append(&mut t, " ");
                self.put(t.as_str());
                self.expr(element);
                self.put(")");
            },
            Literal::Integer(v, typ, _) => {
                let mut t = owned("(int ");
                append(&mut t, v.to_decimal().as_str());
                append(&mut t, " ");
                append(&mut t, typ.debug_text().as_str());
                append(&mut t, ")");
                self.put(t.as_str());
            },
            Literal::Bool(b) => {
                let mut t = owned("(bool ");
                append(&mut t, bool_string(*b).as_str());
                append(&mut t, ")");
                self.put(t.as_str());
            },
            Literal::Unit => self.put("unit"),
            Literal::Str(bytes) => {
                let mut t = owned("(str \"");
                append(&mut t, escape_bytes(bytes).as_str());
                append(&mut t, "\")");
                self.put(t.as_str());
            },
            Literal::FmtStr(fragments, count, captures, _) => {
                let mut t = owned("(fmtstr ");
                append(&mut t, u64_decimal(*count).as_str());
                append(&mut t, " [");
                append(&mut t, fragments_string(fragments).as_str());
                append(&mut t, " ] ");
                self.put(t.as_str());
                self.expr(captures);
                self.put(")");
            },
        }
    }

    fn lvalue(&mut self, lv: &LValue)
        ensures
            final(self)@ == lvalue_text(old(self)@, *lv),
        decreases lv, 0nat,
    {
        match lv {
            LValue::Ident(ident) => {
                let d = self.definition(&ident.definition);
                let mut t = owned("(lident ");
                append(&mut t, d.as_str());
                append(&mut t, " mut=");
                append(&mut t, bool_string(ident.mutable).as_str());
                append(&mut t, " ");
                append(&mut t, quote_debug(ident.name.as_str()).as_str());
                append(&mut t, " ");
                append(&mut t, ident.typ.debug_text().as_str());
                append(&mut t, ")");
                self.put(t.as_str());
            },
            LValue::Index { array, index, element_type, .. } => {
                let mut t = owned("(lindex ");
                append(&mut t, element_type.debug_text().as_str());
                append(&mut t, " ");
                self.put(t.as_str());
                self.lvalue(array);
                self.put(" ");
                self.expr(index);
                self.put(")");
            },
            LValue::MemberAccess { object, field_index } => {
                let mut t = owned("(lmember ");
                append(&mut t, u64_decimal(*field_index as u64).as_str());
                append(&mut t, " ");
                self.put(t.as_str());
                self.lvalue(object);
                self.put(")");
            },
            LValue::Dereference { reference, element_type } => {
                let mut t = owned("(lderef ");
                append(&mut t, element_type.debug_text().as_str());
                append(&mut t, " ");
                self.put(t.as_str());
                self.lvalue(reference);
                self.put(")");
            },
            LValue::Clone(inner) => {
                self.put("(lclone ");
                self.lvalue(inner);
                self.put(")");
            },
        }
    }

    fn expr(&mut self, e: &Expression)
        ensures
            final(self)@ == expr_text(old(self)@, *e),
        decreases e, 0nat,
    {
        match e {
            Expression::Ident(ident) => {
                let d = self.definition(&ident.definition);
                let mut t = owned("(ident ");
                append(&mut t, d.as_str());
                append(&mut t, " mut=");
                append(&mut t, bool_string(ident.mutable).as_str());
                append(&mut t, " ");
                append(&mut t, quote_debug(ident.name.as_str()).as_str());
                append(&mut t, " ");
                append(&mut t, ident.typ.debug_text().as_str());
                append(&mut t, ")");
                self.put(t.as_str());
            },
            Expression::Literal(l) => self.literal(l),
            Expression::Block(es) => {
                self.put("(block");
                self.exprs(es);
                self.put(")");
            },
            Expression::Unary { operator, rhs, result_type, skip, .. } => {
                let mut t = owned("(unary ");
                append(&mut t, unary_string(*operator).as_str());
                append(&mut t, " skip=");
                append(&mut t, bool_string(*skip).as_str());
                append(&mut t, " ");
                append(&mut t, result_type.debug_text().as_str());
                append(&mut t, " ");
                self.put(t.as_str());
                self.expr(rhs);
                self.put(")");
            },
            Expression::Binary { lhs, operator, rhs, .. } => {
                let mut t = owned("(binary ");
                append(&mut t, operator.name().as_str());
                append(&mut t, " ");
                self.put(t.as_str());
                self.expr(lhs);
                self.put(" ");
                self.expr(rhs);
                self.put(")");
            },
            Expression::Index { collection, index, element_type, .. } => {
                let mut t = owned("(index ");
                append(&mut t, element_type.debug_text().as_str());
                append(&mut t, " ");
                self.put(t.as_str());
                self.expr(collection);
                self.put(" ");
                self.expr(index);
                self.put(")");
            },
            Expression::Cast { lhs, typ, .. } => {
                let mut t = owned("(cast ");
                append(&mut t, typ.debug_text().as_str());
                append(&mut t, " ");
                self.put(t.as_str());
                self.expr(lhs);
                self.put(")");
            },
            Expression::For { index_variable, index_name, index_type, start_range, end_range, inclusive, block } => {
                let l = self.local_id(*index_variable);
                let mut t = owned("(for ");
                append(&mut t, numbered_name("l#", l).as_str());
                append(&mut t, " ");
                append(&mut t, quote_debug(index_name.as_str()).as_str());
                append(&mut t, " ");
                append(&mut t, index_type.debug_text().as_str());
                append(&mut t, " inclusive=");
                append(&mut t, bool_string(*inclusive).as_str());
                append(&mut t, " ");
                self.put(t.as_str());
                self.expr(start_range);
                self.put(" ");
                self.expr(end_range);
                self.put(" ");
                self.expr(block);
                self.put(")");
            },
            Expression::Loop(body) => {
                self.put("(loop ");
                self.expr(body);
                self.put(")");
            },
            Expression::While { condition, body } => {
                self.put("(while ");
                self.expr(condition);
                self.put(" ");
                self.expr(body);
                self.put(")");
            },
            Expression::If { condition, consequence, alternative, typ } => {
                let mut t = owned("(if ");
                append(&mut t, typ.debug_text().as_str());
                append(&mut t, " ");
                self.put(t.as_str());
                self.expr(condition);
                self.put(" ");
                self.expr(consequence);
                match alternative {
                    Some(a) => {
                        self.put(" (else ");
                        self.expr(a);
                        self.put(")");
                    },
                    None => self.put(" none"),
                }
                self.put(")");
            },
            Expression::Match { variable, variable_name, cases, default_case, typ } => {
                let l = self.local_id(*variable);
                let mut t = owned("(match ");
                append(&mut t, numbered_name("l#", l).as_str());
                append(&mut t, " ");
                append(&mut t, quote_debug(variable_name.as_str()).as_str());
                append(&mut t, " ");
                append(&mut t, typ.debug_text().as_str());
                self.put(t.as_str());
                self.cases(cases);
                match default_case {
                    Some(d) => {
                        self.put(" (default ");
                        self.expr(d);
                        self.put(")");
                    },
                    None => self.put(" none"),
                }
                self.put(")");
            },
            Expression::Tuple(es) => {
                self.put("(tuple");
                self.exprs(es);
                self.put(")");
            },
            Expression::ExtractTupleField(inner, index) => {
                let mut t = owned("(field ");
                append(&mut t, u64_decimal(*index as u64).as_str());
                append(&mut t, " ");
                self.put(t.as_str());
                self.expr(inner);
                self.put(")");
            },
            Expression::Call { func, arguments, return_type, .. } => {
                let mut t = owned("(call ");
                append(&mut t, return_type.debug_text().as_str());
                append(&mut t, " ");
                self.put(t.as_str());
                self.expr(func);
                self.exprs(arguments);
                self.put(")");
            },
            Expression::Let { id, mutable, name, expression } => {
                let l = self.local_id(*id);
                let mut t = owned("(let ");
                append(&mut t, numbered_name("l#", l).as_str());
                append(&mut t, " mut=");
                append(&mut t, bool_string(*mutable).as_str());
                append(&mut t, " ");
                append(&mut t, quote_debug(name.as_str()).as_str());
                append(&mut t, " ");
                self.put(t.as_str());
                self.expr(expression);
                self.put(")");
            },
            Expression::Constrain { condition, message, .. } => {
                self.put("(constrain ");
                self.expr(condition);
                match message {
                    Some(m) => {
                        let mut t = owned(" (msg ");
                        append(&mut t, m.1.debug_text().as_str());
                        append(&mut t, " ");
                        self.put(t.as_str());
                        self.expr(&m.0);
                        self.put(")");
                    },
                    None => self.put(" none"),
                }
                self.put(")");
            },
            Expression::Assign { lvalue, expression } => {
                self.put("(assign ");
                self.lvalue(lvalue);
                self.put(" ");
                self.expr(expression);
                self.put(")");
            },
            Expression::Semi(inner) => {
                self.put("(semi ");
                self.expr(inner);
                self.put(")");
            },
            Expression::Clone(inner) => {
                self.put("(clone ");
                self.expr(inner);
                self.put(")");
            },
            Expression::Drop(inner) => {
                self.put("(drop ");
                self.expr(inner);
                self.put(")");
            },
            Expression::Break => self.put("break"),
            Expression::Continue => self.put("continue"),
        }
    }
}

/// The position of the function that [`function_by_id`] picks.
fn function_index(p: &Program, id: u32) -> (r: Option<usize>)
    ensures
        r is Some <==> function_by_id(*p, id) is Some,
        r matches Some(k) ==> function_by_id(*p, id) == Some(k as nat) && k < p.functions@.len(),
{
    let fs = &p.functions;
    let at = id as usize;
    if at < fs.len() && fs[at].id == id {
        return Some(at);
    }
    let mut k: usize = 0;
    while k < fs.len()
        invariant
            k <= fs@.len(),
            fs@ == p.functions@,
            function_by_id(*p, id) == function_position(fs@, id, 0),
            function_position(fs@, id, 0) == function_position(fs@, id, k as nat),
        decreases fs@.len() - k,
    {
        if fs[k].id == id {
            return Some(k);
        }
        k = k + 1;
    }
    None
}

/// The position of the first global with id `id`.
fn global_index(p: &Program, id: u32) -> (r: Option<usize>)
    ensures
        r is Some <==> global_position(p.globals@, id, 0) is Some,
        r matches Some(k) ==> global_position(p.globals@, id, 0) == Some(k as nat) && k < p.globals@.len(),
{
    let gs = &p.globals;
    let mut k: usize = 0;
    while k < gs.len()
        invariant
            k <= gs@.len(),
            gs@ == p.globals@,
            global_position(gs@, id, 0) == global_position(gs@, id, k as nat),
        decreases gs@.len() - k,
    {
        if gs[k].id == id {
            return Some(k);
        }
        k = k + 1;
    }
    None
}

/// The ids of the functions `numbered` does not hold, in order.
fn leftover_functions(fs: &Vec<Function>, numbered: &Vec<u32>) -> (r: Vec<u32>)
    ensures
        r@ == unnumbered_functions(fs@, numbered@, 0),
{
    let mut r: Vec<u32> = Vec::new();
    let mut i: usize = 0;
    while i < fs.len()
        invariant
            i <= fs@.len(),
            r@ + unnumbered_functions(fs@, numbered@, i as nat) == unnumbered_functions(fs@, numbered@, 0),
        decreases fs@.len() - i,
    {
        let ghost before = r@;
        if find_id(numbered, fs[i].id).is_none() {
            r.push(fs[i].id);
            assert(before + unnumbered_functions(fs@, numbered@, i as nat) =~= r@ + unnumbered_functions(
                fs@,
                numbered@,
                i as nat + 1,
            ));
        }
        i = i + 1;
    }
    assert(r@ + Seq::<u32>::empty() =~= r@);
    r
}

/// The ids of the globals `numbered` does not hold, in order.
fn leftover_globals(gs: &Vec<Global>, numbered: &Vec<u32>) -> (r: Vec<u32>)
    ensures
        r@ == unnumbered_globals(gs@, numbered@, 0),
{
    let mut r: Vec<u32> = Vec::new();
    let mut i: usize = 0;
    while i < gs.len()
        invariant
            i <= gs@.len(),
            r@ + unnumbered_globals(gs@, numbered@, i as nat) == unnumbered_globals(gs@, numbered@, 0),
        decreases gs@.len() - i,
    {
        let ghost before = r@;
        if find_id(numbered, gs[i].id).is_none() {
            r.push(gs[i].id);
            assert(before + unnumbered_globals(gs@, numbered@, i as nat) =~= r@ + unnumbered_globals(
                gs@,
                numbered@,
                i as nat + 1,
            ));
        }
        i = i + 1;
    }
    assert(r@ + Seq::<u32>::empty() =~= r@);
    r
}

impl Canonicalizer {
    fn parameters(&mut self, ps: &Vec<Parameter>)
        ensures
            final(self)@ == parameters_text(old(self)@, ps@, 0),
    {
        let mut i: usize = 0;
        while i < ps.len()
            invariant
                i <= ps@.len(),
                parameters_text(old(self)@, ps@, 0) == parameters_text(self@, ps@, i as nat),
            decreases ps@.len() - i,
        {
            let q = &ps[i];
            let l = self.local_id(q.id);
            let mut t = owned(" (");
            append(&mut t, numbered_name("l#", l).as_str());
            append(&mut t, " mut=");
            append(&mut t, bool_string(q.mutable).as_str());
            append(&mut t, " ");
            append(&mut t, quote_debug(q.name.as_str()).as_str());
            append(&mut t, " ");
            append(&mut t, q.typ.debug_text().as_str());
            append(&mut t, " ");
            append(&mut t, visibility_string(q.visibility).as_str());
            append(&mut t, ")");
            self.put(t.as_str());
            i = i + 1;
        }
    }

    fn emit_function(&mut self, p: &Program, id: u32)
        ensures
            final(self)@ == function_text(*p, old(self)@, id),
    {
        let n = match find_id(&self.functions, id) {
            Some(n) => n,
            None => 0,
        };
        match function_index(p, id) {
            None => {
                let mut t = owned(" (fn ");
                append(&mut t, numbered_name("f#", n).as_str());
                append(&mut t, " missing)\n");
                self.put(t.as_str());
            },
            Some(k) => {
                let f = &p.functions[k];
                self.locals = Vec::new();
                let mut t = owned(" (fn ");
                append(&mut t, numbered_name("f#", n).as_str());
                append(&mut t, " ");
                append(&mut t, quote_debug(f.name.as_str()).as_str());
                append(&mut t, " unconstrained=");
                append(&mut t, bool_string(f.unconstrained).as_str());
                append(&mut t, " inline=");
                append(&mut t, inline_string(f.inline_type).as_str());
                append(&mut t, " entry=");
                append(&mut t, bool_string(f.is_entry_point).as_str());
                append(&mut t, " allow_constant_return=");
                append(&mut t, bool_string(f.allow_constant_return).as_str());
                append(&mut t, " visibility=");
                append(&mut t, visibility_string(f.return_visibility).as_str());
                append(&mut t, "\n  (params");
                self.put(t.as_str());
                self.parameters(&f.parameters);
                let mut t2 = owned(")\n  -> ");
                append(&mut t2, f.return_type.debug_text().as_str());
                append(&mut t2, "\n  ");
                self.put(t2.as_str());
                self.expr(&f.body);
                self.put(")\n");
            },
        }
    }

    fn emit_global(&mut self, p: &Program, id: u32)
        ensures
            final(self)@ == global_text(*p, old(self)@, id),
    {
        let n = match find_id(&self.globals, id) {
            Some(n) => n,
            None => 0,
        };
        match global_index(p, id) {
            None => {
                let mut t = owned(" (global ");
                append(&mut t, numbered_name("g#", n).as_str());
                append(&mut t, " missing)\n");
                self.put(t.as_str());
            },
            Some(k) => {
                let g = &p.globals[k];
                self.locals = Vec::new();
                let mut t = owned(" (global ");
                append(&mut t, numbered_name("g#", n).as_str());
                append(&mut t, " ");
                append(&mut t, quote_debug(g.name.as_str()).as_str());
                append(&mut t, " ");
                append(&mut t, g.typ.debug_text().as_str());
                append(&mut t, " ");
                self.put(t.as_str());
                self.expr(&g.expression);
                self.put(")\n");
            },
        }
    }

    /// Write the queued functions, then the queued globals, until none is left.
    fn drain(&mut self, p: &Program)
        ensures
            final(self)@ == drained(*p, old(self)@, item_budget()),
    {
        let mut budget: usize = usize::MAX;
        let mut done = false;
        while !done && budget > 0
            invariant
                drained(*p, self@, budget as nat) == drained(*p, old(self)@, item_budget()),
                done ==> self@ == drained(*p, old(self)@, item_budget()),
            decreases budget,
        {
            if self.next_function < self.functions.len() {
                let id = self.functions[self.next_function];
                self.next_function = self.next_function + 1;
                self.emit_function(p, id);
            } else if self.next_global < self.globals.len() {
                let id = self.globals[self.next_global];
                self.next_global = self.next_global + 1;
                self.emit_global(p, id);
            } else {
                done = true;
            }
            budget = budget - 1;
        }
    }
}

/// The canonical text of `p`, one s-expression per function and global.
pub fn canonical_text(p: &Program) -> (r: String)
    ensures
        r@ == canonical_text_of(*p),
{
    let mut c = Canonicalizer {
        out: owned("(program v2\n"),
        functions: Vec::new(),
        next_function: 0,
        globals: Vec::new(),
        next_global: 0,
        locals: Vec::new(),
    };
    assert(c@ == start_numbering());
    c.function_id(0);
    c.drain(p);
    let lf = leftover_functions(&p.functions, &c.functions);
    let lg = leftover_globals(&p.globals, &c.globals);
    if lf.len() > 0 || lg.len() > 0 {
        c.put(" (unreachable\n");
        let ghost s0 = c@;
        let mut i: usize = 0;
        while i < lf.len()
            invariant
                i <= lf@.len(),
                number_functions(s0, lf@, 0) == number_functions(c@, lf@, i as nat),
            decreases lf@.len() - i,
        {
            c.function_id(lf[i]);
            i = i + 1;
        }
        let ghost s1 = c@;
        let mut j: usize = 0;
        while j < lg.len()
            invariant
                j <= lg@.len(),
                number_globals(s1, lg@, 0) == number_globals(c@, lg@, j as nat),
            decreases lg@.len() - j,
        {
            c.global_id(lg[j]);
            j = j + 1;
        }
        c.drain(p);
        c.put(" )\n");
    }
    let mut out = c.out;
    append(&mut out, ")\n");
    out
}

/// The SHA-256 of [`canonical_text`], as 64 lowercase hexadecimal digits.
pub fn projection_hash(p: &Program) -> (r: String)
    ensures
        r@ == hex_text(sha256_of(encode_utf8(canonical_text_of(*p)))),
        r@.len() == 64,
        forall|i: int| 0 <= i < 64 ==> is_hex_digit(#[trigger] r@[i]),
{
    let text = canonical_text(p);
    sha256_hex(text.as_str())
}

/// Whether two identifiers are the same but for where they stand and their ids.
pub open spec fn same_ident(a: Ident, b: Ident) -> bool {
    a.definition == b.definition && a.mutable == b.mutable && a.name == b.name && a.typ == b.typ
}

/// Whether two format string fragments are the same but for where an interpolation stands.
pub open spec fn same_fragment(a: FmtStrFragment, b: FmtStrFragment) -> bool {
    match (a, b) {
        (FmtStrFragment::String(x), FmtStrFragment::String(y)) => x == y,
        (FmtStrFragment::Interpolation(x, _), FmtStrFragment::Interpolation(y, _)) => x == y,
        _ => false,
    }
}

/// Whether two expressions are the same but for source locations and identifier ids.
pub open spec fn same_expression(a: Expression, b: Expression) -> bool
    decreases a, 0nat,
{
    match (a, b) {
        (Expression::Ident(x), Expression::Ident(y)) => same_ident(x, y),
        (Expression::Literal(x), Expression::Literal(y)) => same_literal(x, y),
        (Expression::Block(xs), Expression::Block(ys)) => xs@.len() == ys@.len() && forall|i: int|
            0 <= i < xs@.len() ==> same_expression(#[trigger] xs@[i], ys@[i]),
        (
            Expression::Unary { operator: o1, rhs: r1, result_type: t1, skip: k1, .. },
            Expression::Unary { operator: o2, rhs: r2, result_type: t2, skip: k2, .. },
        ) => o1 == o2 && t1 == t2 && k1 == k2 && same_expression(*r1, *r2),
        (Expression::Binary { lhs: l1, operator: o1, rhs: r1, .. }, Expression::Binary { lhs: l2, operator: o2, rhs: r2, .. }) => o1
            == o2 && same_expression(*l1, *l2) && same_expression(*r1, *r2),
        (
            Expression::Index { collection: c1, index: i1, element_type: t1, .. },
            Expression::Index { collection: c2, index: i2, element_type: t2, .. },
        ) => t1 == t2 && same_expression(*c1, *c2) && same_expression(*i1, *i2),
        (Expression::Cast { lhs: l1, typ: t1, .. }, Expression::Cast { lhs: l2, typ: t2, .. }) => t1 == t2
            && same_expression(*l1, *l2),
        (
            Expression::For {
                index_variable: v1,
                index_name: n1,
                index_type: t1,
                start_range: a1,
                end_range: b1,
                inclusive: c1,
                block: d1,
            },
            Expression::For {
                index_variable: v2,
                index_name: n2,
                index_type: t2,
                start_range: a2,
                end_range: b2,
                inclusive: c2,
                block: d2,
            },
        ) => v1 == v2 && n1 == n2 && t1 == t2 && c1 == c2 && same_expression(*a1, *a2) && same_expression(*b1, *b2)
            && same_expression(*d1, *d2),
        (Expression::Loop(x), Expression::Loop(y)) => same_expression(*x, *y),
        (Expression::While { condition: c1, body: b1 }, Expression::While { condition: c2, body: b2 }) => same_expression(
            *c1,
            *c2,
        ) && same_expression(*b1, *b2),
        (
            Expression::If { condition: c1, consequence: q1, alternative: a1, typ: t1 },
            Expression::If { condition: c2, consequence: q2, alternative: a2, typ: t2 },
        ) => t1 == t2 && same_expression(*c1, *c2) && same_expression(*q1, *q2) && match (a1, a2) {
            (Some(x), Some(y)) => same_expression(*x, *y),
            (None, None) => true,
            _ => false,
        },
        (
            Expression::Match { variable: v1, variable_name: n1, cases: cs1, default_case: d1, typ: t1 },
            Expression::Match { variable: v2, variable_name: n2, cases: cs2, default_case: d2, typ: t2 },
        ) => v1 == v2 && n1 == n2 && t1 == t2 && cs1@.len() == cs2@.len() && (forall|i: int|
            0 <= i < cs1@.len() ==> (#[trigger] cs1@[i]).constructor == cs2@[i].constructor && cs1@[i].arguments
                == cs2@[i].arguments && same_expression(cs1@[i].branch, cs2@[i].branch)) && match (d1, d2) {
            (Some(x), Some(y)) => same_expression(*x, *y),
            (None, None) => true,
            _ => false,
        },
        (Expression::Tuple(xs), Expression::Tuple(ys)) => xs@.len() == ys@.len() && forall|i: int|
            0 <= i < xs@.len() ==> same_expression(#[trigger] xs@[i], ys@[i]),
        (Expression::ExtractTupleField(x, i), Expression::ExtractTupleField(y, j)) => i == j && same_expression(*x, *y),
        (
            Expression::Call { func: f1, arguments: xs, return_type: t1, .. },
            Expression::Call { func: f2, arguments: ys, return_type: t2, .. },
        ) => t1 == t2 && same_expression(*f1, *f2) && xs@.len() == ys@.len() && forall|i: int|
            0 <= i < xs@.len() ==> same_expression(#[trigger] xs@[i], ys@[i]),
        (
            Expression::Let { id: i1, mutable: m1, name: n1, expression: x },
            Expression::Let { id: i2, mutable: m2, name: n2, expression: y },
        ) => i1 == i2 && m1 == m2 && n1 == n2 && same_expression(*x, *y),
        (Expression::Constrain { condition: c1, message: m1, .. }, Expression::Constrain { condition: c2, message: m2, .. }) =>
            same_expression(*c1, *c2) && match (m1, m2) {
            (Some(x), Some(y)) => x.1 == y.1 && same_expression(*x.0, *y.0),
            (None, None) => true,
            _ => false,
        },
        (Expression::Assign { lvalue: l1, expression: x }, Expression::Assign { lvalue: l2, expression: y }) => same_lvalue(
            l1,
            l2,
        ) && same_expression(*x, *y),
        (Expression::Semi(x), Expression::Semi(y)) => same_expression(*x, *y),
        (Expression::Clone(x), Expression::Clone(y)) => same_expression(*x, *y),
        (Expression::Drop(x), Expression::Drop(y)) => same_expression(*x, *y),
        (Expression::Break, Expression::Break) => true,
        (Expression::Continue, Expression::Continue) => true,
        _ => false,
    }
}

/// Whether two literals are the same but for source locations and identifier ids.
pub open spec fn same_literal(a: Literal, b: Literal) -> bool
    decreases a, 0nat,
{
    match (a, b) {
        (Literal::Array { typ: t1, contents: xs }, Literal::Array { typ: t2, contents: ys }) => t1 == t2 && xs@.len()
            == ys@.len() && forall|i: int| 0 <= i < xs@.len() ==> same_expression(#[trigger] xs@[i], ys@[i]),
        (Literal::Vector { typ: t1, contents: xs }, Literal::Vector { typ: t2, contents: ys }) => t1 == t2 && xs@.len()
            == ys@.len() && forall|i: int| 0 <= i < xs@.len() ==> same_expression(#[trigger] xs@[i], ys@[i]),
        (
            Literal::Repeated { element: x, length: l1, is_vector: v1, typ: t1 },
            Literal::Repeated { element: y, length: l2, is_vector: v2, typ: t2 },
        ) => l1 == l2 && v1 == v2 && t1 == t2 && same_expression(*x, *y),
        (Literal::Integer(x, t1, _), Literal::Integer(y, t2, _)) => x@ == y@ && t1 == t2,
        (Literal::Bool(x), Literal::Bool(y)) => x == y,
        (Literal::Unit, Literal::Unit) => true,
        (Literal::Str(x), Literal::Str(y)) => x@ == y@,
        (Literal::FmtStr(f1, n1, x, _), Literal::FmtStr(f2, n2, y, _)) => n1 == n2 && f1@.len() == f2@.len() && (forall|i: int|
            0 <= i < f1@.len() ==> same_fragment(#[trigger] f1@[i], f2@[i])) && same_expression(*x, *y),
        _ => false,
    }
}

/// Whether two places are the same but for source locations and identifier ids.
pub open spec fn same_lvalue(a: LValue, b: LValue) -> bool
    decreases a, 0nat,
{
    match (a, b) {
        (LValue::Ident(x), LValue::Ident(y)) => same_ident(x, y),
        (
            LValue::Index { array: a1, index: i1, element_type: t1, .. },
            LValue::Index { array: a2, index: i2, element_type: t2, .. },
        ) => t1 == t2 && same_lvalue(*a1, *a2) && same_expression(*i1, *i2),
        (LValue::MemberAccess { object: x, field_index: i }, LValue::MemberAccess { object: y, field_index: j }) => i == j
            && same_lvalue(*x, *y),
        (
            LValue::Dereference { reference: x, element_type: t1 },
            LValue::Dereference { reference: y, element_type: t2 },
        ) => t1 == t2 && same_lvalue(*x, *y),
        (LValue::Clone(x), LValue::Clone(y)) => same_lvalue(*x, *y),
        _ => false,
    }
}

/// Whether two programs are the same but for source locations and identifier ids.
pub open spec fn same_program(p: Program, q: Program) -> bool {
    &&& p.functions@.len() == q.functions@.len()
    &&& forall|i: int|
        0 <= i < p.functions@.len() ==> {
            let f = #[trigger] p.functions@[i];
            let g = q.functions@[i];
            &&& f.id == g.id
            &&& f.name == g.name
            &&& f.parameters@ == g.parameters@
            &&& f.return_type == g.return_type
            &&& f.return_visibility == g.return_visibility
            &&& f.unconstrained == g.unconstrained
            &&& f.inline_type == g.inline_type
            &&& f.is_entry_point == g.is_entry_point
            &&& f.allow_constant_return == g.allow_constant_return
            &&& same_expression(f.body, g.body)
        }
    &&& p.globals@.len() == q.globals@.len()
    &&& forall|i: int|
        0 <= i < p.globals@.len() ==> {
            let f = #[trigger] p.globals@[i];
            let g = q.globals@[i];
            &&& f.id == g.id
            &&& f.name == g.name
            &&& f.typ == g.typ
            &&& same_expression(f.expression, g.expression)
        }
}

proof fn lemma_same_expression(s: Numbering, a: Expression, b: Expression)
    requires
        same_expression(a, b),
    ensures
        expr_text(s, a) == expr_text(s, b),
    decreases a, 0nat,
{
    match (a, b) {
        (Expression::Literal(x), Expression::Literal(y)) => lemma_same_literal(s, x, y),
        (Expression::Block(xs), Expression::Block(ys)) => {
            lemma_same_expressions(put(s, "(block"@), xs@, ys@, 0);
        },
        (Expression::Unary { operator: o, rhs: r1, result_type: t, skip: k, .. }, Expression::Unary { rhs: r2, .. }) => {
            lemma_same_expression(put(s, "(unary "@ + unary_debug(o) + " skip="@ + bool_text(k) + " "@ + type_debug(t) + " "@), *r1, *r2);
        },
        (Expression::Binary { lhs: l1, operator: o, rhs: r1, .. }, Expression::Binary { lhs: l2, rhs: r2, .. }) => {
            let s0 = put(s, "(binary "@ + op_name(o) + " "@);
            lemma_same_expression(s0, *l1, *l2);
            lemma_same_expression(put(expr_text(s0, *l1), " "@), *r1, *r2);
        },
        (Expression::Index { collection: c1, index: i1, element_type: t, .. }, Expression::Index { collection: c2, index: i2, .. }) => {
            let s0 = put(s, "(index "@ + type_debug(t) + " "@);
            lemma_same_expression(s0, *c1, *c2);
            lemma_same_expression(put(expr_text(s0, *c1), " "@), *i1, *i2);
        },
        (Expression::Cast { lhs: l1, typ: t, .. }, Expression::Cast { lhs: l2, .. }) => {
            lemma_same_expression(put(s, "(cast "@ + type_debug(t) + " "@), *l1, *l2);
        },
        (
            Expression::For { index_variable: v, index_name: n, index_type: t, start_range: a1, end_range: b1, inclusive: c, block: d1 },
            Expression::For { start_range: a2, end_range: b2, block: d2, .. },
        ) => {
            let (s1, l) = number_local(s, v);
            let s2 = put(s1, "(for "@ + numbered("l#"@, l) + " "@ + debug_quoted(n@) + " "@ + type_debug(t) + " inclusive="@
                + bool_text(c) + " "@);
            lemma_same_expression(s2, *a1, *a2);
            let s3 = expr_text(s2, *a1);
            lemma_same_expression(put(s3, " "@), *b1, *b2);
            let s4 = expr_text(put(s3, " "@), *b1);
            lemma_same_expression(put(s4, " "@), *d1, *d2);
        },
        (Expression::Loop(x), Expression::Loop(y)) => lemma_same_expression(put(s, "(loop "@), *x, *y),
        (Expression::While { condition: c1, body: b1 }, Expression::While { condition: c2, body: b2 }) => {
            lemma_same_expression(put(s, "(while "@), *c1, *c2);
            lemma_same_expression(put(expr_text(put(s, "(while "@), *c1), " "@), *b1, *b2);
        },
        (
            Expression::If { condition: c1, consequence: q1, alternative: a1, typ: t },
            Expression::If { condition: c2, consequence: q2, alternative: a2, .. },
        ) => {
            let s0 = put(s, "(if "@ + type_debug(t) + " "@);
            lemma_same_expression(s0, *c1, *c2);
            let s1 = expr_text(s0, *c1);
            lemma_same_expression(put(s1, " "@), *q1, *q2);
            let s2 = expr_text(put(s1, " "@), *q1);
            match (a1, a2) {
                (Some(x), Some(y)) => lemma_same_expression(put(s2, " (else "@), *x, *y),
                _ => {},
            }
        },
        (
            Expression::Match { variable: v, variable_name: n, cases: cs1, default_case: d1, typ: t },
            Expression::Match { cases: cs2, default_case: d2, .. },
        ) => {
            let (s1, l) = number_local(s, v);
            let s2 = put(s1, "(match "@ + numbered("l#"@, l) + " "@ + debug_quoted(n@) + " "@ + type_debug(t));
            lemma_same_cases(s2, cs1@, cs2@, 0);
            let s3 = cases_text(s2, cs1@, 0);
            match (d1, d2) {
                (Some(x), Some(y)) => lemma_same_expression(put(s3, " (default "@), *x, *y),
                _ => {},
            }
        },
        (Expression::Tuple(xs), Expression::Tuple(ys)) => {
            lemma_same_expressions(put(s, "(tuple"@), xs@, ys@, 0);
        },
        (Expression::ExtractTupleField(x, i), Expression::ExtractTupleField(y, _)) => {
            lemma_same_expression(put(s, "(field "@ + nat_decimal(i as nat) + " "@), *x, *y);
        },
        (Expression::Call { func: f1, arguments: xs, return_type: t, .. }, Expression::Call { func: f2, arguments: ys, .. }) => {
            let s0 = put(s, "(call "@ + type_debug(t) + " "@);
            lemma_same_expression(s0, *f1, *f2);
            lemma_same_expressions(expr_text(s0, *f1), xs@, ys@, 0);
        },
        (Expression::Let { id, mutable, name, expression: x }, Expression::Let { expression: y, .. }) => {
            let (s1, l) = number_local(s, id);
            lemma_same_expression(put(s1, "(let "@ + numbered("l#"@, l) + " mut="@ + bool_text(mutable) + " "@ + debug_quoted(name@)
                + " "@), *x, *y);
        },
        (Expression::Constrain { condition: c1, message: m1, .. }, Expression::Constrain { condition: c2, message: m2, .. }) => {
            lemma_same_expression(put(s, "(constrain "@), *c1, *c2);
            let s1 = expr_text(put(s, "(constrain "@), *c1);
            match (m1, m2) {
                (Some(x), Some(y)) => lemma_same_expression(put(s1, " (msg "@ + printable_debug(x.1) + " "@), *x.0, *y.0),
                _ => {},
            }
        },
        (Expression::Assign { lvalue: l1, expression: x }, Expression::Assign { lvalue: l2, expression: y }) => {
            lemma_same_lvalue(put(s, "(assign "@), l1, l2);
            lemma_same_expression(put(lvalue_text(put(s, "(assign "@), l1), " "@), *x, *y);
        },
        (Expression::Semi(x), Expression::Semi(y)) => lemma_same_expression(put(s, "(semi "@), *x, *y),
        (Expression::Clone(x), Expression::Clone(y)) => lemma_same_expression(put(s, "(clone "@), *x, *y),
        (Expression::Drop(x), Expression::Drop(y)) => lemma_same_expression(put(s, "(drop "@), *x, *y),
        _ => {},
    }
}

proof fn lemma_same_expressions(s: Numbering, xs: Seq<Expression>, ys: Seq<Expression>, i: nat)
    requires
        xs.len() == ys.len(),
        forall|k: int| 0 <= k < xs.len() ==> same_expression(#[trigger] xs[k], ys[k]),
    ensures
        exprs_text(s, xs, i) == exprs_text(s, ys, i),
    decreases xs, xs.len() - i,
{
    if i < xs.len() {
        lemma_same_expression(put(s, " "@), xs[i as int], ys[i as int]);
        lemma_same_expressions(expr_text(put(s, " "@), xs[i as int]), xs, ys, i + 1);
    }
}

proof fn lemma_same_cases(s: Numbering, xs: Seq<MatchCase>, ys: Seq<MatchCase>, i: nat)
    requires
        xs.len() == ys.len(),
        forall|k: int|
            0 <= k < xs.len() ==> (#[trigger] xs[k]).constructor == ys[k].constructor && xs[k].arguments == ys[k].arguments
                && same_expression(xs[k].branch, ys[k].branch),
    ensures
        cases_text(s, xs, i) == cases_text(s, ys, i),
    decreases xs, xs.len() - i,
{
    if i < xs.len() {
        let c = xs[i as int];
        let d = ys[i as int];
        assert(c.arguments@ == d.arguments@);
        let s1 = put(s, " (case "@ + constructor_text(c.constructor) + " (args"@);
        let s2 = case_arguments_text(s1, c.arguments@, 0);
        lemma_same_expression(put(s2, ") "@), c.branch, d.branch);
        let s3 = put(expr_text(put(s2, ") "@), c.branch), ")"@);
        lemma_same_cases(s3, xs, ys, i + 1);
    }
}

proof fn lemma_same_literal(s: Numbering, a: Literal, b: Literal)
    requires
        same_literal(a, b),
    ensures
        literal_text(s, a) == literal_text(s, b),
    decreases a, 0nat,
{
    match (a, b) {
        (Literal::Array { typ, contents: xs }, Literal::Array { contents: ys, .. }) => {
            lemma_same_expressions(put(s, "(array "@ + type_debug(typ)), xs@, ys@, 0);
        },
        (Literal::Vector { typ, contents: xs }, Literal::Vector { contents: ys, .. }) => {
            lemma_same_expressions(put(s, "(vector "@ + type_debug(typ)), xs@, ys@, 0);
        },
        (Literal::Repeated { element: x, length, is_vector, typ }, Literal::Repeated { element: y, .. }) => {
            lemma_same_expression(put(s, "(repeated "@ + type_debug(typ) + " "@ + nat_decimal(length as nat) + " vector="@
                + bool_text(is_vector) + " "@), *x, *y);
        },
        (Literal::FmtStr(f1, n, x, _), Literal::FmtStr(f2, _, y, _)) => {
            lemma_same_fragments(f1@, f2@, f1@.len());
            lemma_same_expression(put(s, "(fmtstr "@ + nat_decimal(n as nat) + " ["@ + fragments_text(f1@, f1@.len()) + " ] "@), *x, *y);
        },
        _ => {},
    }
}

proof fn lemma_same_fragments(xs: Seq<FmtStrFragment>, ys: Seq<FmtStrFragment>, n: nat)
    requires
        xs.len() == ys.len(),
        forall|k: int| 0 <= k < xs.len() ==> same_fragment(#[trigger] xs[k], ys[k]),
    ensures
        fragments_text(xs, n) == fragments_text(ys, n),
    decreases n,
{
    if n > 0 && n <= xs.len() {
        lemma_same_fragments(xs, ys, (n - 1) as nat);
        assert(same_fragment(xs[n - 1], ys[n - 1]));
    }
}

proof fn lemma_same_lvalue(s: Numbering, a: LValue, b: LValue)
    requires
        same_lvalue(a, b),
    ensures
        lvalue_text(s, a) == lvalue_text(s, b),
    decreases a, 0nat,
{
    match (a, b) {
        (LValue::Index { array: a1, index: i1, element_type: t, .. }, LValue::Index { array: a2, index: i2, .. }) => {
            let s0 = put(s, "(lindex "@ + type_debug(t) + " "@);
            lemma_same_lvalue(s0, *a1, *a2);
            lemma_same_expression(put(lvalue_text(s0, *a1), " "@), *i1, *i2);
        },
        (LValue::MemberAccess { object: x, field_index }, LValue::MemberAccess { object: y, .. }) => {
            lemma_same_lvalue(put(s, "(lmember "@ + nat_decimal(field_index as nat) + " "@), *x, *y);
        },
        (LValue::Dereference { reference: x, element_type: t }, LValue::Dereference { reference: y, .. }) => {
            lemma_same_lvalue(put(s, "(lderef "@ + type_debug(t) + " "@), *x, *y);
        },
        (LValue::Clone(x), LValue::Clone(y)) => lemma_same_lvalue(put(s, "(lclone "@), *x, *y),
        _ => {},
    }
}

proof fn lemma_same_positions(p: Program, q: Program, id: u32, i: nat)
    requires
        same_program(p, q),
    ensures
        function_position(p.functions@, id, i) == function_position(q.functions@, id, i),
        global_position(p.globals@, id, i) == global_position(q.globals@, id, i),
    decreases p.functions@.len() + p.globals@.len() - i,
{
    if i < p.functions@.len() || i < p.globals@.len() {
        if i < p.functions@.len() {
            assert(p.functions@[i as int].id == q.functions@[i as int].id);
        }
        if i < p.globals@.len() {
            assert(p.globals@[i as int].id == q.globals@[i as int].id);
        }
        lemma_same_positions(p, q, id, i + 1);
    }
}

proof fn lemma_same_leftovers(p: Program, q: Program, numbered_functions: Seq<u32>, numbered_globals: Seq<u32>, i: nat)
    requires
        same_program(p, q),
    ensures
        unnumbered_functions(p.functions@, numbered_functions, i) == unnumbered_functions(q.functions@, numbered_functions, i),
        unnumbered_globals(p.globals@, numbered_globals, i) == unnumbered_globals(q.globals@, numbered_globals, i),
    decreases p.functions@.len() + p.globals@.len() - i,
{
    if i < p.functions@.len() || i < p.globals@.len() {
        if i < p.functions@.len() {
            assert(p.functions@[i as int].id == q.functions@[i as int].id);
        }
        if i < p.globals@.len() {
            assert(p.globals@[i as int].id == q.globals@[i as int].id);
        }
        lemma_same_leftovers(p, q, numbered_functions, numbered_globals, i + 1);
    }
}

proof fn lemma_position_bounds(p: Program, id: u32, i: nat)
    ensures
        function_position(p.functions@, id, i) matches Some(k) ==> k < p.functions@.len(),
        global_position(p.globals@, id, i) matches Some(k) ==> k < p.globals@.len(),
    decreases p.functions@.len() + p.globals@.len() - i,
{
    if i < p.functions@.len() || i < p.globals@.len() {
        lemma_position_bounds(p, id, i + 1);
    }
}

proof fn lemma_same_items(p: Program, q: Program, s: Numbering, id: u32)
    requires
        same_program(p, q),
    ensures
        function_text(p, s, id) == function_text(q, s, id),
        global_text(p, s, id) == global_text(q, s, id),
{
    lemma_same_positions(p, q, id, 0);
    lemma_position_bounds(p, id, 0);
    match function_by_id(p, id) {
        Some(k) => {
            let f = p.functions@[k as int];
            let g = q.functions@[k as int];
            let n = number_of(s.functions, id);
            let s1 = put(Numbering { locals: Seq::empty(), ..s }, " (fn "@ + numbered("f#"@, n) + " "@ + debug_quoted(f.name@)
                + " unconstrained="@ + bool_text(f.unconstrained) + " inline="@ + inline_text(f.inline_type) + " entry="@
                + bool_text(f.is_entry_point) + " allow_constant_return="@ + bool_text(f.allow_constant_return)
                + " visibility="@ + visibility_debug(f.return_visibility) + "\n  (params"@);
            let s3 = put(parameters_text(s1, f.parameters@, 0), ")\n  -> "@ + type_debug(f.return_type) + "\n  "@);
            lemma_same_expression(s3, f.body, g.body);
        },
        None => {},
    }
    match global_position(p.globals@, id, 0) {
        Some(k) => {
            let f = p.globals@[k as int];
            let g = q.globals@[k as int];
            let n = number_of(s.globals, id);
            let s1 = put(Numbering { locals: Seq::empty(), ..s }, " (global "@ + numbered("g#"@, n) + " "@ + debug_quoted(f.name@)
                + " "@ + type_debug(f.typ) + " "@);
            lemma_same_expression(s1, f.expression, g.expression);
        },
        None => {},
    }
}

proof fn lemma_same_drained(p: Program, q: Program, s: Numbering, budget: nat)
    requires
        same_program(p, q),
    ensures
        drained(p, s, budget) == drained(q, s, budget),
    decreases budget,
{
    if budget > 0 {
        if s.next_function < s.functions.len() {
            let id = s.functions[s.next_function as int];
            let s1 = Numbering { next_function: s.next_function + 1, ..s };
            lemma_same_items(p, q, s1, id);
            lemma_same_drained(p, q, function_text(p, s1, id), (budget - 1) as nat);
        } else if s.next_global < s.globals.len() {
            let id = s.globals[s.next_global as int];
            let s1 = Numbering { next_global: s.next_global + 1, ..s };
            lemma_same_items(p, q, s1, id);
            lemma_same_drained(p, q, global_text(p, s1, id), (budget - 1) as nat);
        }
    }
}

/// The canonical text ignores source locations and identifier ids: two programs that differ
/// only in those have the same text, and so the same projection hash.
pub proof fn law_locations_do_not_affect_the_projection(p: Program, q: Program)
    requires
        same_program(p, q),
    ensures
        canonical_text_of(p) == canonical_text_of(q),
{
    let s0 = number_function(start_numbering(), 0).0;
    lemma_same_drained(p, q, s0, item_budget());
    let s1 = drained(p, s0, item_budget());
    lemma_same_leftovers(p, q, s1.functions, s1.globals, 0);
    let lf = unnumbered_functions(p.functions@, s1.functions, 0);
    let lg = unnumbered_globals(p.globals@, s1.globals, 0);
    let s3 = number_globals(number_functions(put(s1, " (unreachable\n"@), lf, 0), lg, 0);
    lemma_same_drained(p, q, s3, item_budget());
}

/// New ids for the functions, globals and locals of one body.
pub struct Renaming {
    pub function: spec_fn(u32) -> u32,
    pub global: spec_fn(u32) -> u32,
    pub local: spec_fn(u32) -> u32,
}

/// Whether `f` gives distinct ids distinct new ids.
pub open spec fn injective(f: spec_fn(u32) -> u32) -> bool {
    forall|a: u32, b: u32| #[trigger] f(a) == #[trigger] f(b) ==> a == b
}

/// Whether `b` names what `a` names under `r`.
pub open spec fn renamed_definition(a: Definition, b: Definition, r: Renaming) -> bool {
    match (a, b) {
        (Definition::Local(x), Definition::Local(y)) => y == (r.local)(x),
        (Definition::Global(x), Definition::Global(y)) => y == (r.global)(x),
        (Definition::Function(x), Definition::Function(y)) => y == (r.function)(x),
        (Definition::Local(_), _) | (Definition::Global(_), _) | (Definition::Function(_), _) => false,
        _ => a == b,
    }
}

/// Whether `b` is `a` with its ids renamed by `r`, up to source locations and identifier ids.
pub open spec fn renamed_expression(a: Expression, b: Expression, r: Renaming) -> bool
    decreases a, 0nat,
{
    match (a, b) {
        (Expression::Ident(x), Expression::Ident(y)) => renamed_definition(x.definition, y.definition, r) && x.mutable
            == y.mutable && x.name == y.name && x.typ == y.typ,
        (Expression::Literal(x), Expression::Literal(y)) => renamed_literal(x, y, r),
        (Expression::Block(xs), Expression::Block(ys)) => xs@.len() == ys@.len() && forall|i: int|
            0 <= i < xs@.len() ==> renamed_expression(#[trigger] xs@[i], ys@[i], r),
        (
            Expression::Unary { operator: o1, rhs: r1, result_type: t1, skip: k1, .. },
            Expression::Unary { operator: o2, rhs: r2, result_type: t2, skip: k2, .. },
        ) => o1 == o2 && t1 == t2 && k1 == k2 && renamed_expression(*r1, *r2, r),
        (Expression::Binary { lhs: l1, operator: o1, rhs: r1, .. }, Expression::Binary { lhs: l2, operator: o2, rhs: r2, .. }) => o1
            == o2 && renamed_expression(*l1, *l2, r) && renamed_expression(*r1, *r2, r),
        (
            Expression::Index { collection: c1, index: i1, element_type: t1, .. },
            Expression::Index { collection: c2, index: i2, element_type: t2, .. },
        ) => t1 == t2 && renamed_expression(*c1, *c2, r) && renamed_expression(*i1, *i2, r),
        (Expression::Cast { lhs: l1, typ: t1, .. }, Expression::Cast { lhs: l2, typ: t2, .. }) => t1 == t2
            && renamed_expression(*l1, *l2, r),
        (
            Expression::For {
                index_variable: v1,
                index_name: n1,
                index_type: t1,
                start_range: a1,
                end_range: b1,
                inclusive: c1,
                block: d1,
            },
            Expression::For {
                index_variable: v2,
                index_name: n2,
                index_type: t2,
                start_range: a2,
                end_range: b2,
                inclusive: c2,
                block: d2,
            },
        ) => v2 == (r.local)(v1) && n1 == n2 && t1 == t2 && c1 == c2 && renamed_expression(*a1, *a2, r)
            && renamed_expression(*b1, *b2, r) && renamed_expression(*d1, *d2, r),
        (Expression::Loop(x), Expression::Loop(y)) => renamed_expression(*x, *y, r),
        (Expression::While { condition: c1, body: b1 }, Expression::While { condition: c2, body: b2 }) => renamed_expression(
            *c1,
            *c2,
            r,
        ) && renamed_expression(*b1, *b2, r),
        (
            Expression::If { condition: c1, consequence: q1, alternative: a1, typ: t1 },
            Expression::If { condition: c2, consequence: q2, alternative: a2, typ: t2 },
        ) => t1 == t2 && renamed_expression(*c1, *c2, r) && renamed_expression(*q1, *q2, r) && match (a1, a2) {
            (Some(x), Some(y)) => renamed_expression(*x, *y, r),
            (None, None) => true,
            _ => false,
        },
        (
            Expression::Match { variable: v1, variable_name: n1, cases: cs1, default_case: d1, typ: t1 },
            Expression::Match { variable: v2, variable_name: n2, cases: cs2, default_case: d2, typ: t2 },
        ) => v2 == (r.local)(v1) && n1 == n2 && t1 == t2 && cs1@.len() == cs2@.len() && (forall|i: int|
            0 <= i < cs1@.len() ==> (#[trigger] cs1@[i]).constructor == cs2@[i].constructor && renamed_arguments(
                cs1@[i].arguments@,
                cs2@[i].arguments@,
                r,
            ) && renamed_expression(cs1@[i].branch, cs2@[i].branch, r)) && match (d1, d2) {
            (Some(x), Some(y)) => renamed_expression(*x, *y, r),
            (None, None) => true,
            _ => false,
        },
        (Expression::Tuple(xs), Expression::Tuple(ys)) => xs@.len() == ys@.len() && forall|i: int|
            0 <= i < xs@.len() ==> renamed_expression(#[trigger] xs@[i], ys@[i], r),
        (Expression::ExtractTupleField(x, i), Expression::ExtractTupleField(y, j)) => i == j && renamed_expression(*x, *y, r),
        (
            Expression::Call { func: f1, arguments: xs, return_type: t1, .. },
            Expression::Call { func: f2, arguments: ys, return_type: t2, .. },
        ) => t1 == t2 && renamed_expression(*f1, *f2, r) && xs@.len() == ys@.len() && forall|i: int|
            0 <= i < xs@.len() ==> renamed_expression(#[trigger] xs@[i], ys@[i], r),
        (
            Expression::Let { id: i1, mutable: m1, name: n1, expression: x },
            Expression::Let { id: i2, mutable: m2, name: n2, expression: y },
        ) => i2 == (r.local)(i1) && m1 == m2 && n1 == n2 && renamed_expression(*x, *y, r),
        (Expression::Constrain { condition: c1, message: m1, .. }, Expression::Constrain { condition: c2, message: m2, .. }) =>
            renamed_expression(*c1, *c2, r) && match (m1, m2) {
            (Some(x), Some(y)) => x.1 == y.1 && renamed_expression(*x.0, *y.0, r),
            (None, None) => true,
            _ => false,
        },
        (Expression::Assign { lvalue: l1, expression: x }, Expression::Assign { lvalue: l2, expression: y }) => renamed_lvalue(
            l1,
            l2,
            r,
        ) && renamed_expression(*x, *y, r),
        (Expression::Semi(x), Expression::Semi(y)) => renamed_expression(*x, *y, r),
        (Expression::Clone(x), Expression::Clone(y)) => renamed_expression(*x, *y, r),
        (Expression::Drop(x), Expression::Drop(y)) => renamed_expression(*x, *y, r),
        (Expression::Break, Expression::Break) => true,
        (Expression::Continue, Expression::Continue) => true,
        _ => false,
    }
}

/// Whether a case's argument locals `b` are those of `a` renamed by `r`.
pub open spec fn renamed_arguments(a: Seq<(u32, String)>, b: Seq<(u32, String)>, r: Renaming) -> bool {
    a.len() == b.len() && forall|i: int| 0 <= i < a.len() ==> (#[trigger] b[i]).0 == (r.local)(a[i].0) && b[i].1 == a[i].1
}

/// Whether literal `b` is `a` with its ids renamed by `r`, up to source locations.
pub open spec fn renamed_literal(a: Literal, b: Literal, r: Renaming) -> bool
    decreases a, 0nat,
{
    match (a, b) {
        (Literal::Array { typ: t1, contents: xs }, Literal::Array { typ: t2, contents: ys }) => t1 == t2 && xs@.len()
            == ys@.len() && forall|i: int| 0 <= i < xs@.len() ==> renamed_expression(#[trigger] xs@[i], ys@[i], r),
        (Literal::Vector { typ: t1, contents: xs }, Literal::Vector { typ: t2, contents: ys }) => t1 == t2 && xs@.len()
            == ys@.len() && forall|i: int| 0 <= i < xs@.len() ==> renamed_expression(#[trigger] xs@[i], ys@[i], r),
        (
            Literal::Repeated { element: x, length: l1, is_vector: v1, typ: t1 },
            Literal::Repeated { element: y, length: l2, is_vector: v2, typ: t2 },
        ) => l1 == l2 && v1 == v2 && t1 == t2 && renamed_expression(*x, *y, r),
        (Literal::Integer(x, t1, _), Literal::Integer(y, t2, _)) => x@ == y@ && t1 == t2,
        (Literal::Bool(x), Literal::Bool(y)) => x == y,
        (Literal::Unit, Literal::Unit) => true,
        (Literal::Str(x), Literal::Str(y)) => x@ == y@,
        (Literal::FmtStr(f1, n1, x, _), Literal::FmtStr(f2, n2, y, _)) => n1 == n2 && f1@.len() == f2@.len() && (forall|i: int|
            0 <= i < f1@.len() ==> same_fragment(#[trigger] f1@[i], f2@[i])) && renamed_expression(*x, *y, r),
        _ => false,
    }
}

/// Whether place `b` is `a` with its ids renamed by `r`, up to source locations.
pub open spec fn renamed_lvalue(a: LValue, b: LValue, r: Renaming) -> bool
    decreases a, 0nat,
{
    match (a, b) {
        (LValue::Ident(x), LValue::Ident(y)) => renamed_definition(x.definition, y.definition, r) && x.mutable == y.mutable
            && x.name == y.name && x.typ == y.typ,
        (
            LValue::Index { array: a1, index: i1, element_type: t1, .. },
            LValue::Index { array: a2, index: i2, element_type: t2, .. },
        ) => t1 == t2 && renamed_lvalue(*a1, *a2, r) && renamed_expression(*i1, *i2, r),
        (LValue::MemberAccess { object: x, field_index: i }, LValue::MemberAccess { object: y, field_index: j }) => i == j
            && renamed_lvalue(*x, *y, r),
        (
            LValue::Dereference { reference: x, element_type: t1 },
            LValue::Dereference { reference: y, element_type: t2 },
        ) => t1 == t2 && renamed_lvalue(*x, *y, r),
        (LValue::Clone(x), LValue::Clone(y)) => renamed_lvalue(*x, *y, r),
        _ => false,
    }
}

/// The numbering `s` stands for once its ids are renamed by `r`.
pub open spec fn renamed_numbering(s: Numbering, r: Renaming) -> Numbering {
    Numbering {
        out: s.out,
        functions: s.functions.map_values(r.function),
        next_function: s.next_function,
        globals: s.globals.map_values(r.global),
        next_global: s.next_global,
        locals: s.locals.map_values(r.local),
    }
}

proof fn lemma_renamed_position(ids: Seq<u32>, f: spec_fn(u32) -> u32, id: u32, i: nat)
    requires
        injective(f),
    ensures
        position(ids.map_values(f), f(id), i) == position(ids, id, i),
    decreases ids.len() - i,
{
    if i < ids.len() {
        assert(ids.map_values(f)[i as int] == f(ids[i as int]));
        lemma_renamed_position(ids, f, id, i + 1);
    }
}

proof fn lemma_renamed_push(ids: Seq<u32>, f: spec_fn(u32) -> u32, id: u32)
    ensures
        ids.push(id).map_values(f) == ids.map_values(f).push(f(id)),
{
    assert(ids.push(id).map_values(f) =~= ids.map_values(f).push(f(id)));
}

proof fn lemma_renamed_numbers(s: Numbering, r: Renaming, id: u32)
    requires
        injective(r.function),
        injective(r.global),
        injective(r.local),
    ensures
        number_function(renamed_numbering(s, r), (r.function)(id)) == (
            renamed_numbering(number_function(s, id).0, r),
            number_function(s, id).1,
        ),
        number_global(renamed_numbering(s, r), (r.global)(id)) == (
            renamed_numbering(number_global(s, id).0, r),
            number_global(s, id).1,
        ),
        number_local(renamed_numbering(s, r), (r.local)(id)) == (
            renamed_numbering(number_local(s, id).0, r),
            number_local(s, id).1,
        ),
{
    lemma_renamed_position(s.functions, r.function, id, 0);
    lemma_renamed_position(s.globals, r.global, id, 0);
    lemma_renamed_position(s.locals, r.local, id, 0);
    lemma_renamed_push(s.functions, r.function, id);
    lemma_renamed_push(s.globals, r.global, id);
    lemma_renamed_push(s.locals, r.local, id);
}

proof fn lemma_renamed_definition(s: Numbering, a: Definition, b: Definition, r: Renaming)
    requires
        injective(r.function),
        injective(r.global),
        injective(r.local),
        renamed_definition(a, b, r),
    ensures
        definition_text(renamed_numbering(s, r), b) == (
            renamed_numbering(definition_text(s, a).0, r),
            definition_text(s, a).1,
        ),
{
    match a {
        Definition::Local(x) => lemma_renamed_numbers(s, r, x),
        Definition::Global(x) => lemma_renamed_numbers(s, r, x),
        Definition::Function(x) => lemma_renamed_numbers(s, r, x),
        _ => {},
    }
}

/// The three renamings are injective.
pub open spec fn injective_renaming(r: Renaming) -> bool {
    injective(r.function) && injective(r.global) && injective(r.local)
}

proof fn lemma_renamed_expression(s: Numbering, a: Expression, b: Expression, r: Renaming)
    requires
        injective_renaming(r),
        renamed_expression(a, b, r),
    ensures
        expr_text(renamed_numbering(s, r), b) == renamed_numbering(expr_text(s, a), r),
    decreases a, 0nat,
{
    match (a, b) {
        (Expression::Ident(x), Expression::Ident(y)) => lemma_renamed_definition(s, x.definition, y.definition, r),
        (Expression::Literal(x), Expression::Literal(y)) => lemma_renamed_literal(s, x, y, r),
        (Expression::Block(xs), Expression::Block(ys)) => {
            lemma_renamed_expressions(put(s, "(block"@), xs@, ys@, 0, r);
        },
        (Expression::Unary { operator: o, rhs: r1, result_type: t, skip: k, .. }, Expression::Unary { rhs: r2, .. }) => {
            lemma_renamed_expression(put(s, "(unary "@ + unary_debug(o) + " skip="@ + bool_text(k) + " "@ + type_debug(t) + " "@), *r1, *r2, r);
        },
        (Expression::Binary { lhs: l1, operator: o, rhs: r1, .. }, Expression::Binary { lhs: l2, rhs: r2, .. }) => {
            let s0 = put(s, "(binary "@ + op_name(o) + " "@);
            lemma_renamed_expression(s0, *l1, *l2, r);
            lemma_renamed_expression(put(expr_text(s0, *l1), " "@), *r1, *r2, r);
        },
        (Expression::Index { collection: c1, index: i1, element_type: t, .. }, Expression::Index { collection: c2, index: i2, .. }) => {
            let s0 = put(s, "(index "@ + type_debug(t) + " "@);
            lemma_renamed_expression(s0, *c1, *c2, r);
            lemma_renamed_expression(put(expr_text(s0, *c1), " "@), *i1, *i2, r);
        },
        (Expression::Cast { lhs: l1, typ: t, .. }, Expression::Cast { lhs: l2, .. }) => {
            lemma_renamed_expression(put(s, "(cast "@ + type_debug(t) + " "@), *l1, *l2, r);
        },
        (
            Expression::For { index_variable: v, index_name: n, index_type: t, start_range: a1, end_range: b1, inclusive: c, block: d1 },
            Expression::For { start_range: a2, end_range: b2, block: d2, .. },
        ) => {
            lemma_renamed_numbers(s, r, v);
            let (s1, l) = number_local(s, v);
            let s2 = put(s1, "(for "@ + numbered("l#"@, l) + " "@ + debug_quoted(n@) + " "@ + type_debug(t) + " inclusive="@
                + bool_text(c) + " "@);
            lemma_renamed_expression(s2, *a1, *a2, r);
            let s3 = expr_text(s2, *a1);
            lemma_renamed_expression(put(s3, " "@), *b1, *b2, r);
            let s4 = expr_text(put(s3, " "@), *b1);
            lemma_renamed_expression(put(s4, " "@), *d1, *d2, r);
        },
        (Expression::Loop(x), Expression::Loop(y)) => lemma_renamed_expression(put(s, "(loop "@), *x, *y, r),
        (Expression::While { condition: c1, body: b1 }, Expression::While { condition: c2, body: b2 }) => {
            lemma_renamed_expression(put(s, "(while "@), *c1, *c2, r);
            lemma_renamed_expression(put(expr_text(put(s, "(while "@), *c1), " "@), *b1, *b2, r);
        },
        (
            Expression::If { condition: c1, consequence: q1, alternative: a1, typ: t },
            Expression::If { condition: c2, consequence: q2, alternative: a2, .. },
        ) => {
            let s0 = put(s, "(if "@ + type_debug(t) + " "@);
            lemma_renamed_expression(s0, *c1, *c2, r);
            let s1 = expr_text(s0, *c1);
            lemma_renamed_expression(put(s1, " "@), *q1, *q2, r);
            let s2 = expr_text(put(s1, " "@), *q1);
            match (a1, a2) {
                (Some(x), Some(y)) => lemma_renamed_expression(put(s2, " (else "@), *x, *y, r),
                _ => {},
            }
        },
        (
            Expression::Match { variable: v, variable_name: n, cases: cs1, default_case: d1, typ: t },
            Expression::Match { cases: cs2, default_case: d2, .. },
        ) => {
            lemma_renamed_numbers(s, r, v);
            let (s1, l) = number_local(s, v);
            let s2 = put(s1, "(match "@ + numbered("l#"@, l) + " "@ + debug_quoted(n@) + " "@ + type_debug(t));
            lemma_renamed_cases(s2, cs1@, cs2@, 0, r);
            let s3 = cases_text(s2, cs1@, 0);
            match (d1, d2) {
                (Some(x), Some(y)) => lemma_renamed_expression(put(s3, " (default "@), *x, *y, r),
                _ => {},
            }
        },
        (Expression::Tuple(xs), Expression::Tuple(ys)) => {
            lemma_renamed_expressions(put(s, "(tuple"@), xs@, ys@, 0, r);
        },
        (Expression::ExtractTupleField(x, i), Expression::ExtractTupleField(y, _)) => {
            lemma_renamed_expression(put(s, "(field "@ + nat_decimal(i as nat) + " "@), *x, *y, r);
        },
        (Expression::Call { func: f1, arguments: xs, return_type: t, .. }, Expression::Call { func: f2, arguments: ys, .. }) => {
            let s0 = put(s, "(call "@ + type_debug(t) + " "@);
            lemma_renamed_expression(s0, *f1, *f2, r);
            lemma_renamed_expressions(expr_text(s0, *f1), xs@, ys@, 0, r);
        },
        (Expression::Let { id, mutable, name, expression: x }, Expression::Let { expression: y, .. }) => {
            lemma_renamed_numbers(s, r, id);
            let (s1, l) = number_local(s, id);
            lemma_renamed_expression(put(s1, "(let "@ + numbered("l#"@, l) + " mut="@ + bool_text(mutable) + " "@ + debug_quoted(name@)
                + " "@), *x, *y, r);
        },
        (Expression::Constrain { condition: c1, message: m1, .. }, Expression::Constrain { condition: c2, message: m2, .. }) => {
            lemma_renamed_expression(put(s, "(constrain "@), *c1, *c2, r);
            let s1 = expr_text(put(s, "(constrain "@), *c1);
            match (m1, m2) {
                (Some(x), Some(y)) => lemma_renamed_expression(put(s1, " (msg "@ + printable_debug(x.1) + " "@), *x.0, *y.0, r),
                _ => {},
            }
        },
        (Expression::Assign { lvalue: l1, expression: x }, Expression::Assign { lvalue: l2, expression: y }) => {
            lemma_renamed_lvalue(put(s, "(assign "@), l1, l2, r);
            lemma_renamed_expression(put(lvalue_text(put(s, "(assign "@), l1), " "@), *x, *y, r);
        },
        (Expression::Semi(x), Expression::Semi(y)) => lemma_renamed_expression(put(s, "(semi "@), *x, *y, r),
        (Expression::Clone(x), Expression::Clone(y)) => lemma_renamed_expression(put(s, "(clone "@), *x, *y, r),
        (Expression::Drop(x), Expression::Drop(y)) => lemma_renamed_expression(put(s, "(drop "@), *x, *y, r),
        _ => {},
    }
}

proof fn lemma_renamed_expressions(s: Numbering, xs: Seq<Expression>, ys: Seq<Expression>, i: nat, r: Renaming)
    requires
        injective_renaming(r),
        xs.len() == ys.len(),
        forall|k: int| 0 <= k < xs.len() ==> renamed_expression(#[trigger] xs[k], ys[k], r),
    ensures
        exprs_text(renamed_numbering(s, r), ys, i) == renamed_numbering(exprs_text(s, xs, i), r),
    decreases xs, xs.len() - i,
{
    if i < xs.len() {
        lemma_renamed_expression(put(s, " "@), xs[i as int], ys[i as int], r);
        lemma_renamed_expressions(expr_text(put(s, " "@), xs[i as int]), xs, ys, i + 1, r);
    }
}

proof fn lemma_renamed_arguments(s: Numbering, xs: Seq<(u32, String)>, ys: Seq<(u32, String)>, i: nat, r: Renaming)
    requires
        injective_renaming(r),
        renamed_arguments(xs, ys, r),
    ensures
        case_arguments_text(renamed_numbering(s, r), ys, i) == renamed_numbering(case_arguments_text(s, xs, i), r),
    decreases xs.len() - i,
{
    if i < xs.len() {
        assert(ys[i as int].0 == (r.local)(xs[i as int].0));
        lemma_renamed_numbers(s, r, xs[i as int].0);
        let (s1, l) = number_local(s, xs[i as int].0);
        lemma_renamed_arguments(put(s1, " "@ + numbered("l#"@, l) + ":"@ + debug_quoted(xs[i as int].1@)), xs, ys, i + 1, r);
    }
}

proof fn lemma_renamed_cases(s: Numbering, xs: Seq<MatchCase>, ys: Seq<MatchCase>, i: nat, r: Renaming)
    requires
        injective_renaming(r),
        xs.len() == ys.len(),
        forall|k: int|
            0 <= k < xs.len() ==> (#[trigger] xs[k]).constructor == ys[k].constructor && renamed_arguments(
                xs[k].arguments@,
                ys[k].arguments@,
                r,
            ) && renamed_expression(xs[k].branch, ys[k].branch, r),
    ensures
        cases_text(renamed_numbering(s, r), ys, i) == renamed_numbering(cases_text(s, xs, i), r),
    decreases xs, xs.len() - i,
{
    if i < xs.len() {
        let c = xs[i as int];
        let d = ys[i as int];
        let s1 = put(s, " (case "@ + constructor_text(c.constructor) + " (args"@);
        lemma_renamed_arguments(s1, c.arguments@, d.arguments@, 0, r);
        let s2 = case_arguments_text(s1, c.arguments@, 0);
        lemma_renamed_expression(put(s2, ") "@), c.branch, d.branch, r);
        let s3 = put(expr_text(put(s2, ") "@), c.branch), ")"@);
        lemma_renamed_cases(s3, xs, ys, i + 1, r);
    }
}

proof fn lemma_renamed_literal(s: Numbering, a: Literal, b: Literal, r: Renaming)
    requires
        injective_renaming(r),
        renamed_literal(a, b, r),
    ensures
        literal_text(renamed_numbering(s, r), b) == renamed_numbering(literal_text(s, a), r),
    decreases a, 0nat,
{
    match (a, b) {
        (Literal::Array { typ, contents: xs }, Literal::Array { contents: ys, .. }) => {
            lemma_renamed_expressions(put(s, "(array "@ + type_debug(typ)), xs@, ys@, 0, r);
        },
        (Literal::Vector { typ, contents: xs }, Literal::Vector { contents: ys, .. }) => {
            lemma_renamed_expressions(put(s, "(vector "@ + type_debug(typ)), xs@, ys@, 0, r);
        },
        (Literal::Repeated { element: x, length, is_vector, typ }, Literal::Repeated { element: y, .. }) => {
            lemma_renamed_expression(put(s, "(repeated "@ + type_debug(typ) + " "@ + nat_decimal(length as nat) + " vector="@
                + bool_text(is_vector) + " "@), *x, *y, r);
        },
        (Literal::FmtStr(f1, n, x, _), Literal::FmtStr(f2, _, y, _)) => {
            lemma_same_fragments(f1@, f2@, f1@.len());
            lemma_renamed_expression(put(s, "(fmtstr "@ + nat_decimal(n as nat) + " ["@ + fragments_text(f1@, f1@.len()) + " ] "@), *x, *y, r);
        },
        _ => {},
    }
}

proof fn lemma_renamed_lvalue(s: Numbering, a: LValue, b: LValue, r: Renaming)
    requires
        injective_renaming(r),
        renamed_lvalue(a, b, r),
    ensures
        lvalue_text(renamed_numbering(s, r), b) == renamed_numbering(lvalue_text(s, a), r),
    decreases a, 0nat,
{
    match (a, b) {
        (LValue::Ident(x), LValue::Ident(y)) => lemma_renamed_definition(s, x.definition, y.definition, r),
        (LValue::Index { array: a1, index: i1, element_type: t, .. }, LValue::Index { array: a2, index: i2, .. }) => {
            let s0 = put(s, "(lindex "@ + type_debug(t) + " "@);
            lemma_renamed_lvalue(s0, *a1, *a2, r);
            lemma_renamed_expression(put(lvalue_text(s0, *a1), " "@), *i1, *i2, r);
        },
        (LValue::MemberAccess { object: x, field_index }, LValue::MemberAccess { object: y, .. }) => {
            lemma_renamed_lvalue(put(s, "(lmember "@ + nat_decimal(field_index as nat) + " "@), *x, *y, r);
        },
        (LValue::Dereference { reference: x, element_type: t }, LValue::Dereference { reference: y, .. }) => {
            lemma_renamed_lvalue(put(s, "(lderef "@ + type_debug(t) + " "@), *x, *y, r);
        },
        (LValue::Clone(x), LValue::Clone(y)) => lemma_renamed_lvalue(put(s, "(lclone "@), *x, *y, r),
        _ => {},
    }
}

/// Whether every function of `p` has its own id, and every global its own.
pub open spec fn unique_ids(p: Program) -> bool {
    &&& forall|i: int, j: int|
        0 <= i < j < p.functions@.len() ==> (#[trigger] p.functions@[i]).id != (#[trigger] p.functions@[j]).id
    &&& forall|i: int, j: int| 0 <= i < j < p.globals@.len() ==> (#[trigger] p.globals@[i]).id != (#[trigger] p.globals@[j]).id
}

/// Whether `q` is `p` with the ids of its functions renamed by `function`, those of its globals
/// by `global`, and the locals of the function or global at each position by that position's
/// renaming; all else the same up to source locations and identifier ids.
pub open spec fn renumbered_program(
    p: Program,
    q: Program,
    function: spec_fn(u32) -> u32,
    global: spec_fn(u32) -> u32,
    function_locals: spec_fn(int) -> spec_fn(u32) -> u32,
    global_locals: spec_fn(int) -> spec_fn(u32) -> u32,
) -> bool {
    &&& p.functions@.len() == q.functions@.len()
    &&& forall|k: int|
        0 <= k < p.functions@.len() ==> {
            let f = #[trigger] p.functions@[k];
            let g = q.functions@[k];
            let r = Renaming { function, global, local: function_locals(k) };
            &&& g.id == function(f.id)
            &&& f.name == g.name
            &&& f.return_type == g.return_type
            &&& f.return_visibility == g.return_visibility
            &&& f.unconstrained == g.unconstrained
            &&& f.inline_type == g.inline_type
            &&& f.is_entry_point == g.is_entry_point
            &&& f.allow_constant_return == g.allow_constant_return
            &&& renamed_parameters(f.parameters@, g.parameters@, r)
            &&& renamed_expression(f.body, g.body, r)
        }
    &&& p.globals@.len() == q.globals@.len()
    &&& forall|k: int|
        0 <= k < p.globals@.len() ==> {
            let f = #[trigger] p.globals@[k];
            let g = q.globals@[k];
            &&& g.id == global(f.id)
            &&& f.name == g.name
            &&& f.typ == g.typ
            &&& renamed_expression(f.expression, g.expression, Renaming { function, global, local: global_locals(k) })
        }
}

/// Whether parameters `b` are `a` with their locals renamed by `r`.
pub open spec fn renamed_parameters(a: Seq<Parameter>, b: Seq<Parameter>, r: Renaming) -> bool {
    a.len() == b.len() && forall|i: int|
        0 <= i < a.len() ==> {
            let x = #[trigger] a[i];
            let y = b[i];
            y.id == (r.local)(x.id) && y.mutable == x.mutable && y.name == x.name && y.typ == x.typ && y.visibility
                == x.visibility
        }
}

/// Whether `sq` is where `sp` stands once item ids are renamed, whatever the locals.
pub open spec fn corresponds(sp: Numbering, sq: Numbering, function: spec_fn(u32) -> u32, global: spec_fn(u32) -> u32) -> bool {
    &&& sq.out == sp.out
    &&& sq.functions == sp.functions.map_values(function)
    &&& sq.next_function == sp.next_function
    &&& sq.globals == sp.globals.map_values(global)
    &&& sq.next_global == sp.next_global
}

proof fn lemma_renamed_parameters(s: Numbering, xs: Seq<Parameter>, ys: Seq<Parameter>, i: nat, r: Renaming)
    requires
        injective_renaming(r),
        renamed_parameters(xs, ys, r),
    ensures
        parameters_text(renamed_numbering(s, r), ys, i) == renamed_numbering(parameters_text(s, xs, i), r),
    decreases xs.len() - i,
{
    if i < xs.len() {
        let x = xs[i as int];
        lemma_renamed_numbers(s, r, x.id);
        let (s1, l) = number_local(s, x.id);
        let s2 = put(s1, " ("@ + numbered("l#"@, l) + " mut="@ + bool_text(x.mutable) + " "@ + debug_quoted(x.name@) + " "@
            + type_debug(x.typ) + " "@ + visibility_debug(x.visibility) + ")"@);
        lemma_renamed_parameters(s2, xs, ys, i + 1, r);
    }
}

proof fn lemma_function_found(p: Program, id: u32, i: nat)
    ensures
        function_position(p.functions@, id, i) matches Some(k) ==> i <= k < p.functions@.len() && p.functions@[k as int].id
            == id,
        function_position(p.functions@, id, i) is None ==> forall|k: int|
            i <= k < p.functions@.len() ==> (#[trigger] p.functions@[k]).id != id,
        global_position(p.globals@, id, i) matches Some(k) ==> i <= k < p.globals@.len() && p.globals@[k as int].id == id,
        global_position(p.globals@, id, i) is None ==> forall|k: int|
            i <= k < p.globals@.len() ==> (#[trigger] p.globals@[k]).id != id,
    decreases p.functions@.len() + p.globals@.len() - i,
{
    if i < p.functions@.len() || i < p.globals@.len() {
        lemma_function_found(p, id, i + 1);
    }
}

proof fn lemma_renumbered_lookup(
    p: Program,
    q: Program,
    function: spec_fn(u32) -> u32,
    global: spec_fn(u32) -> u32,
    function_locals: spec_fn(int) -> spec_fn(u32) -> u32,
    global_locals: spec_fn(int) -> spec_fn(u32) -> u32,
    id: u32,
)
    requires
        injective(function),
        injective(global),
        unique_ids(p),
        renumbered_program(p, q, function, global, function_locals, global_locals),
    ensures
        function_by_id(q, function(id)) == function_by_id(p, id),
        function_by_id(p, id) matches Some(k) ==> k < p.functions@.len(),
        global_position(q.globals@, global(id), 0) == global_position(p.globals@, id, 0),
        global_position(p.globals@, id, 0) matches Some(k) ==> k < p.globals@.len(),
{
    lemma_function_found(p, id, 0);
    lemma_function_found(q, function(id), 0);
    lemma_function_found(q, global(id), 0);
    let fp = function_by_id(p, id);
    let fq = function_by_id(q, function(id));
    assert forall|k: int| 0 <= k < p.functions@.len() implies (q.functions@[k].id == function(id) <==> #[trigger] p.functions@[k].id
        == id) by {
        assert(q.functions@[k].id == function(p.functions@[k].id));
    }
    assert forall|k: int| 0 <= k < p.globals@.len() implies (q.globals@[k].id == global(id) <==> #[trigger] p.globals@[k].id
        == id) by {
        assert(q.globals@[k].id == global(p.globals@[k].id));
    }
    if let Some(k) = fp {
        assert(k < p.functions@.len() && p.functions@[k as int].id == id);
        if let Some(j) = fq {
            assert(j < q.functions@.len() && q.functions@[j as int].id == function(id));
            assert(p.functions@[j as int].id == id);
            if j < k {
                assert(p.functions@[j as int].id != p.functions@[k as int].id);
            } else if k < j {
                assert(p.functions@[k as int].id != p.functions@[j as int].id);
            }
        } else {
            assert(q.functions@[k as int].id == function(id));
        }
    } else {
        if let Some(j) = fq {
            assert(q.functions@[j as int].id == function(id));
            assert(p.functions@[j as int].id == id);
        }
    }
    let gp = global_position(p.globals@, id, 0);
    let gq = global_position(q.globals@, global(id), 0);
    if let Some(k) = gp {
        if let Some(j) = gq {
            assert(p.globals@[j as int].id == id);
            if j < k {
                assert(p.globals@[j as int].id != p.globals@[k as int].id);
            } else if k < j {
                assert(p.globals@[k as int].id != p.globals@[j as int].id);
            }
        } else {
            assert(q.globals@[k as int].id == global(id));
        }
    } else {
        if let Some(j) = gq {
            assert(p.globals@[j as int].id == id);
        }
    }
}

proof fn lemma_empty_renamed(f: spec_fn(u32) -> u32)
    ensures
        Seq::<u32>::empty().map_values(f) == Seq::<u32>::empty(),
{
    assert(Seq::<u32>::empty().map_values(f) =~= Seq::<u32>::empty());
}

proof fn lemma_renumbered_items(
    p: Program,
    q: Program,
    function: spec_fn(u32) -> u32,
    global: spec_fn(u32) -> u32,
    function_locals: spec_fn(int) -> spec_fn(u32) -> u32,
    global_locals: spec_fn(int) -> spec_fn(u32) -> u32,
    sp: Numbering,
    sq: Numbering,
    id: u32,
)
    requires
        injective(function),
        injective(global),
        forall|k: int| injective(#[trigger] function_locals(k)),
        forall|k: int| injective(#[trigger] global_locals(k)),
        unique_ids(p),
        renumbered_program(p, q, function, global, function_locals, global_locals),
        corresponds(sp, sq, function, global),
    ensures
        corresponds(function_text(p, sp, id), function_text(q, sq, function(id)), function, global),
        corresponds(global_text(p, sp, id), global_text(q, sq, global(id)), function, global),
{
    lemma_renumbered_lookup(p, q, function, global, function_locals, global_locals, id);
    lemma_renamed_position(sp.functions, function, id, 0);
    lemma_renamed_position(sp.globals, global, id, 0);
    match function_by_id(p, id) {
        Some(k) => {
            let f = p.functions@[k as int];
            let g = q.functions@[k as int];
            let r = Renaming { function, global, local: function_locals(k as int) };
            assert(injective(function_locals(k as int)));
            lemma_empty_renamed(r.local);
            let n = number_of(sp.functions, id);
            let s1 = put(Numbering { locals: Seq::empty(), ..sp }, " (fn "@ + numbered("f#"@, n) + " "@ + debug_quoted(f.name@)
                + " unconstrained="@ + bool_text(f.unconstrained) + " inline="@ + inline_text(f.inline_type) + " entry="@
                + bool_text(f.is_entry_point) + " allow_constant_return="@ + bool_text(f.allow_constant_return)
                + " visibility="@ + visibility_debug(f.return_visibility) + "\n  (params"@);
            assert(put(Numbering { locals: Seq::empty(), ..sq }, " (fn "@ + numbered("f#"@, n) + " "@ + debug_quoted(g.name@)
                + " unconstrained="@ + bool_text(g.unconstrained) + " inline="@ + inline_text(g.inline_type) + " entry="@
                + bool_text(g.is_entry_point) + " allow_constant_return="@ + bool_text(g.allow_constant_return)
                + " visibility="@ + visibility_debug(g.return_visibility) + "\n  (params"@) == renamed_numbering(s1, r));
            lemma_renamed_parameters(s1, f.parameters@, g.parameters@, 0, r);
            let s3 = put(parameters_text(s1, f.parameters@, 0), ")\n  -> "@ + type_debug(f.return_type) + "\n  "@);
            lemma_renamed_expression(s3, f.body, g.body, r);
        },
        None => {},
    }
    match global_position(p.globals@, id, 0) {
        Some(k) => {
            let f = p.globals@[k as int];
            let g = q.globals@[k as int];
            let r = Renaming { function, global, local: global_locals(k as int) };
            assert(injective(global_locals(k as int)));
            lemma_empty_renamed(r.local);
            let n = number_of(sp.globals, id);
            let s1 = put(Numbering { locals: Seq::empty(), ..sp }, " (global "@ + numbered("g#"@, n) + " "@ + debug_quoted(f.name@)
                + " "@ + type_debug(f.typ) + " "@);
            assert(put(Numbering { locals: Seq::empty(), ..sq }, " (global "@ + numbered("g#"@, n) + " "@ + debug_quoted(g.name@)
                + " "@ + type_debug(g.typ) + " "@) == renamed_numbering(s1, r));
            lemma_renamed_expression(s1, f.expression, g.expression, r);
        },
        None => {},
    }
}

proof fn lemma_renumbered_drained(
    p: Program,
    q: Program,
    function: spec_fn(u32) -> u32,
    global: spec_fn(u32) -> u32,
    function_locals: spec_fn(int) -> spec_fn(u32) -> u32,
    global_locals: spec_fn(int) -> spec_fn(u32) -> u32,
    sp: Numbering,
    sq: Numbering,
    budget: nat,
)
    requires
        injective(function),
        injective(global),
        forall|k: int| injective(#[trigger] function_locals(k)),
        forall|k: int| injective(#[trigger] global_locals(k)),
        unique_ids(p),
        renumbered_program(p, q, function, global, function_locals, global_locals),
        corresponds(sp, sq, function, global),
    ensures
        corresponds(drained(p, sp, budget), drained(q, sq, budget), function, global),
    decreases budget,
{
    if budget > 0 {
        if sp.next_function < sp.functions.len() {
            let id = sp.functions[sp.next_function as int];
            let sp1 = Numbering { next_function: sp.next_function + 1, ..sp };
            let sq1 = Numbering { next_function: sq.next_function + 1, ..sq };
            assert(sq.functions[sq.next_function as int] == function(id));
            lemma_renumbered_items(p, q, function, global, function_locals, global_locals, sp1, sq1, id);
            lemma_renumbered_drained(
                p,
                q,
                function,
                global,
                function_locals,
                global_locals,
                function_text(p, sp1, id),
                function_text(q, sq1, function(id)),
                (budget - 1) as nat,
            );
        } else if sp.next_global < sp.globals.len() {
            let id = sp.globals[sp.next_global as int];
            let sp1 = Numbering { next_global: sp.next_global + 1, ..sp };
            let sq1 = Numbering { next_global: sq.next_global + 1, ..sq };
            assert(sq.globals[sq.next_global as int] == global(id));
            lemma_renumbered_items(p, q, function, global, function_locals, global_locals, sp1, sq1, id);
            lemma_renumbered_drained(
                p,
                q,
                function,
                global,
                function_locals,
                global_locals,
                global_text(p, sp1, id),
                global_text(q, sq1, global(id)),
                (budget - 1) as nat,
            );
        }
    }
}

proof fn lemma_corresponding_numbers(sp: Numbering, sq: Numbering, function: spec_fn(u32) -> u32, global: spec_fn(u32) -> u32, id: u32)
    requires
        injective(function),
        injective(global),
        corresponds(sp, sq, function, global),
    ensures
        corresponds(number_function(sp, id).0, number_function(sq, function(id)).0, function, global),
        corresponds(number_global(sp, id).0, number_global(sq, global(id)).0, function, global),
{
    lemma_renamed_position(sp.functions, function, id, 0);
    lemma_renamed_position(sp.globals, global, id, 0);
    lemma_renamed_push(sp.functions, function, id);
    lemma_renamed_push(sp.globals, global, id);
}

proof fn lemma_corresponding_number_lists(
    sp: Numbering,
    sq: Numbering,
    function: spec_fn(u32) -> u32,
    global: spec_fn(u32) -> u32,
    fs: Seq<u32>,
    gs: Seq<u32>,
    i: nat,
)
    requires
        injective(function),
        injective(global),
        corresponds(sp, sq, function, global),
    ensures
        corresponds(number_functions(sp, fs, i), number_functions(sq, fs.map_values(function), i), function, global),
        corresponds(number_globals(sp, gs, i), number_globals(sq, gs.map_values(global), i), function, global),
    decreases fs.len() + gs.len() - i,
{
    if i < fs.len() || i < gs.len() {
        lemma_corresponding_numbers(sp, sq, function, global, if i < fs.len() { fs[i as int] } else { 0 });
        lemma_corresponding_numbers(sp, sq, function, global, if i < gs.len() { gs[i as int] } else { 0 });
        if i < fs.len() {
            let f = fs[i as int];
            lemma_corresponding_number_lists(
                number_function(sp, f).0,
                number_function(sq, function(f)).0,
                function,
                global,
                fs,
                Seq::empty(),
                i + 1,
            );
        }
        if i < gs.len() {
            let g = gs[i as int];
            lemma_corresponding_number_lists(
                number_global(sp, g).0,
                number_global(sq, global(g)).0,
                function,
                global,
                Seq::empty(),
                gs,
                i + 1,
            );
        }
    }
}

proof fn lemma_renumbered_leftovers(
    p: Program,
    q: Program,
    function: spec_fn(u32) -> u32,
    global: spec_fn(u32) -> u32,
    function_locals: spec_fn(int) -> spec_fn(u32) -> u32,
    global_locals: spec_fn(int) -> spec_fn(u32) -> u32,
    numbered_functions: Seq<u32>,
    numbered_globals: Seq<u32>,
    i: nat,
)
    requires
        injective(function),
        injective(global),
        renumbered_program(p, q, function, global, function_locals, global_locals),
    ensures
        unnumbered_functions(q.functions@, numbered_functions.map_values(function), i) == unnumbered_functions(
            p.functions@,
            numbered_functions,
            i,
        ).map_values(function),
        unnumbered_globals(q.globals@, numbered_globals.map_values(global), i) == unnumbered_globals(
            p.globals@,
            numbered_globals,
            i,
        ).map_values(global),
    decreases p.functions@.len() + p.globals@.len() - i,
{
    if i < p.functions@.len() || i < p.globals@.len() {
        lemma_renumbered_leftovers(
            p,
            q,
            function,
            global,
            function_locals,
            global_locals,
            numbered_functions,
            numbered_globals,
            i + 1,
        );
        if i < p.functions@.len() {
            let id = p.functions@[i as int].id;
            assert(q.functions@[i as int].id == function(id));
            lemma_renamed_position(numbered_functions, function, id, 0);
            let rest = unnumbered_functions(p.functions@, numbered_functions, i + 1);
            assert((seq![id] + rest).map_values(function) =~= seq![function(id)] + rest.map_values(function));
        }
        if i < p.globals@.len() {
            let id = p.globals@[i as int].id;
            assert(q.globals@[i as int].id == global(id));
            lemma_renamed_position(numbered_globals, global, id, 0);
            let rest = unnumbered_globals(p.globals@, numbered_globals, i + 1);
            assert((seq![id] + rest).map_values(global) =~= seq![global(id)] + rest.map_values(global));
        }
    }
}

/// The canonical text ignores item ids: renumbering a program's functions, globals and each
/// body's locals, the entry point keeping id 0, leaves its text, and so its projection hash,
/// unchanged. Functions and globals each need ids of their own, and the renumbering must keep
/// distinct ids distinct.
pub proof fn law_renumbering_does_not_affect_the_projection(
    p: Program,
    q: Program,
    function: spec_fn(u32) -> u32,
    global: spec_fn(u32) -> u32,
    function_locals: spec_fn(int) -> spec_fn(u32) -> u32,
    global_locals: spec_fn(int) -> spec_fn(u32) -> u32,
)
    requires
        injective(function),
        injective(global),
        forall|k: int| injective(#[trigger] function_locals(k)),
        forall|k: int| injective(#[trigger] global_locals(k)),
        function(0) == 0,
        unique_ids(p),
        renumbered_program(p, q, function, global, function_locals, global_locals),
    ensures
        canonical_text_of(p) == canonical_text_of(q),
{
    let st = start_numbering();
    lemma_empty_renamed(function);
    lemma_empty_renamed(global);
    assert(corresponds(st, st, function, global));
    lemma_corresponding_numbers(st, st, function, global, 0);
    let sp0 = number_function(st, 0).0;
    let sq0 = number_function(st, 0).0;
    lemma_renumbered_drained(p, q, function, global, function_locals, global_locals, sp0, sq0, item_budget());
    let sp1 = drained(p, sp0, item_budget());
    let sq1 = drained(q, sq0, item_budget());
    lemma_renumbered_leftovers(p, q, function, global, function_locals, global_locals, sp1.functions, sp1.globals, 0);
    let lf = unnumbered_functions(p.functions@, sp1.functions, 0);
    let lg = unnumbered_globals(p.globals@, sp1.globals, 0);
    let sp2 = put(sp1, " (unreachable\n"@);
    let sq2 = put(sq1, " (unreachable\n"@);
    lemma_corresponding_number_lists(sp2, sq2, function, global, lf, Seq::empty(), 0);
    let sp3 = number_functions(sp2, lf, 0);
    let sq3 = number_functions(sq2, lf.map_values(function), 0);
    lemma_corresponding_number_lists(sp3, sq3, function, global, Seq::empty(), lg, 0);
    let sp4 = number_globals(sp3, lg, 0);
    let sq4 = number_globals(sq3, lg.map_values(global), 0);
    lemma_renumbered_drained(p, q, function, global, function_locals, global_locals, sp4, sq4, item_budget());
}

/// A position search finds `id` exactly when `ids` holds it at or after `i`, and where it does.
proof fn lemma_position_holds(ids: Seq<u32>, id: u32, i: nat)
    ensures
        position(ids, id, i) is Some <==> exists|k: int| i <= k < ids.len() && ids[k] == id,
        position(ids, id, i) matches Some(n) ==> i <= n < ids.len() && ids[n as int] == id,
    decreases ids.len() - i,
{
    if i < ids.len() {
        lemma_position_holds(ids, id, i + 1);
    }
}

/// The list of ids that numbering `ids` from `i` on leaves, starting from the list `s`; the
/// global list where `globals` holds, else the function list.
pub open spec fn numbered_ids(s: Seq<u32>, ids: Seq<u32>, i: nat, globals: bool) -> Seq<u32> {
    let n = Numbering { out: Seq::empty(), functions: s, next_function: 0, globals: s, next_global: 0, locals: Seq::empty() };
    if globals { number_globals(n, ids, i).globals } else { number_functions(n, ids, i).functions }
}

/// No id occurs twice in `s`.
pub open spec fn distinct_ids(s: Seq<u32>) -> bool {
    forall|a: int, b: int| 0 <= a < b < s.len() ==> s[a] != s[b]
}

/// Numbering a list of ids keeps the ids numbered before, first, and numbers every id of the
/// list, adding only ids of the list, none twice.
proof fn lemma_number_ids(s: Seq<u32>, ids: Seq<u32>, i: nat, globals: bool)
    ensures
        s.len() <= numbered_ids(s, ids, i, globals).len(),
        numbered_ids(s, ids, i, globals).take(s.len() as int) == s,
        forall|j: int| i <= j < ids.len() ==> (position(numbered_ids(s, ids, i, globals), #[trigger] ids[j], 0) is Some),
        forall|m: int| s.len() <= m < numbered_ids(s, ids, i, globals).len()
            ==> exists|j: int| i <= j < ids.len() && ids[j] == #[trigger] numbered_ids(s, ids, i, globals)[m],
        forall|x: u32| (position(s, x, 0) is Some) ==> (position(numbered_ids(s, ids, i, globals), x, 0) is Some),
        distinct_ids(s) ==> distinct_ids(numbered_ids(s, ids, i, globals)),
    decreases ids.len() - i,
{
    let n = Numbering { out: Seq::empty(), functions: s, next_function: 0, globals: s, next_global: 0, locals: Seq::empty() };
    let r = numbered_ids(s, ids, i, globals);
    if i < ids.len() {
        let id = ids[i as int];
        lemma_position_holds(s, id, 0);
        let s2 = match position(s, id, 0) {
            Some(_) => s,
            None => s.push(id),
        };
        let n2 = Numbering { out: Seq::empty(), functions: s2, next_function: 0, globals: s2, next_global: 0, locals: Seq::empty() };
        lemma_number_ids(s2, ids, i + 1, globals);
        let r2 = numbered_ids(s2, ids, i + 1, globals);
        assert(r == r2) by {
            lemma_numbering_depends_on_list(n, n2, ids, i, globals);
        }
        assert(r.take(s.len() as int) =~= s2.take(s2.len() as int).take(s.len() as int));
        assert forall|x: u32| (position(s, x, 0) is Some) implies (position(r, x, 0) is Some) by {
            lemma_position_holds(s, x, 0);
            lemma_position_holds(s2, x, 0);
            let k = choose|k: int| 0 <= k < s.len() && s[k] == x;
            assert(s2[k] == x);
        }
        assert(position(s2, id, 0) is Some) by {
            lemma_position_holds(s2, id, 0);
            if position(s, id, 0) is None {
                assert(s2[s.len() as int] == id);
            }
        }
        assert forall|m: int| s.len() <= m < r.len() implies exists|j: int| i <= j < ids.len() && ids[j] == #[trigger] r[m] by {
            if m < s2.len() {
                assert(r[m] == r2.take(s2.len() as int)[m]);
                assert(ids[i as int] == r[m]);
            } else {
                let j = choose|j: int| i + 1 <= j < ids.len() && ids[j] == #[trigger] r2[m];
                assert(ids[j] == r[m]);
            }
        }
        if distinct_ids(s) {
            assert(distinct_ids(s2)) by {
                if position(s, id, 0) is None {
                    assert forall|a: int, b: int| 0 <= a < b < s2.len() implies s2[a] != s2[b] by {
                        if b == s.len() {
                            assert(s[a] == s2[a]);
                        }
                    }
                }
            }
        }
    } else {
        assert(s.take(s.len() as int) =~= s);
    }
}

/// One numbering step, then the rest of the list.
proof fn lemma_numbering_depends_on_list(n: Numbering, n2: Numbering, ids: Seq<u32>, i: nat, globals: bool)
    requires
        i < ids.len(),
        n2.functions == (match position(n.functions, ids[i as int], 0) { Some(_) => n.functions, None => n.functions.push(ids[i as int]) }),
        n2.globals == (match position(n.globals, ids[i as int], 0) { Some(_) => n.globals, None => n.globals.push(ids[i as int]) }),
    ensures
        globals ==> number_globals(n, ids, i).globals == number_globals(n2, ids, i + 1).globals,
        !globals ==> number_functions(n, ids, i).functions == number_functions(n2, ids, i + 1).functions,
{
    lemma_numbering_keeps_others(number_global(n, ids[i as int]).0, n2, ids, i + 1);
    lemma_numbering_keeps_others(number_function(n, ids[i as int]).0, n2, ids, i + 1);
}

/// Numbering functions looks only at the function list, and numbering globals only at the
/// global list.
proof fn lemma_numbering_keeps_others(a: Numbering, b: Numbering, ids: Seq<u32>, i: nat)
    ensures
        a.functions == b.functions ==> number_functions(a, ids, i).functions == number_functions(b, ids, i).functions,
        a.globals == b.globals ==> number_globals(a, ids, i).globals == number_globals(b, ids, i).globals,
        number_functions(a, ids, i).globals == a.globals,
        number_globals(a, ids, i).functions == a.functions,
    decreases ids.len() - i,
{
    if i < ids.len() {
        lemma_numbering_keeps_others(number_function(a, ids[i as int]).0, number_function(b, ids[i as int]).0, ids, i + 1);
        lemma_numbering_keeps_others(number_global(a, ids[i as int]).0, number_global(b, ids[i as int]).0, ids, i + 1);
    }
}

/// The ids that `unnumbered_functions` lists are those of the functions from `i` on that
/// `numbered` does not hold.
proof fn lemma_unnumbered_functions(fs: Seq<Function>, numbered: Seq<u32>, i: nat)
    ensures
        forall|k: int| i <= k < fs.len() && (position(numbered, #[trigger] fs[k].id, 0) is None)
            ==> exists|m: int| 0 <= m < unnumbered_functions(fs, numbered, i).len() && unnumbered_functions(fs, numbered, i)[m] == fs[k].id,
        forall|m: int| 0 <= m < unnumbered_functions(fs, numbered, i).len()
            ==> (position(numbered, #[trigger] unnumbered_functions(fs, numbered, i)[m], 0) is None)
            && exists|k: int| i <= k < fs.len() && fs[k].id == unnumbered_functions(fs, numbered, i)[m],
    decreases fs.len() - i,
{
    if i < fs.len() {
        lemma_unnumbered_functions(fs, numbered, i + 1);
        let rest = unnumbered_functions(fs, numbered, i + 1);
        let l = unnumbered_functions(fs, numbered, i);
        if position(numbered, fs[i as int].id, 0) is None {
            assert forall|k: int| i <= k < fs.len() && (position(numbered, #[trigger] fs[k].id, 0) is None)
                implies exists|m: int| 0 <= m < l.len() && l[m] == fs[k].id by {
                if k == i {
                    assert(l[0] == fs[k].id);
                } else {
                    let m = choose|m: int| 0 <= m < rest.len() && rest[m] == fs[k].id;
                    assert(l[m + 1] == fs[k].id);
                }
            }
            assert forall|m: int| 0 <= m < l.len() implies (position(numbered, #[trigger] l[m], 0) is None)
                && exists|k: int| i <= k < fs.len() && fs[k].id == l[m] by {
                if m > 0 {
                    assert(l[m] == rest[m - 1]);
                }
            }
        }
    }
}

/// The ids that `unnumbered_globals` lists are those of the globals from `i` on that
/// `numbered` does not hold.
proof fn lemma_unnumbered_globals(gs: Seq<Global>, numbered: Seq<u32>, i: nat)
    ensures
        forall|k: int| i <= k < gs.len() && (position(numbered, #[trigger] gs[k].id, 0) is None)
            ==> exists|m: int| 0 <= m < unnumbered_globals(gs, numbered, i).len() && unnumbered_globals(gs, numbered, i)[m] == gs[k].id,
        forall|m: int| 0 <= m < unnumbered_globals(gs, numbered, i).len()
            ==> (position(numbered, #[trigger] unnumbered_globals(gs, numbered, i)[m], 0) is None)
            && exists|k: int| i <= k < gs.len() && gs[k].id == unnumbered_globals(gs, numbered, i)[m],
    decreases gs.len() - i,
{
    if i < gs.len() {
        lemma_unnumbered_globals(gs, numbered, i + 1);
        let rest = unnumbered_globals(gs, numbered, i + 1);
        let l = unnumbered_globals(gs, numbered, i);
        if position(numbered, gs[i as int].id, 0) is None {
            assert forall|k: int| i <= k < gs.len() && (position(numbered, #[trigger] gs[k].id, 0) is None)
                implies exists|m: int| 0 <= m < l.len() && l[m] == gs[k].id by {
                if k == i {
                    assert(l[0] == gs[k].id);
                } else {
                    let m = choose|m: int| 0 <= m < rest.len() && rest[m] == gs[k].id;
                    assert(l[m + 1] == gs[k].id);
                }
            }
            assert forall|m: int| 0 <= m < l.len() implies (position(numbered, #[trigger] l[m], 0) is None)
                && exists|k: int| i <= k < gs.len() && gs[k].id == l[m] by {
                if m > 0 {
                    assert(l[m] == rest[m - 1]);
                }
            }
        }
    }
}

/// Neither the function queue nor the global queue holds an id twice.
pub open spec fn queues_distinct(s: Numbering) -> bool {
    distinct_ids(s.functions) && distinct_ids(s.globals)
}

/// Writing text and numbering an item or a local never puts an id twice in a queue.
proof fn lemma_steps_keep_distinct()
    ensures
        forall|s: Numbering, t: Seq<char>| queues_distinct(s) ==> queues_distinct(#[trigger] put(s, t)),
        forall|s: Numbering, id: u32| #![trigger number_local(s, id)] queues_distinct(s) ==> queues_distinct(number_local(s, id).0),
        forall|s: Numbering, id: u32| #![trigger number_function(s, id)] queues_distinct(s) ==> queues_distinct(number_function(s, id).0),
        forall|s: Numbering, id: u32| #![trigger number_global(s, id)] queues_distinct(s) ==> queues_distinct(number_global(s, id).0),
        forall|s: Numbering, d: Definition| #![trigger definition_text(s, d)] queues_distinct(s) ==> queues_distinct(definition_text(s, d).0),
{
    assert forall|s: Numbering, id: u32| #![trigger number_function(s, id)] queues_distinct(s) implies queues_distinct(number_function(s, id).0) by {
        lemma_position_holds(s.functions, id, 0);
        let f = s.functions;
        if position(f, id, 0) is None {
            let g = f.push(id);
            assert forall|a: int, b: int| 0 <= a < b < g.len() implies g[a] != g[b] by {
                if b == f.len() {
                    assert(f[a] == g[a]);
                }
            }
        }
    }
    assert forall|s: Numbering, id: u32| #![trigger number_global(s, id)] queues_distinct(s) implies queues_distinct(number_global(s, id).0) by {
        lemma_position_holds(s.globals, id, 0);
        let f = s.globals;
        if position(f, id, 0) is None {
            let g = f.push(id);
            assert forall|a: int, b: int| 0 <= a < b < g.len() implies g[a] != g[b] by {
                if b == f.len() {
                    assert(f[a] == g[a]);
                }
            }
        }
    }
    assert forall|s: Numbering, d: Definition| #![trigger definition_text(s, d)] queues_distinct(s) implies queues_distinct(definition_text(s, d).0) by {
        match d {
            Definition::Local(id) => assert(queues_distinct(number_local(s, id).0)),
            Definition::Global(id) => assert(queues_distinct(number_global(s, id).0)),
            Definition::Function(id) => assert(queues_distinct(number_function(s, id).0)),
            _ => {},
        }
    }
}

/// Writing an expression never puts an id twice in a queue.
proof fn lemma_expr_keeps_distinct(s: Numbering, e: Expression)
    requires
        queues_distinct(s),
    ensures
        queues_distinct(expr_text(s, e)),
    decreases e, 0nat,
{
    lemma_steps_keep_distinct();
    match e {
        Expression::Ident(ident) => {
            assert(queues_distinct(definition_text(s, ident.definition).0));
        },
        Expression::Literal(l) => lemma_literal_keeps_distinct(s, l),
        Expression::Block(es) => lemma_exprs_keep_distinct(put(s, "(block"@), es@, 0),
        Expression::Unary { operator, rhs, result_type, skip, .. } => {
            lemma_expr_keeps_distinct(put(s, "(unary "@ + unary_debug(operator) + " skip="@ + bool_text(skip) + " "@ + type_debug(result_type) + " "@), *rhs);
        },
        Expression::Binary { lhs, operator, rhs, .. } => {
            let s0 = put(s, "(binary "@ + op_name(operator) + " "@);
            lemma_expr_keeps_distinct(s0, *lhs);
            lemma_expr_keeps_distinct(put(expr_text(s0, *lhs), " "@), *rhs);
        },
        Expression::Index { collection, index, element_type, .. } => {
            let s0 = put(s, "(index "@ + type_debug(element_type) + " "@);
            lemma_expr_keeps_distinct(s0, *collection);
            lemma_expr_keeps_distinct(put(expr_text(s0, *collection), " "@), *index);
        },
        Expression::Cast { lhs, typ, .. } => lemma_expr_keeps_distinct(put(s, "(cast "@ + type_debug(typ) + " "@), *lhs),
        Expression::For { index_variable, index_name, index_type, start_range, end_range, inclusive, block } => {
            let (s1, l) = number_local(s, index_variable);
            assert(queues_distinct(number_local(s, index_variable).0));
            let s2 = put(s1, "(for "@ + numbered("l#"@, l) + " "@ + debug_quoted(index_name@) + " "@ + type_debug(index_type)
                + " inclusive="@ + bool_text(inclusive) + " "@);
            lemma_expr_keeps_distinct(s2, *start_range);
            let s3 = expr_text(s2, *start_range);
            lemma_expr_keeps_distinct(put(s3, " "@), *end_range);
            let s4 = expr_text(put(s3, " "@), *end_range);
            lemma_expr_keeps_distinct(put(s4, " "@), *block);
        },
        Expression::Loop(body) => lemma_expr_keeps_distinct(put(s, "(loop "@), *body),
        Expression::While { condition, body } => {
            lemma_expr_keeps_distinct(put(s, "(while "@), *condition);
            lemma_expr_keeps_distinct(put(expr_text(put(s, "(while "@), *condition), " "@), *body);
        },
        Expression::If { condition, consequence, alternative, typ } => {
            let s0 = put(s, "(if "@ + type_debug(typ) + " "@);
            lemma_expr_keeps_distinct(s0, *condition);
            let s1 = expr_text(s0, *condition);
            lemma_expr_keeps_distinct(put(s1, " "@), *consequence);
            let s2 = expr_text(put(s1, " "@), *consequence);
            match alternative {
                Some(a) => lemma_expr_keeps_distinct(put(s2, " (else "@), *a),
                None => {},
            }
        },
        Expression::Match { variable, variable_name, cases, default_case, typ } => {
            let (s1, l) = number_local(s, variable);
            assert(queues_distinct(number_local(s, variable).0));
            let s2 = put(s1, "(match "@ + numbered("l#"@, l) + " "@ + debug_quoted(variable_name@) + " "@ + type_debug(typ));
            lemma_cases_keep_distinct(s2, cases@, 0);
            let s3 = cases_text(s2, cases@, 0);
            match default_case {
                Some(d) => lemma_expr_keeps_distinct(put(s3, " (default "@), *d),
                None => {},
            }
        },
        Expression::Tuple(es) => lemma_exprs_keep_distinct(put(s, "(tuple"@), es@, 0),
        Expression::ExtractTupleField(inner, index) => {
            lemma_expr_keeps_distinct(put(s, "(field "@ + nat_decimal(index as nat) + " "@), *inner);
        },
        Expression::Call { func, arguments, return_type, .. } => {
            let s0 = put(s, "(call "@ + type_debug(return_type) + " "@);
            lemma_expr_keeps_distinct(s0, *func);
            lemma_exprs_keep_distinct(expr_text(s0, *func), arguments@, 0);
        },
        Expression::Let { id, mutable, name, expression } => {
            let (s1, l) = number_local(s, id);
            assert(queues_distinct(number_local(s, id).0));
            lemma_expr_keeps_distinct(put(s1, "(let "@ + numbered("l#"@, l) + " mut="@ + bool_text(mutable) + " "@ + debug_quoted(name@)
                + " "@), *expression);
        },
        Expression::Constrain { condition, message, .. } => {
            lemma_expr_keeps_distinct(put(s, "(constrain "@), *condition);
            let s1 = expr_text(put(s, "(constrain "@), *condition);
            match message {
                Some(m) => lemma_expr_keeps_distinct(put(s1, " (msg "@ + printable_debug(m.1) + " "@), *m.0),
                None => {},
            }
        },
        Expression::Assign { lvalue, expression } => {
            lemma_lvalue_keeps_distinct(put(s, "(assign "@), lvalue);
            lemma_expr_keeps_distinct(put(lvalue_text(put(s, "(assign "@), lvalue), " "@), *expression);
        },
        Expression::Semi(inner) => lemma_expr_keeps_distinct(put(s, "(semi "@), *inner),
        Expression::Clone(inner) => lemma_expr_keeps_distinct(put(s, "(clone "@), *inner),
        Expression::Drop(inner) => lemma_expr_keeps_distinct(put(s, "(drop "@), *inner),
        _ => {},
    }
}

proof fn lemma_exprs_keep_distinct(s: Numbering, es: Seq<Expression>, i: nat)
    requires
        queues_distinct(s),
    ensures
        queues_distinct(exprs_text(s, es, i)),
    decreases es, es.len() - i,
{
    lemma_steps_keep_distinct();
    if i < es.len() {
        lemma_expr_keeps_distinct(put(s, " "@), es[i as int]);
        lemma_exprs_keep_distinct(expr_text(put(s, " "@), es[i as int]), es, i + 1);
    }
}

proof fn lemma_case_arguments_keep_distinct(s: Numbering, args: Seq<(u32, String)>, i: nat)
    requires
        queues_distinct(s),
    ensures
        queues_distinct(case_arguments_text(s, args, i)),
    decreases args.len() - i,
{
    lemma_steps_keep_distinct();
    if i < args.len() {
        let (s1, l) = number_local(s, args[i as int].0);
        assert(queues_distinct(number_local(s, args[i as int].0).0));
        lemma_case_arguments_keep_distinct(put(s1, " "@ + numbered("l#"@, l) + ":"@ + debug_quoted(args[i as int].1@)), args, i + 1);
    }
}

proof fn lemma_cases_keep_distinct(s: Numbering, cs: Seq<MatchCase>, i: nat)
    requires
        queues_distinct(s),
    ensures
        queues_distinct(cases_text(s, cs, i)),
    decreases cs, cs.len() - i,
{
    lemma_steps_keep_distinct();
    if i < cs.len() {
        let c = cs[i as int];
        let s1 = put(s, " (case "@ + constructor_text(c.constructor) + " (args"@);
        lemma_case_arguments_keep_distinct(s1, c.arguments@, 0);
        let s2 = case_arguments_text(s1, c.arguments@, 0);
        lemma_expr_keeps_distinct(put(s2, ") "@), c.branch);
        let s3 = put(expr_text(put(s2, ") "@), c.branch), ")"@);
        lemma_cases_keep_distinct(s3, cs, i + 1);
    }
}

proof fn lemma_literal_keeps_distinct(s: Numbering, l: Literal)
    requires
        queues_distinct(s),
    ensures
        queues_distinct(literal_text(s, l)),
    decreases l, 0nat,
{
    lemma_steps_keep_distinct();
    match l {
        Literal::Array { typ, contents } => lemma_exprs_keep_distinct(put(s, "(array "@ + type_debug(typ)), contents@, 0),
        Literal::Vector { typ, contents } => lemma_exprs_keep_distinct(put(s, "(vector "@ + type_debug(typ)), contents@, 0),
        Literal::Repeated { element, length, is_vector, typ } => {
            lemma_expr_keeps_distinct(put(s, "(repeated "@ + type_debug(typ) + " "@ + nat_decimal(length as nat) + " vector="@
                + bool_text(is_vector) + " "@), *element);
        },
        Literal::FmtStr(fragments, count, captures, _) => {
            lemma_expr_keeps_distinct(put(s, "(fmtstr "@ + nat_decimal(count as nat) + " ["@ + fragments_text(fragments@, fragments@.len())
                + " ] "@), *captures);
        },
        _ => {},
    }
}

proof fn lemma_lvalue_keeps_distinct(s: Numbering, lv: LValue)
    requires
        queues_distinct(s),
    ensures
        queues_distinct(lvalue_text(s, lv)),
    decreases lv, 0nat,
{
    lemma_steps_keep_distinct();
    match lv {
        LValue::Ident(ident) => {
            assert(queues_distinct(definition_text(s, ident.definition).0));
        },
        LValue::Index { array, index, element_type, .. } => {
            let s0 = put(s, "(lindex "@ + type_debug(element_type) + " "@);
            lemma_lvalue_keeps_distinct(s0, *array);
            lemma_expr_keeps_distinct(put(lvalue_text(s0, *array), " "@), *index);
        },
        LValue::MemberAccess { object, field_index } => {
            lemma_lvalue_keeps_distinct(put(s, "(lmember "@ + nat_decimal(field_index as nat) + " "@), *object);
        },
        LValue::Dereference { reference, element_type } => {
            lemma_lvalue_keeps_distinct(put(s, "(lderef "@ + type_debug(element_type) + " "@), *reference);
        },
        LValue::Clone(inner) => lemma_lvalue_keeps_distinct(put(s, "(lclone "@), *inner),
    }
}

proof fn lemma_parameters_keep_distinct(s: Numbering, ps: Seq<Parameter>, i: nat)
    requires
        queues_distinct(s),
    ensures
        queues_distinct(parameters_text(s, ps, i)),
    decreases ps.len() - i,
{
    lemma_steps_keep_distinct();
    if i < ps.len() {
        let q = ps[i as int];
        let (s1, l) = number_local(s, q.id);
        assert(queues_distinct(number_local(s, q.id).0));
        let s2 = put(s1, " ("@ + numbered("l#"@, l) + " mut="@ + bool_text(q.mutable) + " "@ + debug_quoted(q.name@) + " "@
            + type_debug(q.typ) + " "@ + visibility_debug(q.visibility) + ")"@);
        lemma_parameters_keep_distinct(s2, ps, i + 1);
    }
}

/// Writing the queued items never puts an id twice in a queue.
proof fn lemma_drained_keeps_distinct(p: Program, s: Numbering, budget: nat)
    requires
        queues_distinct(s),
    ensures
        queues_distinct(drained(p, s, budget)),
    decreases budget,
{
    lemma_steps_keep_distinct();
    if budget > 0 {
        if s.next_function < s.functions.len() {
            let id = s.functions[s.next_function as int];
            let s0 = Numbering { next_function: s.next_function + 1, ..s };
            match function_by_id(p, id) {
                Some(k) => {
                    let f = p.functions@[k as int];
                    let n = number_of(s0.functions, id);
                    let s1 = put(Numbering { locals: Seq::empty(), ..s0 }, " (fn "@ + numbered("f#"@, n) + " "@ + debug_quoted(f.name@)
                        + " unconstrained="@ + bool_text(f.unconstrained) + " inline="@ + inline_text(f.inline_type) + " entry="@
                        + bool_text(f.is_entry_point) + " allow_constant_return="@ + bool_text(f.allow_constant_return)
                        + " visibility="@ + visibility_debug(f.return_visibility) + "\n  (params"@);
                    lemma_parameters_keep_distinct(s1, f.parameters@, 0);
                    let s3 = put(parameters_text(s1, f.parameters@, 0), ")\n  -> "@ + type_debug(f.return_type) + "\n  "@);
                    lemma_expr_keeps_distinct(s3, f.body);
                },
                None => {},
            }
            lemma_drained_keeps_distinct(p, function_text(p, s0, id), (budget - 1) as nat);
        } else if s.next_global < s.globals.len() {
            let id = s.globals[s.next_global as int];
            let s0 = Numbering { next_global: s.next_global + 1, ..s };
            match global_position(p.globals@, id, 0) {
                Some(k) => {
                    let g = p.globals@[k as int];
                    let n = number_of(s0.globals, id);
                    let s1 = put(Numbering { locals: Seq::empty(), ..s0 }, " (global "@ + numbered("g#"@, n) + " "@ + debug_quoted(g.name@)
                        + " "@ + type_debug(g.typ) + " "@);
                    lemma_expr_keeps_distinct(s1, g.expression);
                },
                None => {},
            }
            lemma_drained_keeps_distinct(p, global_text(p, s0, id), (budget - 1) as nat);
        }
    }
}

/// The numbering that the canonical text reaches from the entry point.
pub open spec fn reached_numbering(p: Program) -> Numbering {
    drained(p, number_function(start_numbering(), 0).0, item_budget())
}

/// The numbering once the items that nothing reached, if there are any, are numbered under
/// `(unreachable`, in program order.
pub open spec fn full_numbering(p: Program) -> Numbering {
    let s1 = reached_numbering(p);
    number_globals(
        number_functions(put(s1, " (unreachable\n"@), unnumbered_functions(p.functions@, s1.functions, 0), 0),
        unnumbered_globals(p.globals@, s1.globals, 0),
        0,
    )
}

/// Every function and every global of a program gets a number in its canonical text: those
/// that the entry point reaches first, in the order they are reached, then, under
/// `(unreachable`, only functions and globals of the program that nothing reached, none of
/// them twice.
pub proof fn law_every_item_is_numbered_reached_first(p: Program)
    ensures
        full_numbering(p).functions.take(reached_numbering(p).functions.len() as int) == reached_numbering(p).functions,
        full_numbering(p).globals.take(reached_numbering(p).globals.len() as int) == reached_numbering(p).globals,
        forall|k: int| 0 <= k < p.functions@.len() ==> (position(full_numbering(p).functions, #[trigger] p.functions@[k].id, 0) is Some),
        forall|k: int| 0 <= k < p.globals@.len() ==> (position(full_numbering(p).globals, #[trigger] p.globals@[k].id, 0) is Some),
        forall|m: int| reached_numbering(p).functions.len() <= m < full_numbering(p).functions.len()
            ==> (position(reached_numbering(p).functions, #[trigger] full_numbering(p).functions[m], 0) is None)
            && exists|k: int| 0 <= k < p.functions@.len() && p.functions@[k].id == full_numbering(p).functions[m],
        forall|m: int| reached_numbering(p).globals.len() <= m < full_numbering(p).globals.len()
            ==> (position(reached_numbering(p).globals, #[trigger] full_numbering(p).globals[m], 0) is None)
            && exists|k: int| 0 <= k < p.globals@.len() && p.globals@[k].id == full_numbering(p).globals[m],
        distinct_ids(full_numbering(p).functions),
        distinct_ids(full_numbering(p).globals),
{
    let s1 = reached_numbering(p);
    lemma_steps_keep_distinct();
    lemma_drained_keeps_distinct(p, number_function(start_numbering(), 0).0, item_budget());
    let lf = unnumbered_functions(p.functions@, s1.functions, 0);
    let lg = unnumbered_globals(p.globals@, s1.globals, 0);
    let a = put(s1, " (unreachable\n"@);
    let b = number_functions(a, lf, 0);
    let s3 = full_numbering(p);
    assert(s3 == number_globals(b, lg, 0));
    lemma_unnumbered_functions(p.functions@, s1.functions, 0);
    lemma_unnumbered_globals(p.globals@, s1.globals, 0);
    let nf = Numbering { out: Seq::empty(), functions: s1.functions, next_function: 0, globals: s1.functions, next_global: 0, locals: Seq::empty() };
    let ng = Numbering { out: Seq::empty(), functions: s1.globals, next_function: 0, globals: s1.globals, next_global: 0, locals: Seq::empty() };
    lemma_numbering_keeps_others(a, nf, lf, 0);
    lemma_numbering_keeps_others(b, ng, lg, 0);
    lemma_number_ids(s1.functions, lf, 0, false);
    lemma_number_ids(s1.globals, lg, 0, true);
    let rf = numbered_ids(s1.functions, lf, 0, false);
    let rg = numbered_ids(s1.globals, lg, 0, true);
    assert(s3.functions == rf);
    assert(s3.globals == rg);
    assert forall|k: int| 0 <= k < p.functions@.len() implies (position(rf, #[trigger] p.functions@[k].id, 0) is Some) by {
        let id = p.functions@[k].id;
        if position(s1.functions, id, 0) is None {
            let m = choose|m: int| 0 <= m < lf.len() && lf[m] == id;
            assert(position(rf, lf[m], 0) is Some);
        }
    }
    assert forall|k: int| 0 <= k < p.globals@.len() implies (position(rg, #[trigger] p.globals@[k].id, 0) is Some) by {
        let id = p.globals@[k].id;
        if position(s1.globals, id, 0) is None {
            let m = choose|m: int| 0 <= m < lg.len() && lg[m] == id;
            assert(position(rg, lg[m], 0) is Some);
        }
    }
    assert forall|m: int| s1.functions.len() <= m < rf.len()
        implies (position(s1.functions, #[trigger] rf[m], 0) is None)
            && exists|k: int| 0 <= k < p.functions@.len() && p.functions@[k].id == rf[m] by {
        let j = choose|j: int| 0 <= j < lf.len() && lf[j] == rf[m];
        assert(position(s1.functions, lf[j], 0) is None);
    }
    assert forall|m: int| s1.globals.len() <= m < rg.len()
        implies (position(s1.globals, #[trigger] rg[m], 0) is None)
            && exists|k: int| 0 <= k < p.globals@.len() && p.globals@[k].id == rg[m] by {
        let j = choose|j: int| 0 <= j < lg.len() && lg[j] == rg[m];
        assert(position(s1.globals, lg[j], 0) is None);
    }
}

} // verus!
