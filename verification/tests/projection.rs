use ast_interpreter::ast::{
    Definition, Expression, Function, Global, Ident, InlineType, LValue, Literal, MatchCase, Parameter, Program,
    Visibility,
};
use ast_interpreter::bigint::BigInt;
use ast_interpreter::error::Location;
use ast_interpreter::eval::{BinaryOpKind, Constructor, UnaryOp};
use ast_interpreter::format::FmtStrFragment;
use ast_interpreter::projection::{canonical_text, escape_bytes, projection_hash};
use ast_interpreter::types::{PrintableType, Signedness, Type};

fn u64_type() -> Type {
    Type::Integer(Signedness::Unsigned, 64)
}

fn location(offset: u32) -> Location {
    Location { file: 0, start: offset, end: offset + 1 }
}

fn local(id: u32, name: &str) -> Expression {
    Expression::Ident(Ident {
        location: Some(location(id)),
        definition: Definition::Local(id),
        mutable: false,
        name: name.to_string(),
        typ: u64_type(),
        id: id * 10,
    })
}

fn lit(value: u64, offset: u32) -> Expression {
    Expression::Literal(Literal::Integer(BigInt::from_u128(value as u128), u64_type(), location(offset)))
}

fn binary(op: BinaryOpKind, lhs: Expression, rhs: Expression, offset: u32) -> Expression {
    Expression::Binary { lhs: Box::new(lhs), operator: op, rhs: Box::new(rhs), location: location(offset) }
}

fn call(callee: u32, name: &str, argument: Expression, offset: u32) -> Expression {
    Expression::Call {
        func: Box::new(Expression::Ident(Ident {
            location: None,
            definition: Definition::Function(callee),
            mutable: false,
            name: name.to_string(),
            typ: Type::Function(vec![u64_type()], Box::new(u64_type()), Box::new(Type::Unit), false),
            id: callee * 100,
        })),
        arguments: vec![argument],
        return_type: u64_type(),
        location: location(offset),
    }
}

fn function(id: u32, name: &str, params: &[(u32, &str)], body: Expression) -> Function {
    Function {
        id,
        name: name.to_string(),
        parameters: params
            .iter()
            .map(|(local, name)| Parameter {
                id: *local,
                mutable: false,
                name: name.to_string(),
                typ: u64_type(),
                visibility: Visibility::Private,
            })
            .collect(),
        body,
        return_type: u64_type(),
        return_visibility: Visibility::Public,
        unconstrained: false,
        inline_type: InlineType::Inline,
        is_entry_point: id == 0,
        allow_constant_return: false,
    }
}

fn program(functions: Vec<Function>) -> Program {
    Program { functions, globals: vec![] }
}

/// `main(x, y) = a(x) + b(y)`, `a(v) = v * 2`, `b(v) = v + 3`, with the given numbering of the
/// helpers, their locals and the source offsets.
fn sample(a: u32, b: u32, x: u32, y: u32, v: u32, offset: u32) -> Program {
    let main = function(
        0,
        "main",
        &[(x, "x"), (y, "y")],
        binary(
            BinaryOpKind::Add,
            call(a, "a", local(x, "x"), offset),
            call(b, "b", local(y, "y"), offset + 1),
            offset + 2,
        ),
    );
    let helper_a =
        function(a, "a", &[(v, "v")], binary(BinaryOpKind::Multiply, local(v, "v"), lit(2, offset + 3), offset + 4));
    let helper_b = function(b, "b", &[(v, "v")], binary(BinaryOpKind::Add, local(v, "v"), lit(3, offset + 5), offset + 6));
    let mut functions = vec![main, helper_a, helper_b];
    functions.sort_by_key(|f| f.id);
    program(functions)
}

#[test]
fn renumbered_functions_and_locals_project_identically() {
    let one = sample(1, 2, 0, 1, 0, 0);
    let other = sample(2, 1, 7, 3, 9, 0);
    assert_eq!(canonical_text(&one), canonical_text(&other));
}

#[test]
fn locations_do_not_affect_the_projection() {
    assert_eq!(projection_hash(&sample(1, 2, 0, 1, 0, 0)), projection_hash(&sample(1, 2, 0, 1, 0, 500)));
}

#[test]
fn a_changed_literal_changes_the_projection() {
    let mut changed = sample(1, 2, 0, 1, 0, 0);
    changed.functions[2].body = binary(BinaryOpKind::Add, local(0, "v"), lit(4, 0), 0);
    assert_ne!(projection_hash(&sample(1, 2, 0, 1, 0, 0)), projection_hash(&changed));
}

#[test]
fn a_swapped_call_order_changes_the_projection() {
    let mut swapped = sample(1, 2, 0, 1, 0, 0);
    swapped.functions[0].body =
        binary(BinaryOpKind::Add, call(2, "b", local(1, "y"), 0), call(1, "a", local(0, "x"), 0), 0);
    assert_ne!(projection_hash(&sample(1, 2, 0, 1, 0, 0)), projection_hash(&swapped));
}

#[test]
fn unreachable_items_do_not_repeat_reachable_items() {
    let mut program = sample(1, 2, 0, 1, 0, 0);
    program.functions.push(function(3, "unused", &[], lit(5, 0)));
    program.globals.push(Global { id: 0, name: "unused".into(), typ: u64_type(), expression: lit(6, 0) });
    let text = canonical_text(&program);
    assert_eq!(text.matches(" (fn ").count(), program.functions.len());
    assert_eq!(text.matches(" (global ").count(), program.globals.len());
    assert!(text.contains("(unreachable"));
}

#[test]
fn reached_items_come_before_the_unreachable_ones() {
    let mut program = sample(1, 2, 0, 1, 0, 0);
    program.functions.insert(1, function(3, "unused", &[], lit(5, 0)));
    let text = canonical_text(&program);
    let marker = text.find("(unreachable").unwrap();
    assert!(text.find("\"a\"").unwrap() < marker);
    assert!(text.find("\"b\"").unwrap() < marker);
    assert!(text.find("\"unused\"").unwrap() > marker);
    assert_eq!(text.matches("\"unused\"").count(), 1);
}

#[test]
fn distinct_types_have_distinct_projections() {
    let function_type = |ret, env| Type::Function(vec![], Box::new(ret), Box::new(env), false);
    let pairs = [
        (Type::Unit, Type::Tuple(vec![])),
        (
            function_type(function_type(Type::Bool, Type::Tuple(vec![Type::Field])), Type::Unit),
            function_type(function_type(Type::Bool, Type::Unit), Type::Tuple(vec![Type::Field])),
        ),
    ];
    let hash = |typ| {
        let mut main = function(0, "main", &[(0, "x")], lit(7, 0));
        main.parameters[0].typ = typ;
        projection_hash(&program(vec![main]))
    };
    for (a, b) in pairs {
        assert_ne!(hash(a), hash(b));
    }
}

#[test]
fn the_canonical_text_format_is_pinned() {
    let program = program(vec![function(0, "main", &[(4, "x")], lit(7, 0))]);
    assert_eq!(
        canonical_text(&program),
        "(program v2\n \
         (fn f#0 \"main\" unconstrained=false inline=inline entry=true allow_constant_return=false visibility=Public\n  \
         (params (l#0 mut=false \"x\" Integer(Unsigned, SixtyFour) Private))\n  \
         -> Integer(Unsigned, SixtyFour)\n  \
         (int 7 Integer(Unsigned, SixtyFour)))\n\
         )\n"
    );
}

#[test]
fn a_missing_callee_is_written_as_missing() {
    let main = function(0, "main", &[], call(5, "gone", lit(1, 0), 0));
    let text = canonical_text(&program(vec![main]));
    assert!(text.contains("(call Integer(Unsigned, SixtyFour) (ident f#1 mut=false \"gone\""), "{text}");
    assert!(text.ends_with(" (fn f#1 missing)\n)\n"), "{text}");
}

#[test]
fn statements_and_places_have_their_own_forms() {
    let u32_type = || Type::Integer(Signedness::Unsigned, 32);
    let place = LValue::Index {
        array: Box::new(LValue::Ident(Ident {
            location: None,
            definition: Definition::Local(40),
            mutable: true,
            name: "a".into(),
            typ: Type::Array(2, Box::new(u32_type())),
            id: 1,
        })),
        index: Box::new(local(41, "i")),
        element_type: u32_type(),
        location: location(0),
    };
    let body = Expression::Block(vec![
        Expression::Let { id: 41, mutable: false, name: "i".into(), expression: Box::new(lit(0, 0)) },
        Expression::Assign { lvalue: place, expression: Box::new(lit(9, 0)) },
        Expression::Constrain {
            condition: Box::new(Expression::Literal(Literal::Bool(true))),
            location: location(0),
            message: Some((Box::new(Expression::Literal(Literal::Str(b"bad\n\x01".to_vec()))), PrintableType::Boolean)),
        },
        Expression::Unary {
            operator: UnaryOp::Reference { mutable: true },
            rhs: Box::new(local(40, "a")),
            result_type: Type::Unit,
            location: location(0),
            skip: false,
        },
        Expression::Match {
            variable: 40,
            variable_name: "a".into(),
            cases: vec![MatchCase {
                constructor: Constructor::Tuple(vec!["u32".into()]),
                arguments: vec![(42, "z".into())],
                branch: Expression::Break,
            }],
            default_case: None,
            typ: Type::Unit,
        },
        Expression::Literal(Literal::FmtStr(
            vec![FmtStrFragment::String("x=".into()), FmtStrFragment::Interpolation("x".into(), location(0))],
            1,
            Box::new(Expression::Tuple(vec![])),
            Ok(vec![]),
        )),
    ]);
    let text = canonical_text(&program(vec![function(0, "main", &[(40, "a")], body)]));
    assert!(text.contains("(let l#1 mut=false \"i\" (int 0 Integer(Unsigned, SixtyFour)))"), "{text}");
    assert!(
        text.contains("(assign (lindex Integer(Unsigned, ThirtyTwo) (lident l#0 mut=true \"a\" Array(2, Integer(Unsigned, ThirtyTwo))) (ident l#1 mut=false \"i\" Integer(Unsigned, SixtyFour))) (int 9 Integer(Unsigned, SixtyFour)))"),
        "{text}"
    );
    assert!(text.contains("(constrain (bool true) (msg Boolean (str \"bad\\n\\x01\")))"), "{text}");
    assert!(text.contains("(unary Reference { mutable: true } skip=false Unit (ident l#0"), "{text}");
    assert!(text.contains("(match l#0 \"a\" Unit (case (tuple 1 \"u32\") (args l#2:\"z\") break) none)"), "{text}");
    assert!(text.contains("(fmtstr 1 [ (s \"x=\") (i \"x\") ] (tuple))"), "{text}");
}

#[test]
fn string_literals_escape_as_ascii() {
    assert_eq!(escape_bytes(&b"a\"b\\c\t\r\n'".to_vec()), "a\\\"b\\\\c\\t\\r\\n\\'");
    assert_eq!(escape_bytes(&vec![0x00, 0x7f, 0xff, b'~', b' ']), "\\x00\\x7f\\xff~ ");
}
