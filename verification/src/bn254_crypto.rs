//! bn254's curve, Pedersen-generator and Poseidon2 black boxes through
//! `bn254_blackbox_solver`. They run only for bn254 programs and take bn254 elements.

use acvm::{AcirField, FieldElement};
use vstd::prelude::*;

use crate::bigint::{be_bytes_value, nat_decimal, u64_decimal, BigInt};
use crate::error::{ErrorModel, InterpretError};
use crate::field::{field_modulus, FieldId, FieldValue};
use crate::intrinsics::{
    arity_error, black_box_error, black_box_failure, index_model, into_array, take, words, words_model,
    narrow8,
};
use crate::text::{append, cat, owned, same_text};
use crate::types::{type_debug, Type};
use crate::value::{lemma_value_models, model_debug, result_model, value_models, Value, ValueModel};

verus! {

/// Whether every byte string writes a bn254 element.
pub open spec fn canonical_elements(bs: Seq<Vec<u8>>) -> bool {
    forall|i: int| 0 <= i < bs.len() ==> be_bytes_value(#[trigger] bs[i]@) < field_modulus(FieldId::Bn254)
}

/// The elements big-endian byte strings write.
pub open spec fn elements_of(bs: Seq<Vec<u8>>) -> Seq<int> {
    Seq::new(bs.len(), |i: int| be_bytes_value(bs[i]@) as int)
}

/// The point that a multi-scalar multiplication of points `(x, y)` (flattened) by scalars
/// split into low and high 128-bit halves gives.
pub uninterp spec fn multi_scalar_mul_of(points: Seq<int>, scalars_lo: Seq<int>, scalars_hi: Seq<int>) -> Result<(int, int), Seq<char>>;

/// The sum of two points of the embedded curve.
pub uninterp spec fn embedded_curve_add_of(x1: int, y1: int, x2: int, y2: int) -> Result<(int, int), Seq<char>>;

/// The Poseidon2 permutation of a four-element state.
pub uninterp spec fn poseidon2_permutation_of(state: Seq<int>) -> Result<Seq<int>, Seq<char>>;

/// The Pedersen generators derived from a domain separator, from an index on.
pub uninterp spec fn derive_generators_of(domain_separator: Seq<u8>, count: u32, starting_index: u32) -> Seq<(int, int)>;

/// `bn254_blackbox_solver::multi_scalar_mul`: the point, in canonical form, or the error's
/// display, named [`multi_scalar_mul_of`].
#[verifier::external_body]
fn solver_multi_scalar_mul(points: &Vec<Vec<u8>>, lo: &Vec<Vec<u8>>, hi: &Vec<Vec<u8>>) -> (r: Result<(Vec<u8>, Vec<u8>), String>)
    requires
        canonical_elements(points@),
        canonical_elements(lo@),
        canonical_elements(hi@),
    ensures
        r matches Ok(p) ==> multi_scalar_mul_of(elements_of(points@), elements_of(lo@), elements_of(hi@)) is Ok
            && multi_scalar_mul_of(elements_of(points@), elements_of(lo@), elements_of(hi@))->Ok_0 == (
            be_bytes_value(p.0@) as int,
            be_bytes_value(p.1@) as int,
        ) && canonical_elements(seq![p.0, p.1]),
        r matches Err(t) ==> multi_scalar_mul_of(elements_of(points@), elements_of(lo@), elements_of(hi@)) is Err
            && multi_scalar_mul_of(elements_of(points@), elements_of(lo@), elements_of(hi@))->Err_0 == t@,
{
    let points: Vec<FieldElement> = points.iter().map(|b| FieldElement::from_be_bytes_reduce(b)).collect();
    let lo: Vec<FieldElement> = lo.iter().map(|b| FieldElement::from_be_bytes_reduce(b)).collect();
    let hi: Vec<FieldElement> = hi.iter().map(|b| FieldElement::from_be_bytes_reduce(b)).collect();
    bn254_blackbox_solver::multi_scalar_mul(&points, &lo, &hi).map(|(x, y)| (x.to_be_bytes(), y.to_be_bytes())).map_err(|e| e.to_string())
}

/// `bn254_blackbox_solver::embedded_curve_add`: when it gives a point, that point is
/// [`embedded_curve_add_of`], in canonical form; when it fails is not stated here.
#[verifier::external_body]
fn solver_embedded_curve_add(x1: &Vec<u8>, y1: &Vec<u8>, x2: &Vec<u8>, y2: &Vec<u8>) -> (r: Result<(Vec<u8>, Vec<u8>), String>)
    requires
        canonical_elements(seq![*x1, *y1, *x2, *y2]),
    ensures
        r matches Ok(p) ==> embedded_curve_add_of(be_bytes_value(x1@) as int, be_bytes_value(y1@) as int, be_bytes_value(x2@) as int,
            be_bytes_value(y2@) as int) is Ok && embedded_curve_add_of(be_bytes_value(x1@) as int, be_bytes_value(y1@) as int,
            be_bytes_value(x2@) as int, be_bytes_value(y2@) as int)->Ok_0 == (be_bytes_value(p.0@) as int, be_bytes_value(p.1@) as int)
            && canonical_elements(seq![p.0, p.1]),
        r matches Err(t) ==> embedded_curve_add_of(be_bytes_value(x1@) as int, be_bytes_value(y1@) as int, be_bytes_value(x2@) as int,
            be_bytes_value(y2@) as int) is Err && embedded_curve_add_of(be_bytes_value(x1@) as int, be_bytes_value(y1@) as int,
            be_bytes_value(x2@) as int, be_bytes_value(y2@) as int)->Err_0 == t@,
{
    let p1 = [FieldElement::from_be_bytes_reduce(x1), FieldElement::from_be_bytes_reduce(y1)];
    let p2 = [FieldElement::from_be_bytes_reduce(x2), FieldElement::from_be_bytes_reduce(y2)];
    bn254_blackbox_solver::embedded_curve_add(p1, p2).map(|(x, y)| (x.to_be_bytes(), y.to_be_bytes())).map_err(|e| e.to_string())
}

/// `bn254_blackbox_solver::poseidon2_permutation`: fails exactly when the state is not four
/// elements; the permuted state, in canonical form, or the error's display, named
/// [`poseidon2_permutation_of`].
#[verifier::external_body]
fn solver_poseidon2_permutation(inputs: &Vec<Vec<u8>>) -> (r: Result<Vec<Vec<u8>>, String>)
    requires
        canonical_elements(inputs@),
    ensures
        r is Ok <==> inputs@.len() == 4,
        r matches Ok(v) ==> poseidon2_permutation_of(elements_of(inputs@)) is Ok && poseidon2_permutation_of(elements_of(inputs@))->Ok_0
            == elements_of(v@) && canonical_elements(v@),
        r matches Err(t) ==> poseidon2_permutation_of(elements_of(inputs@)) is Err && poseidon2_permutation_of(
            elements_of(inputs@),
        )->Err_0 == t@,
{
    let inputs: Vec<FieldElement> = inputs.iter().map(|b| FieldElement::from_be_bytes_reduce(b)).collect();
    bn254_blackbox_solver::poseidon2_permutation(&inputs).map(|out| out.into_iter().map(|x| x.to_be_bytes()).collect()).map_err(|e| e.to_string())
}

/// `bn254_blackbox_solver::derive_generators`: exactly `count` generators from `starting_index` on,
/// [`derive_generators_of`], with canonical coordinates.
#[verifier::external_body]
fn solver_derive_generators(domain_separator: &Vec<u8>, count: u32, starting_index: u32) -> (r: Vec<(Vec<u8>, Vec<u8>)>)
    requires
        starting_index + count <= u32::MAX,
    ensures
        r@.len() == count,
        r@.len() == derive_generators_of(domain_separator@, count, starting_index).len(),
        forall|i: int| 0 <= i < r@.len() ==> (be_bytes_value(#[trigger] r@[i].0@) as int, be_bytes_value(r@[i].1@) as int)
            == derive_generators_of(domain_separator@, count, starting_index)[i]
            && canonical_elements(seq![r@[i].0, r@[i].1]),
{
    bn254_blackbox_solver::derive_generators(domain_separator, count, starting_index)
        .into_iter()
        .map(|g| (FieldElement::from_repr(g.x).to_be_bytes(), FieldElement::from_repr(g.y).to_be_bytes()))
        .collect()
}


/// The bn254 element a value is.
pub open spec fn element_model(m: ValueModel) -> Result<int, ErrorModel> {
    match m {
        ValueModel::Field(f, x) => if f == FieldId::Bn254 {
            Ok(x)
        } else {
            Err(ErrorModel::Type(model_debug(m) + " is not a bn254 element"@))
        },
        _ => Err(ErrorModel::Type("expected a Field, got "@ + model_debug(m))),
    }
}

/// Whether `r` is the element or the error `s` describes.
pub open spec fn element_agrees(r: Result<BigInt, InterpretError>, s: Result<int, ErrorModel>) -> bool {
    match s {
        Ok(x) => r matches Ok(v) && v@ == x && 0 <= x < field_modulus(FieldId::Bn254),
        Err(e) => r matches Err(x) && x.model() == e,
    }
}

/// The bn254 element a value is.
pub fn element(value: &Value) -> (r: Result<BigInt, InterpretError>)
    ensures
        element_agrees(r, element_model(value.model())),
{
    match value {
        Value::Field(f) => {
            if f.field() == FieldId::Bn254 {
                Ok(f.value())
            } else {
                Err(InterpretError::Type(cat(value.debug_text().as_str(), " is not a bn254 element")))
            }
        },
        other => Err(InterpretError::Type(cat("expected a Field, got ", other.debug_text().as_str()))),
    }
}

/// A bn254 element as a value.
pub fn field(x: &BigInt) -> (r: Value)
    requires
        0 <= x@ < field_modulus(FieldId::Bn254),
    ensures
        r.model() == ValueModel::Field(FieldId::Bn254, x@),
{
    Value::Field(FieldValue::try_from_bigint(FieldId::Bn254, x).unwrap())
}

/// Field `i` of a struct value (a tuple).
pub open spec fn tuple_field_model(m: ValueModel, i: nat) -> Result<ValueModel, ErrorModel> {
    match m {
        ValueModel::Tuple(xs) => if i < xs.len() {
            Ok(xs[i as int])
        } else {
            Err(ErrorModel::Type("tuple has no field "@ + nat_decimal(i) + ": "@ + model_debug(m)))
        },
        _ => Err(ErrorModel::Type("expected a tuple, got "@ + model_debug(m))),
    }
}

/// An `EmbeddedCurvePoint` or an `EmbeddedCurveScalar`: a struct of two bn254 elements.
pub open spec fn pair_model(m: ValueModel) -> Result<(int, int), ErrorModel> {
    match tuple_field_model(m, 0) {
        Err(e) => Err(e),
        Ok(a) => match element_model(a) {
            Err(e) => Err(e),
            Ok(x) => match tuple_field_model(m, 1) {
                Err(e) => Err(e),
                Ok(b) => match element_model(b) {
                    Err(e) => Err(e),
                    Ok(y) => Ok((x, y)),
                },
            },
        },
    }
}

/// The two elements of a point or scalar.
pub fn pair(value: &Value) -> (r: Result<(BigInt, BigInt), InterpretError>)
    ensures
        match pair_model(value.model()) {
            Ok(p) => r matches Ok(q) && q.0@ == p.0 && q.1@ == p.1 && 0 <= p.0 < field_modulus(FieldId::Bn254)
                && 0 <= p.1 < field_modulus(FieldId::Bn254),
            Err(e) => r matches Err(x) && x.model() == e,
        },
{
    proof {
        lemma_value_models(*value);
    }
    let xs = match value {
        Value::Tuple(xs) => xs,
        other => return Err(InterpretError::Type(cat("expected a tuple, got ", other.debug_text().as_str()))),
    };
    if xs.len() < 1 {
        let mut m = owned("tuple has no field ");
        append(&mut m, u64_decimal(0).as_str());
        append(&mut m, ": ");
        append(&mut m, value.debug_text().as_str());
        return Err(InterpretError::Type(m));
    }
    let x = match element(&xs[0]) {
        Ok(x) => x,
        Err(e) => return Err(e),
    };
    if xs.len() < 2 {
        let mut m = owned("tuple has no field ");
        append(&mut m, u64_decimal(1).as_str());
        append(&mut m, ": ");
        append(&mut m, value.debug_text().as_str());
        return Err(InterpretError::Type(m));
    }
    let y = match element(&xs[1]) {
        Ok(y) => y,
        Err(e) => return Err(e),
    };
    Ok((x, y))
}

/// The pairs of the elements `xs` from `i` on, or the first error.
pub open spec fn pairs_from(xs: Seq<ValueModel>, i: nat) -> Result<Seq<(int, int)>, ErrorModel>
    decreases xs.len() - i,
{
    if i >= xs.len() {
        Ok(Seq::empty())
    } else {
        match pair_model(xs[i as int]) {
            Ok(p) => match pairs_from(xs, i + 1) {
                Ok(rest) => Ok(seq![p] + rest),
                Err(e) => Err(e),
            },
            Err(e) => Err(e),
        }
    }
}

/// The pairs of an array of points or scalars.
pub open spec fn pairs_model(m: ValueModel) -> Result<Seq<(int, int)>, ErrorModel> {
    match m {
        ValueModel::Array(xs) => pairs_from(xs, 0),
        _ => Err(ErrorModel::Type("expected a slice/array, got "@ + model_debug(m))),
    }
}

/// The big-endian bytes of a bn254 element.
fn element_bytes(x: &BigInt) -> (r: Vec<u8>)
    requires
        0 <= x@ < field_modulus(FieldId::Bn254),
    ensures
        be_bytes_value(r@) == x@,
{
    x.magnitude_be_bytes()
}

/// The first and second elements of each pair of an array of points or scalars, as bytes.
#[verifier::loop_isolation(false)]
fn pairs_bytes(value: Value) -> (r: Result<(Vec<Vec<u8>>, Vec<Vec<u8>>), InterpretError>)
    ensures
        match pairs_model(value.model()) {
            Ok(ps) => r matches Ok(q) && q.0@.len() == ps.len() && q.1@.len() == ps.len()
                && canonical_elements(q.0@) && canonical_elements(q.1@)
                && forall|i: int| 0 <= i < ps.len() ==> (#[trigger] elements_of(q.0@)[i], elements_of(q.1@)[i]) == ps[i],
            Err(e) => r matches Err(x) && x.model() == e,
        },
{
    proof {
        lemma_value_models(value);
    }
    let ghost vm = value.model();
    let elements = match into_array(value) {
        Ok(v) => v,
        Err(e) => return Err(e),
    };
    let ghost xs = value_models(elements@);
    let mut firsts: Vec<Vec<u8>> = Vec::new();
    let mut seconds: Vec<Vec<u8>> = Vec::new();
    let ghost mut done: Seq<(int, int)> = Seq::empty();
    let mut i: usize = 0;
    while i < elements.len()
        invariant
            i <= elements@.len(),
            xs == value_models(elements@),
            vm == ValueModel::Array(xs),
            done.len() == i,
            firsts@.len() == i,
            seconds@.len() == i,
            canonical_elements(firsts@),
            canonical_elements(seconds@),
            forall|j: int| 0 <= j < i ==> (#[trigger] elements_of(firsts@)[j], elements_of(seconds@)[j]) == done[j],
            pairs_from(xs, 0) == (match pairs_from(xs, i as nat) {
                Ok(rest) => Ok(done + rest),
                Err(e) => Err::<Seq<(int, int)>, ErrorModel>(e),
            }),
        decreases elements@.len() - i,
    {
        let (x, y) = match pair(&elements[i]) {
            Ok(p) => p,
            Err(e) => return Err(e),
        };
        let ghost p = (x@, y@);
        proof {
            let r = pairs_from(xs, i as nat + 1);
            if r is Ok {
                assert(done + (seq![p] + r->Ok_0) =~= done.push(p) + r->Ok_0);
            }
        }
        let ghost old_f = firsts@;
        let ghost old_s = seconds@;
        let ghost old_done = done;
        let bx = element_bytes(&x);
        let by = element_bytes(&y);
        firsts.push(bx);
        seconds.push(by);
        proof {
            done = done.push(p);
            assert forall|j: int| 0 <= j <= i implies (#[trigger] elements_of(firsts@)[j], elements_of(seconds@)[j]) == done[j] by {
                if j < i {
                    assert(firsts@[j] == old_f[j]);
                    assert(seconds@[j] == old_s[j]);
                    assert((elements_of(old_f)[j], elements_of(old_s)[j]) == old_done[j]);
                } else {
                    assert(firsts@[j] == bx);
                    assert(seconds@[j] == by);
                }
            }
            assert forall|j: int| 0 <= j < firsts@.len() implies be_bytes_value(#[trigger] firsts@[j]@) < field_modulus(FieldId::Bn254) by {
                if j < i {
                    assert(firsts@[j] == old_f[j]);
                }
            }
            assert forall|j: int| 0 <= j < seconds@.len() implies be_bytes_value(#[trigger] seconds@[j]@) < field_modulus(FieldId::Bn254) by {
                if j < i {
                    assert(seconds@[j] == old_s[j]);
                }
            }
        }
        i = i + 1;
    }
    assert(done + Seq::<(int, int)>::empty() =~= done);
    Ok((firsts, seconds))
}

/// The coordinates of an array of points, interleaved, as bytes.
#[verifier::loop_isolation(false)]
fn points_bytes(value: Value) -> (r: Result<Vec<Vec<u8>>, InterpretError>)
    ensures
        match pairs_model(value.model()) {
            Ok(ps) => r matches Ok(q) && canonical_elements(q@) && elements_of(q@) == flatten_points(ps),
            Err(e) => r matches Err(x) && x.model() == e,
        },
{
    proof {
        lemma_value_models(value);
    }
    let ghost vm = value.model();
    let elements = match into_array(value) {
        Ok(v) => v,
        Err(e) => return Err(e),
    };
    let ghost xs = value_models(elements@);
    let mut flat: Vec<Vec<u8>> = Vec::new();
    let ghost mut done: Seq<(int, int)> = Seq::empty();
    let mut i: usize = 0;
    while i < elements.len()
        invariant
            i <= elements@.len(),
            xs == value_models(elements@),
            vm == ValueModel::Array(xs),
            done.len() == i,
            canonical_elements(flat@),
            elements_of(flat@) == flatten_points(done),
            pairs_from(xs, 0) == (match pairs_from(xs, i as nat) {
                Ok(rest) => Ok(done + rest),
                Err(e) => Err::<Seq<(int, int)>, ErrorModel>(e),
            }),
        decreases elements@.len() - i,
    {
        let (x, y) = match pair(&elements[i]) {
            Ok(p) => p,
            Err(e) => return Err(e),
        };
        let ghost p = (x@, y@);
        proof {
            let r = pairs_from(xs, i as nat + 1);
            if r is Ok {
                assert(done + (seq![p] + r->Ok_0) =~= done.push(p) + r->Ok_0);
            }
        }
        let ghost old_f = flat@;
        let bx = element_bytes(&x);
        let by = element_bytes(&y);
        flat.push(bx);
        flat.push(by);
        proof {
            assert(flat@ == old_f.push(bx).push(by));
            done = done.push(p);
            assert forall|j: int| 0 <= j < flat@.len() implies be_bytes_value(#[trigger] flat@[j]@) < field_modulus(FieldId::Bn254) by {
                if j < old_f.len() {
                    assert(flat@[j] == old_f[j]);
                }
            }
            assert forall|k: int| 0 <= k < flat@.len() implies #[trigger] elements_of(flat@)[k] == flatten_points(done)[k] by {
                if k < old_f.len() {
                    assert(flat@[k] == old_f[k]);
                    assert(elements_of(old_f)[k] == flatten_points(done.drop_last())[k]);
                    assert(done.drop_last()[k / 2] == done[k / 2]);
                }
            }
            assert(elements_of(flat@) =~= flatten_points(done));
        }
        i = i + 1;
    }
    assert(done + Seq::<(int, int)>::empty() =~= done);
    Ok(flat)
}

/// A point as a value: a struct of its two coordinates.
pub open spec fn point_model(p: (int, int)) -> ValueModel {
    ValueModel::Tuple(seq![ValueModel::Field(FieldId::Bn254, p.0), ValueModel::Field(FieldId::Bn254, p.1)])
}

/// A point from its coordinates' bytes.
fn point(x: &Vec<u8>, y: &Vec<u8>) -> (r: Value)
    requires
        canonical_elements(seq![*x, *y]),
    ensures
        r.model() == point_model((be_bytes_value(x@) as int, be_bytes_value(y@) as int)),
{
    assert(seq![*x, *y][0] == *x && seq![*x, *y][1] == *y);
    let fx = field(&BigInt::from_be_bytes(x));
    let fy = field(&BigInt::from_be_bytes(y));
    let r = Value::Tuple(vec![fx, fy]);
    proof {
        lemma_value_models(r);
        assert(value_models(r->Tuple_0@) =~= point_model((be_bytes_value(x@) as int, be_bytes_value(y@) as int))->Tuple_0);
    }
    r
}

/// Interleave points' coordinates: `x0, y0, x1, y1, ...`.
pub open spec fn flatten_points(ps: Seq<(int, int)>) -> Seq<int> {
    Seq::new(2 * ps.len(), |i: int| if i % 2 == 0 { ps[i / 2].0 } else { ps[i / 2].1 })
}

/// `multi_scalar_mul(points, scalars, predicate) -> [EmbeddedCurvePoint; 1]`: a false
/// predicate yields the zero point, as the solver does.
pub open spec fn multi_scalar_mul_model(args: Seq<ValueModel>) -> Result<ValueModel, ErrorModel> {
    if args.len() != 3 {
        Err(arity_error(args.len(), 3))
    } else {
        match args[2] {
            ValueModel::Bool(false) => Ok(ValueModel::Array(seq![point_model((0, 0))])),
            ValueModel::Bool(true) => match pairs_model(args[0]) {
                Err(e) => Err(e),
                Ok(points) => match pairs_model(args[1]) {
                    Err(e) => Err(e),
                    Ok(scalars) => match multi_scalar_mul_of(
                        flatten_points(points),
                        Seq::new(scalars.len(), |i: int| scalars[i].0),
                        Seq::new(scalars.len(), |i: int| scalars[i].1),
                    ) {
                        Ok(p) => Ok(ValueModel::Array(seq![point_model(p)])),
                        Err(text) => Err(black_box_error(text)),
                    },
                },
            },
            other => Err(ErrorModel::Type("expected bool, got "@ + model_debug(other))),
        }
    }
}

/// A zero bn254 element's bytes.
fn zero_bytes() -> (r: Vec<u8>)
    ensures
        be_bytes_value(r@) == 0,
{
    let r: Vec<u8> = Vec::new();
    r
}

/// Multi-scalar multiplication on the embedded curve.
pub fn multi_scalar_mul(args: Vec<Value>) -> (r: Result<Value, InterpretError>)
    ensures
        result_model(r) == multi_scalar_mul_model(value_models(args@)),
{
    let ghost am = value_models(args@);
    let mut args = match take::<3>(args) {
        Ok(v) => v,
        Err(e) => return Err(e),
    };
    let predicate = args.pop().unwrap();
    let scalars = args.pop().unwrap();
    let points = args.pop().unwrap();
    let (x, y) = match predicate.as_bool() {
        Err(e) => return Err(e),
        Ok(false) => {
            let zx = zero_bytes();
            let zy = zero_bytes();
            assert(canonical_elements(seq![zx, zy])) by {
                assert(seq![zx, zy][0] == zx && seq![zx, zy][1] == zy);
            }
            (zx, zy)
        },
        Ok(true) => {
            let flat = match points_bytes(points) {
                Ok(p) => p,
                Err(e) => return Err(e),
            };
            let (lo, hi) = match pairs_bytes(scalars) {
                Ok(p) => p,
                Err(e) => return Err(e),
            };
            proof {
                let ss = pairs_model(am[1])->Ok_0;
                assert forall|i: int| 0 <= i < ss.len() implies #[trigger] elements_of(hi@)[i] == ss[i].1 by {
                    assert(elements_of(lo@)[i] == ss[i].0);
                }
                assert(elements_of(lo@) =~= Seq::new(ss.len(), |i: int| ss[i].0));
                assert(elements_of(hi@) =~= Seq::new(ss.len(), |i: int| ss[i].1));
            }
            match solver_multi_scalar_mul(&flat, &lo, &hi) {
                Ok(p) => p,
                Err(e) => return Err(black_box_failure(e.as_str())),
            }
        },
    };
    let pt = point(&x, &y);
    let r = Value::Array(vec![pt]);
    proof {
        lemma_value_models(r);
        assert(value_models(r->Array_0@) =~= seq![pt.model()]);
    }
    Ok(r)
}


/// `embedded_curve_add(point1, point2, predicate) -> [EmbeddedCurvePoint; 1]`: a false
/// predicate yields the zero point.
pub open spec fn embedded_curve_add_model(args: Seq<ValueModel>) -> Result<ValueModel, ErrorModel> {
    if args.len() != 3 {
        Err(arity_error(args.len(), 3))
    } else {
        match args[2] {
            ValueModel::Bool(false) => Ok(ValueModel::Array(seq![point_model((0, 0))])),
            ValueModel::Bool(true) => match pair_model(args[0]) {
                Err(e) => Err(e),
                Ok(p1) => match pair_model(args[1]) {
                    Err(e) => Err(e),
                    Ok(p2) => match embedded_curve_add_of(p1.0, p1.1, p2.0, p2.1) {
                        Ok(p) => Ok(ValueModel::Array(seq![point_model(p)])),
                        Err(text) => Err(black_box_error(text)),
                    },
                },
            },
            other => Err(ErrorModel::Type("expected bool, got "@ + model_debug(other))),
        }
    }
}

/// Point addition on the embedded curve.
pub fn embedded_curve_add(args: Vec<Value>) -> (r: Result<Value, InterpretError>)
    ensures
        result_model(r) == embedded_curve_add_model(value_models(args@)),
{
    let mut args = match take::<3>(args) {
        Ok(v) => v,
        Err(e) => return Err(e),
    };
    let predicate = args.pop().unwrap();
    let point2 = args.pop().unwrap();
    let point1 = args.pop().unwrap();
    let (x, y) = match predicate.as_bool() {
        Err(e) => return Err(e),
        Ok(false) => {
            let zx = zero_bytes();
            let zy = zero_bytes();
            assert(canonical_elements(seq![zx, zy])) by {
                assert(seq![zx, zy][0] == zx && seq![zx, zy][1] == zy);
            }
            (zx, zy)
        },
        Ok(true) => {
            let (x1, y1) = match pair(&point1) {
                Ok(p) => p,
                Err(e) => return Err(e),
            };
            let (x2, y2) = match pair(&point2) {
                Ok(p) => p,
                Err(e) => return Err(e),
            };
            let (bx1, by1, bx2, by2) = (element_bytes(&x1), element_bytes(&y1), element_bytes(&x2), element_bytes(&y2));
            assert(canonical_elements(seq![bx1, by1, bx2, by2])) by {
                let s = seq![bx1, by1, bx2, by2];
                assert(s[0] == bx1 && s[1] == by1 && s[2] == bx2 && s[3] == by2);
            }
            match solver_embedded_curve_add(&bx1, &by1, &bx2, &by2) {
                Ok(p) => p,
                Err(e) => return Err(black_box_failure(e.as_str())),
            }
        },
    };
    let pt = point(&x, &y);
    let r = Value::Array(vec![pt]);
    proof {
        lemma_value_models(r);
        assert(value_models(r->Array_0@) =~= seq![pt.model()]);
    }
    Ok(r)
}

/// The bn254 elements of `xs` from `i` on, or the first error.
pub open spec fn elements_from(xs: Seq<ValueModel>, i: nat) -> Result<Seq<int>, ErrorModel>
    decreases xs.len() - i,
{
    if i >= xs.len() {
        Ok(Seq::empty())
    } else {
        match element_model(xs[i as int]) {
            Ok(x) => match elements_from(xs, i + 1) {
                Ok(rest) => Ok(seq![x] + rest),
                Err(e) => Err(e),
            },
            Err(e) => Err(e),
        }
    }
}

/// `poseidon2_permutation(state)`: the permuted four-element state; any other size is a
/// black-box failure.
pub open spec fn poseidon2_permutation_model(args: Seq<ValueModel>) -> Result<ValueModel, ErrorModel> {
    if args.len() != 1 {
        Err(arity_error(args.len(), 1))
    } else {
        match args[0] {
            ValueModel::Array(xs) => match elements_from(xs, 0) {
                Err(e) => Err(e),
                Ok(state) => if state.len() != 4 {
                    Err(black_box_error(poseidon2_permutation_of(state)->Err_0))
                } else {
                    let out = poseidon2_permutation_of(state)->Ok_0;
                    Ok(ValueModel::Array(Seq::new(out.len(), |i: int| ValueModel::Field(FieldId::Bn254, out[i]))))
                },
            },
            other => Err(ErrorModel::Type("expected a slice/array, got "@ + model_debug(other))),
        }
    }
}

/// The Poseidon2 permutation.
#[verifier::loop_isolation(false)]
pub fn poseidon2_permutation(args: Vec<Value>) -> (r: Result<Value, InterpretError>)
    ensures
        result_model(r) == poseidon2_permutation_model(value_models(args@)),
{
    let ghost am = value_models(args@);
    let mut args = match take::<1>(args) {
        Ok(v) => v,
        Err(e) => return Err(e),
    };
    let input = args.pop().unwrap();
    proof {
        lemma_value_models(input);
    }
    let elements = match into_array(input) {
        Ok(v) => v,
        Err(e) => return Err(e),
    };
    let ghost xs = value_models(elements@);
    let mut bytes: Vec<Vec<u8>> = Vec::new();
    let mut i: usize = 0;
    while i < elements.len()
        invariant
            i <= elements@.len(),
            xs == value_models(elements@),
            am[0] == ValueModel::Array(xs),
            canonical_elements(bytes@),
            elements_from(xs, 0) == (match elements_from(xs, i as nat) {
                Ok(rest) => Ok(elements_of(bytes@) + rest),
                Err(e) => Err::<Seq<int>, ErrorModel>(e),
            }),
        decreases elements@.len() - i,
    {
        let x = match element(&elements[i]) {
            Ok(x) => x,
            Err(e) => return Err(e),
        };
        let ghost old_b = bytes@;
        let bx = element_bytes(&x);
        bytes.push(bx);
        proof {
            assert(elements_of(bytes@) =~= elements_of(old_b).push(x@));
            let r = elements_from(xs, i as nat + 1);
            if r is Ok {
                assert(elements_of(old_b) + (seq![x@] + r->Ok_0) =~= elements_of(old_b).push(x@) + r->Ok_0);
            }
            assert forall|j: int| 0 <= j < bytes@.len() implies be_bytes_value(#[trigger] bytes@[j]@) < field_modulus(FieldId::Bn254) by {
                if j < old_b.len() {
                    assert(bytes@[j] == old_b[j]);
                }
            }
        }
        i = i + 1;
    }
    assert(elements_of(bytes@) + Seq::<int>::empty() =~= elements_of(bytes@));
    let state = match solver_poseidon2_permutation(&bytes) {
        Ok(v) => v,
        Err(e) => return Err(black_box_failure(e.as_str())),
    };
    let mut out: Vec<Value> = Vec::new();
    let mut k: usize = 0;
    while k < state.len()
        invariant
            k <= state@.len(),
            canonical_elements(state@),
            out@.len() == k,
            forall|j: int| 0 <= j < k ==> #[trigger] out@[j].model() == ValueModel::Field(FieldId::Bn254, elements_of(state@)[j]),
        decreases state@.len() - k,
    {
        assert(be_bytes_value(state@[k as int]@) < field_modulus(FieldId::Bn254));
        out.push(field(&BigInt::from_be_bytes(&state[k])));
        k = k + 1;
    }
    let r = Value::Array(out);
    proof {
        lemma_value_models(r);
        let o = poseidon2_permutation_of(elements_of(bytes@))->Ok_0;
        assert(value_models(out@) =~= Seq::new(o.len(), |i: int| ValueModel::Field(FieldId::Bn254, o[i])));
    }
    Ok(r)
}

/// `derive_pedersen_generators(domain_separator_bytes, starting_index) -> [EmbeddedCurvePoint; N]`,
/// with `N` read off the return type.
pub open spec fn derive_pedersen_generators_model(args: Seq<ValueModel>, return_type: Type) -> Result<ValueModel, ErrorModel> {
    if args.len() != 2 {
        Err(arity_error(args.len(), 2))
    } else {
        match return_type {
            Type::Array(count, _) => match index_model(args[1]) {
                Err(e) => Err(e),
                Ok(start) => if start > u32::MAX {
                    Err(ErrorModel::Type("generator index out of range"@))
                } else {
                    match words_model(args[0], 8) {
                        Err(e) => Err(e),
                        Ok(domain) => if start + count > u32::MAX {
                            Err(ErrorModel::Type("generator index out of range"@))
                        } else {
                            let gs = derive_generators_of(narrow8(domain), count, start as u32);
                            Ok(ValueModel::Array(Seq::new(gs.len(), |i: int| point_model(gs[i]))))
                        },
                    }
                },
            },
            other => Err(ErrorModel::Type("generators return type is not an array: "@ + type_debug(other))),
        }
    }
}

/// Derive Pedersen generators.
pub fn derive_pedersen_generators(args: Vec<Value>, return_type: &Type) -> (r: Result<Value, InterpretError>)
    ensures
        result_model(r) == derive_pedersen_generators_model(value_models(args@), *return_type),
{
    let ghost am = value_models(args@);
    let mut args = match take::<2>(args) {
        Ok(v) => v,
        Err(e) => return Err(e),
    };
    let starting_index = args.pop().unwrap();
    let domain_separator = args.pop().unwrap();
    let count: u32 = match return_type {
        Type::Array(length, _) => *length,
        other => return Err(InterpretError::Type(cat("generators return type is not an array: ", other.debug_text().as_str()))),
    };
    let ir = starting_index.as_index();
    proof {
        crate::intrinsics::lemma_as_index(starting_index, ir);
    }
    let start: u32 = match ir {
        Ok(i) => {
            if i > u32::MAX as usize {
                return Err(InterpretError::Type(owned("generator index out of range")));
            }
            i as u32
        },
        Err(e) => return Err(e),
    };
    proof {
        vstd::arithmetic::power2::lemma2_to64();
    }
    let domain = match words(domain_separator, 8) {
        Ok(v) => v,
        Err(e) => return Err(e),
    };
    if start as u64 + count as u64 > u32::MAX as u64 {
        return Err(InterpretError::Type(owned("generator index out of range")));
    }
    proof {
        crate::intrinsics::lemma_words_model_fit(am[0], 8);
    }
    let domain = crate::intrinsics::to_u8s(&domain);
    let generators = solver_derive_generators(&domain, count, start);
    let ghost gs = derive_generators_of(domain@, count, start);
    let mut out: Vec<Value> = Vec::new();
    let mut k: usize = 0;
    while k < generators.len()
        invariant
            k <= generators@.len(),
            generators@.len() == gs.len(),
            forall|i: int| 0 <= i < generators@.len() ==> (be_bytes_value(#[trigger] generators@[i].0@) as int,
                be_bytes_value(generators@[i].1@) as int) == gs[i] && canonical_elements(seq![generators@[i].0, generators@[i].1]),
            out@.len() == k,
            forall|j: int| 0 <= j < k ==> #[trigger] out@[j].model() == point_model(gs[j]),
        decreases generators@.len() - k,
    {
        let g = &generators[k];
        assert((be_bytes_value(generators@[k as int].0@) as int, be_bytes_value(generators@[k as int].1@) as int) == gs[k as int]);
        out.push(point(&g.0, &g.1));
        k = k + 1;
    }
    let r = Value::Array(out);
    proof {
        lemma_value_models(r);
        assert(value_models(out@) =~= Seq::new(gs.len(), |i: int| point_model(gs[i])));
    }
    Ok(r)
}

/// Whether a builtin is one of bn254's black boxes.
pub open spec fn is_bn254_black_box(name: Seq<char>) -> bool {
    name == "multi_scalar_mul"@ || name == "embedded_curve_add"@ || name == "poseidon2_permutation"@
        || name == "derive_pedersen_generators"@
}

/// What a call of one of bn254's black boxes gives.
pub open spec fn bn254_call_model(name: Seq<char>, args: Seq<ValueModel>, return_type: Type) -> Result<ValueModel, ErrorModel> {
    if name == "multi_scalar_mul"@ {
        multi_scalar_mul_model(args)
    } else if name == "embedded_curve_add"@ {
        embedded_curve_add_model(args)
    } else if name == "poseidon2_permutation"@ {
        poseidon2_permutation_model(args)
    } else if name == "derive_pedersen_generators"@ {
        derive_pedersen_generators_model(args, return_type)
    } else {
        Err(ErrorModel::Internal(name + " is not a bn254 black box"@))
    }
}

/// Dispatch a call of one of bn254's black boxes.
pub fn call(name: &str, args: Vec<Value>, return_type: &Type) -> (r: Result<Value, InterpretError>)
    ensures
        result_model(r) == bn254_call_model(name@, value_models(args@), *return_type),
{
    if same_text(name, "multi_scalar_mul") {
        multi_scalar_mul(args)
    } else if same_text(name, "embedded_curve_add") {
        embedded_curve_add(args)
    } else if same_text(name, "poseidon2_permutation") {
        poseidon2_permutation(args)
    } else if same_text(name, "derive_pedersen_generators") {
        derive_pedersen_generators(args, return_type)
    } else {
        Err(InterpretError::Internal(cat(name, " is not a bn254 black box")))
    }
}

} // verus!
