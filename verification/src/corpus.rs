//! Source hashes, provenance checks, path normalization and per-step run records.

use sha2::{Digest, Sha256};
use vstd::prelude::*;
use vstd::string::{StrSliceExecFns, StringExecFns};
use vstd::utf8::encode_utf8;

use crate::bigint::{nat_decimal, u64_decimal};
use crate::diff::{comparable_error_of, raw_comparable, ComparableError, FailureKind, KindModel, StepModel, StepOutcome};
use crate::error::{error_message, InterpretError};
use crate::field::{field_name, hex_char, FieldId};
use crate::text::{
    append, cat, chars_from, chars_of, find_text, first_occurrence, from_chars, join_spaced, lemma_first_occurrence, lines_from,
    char_position, find_char, lemma_char_position_bounds, lemma_text_less_irreflexive, lemma_text_less_total,
    lemma_text_less_transitive, lines_of, occurs_at, owned, push_range, text_less, text_precedes, trim_chars, trimmed,
    words,
};
use crate::diff::{diff_render, equiv_error, values_equivalent, DiffModel, DiffValue, RunRecord};
use crate::value::{value_models, Value, ValueModel};
use crate::diff::normalize_text;

verus! {

broadcast use vstd::string::group_string_axioms;

/// The tag of a field in dump names and ledgers.
pub fn field_tag(field: FieldId) -> (r: String)
    ensures
        r@ == field_name(field),
{
    field.name()
}

/// The features a build for `field` enables: `goldilocks` for Goldilocks, none for bn254.
pub fn enabled_features(field: FieldId) -> (r: Vec<String>)
    ensures
        field == FieldId::Bn254 ==> r@.len() == 0,
        field == FieldId::Goldilocks ==> r@.len() == 1 && r@[0]@ == "goldilocks"@,
{
    let mut out: Vec<String> = Vec::new();
    if field == FieldId::Goldilocks {
        out.push(owned("goldilocks"));
    }
    out
}

/// The two lowercase hexadecimal digits of a byte.
pub open spec fn byte_hex(b: u8) -> Seq<char> {
    seq![hex_char(b as nat / 16), hex_char(b as nat % 16)]
}

/// The lowercase hexadecimal rendering of some bytes, two digits each.
pub open spec fn hex_text(bytes: Seq<u8>) -> Seq<char>
    decreases bytes.len(),
{
    if bytes.len() == 0 {
        Seq::empty()
    } else {
        hex_text(bytes.drop_last()) + byte_hex(bytes.last())
    }
}

/// Whether a character is a lowercase hexadecimal digit.
pub open spec fn is_hex_digit(c: char) -> bool {
    exists|d: nat| d < 16 && c == hex_char(d)
}

/// The hexadecimal rendering of some bytes has two lowercase digits per byte.
pub proof fn lemma_hex_text(bytes: Seq<u8>)
    ensures
        hex_text(bytes).len() == 2 * bytes.len(),
        forall|i: int| 0 <= i < hex_text(bytes).len() ==> is_hex_digit(#[trigger] hex_text(bytes)[i]),
    decreases bytes.len(),
{
    if bytes.len() > 0 {
        lemma_hex_text(bytes.drop_last());
        let b = bytes.last();
        let h = hex_text(bytes);
        let front = hex_text(bytes.drop_last());
        assert forall|i: int| 0 <= i < h.len() implies is_hex_digit(#[trigger] h[i]) by {
            if i < front.len() {
                assert(h[i] == front[i]);
                assert(is_hex_digit(front[i]));
            } else if i == front.len() {
                assert(h[i] == hex_char(b as nat / 16));
                assert(b as nat / 16 < 16);
            } else {
                assert(h[i] == hex_char(b as nat % 16));
            }
        }
    }
}

pub(crate) fn hex_digit(d: u8) -> (r: char)
    requires
        d < 16,
    ensures
        r == hex_char(d as nat),
{
    if d < 10 {
        ((48 + d) as u8) as char
    } else {
        ((87 + d) as u8) as char
    }
}

/// The lowercase hexadecimal rendering of `bytes`, two digits each.
pub fn hex(bytes: &Vec<u8>) -> (r: String)
    ensures
        r@ == hex_text(bytes@),
{
    let mut s = String::new();
    let mut i: usize = 0;
    while i < bytes.len()
        invariant
            i <= bytes@.len(),
            s@ == hex_text(bytes@.take(i as int)),
        decreases bytes@.len() - i,
    {
        let b = bytes[i];
        crate::text::push_char(&mut s, hex_digit(b / 16));
        crate::text::push_char(&mut s, hex_digit(b % 16));
        assert(bytes@.take(i as int + 1).drop_last() =~= bytes@.take(i as int));
        i = i + 1;
    }
    assert(bytes@.take(bytes@.len() as int) =~= bytes@);
    s
}

/// The SHA-256 digest of some bytes.
pub uninterp spec fn sha256_of(data: Seq<u8>) -> Seq<u8>;

/// `sha2::Sha256::digest`: the 32-byte digest of `data`, named [`sha256_of`].
#[verifier::external_body]
fn sha256_digest(data: &Vec<u8>) -> (r: Vec<u8>)
    ensures
        r@ == sha256_of(data@),
        r@.len() == 32,
{
    Sha256::digest(data.as_slice()).to_vec()
}

/// The eight little-endian bytes of a `u64`.
pub open spec fn le_u64(n: u64) -> Seq<u8> {
    Seq::new(8, |i: int| ((n as int / vstd::arithmetic::power::pow(256, i as nat)) % 256) as u8)
}

fn le_bytes(n: u64) -> (r: Vec<u8>)
    ensures
        r@ == le_u64(n),
{
    let mut out: Vec<u8> = Vec::new();
    let mut x: u64 = n;
    let mut i: usize = 0;
    proof {
        vstd::arithmetic::power::lemma_pow0(256);
        assert(n as int / 1 == n as int);
    }
    while i < 8
        invariant
            i <= 8,
            out@.len() == i,
            x as int == n as int / vstd::arithmetic::power::pow(256, i as nat),
            forall|k: int| 0 <= k < i ==> #[trigger] out@[k] == le_u64(n)[k],
        decreases 8 - i,
    {
        proof {
            vstd::arithmetic::power::lemma_pow_positive(256, i as nat);
            vstd::arithmetic::power::lemma_pow_adds(256, i as nat, 1);
            vstd::arithmetic::power::lemma_pow1(256);
            vstd::arithmetic::div_mod::lemma_div_denominator(n as int, vstd::arithmetic::power::pow(256, i as nat), 256);
        }
        out.push((x % 256) as u8);
        x = x / 256;
        i = i + 1;
    }
    assert(out@ =~= le_u64(n));
    out
}

/// The bytes a file contributes to a source hash: its path, a zero byte, its length as eight
/// little-endian bytes, and its contents.
pub open spec fn file_preimage(path: Seq<char>, contents: Seq<u8>) -> Seq<u8> {
    encode_utf8(path) + seq![0u8] + le_u64(contents.len() as u64) + contents
}

/// The bytes a list of files contributes to a source hash, in the given order.
pub open spec fn files_preimage(files: Seq<(String, Vec<u8>)>) -> Seq<u8>
    decreases files.len(),
{
    if files.len() == 0 {
        Seq::empty()
    } else {
        files_preimage(files.drop_last()) + file_preimage(files.last().0@, files.last().1@)
    }
}

/// The source hash of a program: SHA-256 over each file's path, a zero byte, its length and
/// its contents, files in the order given (the tracked files in path order), in hexadecimal.
pub fn source_hash(files: &Vec<(String, Vec<u8>)>) -> (r: String)
    ensures
        r@ == hex_text(sha256_of(files_preimage(files@))),
{
    let mut data: Vec<u8> = Vec::new();
    let mut i: usize = 0;
    while i < files.len()
        invariant
            i <= files@.len(),
            data@ == files_preimage(files@.take(i as int)),
        decreases files@.len() - i,
    {
        let path = files[i].0.as_str().as_bytes();
        let contents = &files[i].1;
        let mut k: usize = 0;
        let ghost start = data@;
        while k < path.len()
            invariant
                k <= path@.len(),
                data@ == start + path@.take(k as int),
            decreases path@.len() - k,
        {
            data.push(path[k]);
            assert(path@.take(k as int + 1) =~= path@.take(k as int).push(path@[k as int]));
            k = k + 1;
        }
        assert(path@.take(path@.len() as int) =~= path@);
        data.push(0u8);
        let len = le_bytes(contents.len() as u64);
        let mut k: usize = 0;
        let ghost mid = data@;
        while k < 8
            invariant
                k <= 8,
                len@.len() == 8,
                data@ == mid + len@.take(k as int),
            decreases 8 - k,
        {
            data.push(len[k]);
            assert(len@.take(k as int + 1) =~= len@.take(k as int).push(len@[k as int]));
            k = k + 1;
        }
        assert(len@.take(8) =~= len@);
        let mut k: usize = 0;
        let ghost mid2 = data@;
        while k < contents.len()
            invariant
                k <= contents@.len(),
                data@ == mid2 + contents@.take(k as int),
            decreases contents@.len() - k,
        {
            data.push(contents[k]);
            assert(contents@.take(k as int + 1) =~= contents@.take(k as int).push(contents@[k as int]));
            k = k + 1;
        }
        assert(contents@.take(contents@.len() as int) =~= contents@);
        proof {
            assert(files@.take(i as int + 1).drop_last() =~= files@.take(i as int));
            assert(data@ =~= files_preimage(files@.take(i as int)) + file_preimage(files@[i as int].0@, files@[i as int].1@));
        }
        i = i + 1;
    }
    assert(files@.take(files@.len() as int) =~= files@);
    hex(&sha256_digest(&data))
}

/// Whether a package manifest declares a workspace: `[workspace]` occurs in it.
pub fn is_workspace_manifest(manifest: &str) -> (r: bool)
    ensures
        r == (first_occurrence(manifest@, "[workspace]"@, 0) is Some),
{
    let chars = chars_of(manifest);
    let pat = chars_of("[workspace]");
    find_text(&chars, &pat, 0).is_some()
}

/// The nonempty fields of a zero-separated listing from position `st` on, in listing order.
pub open spec fn nul_fields_from(s: Seq<char>, st: nat) -> Seq<Seq<char>>
    decreases s.len() - st,
{
    if st >= s.len() {
        Seq::empty()
    } else {
        let i = char_position(s, '\0', st);
        proof {
            lemma_char_position_bounds(s, '\0', st);
        }
        let rest = if i >= s.len() { Seq::<Seq<char>>::empty() } else { nul_fields_from(s, i + 1) };
        if i == st {
            rest
        } else {
            seq![s.subrange(st as int, i as int)] + rest
        }
    }
}

/// Whether a list of texts is in the order of `str`.
pub open spec fn texts_sorted(ts: Seq<Seq<char>>) -> bool {
    forall|i: int, j: int| 0 <= i < j < ts.len() ==> !text_less(#[trigger] ts[j], #[trigger] ts[i])
}

/// The paths a zero-separated listing of tracked files names, in path order: its nonempty
/// fields, sorted.
pub fn tracked_paths(listing: &str) -> (r: Vec<String>)
    ensures
        texts_sorted(texts_of(r@)),
        texts_of(r@).to_multiset() == nul_fields_from(listing@, 0).to_multiset(),
{
    let chars = chars_of(listing);
    let mut fields: Vec<String> = Vec::new();
    let mut st: usize = 0;
    while st < chars.len()
        invariant
            st <= chars@.len(),
            chars@ == listing@,
            texts_of(fields@) + nul_fields_from(chars@, st as nat) == nul_fields_from(chars@, 0),
        decreases chars@.len() - st,
    {
        let i = find_char(&chars, '\0', st);
        proof {
            lemma_char_position_bounds(chars@, '\0', st as nat);
        }
        let ghost before = texts_of(fields@);
        if i > st {
            let mut field = String::new();
            push_range(&mut field, &chars, st, i);
            fields.push(field);
            assert(texts_of(fields@) =~= before.push(chars@.subrange(st as int, i as int)));
        }
        let ghost rest = if i >= chars@.len() {
            Seq::<Seq<char>>::empty()
        } else {
            nul_fields_from(chars@, (i + 1) as nat)
        };
        assert(texts_of(fields@) + rest =~= before + nul_fields_from(chars@, st as nat));
        st = if i < chars.len() { i + 1 } else { chars.len() };
    }
    sorted_texts(fields)
}

/// The texts of `v` in the order of `str`.
pub fn sorted_texts(v: Vec<String>) -> (r: Vec<String>)
    ensures
        texts_sorted(texts_of(r@)),
        texts_of(r@).to_multiset() == texts_of(v@).to_multiset(),
{
    broadcast use vstd::seq_lib::group_to_multiset_ensures;

    let mut out: Vec<String> = Vec::new();
    let mut i: usize = 0;
    while i < v.len()
        invariant
            i <= v@.len(),
            texts_sorted(texts_of(out@)),
            texts_of(out@).to_multiset() == texts_of(v@.take(i as int)).to_multiset(),
        decreases v@.len() - i,
    {
        let x = v[i].clone();
        let mut k: usize = 0;
        while k < out.len() && !text_precedes(x.as_str(), out[k].as_str())
            invariant
                k <= out@.len(),
                i < v@.len(),
                x@ == v@[i as int]@,
                forall|j: int| 0 <= j < k ==> !text_less(x@, #[trigger] out@[j]@),
            decreases out@.len() - k,
        {
            k = k + 1;
        }
        let ghost old_texts = texts_of(out@);
        proof {
            assert forall|j: int| k <= j < old_texts.len() implies text_less(x@, #[trigger] old_texts[j]) by {
                assert(text_less(x@, old_texts[k as int]));
                if j > k {
                    assert(!text_less(old_texts[j], old_texts[k as int]));
                    if old_texts[j] != old_texts[k as int] {
                        lemma_text_less_total(old_texts[j], old_texts[k as int]);
                        lemma_text_less_transitive(x@, old_texts[k as int], old_texts[j]);
                    }
                }
            }
        }
        out.insert(k, x);
        proof {
            let t = texts_of(out@);
            assert(t =~= old_texts.insert(k as int, x@));
            assert forall|a: int, b: int| 0 <= a < b < t.len() implies !text_less(#[trigger] t[b], #[trigger] t[a]) by {
                if a == k {
                    assert(text_less(x@, t[b]));
                    if text_less(t[b], x@) {
                        lemma_text_less_transitive(x@, t[b], x@);
                        lemma_text_less_irreflexive(x@);
                    }
                } else if b == k {
                    assert(!text_less(x@, t[a]));
                }
            }
            assert(v@.take(i + 1) =~= v@.take(i as int).push(v@[i as int]));
            assert(texts_of(v@.take(i + 1)) =~= texts_of(v@.take(i as int)).push(x@));
            vstd::seq_lib::to_multiset_insert(old_texts, k as int, x@);
            vstd::seq_lib::to_multiset_build(texts_of(v@.take(i as int)), x@);
        }
        i = i + 1;
    }
    assert(v@.take(v@.len() as int) =~= v@);
    out
}

/// The bytes a list of programs contributes to the corpus hash: each name, a space, its source
/// hash and a newline, in the order given (name order).
pub open spec fn corpus_preimage(programs: Seq<(String, String)>) -> Seq<u8>
    decreases programs.len(),
{
    if programs.len() == 0 {
        Seq::empty()
    } else {
        corpus_preimage(programs.drop_last()) + encode_utf8(programs.last().0@) + seq![0x20u8]
            + encode_utf8(programs.last().1@) + seq![0x0au8]
    }
}

fn push_all(data: &mut Vec<u8>, bytes: &[u8])
    ensures
        final(data)@ == old(data)@ + bytes@,
{
    let mut k: usize = 0;
    let ghost start = data@;
    while k < bytes.len()
        invariant
            k <= bytes@.len(),
            data@ == start + bytes@.take(k as int),
        decreases bytes@.len() - k,
    {
        data.push(bytes[k]);
        assert(bytes@.take(k as int + 1) =~= bytes@.take(k as int).push(bytes@[k as int]));
        k = k + 1;
    }
    assert(bytes@.take(bytes@.len() as int) =~= bytes@);
}

/// The corpus hash: SHA-256 over every program's name and source hash, in hexadecimal.
pub fn corpus_hash(programs: &Vec<(String, String)>) -> (r: String)
    ensures
        r@ == hex_text(sha256_of(corpus_preimage(programs@))),
{
    let mut data: Vec<u8> = Vec::new();
    let mut i: usize = 0;
    while i < programs.len()
        invariant
            i <= programs@.len(),
            data@ == corpus_preimage(programs@.take(i as int)),
        decreases programs@.len() - i,
    {
        push_all(&mut data, programs[i].0.as_str().as_bytes());
        data.push(0x20u8);
        push_all(&mut data, programs[i].1.as_str().as_bytes());
        data.push(0x0au8);
        proof {
            assert(programs@.take(i as int + 1).drop_last() =~= programs@.take(i as int));
            assert(data@ =~= corpus_preimage(programs@.take(i as int)) + encode_utf8(programs@[i as int].0@)
                + seq![0x20u8] + encode_utf8(programs@[i as int].1@) + seq![0x0au8]);
        }
        i = i + 1;
    }
    assert(programs@.take(programs@.len() as int) =~= programs@);
    hex(&sha256_digest(&data))
}


/// The first revision of `revs` at or after `i` that differs from `first`.
pub open spec fn first_odd(revs: Seq<Seq<char>>, first: Seq<char>, i: nat) -> Option<Seq<char>>
    decreases revs.len() - i,
{
    if i >= revs.len() {
        None
    } else if revs[i as int] != first {
        Some(revs[i as int])
    } else {
        first_odd(revs, first, i + 1)
    }
}

/// Why the pinned revisions disagree with each other or with the compiler's stamp, if they do.
pub open spec fn pin_problem(revs: Seq<Seq<char>>, stamp: Seq<char>) -> Option<Seq<char>> {
    if revs.len() == 0 {
        Some("Cargo.toml pins no worldfnd/noir crate"@)
    } else {
        match first_odd(revs, revs[0], 0) {
            Some(odd) => Some("Cargo.toml pins noir at both "@ + revs[0] + " and "@ + odd),
            None => if revs[0] != stamp {
                Some("Cargo.toml pins noir at "@ + revs[0] + " but the compiler in this build was built from "@
                    + stamp + ": a path override or a stale build"@)
            } else {
                None
            },
        }
    }
}

/// The texts of some strings.
pub open spec fn texts_of(v: Seq<String>) -> Seq<Seq<char>> {
    Seq::new(v.len(), |i: int| v[i]@)
}

/// Check that every pinned revision is one and the same, and the compiler's stamp.
pub fn pin_disagreement(revs: &Vec<String>, stamp: &str) -> (r: Result<(), String>)
    ensures
        r is Ok <==> pin_problem(texts_of(revs@), stamp@) is None,
        r is Err ==> pin_problem(texts_of(revs@), stamp@) == Some(r->Err_0@),
{
    let ghost rs = texts_of(revs@);
    if revs.len() == 0 {
        return Err(owned("Cargo.toml pins no worldfnd/noir crate"));
    }
    let first = &revs[0];
    let mut i: usize = 0;
    while i < revs.len()
        invariant
            i <= revs@.len(),
            rs == texts_of(revs@),
            revs@.len() > 0,
            *first == revs@[0],
            first_odd(rs, rs[0], 0) == first_odd(rs, rs[0], i as nat),
        decreases revs@.len() - i,
    {
        if revs[i] != *first {
            assert(rs[i as int] == revs@[i as int]@ && rs[0] == first@);
            assert(first_odd(rs, rs[0], i as nat) == Some(rs[i as int]));
            let mut m = owned("Cargo.toml pins noir at both ");
            append(&mut m, first.as_str());
            append(&mut m, " and ");
            append(&mut m, revs[i].as_str());
            assert(m@ =~= "Cargo.toml pins noir at both "@ + rs[0] + " and "@ + rs[i as int]);
            return Err(m);
        }
        assert(rs[i as int] == revs@[i as int]@ && rs[0] == first@);
        i = i + 1;
    }
    assert(rs[0] == first@);
    if !crate::text::same_text(first.as_str(), stamp) {
        let mut m = owned("Cargo.toml pins noir at ");
        append(&mut m, first.as_str());
        append(&mut m, " but the compiler in this build was built from ");
        append(&mut m, stamp);
        append(&mut m, ": a path override or a stale build");
        return Err(m);
    }
    Ok(())
}

/// The texts joined with `, `.
pub open spec fn comma_list(items: Seq<Seq<char>>) -> Seq<char>
    decreases items.len(),
{
    if items.len() == 0 {
        Seq::empty()
    } else if items.len() == 1 {
        items[0]
    } else {
        comma_list(items.drop_last()) + ", "@ + items.last()
    }
}

/// Why a checkout cannot supply the corpus, if it cannot: it is no git checkout, it is at
/// another revision than the compiler's stamp, or it has local changes in the corpus.
pub open spec fn checkout_problem(checkout: Seq<char>, head: Option<Seq<char>>, stamp: Seq<char>, dirty: Seq<Seq<char>>) -> Option<Seq<char>> {
    match head {
        None => Some(checkout + " is not a git checkout; the corpus must come from noir at "@ + stamp),
        Some(h) => if h != stamp {
            Some(checkout + " is at "@ + h + " but the pinned compiler was built from "@ + stamp
                + "; check that revision out there, or point NOIR_CHECKOUT at a worktree of it"@)
        } else if dirty.len() > 0 {
            Some(checkout + " has local changes in the corpus or its path dependencies: "@ + comma_list(dirty))
        } else {
            None
        },
    }
}

/// The strings joined with `, `.
pub fn join_comma(items: &Vec<String>) -> (r: String)
    ensures
        r@ == comma_list(texts_of(items@)),
{
    let mut s = String::new();
    let mut i: usize = 0;
    while i < items.len()
        invariant
            i <= items@.len(),
            s@ == comma_list(texts_of(items@.take(i as int))),
        decreases items@.len() - i,
    {
        let ghost before = texts_of(items@.take(i as int));
        assert(texts_of(items@.take(i as int + 1)) =~= before.push(items@[i as int]@));
        assert(before.push(items@[i as int]@).drop_last() =~= before);
        if i > 0 {
            append(&mut s, ", ");
        }
        append(&mut s, items[i].as_str());
        i = i + 1;
    }
    assert(items@.take(items@.len() as int) =~= items@);
    s
}

/// Refuse a checkout unless it is at the stamped revision with a clean corpus. `checkout` is the
/// checkout's path as displayed, `head` its revision (none when it is no git checkout), `dirty`
/// the status lines of its corpus.
pub fn checkout_mismatch(checkout: &str, head: Option<&str>, stamp: &str, dirty: &Vec<String>) -> (r: Result<(), String>)
    ensures
        r is Ok <==> checkout_problem(checkout@, match head { Some(h) => Some(h@), None => None }, stamp@, texts_of(dirty@)) is None,
        r is Err ==> checkout_problem(checkout@, match head { Some(h) => Some(h@), None => None }, stamp@, texts_of(dirty@))
            == Some(r->Err_0@),
{
    match head {
        None => {
            let mut m = owned(checkout);
            append(&mut m, " is not a git checkout; the corpus must come from noir at ");
            append(&mut m, stamp);
            Err(m)
        },
        Some(h) => {
            if !crate::text::same_text(h, stamp) {
                let mut m = owned(checkout);
                append(&mut m, " is at ");
                append(&mut m, h);
                append(&mut m, " but the pinned compiler was built from ");
                append(&mut m, stamp);
                append(&mut m, "; check that revision out there, or point NOIR_CHECKOUT at a worktree of it");
                Err(m)
            } else if dirty.len() > 0 {
                let mut m = owned(checkout);
                append(&mut m, " has local changes in the corpus or its path dependencies: ");
                append(&mut m, join_comma(dirty).as_str());
                Err(m)
            } else {
                Ok(())
            }
        },
    }
}

/// A checkout supplies the corpus exactly when it is at the compiler's stamp with no local
/// changes.
pub proof fn law_checkout_accepted_iff_pinned_and_clean(checkout: Seq<char>, head: Option<Seq<char>>, stamp: Seq<char>, dirty: Seq<Seq<char>>)
    ensures
        checkout_problem(checkout, head, stamp, dirty) is None <==> (head == Some(stamp) && dirty.len() == 0),
{
}

/// The pins pass exactly when there is at least one, all are the same, and it is the stamp.
pub proof fn law_pins_pass_iff_one_revision_that_is_the_stamp(revs: Seq<Seq<char>>, stamp: Seq<char>)
    ensures
        pin_problem(revs, stamp) is None <==> (revs.len() > 0 && forall|i: int| 0 <= i < revs.len() ==> #[trigger] revs[i] == stamp),
{
    if revs.len() > 0 {
        lemma_first_odd(revs, revs[0], 0);
    }
}

proof fn lemma_first_odd(revs: Seq<Seq<char>>, first: Seq<char>, i: nat)
    ensures
        first_odd(revs, first, i) is None <==> forall|k: int| i <= k < revs.len() ==> #[trigger] revs[k] == first,
    decreases revs.len() - i,
{
    if i < revs.len() {
        lemma_first_odd(revs, first, i + 1);
    }
}

/// The text of a panic's payload: the message when the payload is a string, else a stand-in.
pub fn panic_message(payload_text: Option<&str>) -> (r: String)
    ensures
        r@ == (match payload_text {
            Some(t) => t@,
            None => "panic (payload is not a string)"@,
        }),
{
    match payload_text {
        Some(t) => owned(t),
        None => owned("panic (payload is not a string)"),
    }
}

/// The first line that is not blank once trimmed, trimmed.
pub open spec fn first_nonblank(lines: Seq<Seq<char>>, i: nat) -> Option<Seq<char>>
    decreases lines.len() - i,
{
    if i >= lines.len() {
        None
    } else if trimmed(lines[i as int]).len() > 0 {
        Some(trimmed(lines[i as int]))
    } else {
        first_nonblank(lines, i + 1)
    }
}

/// The comparable payload of a panic: its first non-blank line, trimmed and whitespace-normalized.
pub open spec fn panic_payload(message: Seq<char>) -> Seq<char> {
    join_spaced(words(match first_nonblank(lines_of(message), 0) {
        Some(l) => l,
        None => "panic"@,
    }))
}

/// The record of a step that panicked with `message`: a `Panic` failure whose payload is the
/// message's first non-blank line, with the whole message as the detail.
pub fn panic_step(message: &str) -> (r: StepOutcome)
    ensures
        r@ == StepModel::Failed((KindModel::Panic, panic_payload(message@)), message@),
{
    let chars = chars_of(message);
    let lines = lines_from(&chars, 0);
    assert(chars@.subrange(0, chars@.len() as int) =~= chars@);
    let ghost ls = lines_of(chars@);
    let mut i: usize = 0;
    while i < lines.len()
        invariant
            i <= lines@.len(),
            lines@.len() == ls.len(),
            ls == lines_of(message@),
            forall|k: int| 0 <= k < lines@.len() ==> #[trigger] lines@[k]@ == ls[k],
            first_nonblank(ls, 0) == first_nonblank(ls, i as nat),
        decreases lines@.len() - i,
    {
        let t = trim_chars(&lines[i]);
        assert(t@ == trimmed(ls[i as int]));
        if t.len() > 0 {
            assert(first_nonblank(ls, i as nat) == Some(trimmed(ls[i as int])));
            let first = from_chars(&t);
            let payload = normalize_text(first.as_str());
            return StepOutcome::failed(ComparableError::new(FailureKind::Panic, payload.as_str()), message);
        }
        i = i + 1;
    }
    let payload = normalize_text("panic");
    StepOutcome::failed(ComparableError::new(FailureKind::Panic, payload.as_str()), message)
}

/// The comparable form of a compile failure: a gap when a dependency failed to compile, else a
/// compile error, with the compiler's summary normalized.
pub fn compile_error_of(dependency_compile_gap: bool, summary: &str) -> (r: ComparableError)
    ensures
        r@ == (if dependency_compile_gap { KindModel::DependencyCompileGap } else { KindModel::CompileError },
            join_spaced(words(summary@))),
{
    let kind = if dependency_compile_gap {
        FailureKind::DependencyCompileGap
    } else {
        FailureKind::CompileError
    };
    ComparableError::new(kind, normalize_text(summary).as_str())
}

/// An interpreter failure as a step failure: its comparable form, and its message as the detail.
pub fn interpret_failure(error: &InterpretError) -> (r: (ComparableError, String))
    ensures
        r.0@ == (raw_comparable(*error).0, join_spaced(words(raw_comparable(*error).1))),
        r.1@ == error_message(*error),
{
    (comparable_error_of(error), error.to_message())
}


/// Whether a character is alphanumeric, as `char::is_alphanumeric` says.
pub uninterp spec fn unicode_alphanumeric(c: char) -> bool;

/// `char::is_alphanumeric`, named [`unicode_alphanumeric`].
#[verifier::external_body]
fn char_is_alphanumeric(c: char) -> (r: bool)
    ensures
        r == unicode_alphanumeric(c),
{
    c.is_alphanumeric()
}

/// Whether a character can continue a name: alphanumeric, `_`, `-` or `.`.
pub open spec fn name_char(c: char) -> bool {
    unicode_alphanumeric(c) || c == '_' || c == '-' || c == '.'
}

/// `text` with every occurrence of `root` that a separator, a delimiter or the end of the text
/// follows replaced by `stand_in`; an occurrence that is the prefix of a longer name stays.
pub open spec fn replaced_roots(text: Seq<char>, root: Seq<char>, stand_in: Seq<char>) -> Seq<char>
    decreases text.len(),
{
    if root.len() == 0 {
        text
    } else {
        match first_occurrence(text, root, 0) {
            None => text,
            Some(start) => {
                proof {
                    lemma_first_occurrence(text, root, 0);
                }
                let end = start + root.len();
                let rest = text.subrange(end as int, text.len() as int);
                let boundary = rest.len() == 0 || !name_char(rest[0]);
                text.take(start as int) + (if boundary { stand_in } else { root }) + replaced_roots(rest, root, stand_in)
            },
        }
    }
}

/// Replace `root` where a separator, a delimiter or the end of the text follows it, never where
/// it is the prefix of a longer name.
pub fn replace_root(text: &str, root: &str, stand_in: &str) -> (r: String)
    requires
        root@.len() > 0,
    ensures
        r@ == replaced_roots(text@, root@, stand_in@),
{
    let root_chars = chars_of(root);
    let m = root_chars.len();
    let mut rest = chars_of(text);
    let mut out = String::new();
    loop
        invariant
            m == root@.len(),
            m > 0,
            root_chars@ == root@,
            out@ + replaced_roots(rest@, root@, stand_in@) == replaced_roots(text@, root@, stand_in@),
        decreases rest@.len(),
    {
        match find_text(&rest, &root_chars, 0) {
            None => {
                let ghost before = out@;
                push_range(&mut out, &rest, 0, rest.len());
                assert(rest@.subrange(0, rest@.len() as int) =~= rest@);
                return out;
            },
            Some(start) => {
                let n = rest.len();
                proof {
                    lemma_first_occurrence(rest@, root@, 0);
                    assert(first_occurrence(rest@, root@, 0) == Some(start as nat));
                    assert(occurs_at(rest@, root@, start as int));
                    assert(start + m <= rest@.len());
                    assert(start + m <= n);
                }
                let end = start + m;
                let ghost old_rest = rest@;
                let ghost before = out@;
                push_range(&mut out, &rest, 0, start);
                let boundary = end == rest.len() || !(char_is_alphanumeric(rest[end]) || rest[end] == '_'
                    || rest[end] == '-' || rest[end] == '.');
                if boundary {
                    append(&mut out, stand_in);
                } else {
                    append(&mut out, root);
                }
                let next = chars_from(&rest, end);
                proof {
                    assert(old_rest.subrange(0, start as int) =~= old_rest.take(start as int));
                    let piece: Seq<char> = if boundary { stand_in@ } else { root@ };
                    assert(out@ == before + old_rest.take(start as int) + piece);
                    assert(before + replaced_roots(old_rest, root@, stand_in@) == before + (old_rest.take(start as int) + piece
                        + replaced_roots(next@, root@, stand_in@)));
                    assert(before + (old_rest.take(start as int) + piece + replaced_roots(next@, root@, stand_in@))
                        =~= out@ + replaced_roots(next@, root@, stand_in@));
                }
                rest = next;
            },
        }
    }
}

/// `s` without its trailing slashes.
pub open spec fn trim_end_slashes(s: Seq<char>) -> Seq<char>
    decreases s.len(),
{
    if s.len() > 0 && s.last() == '/' {
        trim_end_slashes(s.drop_last())
    } else {
        s
    }
}

/// `text` after replacing each of a root's forms, in order, by the root's stand-in; a form
/// counts without its trailing slashes, and an empty one is skipped.
pub open spec fn forms_replaced(text: Seq<char>, forms: Seq<Seq<char>>, stand_in: Seq<char>) -> Seq<char>
    decreases forms.len(),
{
    if forms.len() == 0 {
        text
    } else {
        let before = forms_replaced(text, forms.drop_last(), stand_in);
        let form = trim_end_slashes(forms.last());
        if form.len() == 0 {
            before
        } else {
            replaced_roots(before, form, stand_in)
        }
    }
}

/// The forms of each root and its stand-in.
pub open spec fn roots_model(roots: Seq<(Vec<String>, String)>) -> Seq<(Seq<Seq<char>>, Seq<char>)> {
    Seq::new(roots.len(), |i: int| (texts_of(roots[i].0@), roots[i].1@))
}

/// `text` with every machine-specific root, each in all its forms, replaced by its stand-in,
/// roots in the order given (most specific first).
pub open spec fn paths_normalized(text: Seq<char>, roots: Seq<(Seq<Seq<char>>, Seq<char>)>) -> Seq<char>
    decreases roots.len(),
{
    if roots.len() == 0 {
        text
    } else {
        forms_replaced(paths_normalized(text, roots.drop_last()), roots.last().0, roots.last().1)
    }
}

fn trim_end_slash_text(s: &str) -> (r: String)
    ensures
        r@ == trim_end_slashes(s@),
{
    let chars = chars_of(s);
    let mut n: usize = chars.len();
    assert(chars@.take(n as int) =~= chars@);
    while n > 0 && chars[n - 1] == '/'
        invariant
            n <= chars@.len(),
            chars@ == s@,
            trim_end_slashes(s@) == trim_end_slashes(chars@.take(n as int)),
        decreases n,
    {
        assert(chars@.take(n as int).drop_last() =~= chars@.take(n as int - 1));
        n = n - 1;
    }
    let mut out = String::new();
    push_range(&mut out, &chars, 0, n);
    assert(chars@.subrange(0, n as int) =~= chars@.take(n as int));
    out
}

/// Replace every machine-specific root, in each of its forms, with its stand-in.
pub fn normalize_paths(text: &str, roots: &Vec<(Vec<String>, String)>) -> (r: String)
    ensures
        r@ == paths_normalized(text@, roots_model(roots@)),
{
    let ghost rm = roots_model(roots@);
    let mut out = owned(text);
    let mut i: usize = 0;
    while i < roots.len()
        invariant
            i <= roots@.len(),
            rm == roots_model(roots@),
            out@ == paths_normalized(text@, rm.take(i as int)),
        decreases roots@.len() - i,
    {
        let forms = &roots[i].0;
        let stand_in = roots[i].1.as_str();
        let ghost start = out@;
        let mut j: usize = 0;
        while j < forms.len()
            invariant
                j <= forms@.len(),
                out@ == forms_replaced(start, texts_of(forms@).take(j as int), stand_in@),
            decreases forms@.len() - j,
        {
            let form = trim_end_slash_text(forms[j].as_str());
            proof {
                assert(texts_of(forms@).take(j as int + 1).drop_last() =~= texts_of(forms@).take(j as int));
            }
            if form.unicode_len() > 0 {
                out = replace_root(out.as_str(), form.as_str(), stand_in);
            }
            j = j + 1;
        }
        proof {
            assert(texts_of(forms@).take(forms@.len() as int) =~= texts_of(forms@));
            assert(rm.take(i as int + 1).drop_last() =~= rm.take(i as int));
        }
        i = i + 1;
    }
    assert(rm.take(roots@.len() as int) =~= rm);
    out
}

/// A step with machine-specific roots normalized out of its failure's payload and detail.
pub fn normalize_step(step: StepOutcome, roots: &Vec<(Vec<String>, String)>) -> (r: StepOutcome)
    ensures
        match step@ {
            StepModel::Failed(e, detail) => r@ == StepModel::Failed(
                (e.0, paths_normalized(e.1, roots_model(roots@))),
                paths_normalized(detail, roots_model(roots@)),
            ),
            other => r@ == other,
        },
{
    match step {
        StepOutcome::Failed { error, detail } => {
            let payload = normalize_paths(error.payload.as_str(), roots);
            StepOutcome::Failed {
                error: ComparableError::new(error.kind, payload.as_str()),
                detail: normalize_paths(detail.as_str(), roots),
            }
        },
        other => other,
    }
}


/// The check of an interpreter's return against the recorded one: a cross-field difference is
/// a mismatch; under bn254 the values must be identical, while under Goldilocks field elements
/// may differ because the corpus records bn254's.
pub open spec fn recorded_check(actual: DiffModel, expected: DiffModel, field: FieldId) -> StepModel {
    match equiv_error(actual, expected) {
        Some(reason) => StepModel::Failed(
            (KindModel::OracleMismatch, join_spaced(words(reason))),
            "interpreter returned "@ + diff_render(actual),
        ),
        None => if field == FieldId::Goldilocks || actual == expected {
            StepModel::Passed
        } else {
            StepModel::Failed(
                (KindModel::OracleMismatch, "field value differs from the recorded return"@),
                "interpreter returned "@ + diff_render(actual) + ", recorded "@ + diff_render(expected),
            )
        },
    }
}

/// Check the interpreter's return against the recorded return, in a program compiled under
/// `field`. A run's return has its references resolved already, and a recorded return holds
/// none, so neither needs a store.
pub fn compare_with_recorded(actual: &Value, expected: &Value, field: FieldId) -> (r: StepOutcome)
    ensures
        r@ == recorded_check(crate::diff::diff_of(actual.model()), crate::diff::diff_of(expected.model()), field),
{
    let no_store: Vec<Value> = Vec::new();
    proof {
        assert(value_models(no_store@) =~= Seq::<ValueModel>::empty());
        crate::interpreter::lemma_resolved_in_empty_store(actual.model(), 0);
        crate::interpreter::lemma_resolved_in_empty_store(expected.model(), 0);
    }
    let a = DiffValue::from_value(&no_store, actual);
    let e = DiffValue::from_value(&no_store, expected);
    match values_equivalent(&a, &e) {
        Err(reason) => {
            let payload = normalize_text(reason.as_str());
            let detail = cat("interpreter returned ", a.render().as_str());
            return StepOutcome::failed(ComparableError::new(FailureKind::OracleMismatch, payload.as_str()), detail.as_str());
        },
        Ok(()) => {},
    }
    if field == FieldId::Goldilocks || a.same_as(&e) {
        StepOutcome::Passed
    } else {
        let mut detail = owned("interpreter returned ");
        append(&mut detail, a.render().as_str());
        append(&mut detail, ", recorded ");
        append(&mut detail, e.render().as_str());
        StepOutcome::failed(
            ComparableError::new(FailureKind::OracleMismatch, "field value differs from the recorded return"),
            detail.as_str(),
        )
    }
}

/// What reading the recorded return gave: the step's failure, or the return if one is recorded.
pub type RecordedReturn = Result<Option<Value>, StepOutcome>;

/// The oracle step: not run without a `Prover.toml` or without a recorded return, or when the
/// recorded return is one the field cannot decode; the reading's failure; else the comparison.
pub open spec fn oracle_model(recorded: Option<RecordedReturn>, actual: ValueModel, field: FieldId) -> StepModel {
    match recorded {
        None => StepModel::NotRun("no Prover.toml"@),
        Some(Err(step)) => match step@ {
            StepModel::Failed(e, _) => if e.0 is Unsupported {
                StepModel::NotRun("recorded return: "@ + e.1)
            } else {
                step@
            },
            other => other,
        },
        Some(Ok(None)) => StepModel::NotRun("no recorded return"@),
        Some(Ok(Some(expected))) => recorded_check(crate::diff::diff_of(actual), crate::diff::diff_of(expected.model()), field),
    }
}

/// Check the return against the return recorded in `Prover.toml` (`None` when there is none).
pub fn oracle_step(recorded: Option<RecordedReturn>, actual: &Value, field: FieldId) -> (r: StepOutcome)
    ensures
        r@ == oracle_model(recorded, actual.model(), field),
{
    match recorded {
        None => StepOutcome::not_run("no Prover.toml"),
        Some(Err(step)) => {
            if let StepOutcome::Failed { error, .. } = &step {
                if let FailureKind::Unsupported { .. } = &error.kind {
                    return StepOutcome::not_run(cat("recorded return: ", error.payload.as_str()).as_str());
                }
            }
            step
        },
        Some(Ok(None)) => StepOutcome::not_run("no recorded return"),
        Some(Ok(Some(expected))) => compare_with_recorded(actual, &expected, field),
    }
}

/// A run record for a workspace manifest, which the interpreter does not run.
pub fn workspace_record(source_hash: &str) -> (r: RunRecord)
    ensures
        r.source_hash@ == source_hash@,
        r.load@ == StepModel::NotRun("workspace manifest: the interpreter runs single-package programs"@),
        run_consistent(r),
        r.compile@ == StepModel::NotRun("not loaded"@),
        r.interpret@ == StepModel::NotRun("not compiled"@),
        r.oracle@ == StepModel::NotRun("not interpreted"@),
        r.projection@ == StepModel::NotRun("not compiled"@),
        r.returned is None,
        r.projection_hash is None,
{
    RunRecord {
        source_hash: owned(source_hash),
        load: StepOutcome::not_run("workspace manifest: the interpreter runs single-package programs"),
        compile: StepOutcome::not_run("not loaded"),
        interpret: StepOutcome::not_run("not compiled"),
        oracle: StepOutcome::not_run("not interpreted"),
        projection: StepOutcome::not_run("not compiled"),
        returned: None,
        projection_hash: None,
    }
}

/// A run record before any step has run.
pub fn pending_record(source_hash: &str) -> (r: RunRecord)
    ensures
        r.source_hash@ == source_hash@,
        r.load@ == StepModel::NotRun("not attempted"@),
        r.compile@ == StepModel::NotRun("not loaded"@),
        r.interpret@ == StepModel::NotRun("not compiled"@),
        r.oracle@ == StepModel::NotRun("not interpreted"@),
        r.projection@ == StepModel::NotRun("not compiled"@),
        r.returned is None,
        r.projection_hash is None,
        run_consistent(r),
{
    RunRecord {
        source_hash: owned(source_hash),
        load: StepOutcome::not_run("not attempted"),
        compile: StepOutcome::not_run("not loaded"),
        interpret: StepOutcome::not_run("not compiled"),
        oracle: StepOutcome::not_run("not interpreted"),
        projection: StepOutcome::not_run("not compiled"),
        returned: None,
        projection_hash: None,
    }
}

/// What holds of a run record at every point of a run: a value is recorded exactly when the
/// interpretation passed, a hash exactly when the projection passed; nothing after a load that
/// did not pass has run; nothing after a compile that did not pass has run, and no value is
/// recorded; the oracle has not run unless the interpretation passed.
pub open spec fn run_consistent(r: RunRecord) -> bool {
    &&& (r.returned is Some <==> r.interpret@ is Passed)
    &&& (r.projection_hash is Some <==> r.projection@ is Passed)
    &&& (!(r.load@ is Passed) ==> r.compile@ is NotRun && r.interpret@ is NotRun && r.oracle@ is NotRun
        && r.projection@ is NotRun)
    &&& (!(r.compile@ is Passed) ==> r.interpret@ is NotRun && r.oracle@ is NotRun && r.projection@ is NotRun
        && r.returned is None)
    &&& (!(r.interpret@ is Passed) ==> r.oracle@ is NotRun)
}

/// Whether a step's report comes in its turn: loading first, then compiling after a load that
/// passed, then projecting and interpreting, each once, after a compile that passed; a report of
/// a failure carries a step that did not pass.
pub open spec fn report_in_turn(r: RunRecord, report: StepReport) -> bool {
    match report {
        StepReport::Loaded(step) => r.load@ is NotRun && r.compile@ is NotRun && (step matches Some(x) ==> !(x@ is Passed)),
        StepReport::Compiled(step) => r.load@ is Passed && r.compile@ is NotRun && r.interpret@ is NotRun
            && r.projection@ is NotRun && (step matches Some(x) ==> !(x@ is Passed)),
        StepReport::Projected(out) => r.compile@ is Passed && r.projection@ is NotRun && (out matches Err(x)
            ==> !(x@ is Passed)),
        StepReport::Interpreted(out) => r.compile@ is Passed && r.interpret@ is NotRun && (out matches Err(x)
            ==> !(x@ is Passed)),
    }
}

/// The step a run takes next.
pub enum RunStage {
    Load,
    Compile,
    Project,
    Interpret,
    Done,
}

/// The step a run takes next from a record: load, then compile after a load that passed, then
/// project and interpret after a compile that passed; a load or compile that did not pass ends
/// the run, as does an interpretation that has been recorded.
pub open spec fn stage_of(r: RunRecord) -> RunStage {
    if r.load@ is NotRun {
        RunStage::Load
    } else if !(r.load@ is Passed) {
        RunStage::Done
    } else if r.compile@ is NotRun {
        RunStage::Compile
    } else if !(r.compile@ is Passed) {
        RunStage::Done
    } else if r.projection@ is NotRun {
        RunStage::Project
    } else if r.interpret@ is NotRun {
        RunStage::Interpret
    } else {
        RunStage::Done
    }
}

/// The step a run takes next from `record`.
pub fn next_stage(record: &RunRecord) -> (s: RunStage)
    ensures
        s == stage_of(*record),
{
    if record.load.is_not_run() {
        RunStage::Load
    } else if !record.load.passed() {
        RunStage::Done
    } else if record.compile.is_not_run() {
        RunStage::Compile
    } else if !record.compile.passed() {
        RunStage::Done
    } else if record.projection.is_not_run() {
        RunStage::Project
    } else if record.interpret.is_not_run() {
        RunStage::Interpret
    } else {
        RunStage::Done
    }
}

/// Whether a report is the one the run's next step makes, carrying a step that did not pass
/// when it reports a failure.
pub open spec fn report_of_stage(r: RunRecord, report: StepReport) -> bool {
    match report {
        StepReport::Loaded(step) => stage_of(r) is Load && (step matches Some(x) ==> !(x@ is Passed)),
        StepReport::Compiled(step) => stage_of(r) is Compile && (step matches Some(x) ==> !(x@ is Passed)),
        StepReport::Projected(out) => stage_of(r) is Project && (out matches Err(x) ==> !(x@ is Passed)),
        StepReport::Interpreted(out) => stage_of(r) is Interpret && (out matches Err(x) ==> !(x@ is Passed)),
    }
}

/// A run that takes its steps in the order `next_stage` names keeps its record consistent: on a
/// consistent record, the report of the next step comes in its turn, so `record_step` keeps the
/// record consistent, and a run that starts from `pending_record` is consistent after every step.
pub proof fn law_runs_in_stage_order_stay_consistent(r: RunRecord, report: StepReport)
    requires
        run_consistent(r),
        report_of_stage(r, report),
    ensures
        report_in_turn(r, report),
{
}

/// What one step of a run reported: loading and compiling pass or fail, the projection gives a
/// hash, interpreting gives the returned value and the oracle's check of it.
pub enum StepReport {
    Loaded(Option<StepOutcome>),
    Compiled(Option<StepOutcome>),
    Projected(Result<String, StepOutcome>),
    Interpreted(Result<(DiffValue, StepOutcome), StepOutcome>),
}

/// Record one step's report: a passed or failed load or compile, a projection's hash or
/// failure, an interpretation's value and oracle check or failure. The result says whether the
/// run goes on: a failed load or compile ends it; every other field stays as it was.
pub fn record_step(record: &mut RunRecord, report: StepReport) -> (go_on: bool)
    ensures
        final(record).source_hash == old(record).source_hash,
        run_consistent(*old(record)) && report_in_turn(*old(record), report) ==> run_consistent(*final(record)),
        match report {
            StepReport::Loaded(None) => go_on && final(record).load@ == StepModel::Passed
                && final(record).compile == old(record).compile && final(record).interpret == old(record).interpret
                && final(record).oracle == old(record).oracle && final(record).projection == old(record).projection
                && final(record).returned == old(record).returned && final(record).projection_hash == old(record).projection_hash,
            StepReport::Loaded(Some(step)) => !go_on && final(record).load == step
                && final(record).compile == old(record).compile && final(record).interpret == old(record).interpret
                && final(record).oracle == old(record).oracle && final(record).projection == old(record).projection
                && final(record).returned == old(record).returned && final(record).projection_hash == old(record).projection_hash,
            StepReport::Compiled(None) => go_on && final(record).compile@ == StepModel::Passed
                && final(record).load == old(record).load && final(record).interpret == old(record).interpret
                && final(record).oracle == old(record).oracle && final(record).projection == old(record).projection
                && final(record).returned == old(record).returned && final(record).projection_hash == old(record).projection_hash,
            StepReport::Compiled(Some(step)) => !go_on && final(record).compile == step
                && final(record).load == old(record).load && final(record).interpret == old(record).interpret
                && final(record).oracle == old(record).oracle && final(record).projection == old(record).projection
                && final(record).returned == old(record).returned && final(record).projection_hash == old(record).projection_hash,
            StepReport::Projected(Ok(hash)) => go_on && final(record).projection@ == StepModel::Passed
                && final(record).projection_hash == Some(hash)
                && final(record).load == old(record).load && final(record).compile == old(record).compile
                && final(record).interpret == old(record).interpret && final(record).oracle == old(record).oracle
                && final(record).returned == old(record).returned,
            StepReport::Projected(Err(step)) => go_on && final(record).projection == step
                && final(record).projection_hash == old(record).projection_hash
                && final(record).load == old(record).load && final(record).compile == old(record).compile
                && final(record).interpret == old(record).interpret && final(record).oracle == old(record).oracle
                && final(record).returned == old(record).returned,
            StepReport::Interpreted(Ok((value, oracle))) => go_on && final(record).interpret@ == StepModel::Passed
                && final(record).returned == Some(value) && final(record).oracle == oracle
                && final(record).load == old(record).load && final(record).compile == old(record).compile
                && final(record).projection == old(record).projection
                && final(record).projection_hash == old(record).projection_hash,
            StepReport::Interpreted(Err(step)) => go_on && final(record).interpret == step
                && final(record).returned == old(record).returned && final(record).oracle == old(record).oracle
                && final(record).load == old(record).load && final(record).compile == old(record).compile
                && final(record).projection == old(record).projection
                && final(record).projection_hash == old(record).projection_hash,
        },
{
    match report {
        StepReport::Loaded(None) => {
            record.load = StepOutcome::Passed;
            true
        },
        StepReport::Loaded(Some(step)) => {
            record.load = step;
            false
        },
        StepReport::Compiled(None) => {
            record.compile = StepOutcome::Passed;
            true
        },
        StepReport::Compiled(Some(step)) => {
            record.compile = step;
            false
        },
        StepReport::Projected(Ok(hash)) => {
            record.projection_hash = Some(hash);
            record.projection = StepOutcome::Passed;
            true
        },
        StepReport::Projected(Err(step)) => {
            record.projection = step;
            true
        },
        StepReport::Interpreted(Ok((value, oracle))) => {
            record.interpret = StepOutcome::Passed;
            record.returned = Some(value);
            record.oracle = oracle;
            true
        },
        StepReport::Interpreted(Err(step)) => {
            record.interpret = step;
            true
        },
    }
}


/// The revision a manifest line pins, when it names a `worldfnd/noir` dependency with a
/// `rev = "…"`.
pub open spec fn pinned_rev_of(line: Seq<char>) -> Option<Seq<char>> {
    if first_occurrence(line, "github.com/worldfnd/noir"@, 0) is None {
        None
    } else {
        match first_occurrence(line, "rev = \""@, 0) {
            None => None,
            Some(k) => {
                let rest = line.subrange((k + "rev = \""@.len()) as int, line.len() as int);
                let q = char_position(rest, '"', 0);
                if q < rest.len() {
                    Some(rest.take(q as int))
                } else {
                    None
                }
            },
        }
    }
}

/// The revisions the lines from `i` on pin, in order.
pub open spec fn pinned_revs_of(lines: Seq<Seq<char>>, i: nat) -> Seq<Seq<char>>
    decreases lines.len() - i,
{
    if i >= lines.len() {
        Seq::empty()
    } else {
        match pinned_rev_of(lines[i as int]) {
            Some(rev) => seq![rev] + pinned_revs_of(lines, i + 1),
            None => pinned_revs_of(lines, i + 1),
        }
    }
}

fn pinned_rev(line: &Vec<char>) -> (r: Option<String>)
    ensures
        match pinned_rev_of(line@) {
            Some(rev) => r matches Some(s) && s@ == rev,
            None => r is None,
        },
{
    let repo = chars_of("github.com/worldfnd/noir");
    if find_text(line, &repo, 0).is_none() {
        return None;
    }
    let key = chars_of("rev = \"");
    let k = match find_text(line, &key, 0) {
        Some(k) => k,
        None => return None,
    };
    let n = line.len();
    let kl = key.len();
    proof {
        lemma_first_occurrence(line@, key@, 0);
        assert(first_occurrence(line@, key@, 0) == Some(k as nat));
        assert(occurs_at(line@, key@, k as int));
        assert(k + kl <= n);
    }
    let rest = chars_from(line, k + kl);
    let q = find_char(&rest, '"', 0);
    proof {
        crate::text::lemma_char_position_bounds(rest@, '"', 0);
    }
    if q < rest.len() {
        let mut s = String::new();
        push_range(&mut s, &rest, 0, q);
        assert(rest@.subrange(0, q as int) =~= rest@.take(q as int));
        Some(s)
    } else {
        None
    }
}

/// The revisions of every `worldfnd/noir` dependency a manifest pins, in file order.
pub fn pinned_revs_in(manifest: &str) -> (r: Vec<String>)
    ensures
        texts_of(r@) == pinned_revs_of(lines_of(manifest@), 0),
{
    let chars = chars_of(manifest);
    let lines = lines_from(&chars, 0);
    assert(chars@.subrange(0, chars@.len() as int) =~= chars@);
    let ghost ls = lines_of(manifest@);
    let mut out: Vec<String> = Vec::new();
    let mut i: usize = 0;
    while i < lines.len()
        invariant
            i <= lines@.len(),
            lines@.len() == ls.len(),
            ls == lines_of(manifest@),
            forall|k: int| 0 <= k < lines@.len() ==> #[trigger] lines@[k]@ == ls[k],
            pinned_revs_of(ls, 0) == texts_of(out@) + pinned_revs_of(ls, i as nat),
        decreases lines@.len() - i,
    {
        let ghost before = texts_of(out@);
        match pinned_rev(&lines[i]) {
            Some(rev) => {
                out.push(rev);
                assert(texts_of(out@) =~= before.push(rev@));
                assert(before + (seq![rev@] + pinned_revs_of(ls, i as nat + 1)) =~= before.push(rev@) + pinned_revs_of(ls, i as nat + 1));
            },
            None => {},
        }
        i = i + 1;
    }
    assert(texts_of(out@) + Seq::<Seq<char>>::empty() =~= texts_of(out@));
    out
}


/// How many of a failed check's diagnostics its summary lists.
pub const RECORDED_DIAGNOSTICS: usize = 8;

/// The texts separated by ` | `.
pub open spec fn bar_list(items: Seq<Seq<char>>) -> Seq<char>
    decreases items.len(),
{
    if items.len() == 0 {
        Seq::empty()
    } else if items.len() == 1 {
        items[0]
    } else {
        bar_list(items.drop_last()) + " | "@ + items.last()
    }
}

/// The summary of a failed check's error messages: the first [`RECORDED_DIAGNOSTICS`] of them,
/// and, when there are more, how many more and the SHA-256 of all of them, normalized, so two
/// summaries that differ only past the cut still differ.
pub open spec fn diagnostics_summary(messages: Seq<Seq<char>>) -> Seq<char> {
    if messages.len() > 8 {
        bar_list(messages.take(8)) + " | ... and "@ + nat_decimal((messages.len() - 8) as nat) + " more (sha256="@
            + hex_text(sha256_of(encode_utf8(join_spaced(words(bar_list(messages)))))) + ")"@
    } else {
        bar_list(messages)
    }
}

/// The first `n` of `items` separated by ` | `.
fn join_bar(items: &Vec<String>, n: usize) -> (r: String)
    requires
        n <= items@.len(),
    ensures
        r@ == bar_list(texts_of(items@.take(n as int))),
{
    let mut s = String::new();
    let mut i: usize = 0;
    while i < n
        invariant
            i <= n <= items@.len(),
            s@ == bar_list(texts_of(items@.take(i as int))),
        decreases n - i,
    {
        let ghost before = texts_of(items@.take(i as int));
        assert(texts_of(items@.take(i as int + 1)) =~= before.push(items@[i as int]@));
        assert(before.push(items@[i as int]@).drop_last() =~= before);
        if i > 0 {
            append(&mut s, " | ");
        }
        append(&mut s, items[i].as_str());
        i = i + 1;
    }
    s
}

/// The summary of a failed check's error messages.
pub fn diagnostic_summary(messages: &Vec<String>) -> (r: String)
    ensures
        r@ == diagnostics_summary(texts_of(messages@)),
{
    let n = messages.len();
    if n <= RECORDED_DIAGNOSTICS {
        let s = join_bar(messages, n);
        assert(messages@.take(n as int) =~= messages@);
        return s;
    }
    let mut s = join_bar(messages, RECORDED_DIAGNOSTICS);
    assert(texts_of(messages@.take(8)) =~= texts_of(messages@).take(8));
    let all = join_bar(messages, n);
    assert(messages@.take(n as int) =~= messages@);
    let digest = sha256_hex(normalize_text(all.as_str()).as_str());
    append(&mut s, " | ... and ");
    append(&mut s, u64_decimal((n - RECORDED_DIAGNOSTICS) as u64).as_str());
    append(&mut s, " more (sha256=");
    append(&mut s, digest.as_str());
    append(&mut s, ")");
    s
}

/// What a diagnostic detail adds past the diagnostics it shows: how many more there were.
pub fn diagnostic_detail_tail(count: usize) -> (r: String)
    ensures
        r@ == (if count > 8 { " ... and "@ + nat_decimal((count - 8) as nat) + " more"@ } else { Seq::<char>::empty() }),
{
    if count > RECORDED_DIAGNOSTICS {
        let mut s = owned(" ... and ");
        append(&mut s, u64_decimal((count - RECORDED_DIAGNOSTICS) as u64).as_str());
        append(&mut s, " more");
        s
    } else {
        String::new()
    }
}

/// The SHA-256 of a text's UTF-8 bytes, in lowercase hexadecimal.
pub fn sha256_hex(text: &str) -> (r: String)
    ensures
        r@ == hex_text(sha256_of(encode_utf8(text@))),
        r@.len() == 64,
        forall|i: int| 0 <= i < 64 ==> is_hex_digit(#[trigger] r@[i]),
{
    let mut data: Vec<u8> = Vec::new();
    push_all(&mut data, text.as_bytes());
    assert(data@ =~= encode_utf8(text@));
    let digest = sha256_digest(&data);
    proof {
        lemma_hex_text(digest@);
    }
    hex(&digest)
}

} // verus!
