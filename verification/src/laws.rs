//! The crate-level guarantees, stated once and proved from the contracts
//! the conversions carry.

use crate::convert::{entries_text_from, entry_text, lemma_first_fail_skip, prim_text};
use crate::err::ObjectError;
use crate::object::{NoResolve, Object, PlainRef, Resolve};
use crate::primitive::{key_index_from, mismatch, spec_insert, Primitive, PrimitiveKind};
use crate::text::{
    dec_text, lemma_dec_text_digits, lemma_dec_text_injective, plain_bytes, ref_text,
};
use vstd::prelude::*;

verus! {

/// Round trip for integers: converting the generic form of an integer
/// succeeds and yields exactly that integer.
pub proof fn lemma_integer_round_trip(i: i32)
    ensures
        <i32 as Object>::from_ok(Primitive::Integer(i)),
        forall|v: i32| <i32 as Object>::is_from(Primitive::Integer(i), v) <==> v == i,
{
}

/// Round trip for booleans: converting the generic form of a boolean
/// succeeds and yields exactly that boolean.
pub proof fn lemma_boolean_round_trip(b: bool)
    ensures
        <bool as Object>::from_ok(Primitive::Boolean(b)),
        forall|v: bool| <bool as Object>::is_from(Primitive::Boolean(b), v) <==> v == b,
{
}

/// The forbidding resolver never returns a value: every outcome its
/// contract admits is the resolution-forbidden error.
pub proof fn lemma_forbidding_resolver(
    n: NoResolve,
    r: PlainRef,
    res: Result<Primitive, ObjectError>,
)
    requires
        n.resolve_ens(r, res),
    ensures
        res == Err::<Primitive, ObjectError>(ObjectError::ReferenceResolutionForbidden),
{
}

/// A serialized reference determines its (object number, generation
/// number) pair: distinct pairs always have distinct textual forms, so
/// re-parsing the text can only give the pair back.
pub proof fn lemma_reference_text_injective(a: PlainRef, b: PlainRef)
    requires
        ref_text(a.id, a.gen) == ref_text(b.id, b.gen),
    ensures
        a.id == b.id,
        a.gen == b.gen,
{
    lemma_dec_text_digits(a.id as nat);
    lemma_dec_text_digits(b.id as nat);
    lemma_dec_text_digits(a.gen as nat);
    lemma_dec_text_digits(b.gen as nat);
    let da = dec_text(a.id as nat);
    let db = dec_text(b.id as nat);
    let ga = dec_text(a.gen as nat);
    let gb = dec_text(b.gen as nat);
    let t = ref_text(a.id, a.gen);
    if da.len() < db.len() {
        assert(t[da.len() as int] == 32);
        assert(t[da.len() as int] == db[da.len() as int]);
        assert(false);
    }
    if db.len() < da.len() {
        assert(t[db.len() as int] == 32);
        assert(t[db.len() as int] == da[db.len() as int]);
        assert(false);
    }
    assert forall|k: int| 0 <= k < da.len() implies da[k] == db[k] by {
        assert(da[k] == t[k]);
        assert(db[k] == t[k]);
    }
    assert(da =~= db);
    lemma_dec_text_injective(a.id as nat, b.id as nat);
    assert(t.len() == da.len() + 1 + ga.len() + 2);
    assert(t.len() == db.len() + 1 + gb.len() + 2);
    assert(ga.len() == gb.len());
    assert forall|k: int| 0 <= k < ga.len() implies ga[k] == gb[k] by {
        assert(ga[k] == t[da.len() + 1 + k]);
        assert(gb[k] == t[db.len() + 1 + k]);
    }
    assert(ga =~= gb);
    lemma_dec_text_injective(a.gen as nat, b.gen as nat);
}

/// Singleton coercion: a non-array value converts to a sequence exactly
/// when it converts directly to the element type; the sequence then holds
/// that single result, and a failure carries the direct conversion's
/// error.
pub proof fn lemma_singleton_coercion<T: Object>(p: Primitive)
    requires
        !(p matches Primitive::Array(_)),
    ensures
        <Vec<T> as Object>::from_ok(p) <==> T::from_ok(p),
        forall|v: Vec<T>|
            #![trigger <Vec<T> as Object>::is_from(p, v)]
            <Vec<T> as Object>::is_from(p, v) <==> v@.len() == 1 && T::is_from(p, v@[0]),
        <Vec<T> as Object>::from_err(p) == T::from_err(p),
{
}

/// Array conversion fails fast: when every element before position `i`
/// converts and the element at `i` does not, converting the whole array
/// fails with exactly that element's error.
pub proof fn lemma_array_fail_fast<T: Object>(vs: Vec<Primitive>, i: int)
    requires
        0 <= i < vs@.len(),
        forall|j: int| 0 <= j < i ==> T::from_ok(#[trigger] vs@[j]),
        !T::from_ok(vs@[i]),
    ensures
        !<Vec<T> as Object>::from_ok(Primitive::Array(vs)),
        <Vec<T> as Object>::from_err(Primitive::Array(vs)) == T::from_err(vs@[i]),
{
    lemma_first_fail_skip::<T>(vs@, 0, i);
    let vsb = (Primitive::Array(vs))->Array_0;
    assert(vsb == vs);
    if <Vec<T> as Object>::from_ok(Primitive::Array(vs)) {
        assert(T::from_ok(vsb@[i]));
        assert(false);
    }
}

/// A mapping built by inserting three distinct keys in order stores the
/// entries in that order, and its serialized text lists them in that
/// same order.
pub proof fn lemma_mapping_order(
    k1: String,
    v1: Primitive,
    k2: String,
    v2: Primitive,
    k3: String,
    v3: Primitive,
)
    requires
        k1@ != k2@,
        k1@ != k3@,
        k2@ != k3@,
    ensures
        ({
            let s = spec_insert(
                spec_insert(spec_insert(Seq::<(String, Primitive)>::empty(), k1, v1), k2, v2),
                k3,
                v3,
            );
            s =~= seq![(k1, v1), (k2, v2), (k3, v3)] && entries_text_from(s, 0) == entry_text(
                k1,
                v1,
            ) + entry_text(k2, v2) + entry_text(k3, v3)
        }),
{
    let s0 = Seq::<(String, Primitive)>::empty();
    let s1 = spec_insert(s0, k1, v1);
    assert(key_index_from(s0, k1@, 0) == 0);
    assert(s1 =~= seq![(k1, v1)]);
    let s2 = spec_insert(s1, k2, v2);
    assert(key_index_from(s1, k2@, 0) == key_index_from(s1, k2@, 1));
    assert(s2 =~= seq![(k1, v1), (k2, v2)]);
    let s3 = spec_insert(s2, k3, v3);
    assert(key_index_from(s2, k3@, 0) == key_index_from(s2, k3@, 1));
    assert(key_index_from(s2, k3@, 1) == key_index_from(s2, k3@, 2));
    assert(s3 =~= seq![(k1, v1), (k2, v2), (k3, v3)]);
    assert(entries_text_from(s3, 3) =~= Seq::<u8>::empty());
    assert(entries_text_from(s3, 2) == seq![47u8] + plain_bytes(k3@) + seq![32u8] + prim_text(v3)
        + seq![32u8] + entries_text_from(s3, 3));
    assert(entries_text_from(s3, 1) == seq![47u8] + plain_bytes(k2@) + seq![32u8] + prim_text(v2)
        + seq![32u8] + entries_text_from(s3, 2));
    assert(entries_text_from(s3, 0) == seq![47u8] + plain_bytes(k1@) + seq![32u8] + prim_text(v1)
        + seq![32u8] + entries_text_from(s3, 1));
    assert(entries_text_from(s3, 0) =~= entry_text(k1, v1) + entry_text(k2, v2) + entry_text(
        k3,
        v3,
    ));
}

/// Converting a boolean generic value to the integer target fails with a
/// type mismatch naming both variants, and the other way round.
pub proof fn lemma_type_mismatch(b: bool, i: i32)
    ensures
        !<i32 as Object>::from_ok(Primitive::Boolean(b)),
        <i32 as Object>::from_err(Primitive::Boolean(b)) == mismatch(
            PrimitiveKind::Integer,
            PrimitiveKind::Boolean,
        ),
        !<bool as Object>::from_ok(Primitive::Integer(i)),
        <bool as Object>::from_err(Primitive::Integer(i)) == mismatch(
            PrimitiveKind::Boolean,
            PrimitiveKind::Integer,
        ),
{
}

} // verus!
