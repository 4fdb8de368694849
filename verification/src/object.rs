use crate::err::ObjectError;
use crate::primitive::{mismatch, Primitive, PrimitiveKind};
use crate::text::{lemma_prefix_append, push_dec_u64, ref_text};
use core::marker::PhantomData;
use vstd::prelude::*;

verus! {

/// An object number: identifies a node of the document graph.
pub type ObjNr = u64;

/// A generation number: the format-level version of an object number.
pub type GenNr = u16;

/// An (object number, generation number) pair identifying a node of the
/// document graph, to be resolved indirectly rather than inlined.
#[derive(Copy, Clone, Debug, PartialEq, Eq, Structural)]
pub struct PlainRef {
    pub id: ObjNr,
    pub gen: GenNr,
}

/// The capability of turning an indirect reference into the generic value
/// it denotes.  Any value with a conforming `resolve` can serve; the
/// promise an implementation makes is its `resolve_ens`, and what it asks
/// of a call is its `resolve_req`.
pub trait Resolve {
    /// What this resolver asks of every call of `resolve`.
    spec fn resolve_req(&self, r: PlainRef) -> bool;

    /// What this resolver promises of every outcome of `resolve`.
    spec fn resolve_ens(&self, r: PlainRef, res: Result<Primitive, ObjectError>) -> bool;

    /// Produce the generic value that `r` denotes, or fail.
    fn resolve(&self, r: PlainRef) -> (res: Result<Primitive, ObjectError>)
        requires
            self.resolve_req(r),
        ensures
            self.resolve_ens(r, res),
    ;
}

/// Any function-shaped value matching the resolve signature is a
/// resolver; its contract is the function's own.
impl<F: Fn(PlainRef) -> Result<Primitive, ObjectError>> Resolve for F {
    open spec fn resolve_req(&self, r: PlainRef) -> bool {
        call_requires(*self, (r,))
    }

    open spec fn resolve_ens(&self, r: PlainRef, res: Result<Primitive, ObjectError>) -> bool {
        call_ensures(*self, (r,), res)
    }

    fn resolve(&self, r: PlainRef) -> (res: Result<Primitive, ObjectError>) {
        self(r)
    }
}

/// The resolver that refuses to follow any reference.  It is passed
/// wherever dereferencing must not occur during a conversion.
pub struct NoResolve {}

impl Resolve for NoResolve {
    /// Any reference may be handed in.
    open spec fn resolve_req(&self, r: PlainRef) -> bool {
        true
    }

    /// Every call fails with `ReferenceResolutionForbidden`.
    open spec fn resolve_ens(&self, r: PlainRef, res: Result<Primitive, ObjectError>) -> bool {
        res == Err::<Primitive, ObjectError>(ObjectError::ReferenceResolutionForbidden)
    }

    fn resolve(&self, r: PlainRef) -> (res: Result<Primitive, ObjectError>) {
        Err(ObjectError::ReferenceResolutionForbidden)
    }
}

/// The bidirectional conversion contract: a typed value that can be
/// written in textual object syntax and constructed from a generic value.
///
/// The spec members pin both directions down: `ser_text` is the exact
/// byte sequence a successful `serialize` appends, and `from_ok`,
/// `is_from` and `from_err` say on which generic values construction
/// succeeds, with which value, and with which error otherwise.
pub trait Object: Sized {
    /// Whether serialization succeeds: all text involved is seven-bit.
    spec fn ser_ok(&self) -> bool;

    /// The bytes that a successful serialization appends.
    spec fn ser_text(&self) -> Seq<u8>;

    /// Whether construction from `p` succeeds.
    spec fn from_ok(p: Primitive) -> bool;

    /// The error that construction from `p` reports when it fails.
    spec fn from_err(p: Primitive) -> ObjectError;

    /// Whether `v` is the value that construction from `p` yields.
    spec fn is_from(p: Primitive, v: Self) -> bool;

    /// Write the textual syntax form of `self` to `out`.
    fn serialize(&self, out: &mut Vec<u8>) -> (r: Result<(), ObjectError>)
        ensures
            old(out)@.is_prefix_of(final(out)@),
            self.ser_ok() ==> r == Ok::<(), ObjectError>(()) && final(out)@ == old(out)@
                + self.ser_text(),
            !self.ser_ok() ==> r == Err::<(), ObjectError>(ObjectError::EncodingViolation),
    ;

    /// Construct a value of this type from the generic value `p`, given a
    /// resolver to consult when an indirect reference must be followed.
    fn from_primitive<R: Resolve>(p: Primitive, resolve: &R) -> (r: Result<Self, ObjectError>)
        ensures
            Self::from_ok(p) ==> (r matches Ok(v) && Self::is_from(p, v)),
            !Self::from_ok(p) ==> (r matches Err(e) && e == Self::from_err(p)),
    ;
}

impl PlainRef {
    /// The textual form of this reference.
    pub open spec fn spec_text(&self) -> Seq<u8> {
        ref_text(self.id, self.gen)
    }
}

impl Object for PlainRef {
    open spec fn ser_ok(&self) -> bool {
        true
    }

    open spec fn ser_text(&self) -> Seq<u8> {
        self.spec_text()
    }

    open spec fn from_ok(p: Primitive) -> bool {
        p matches Primitive::Reference(_)
    }

    open spec fn from_err(p: Primitive) -> ObjectError {
        mismatch(PrimitiveKind::Reference, p.spec_kind())
    }

    open spec fn is_from(p: Primitive, v: Self) -> bool {
        p matches Primitive::Reference(r) && v == r
    }

    fn serialize(&self, out: &mut Vec<u8>) -> (r: Result<(), ObjectError>) {
        push_dec_u64(out, self.id);
        out.push(32u8);
        push_dec_u64(out, self.gen as u64);
        out.push(32u8);
        out.push(82u8);
        proof {
            assert(out@ =~= old(out)@ + self.spec_text());
            lemma_prefix_append(old(out)@, self.spec_text());
        }
        Ok(())
    }

    /// The resolver is accepted but unused: resolution happens one layer
    /// up, when the referent is actually needed.
    fn from_primitive<R: Resolve>(p: Primitive, resolve: &R) -> (r: Result<Self, ObjectError>) {
        p.as_reference()
    }
}

/// A compile-time type-tagged indirect reference.  The marker records
/// what the reference is expected to point to; it carries no data, and
/// nothing checks it against the referent until the reference is resolved
/// and converted.
pub struct Ref<T> {
    inner: PlainRef,
    marker: PhantomData<T>,
}

impl<T> View for Ref<T> {
    type V = PlainRef;

    closed spec fn view(&self) -> PlainRef {
        self.inner
    }
}

impl<T> Ref<T> {
    pub fn new(inner: PlainRef) -> (r: Ref<T>)
        ensures
            r@ == inner,
    {
        Ref { inner, marker: PhantomData }
    }

    /// A reference to `id` with generation number zero, as used when
    /// minting references for objects not yet assigned a generation.
    pub fn from_id(id: ObjNr) -> (r: Ref<T>)
        ensures
            r@ == (PlainRef { id, gen: 0 }),
    {
        Ref { inner: PlainRef { id, gen: 0 }, marker: PhantomData }
    }

    pub fn get_inner(&self) -> (r: PlainRef)
        ensures
            r == self@,
    {
        self.inner
    }
}

impl<T: Object> Object for Ref<T> {
    open spec fn ser_ok(&self) -> bool {
        true
    }

    open spec fn ser_text(&self) -> Seq<u8> {
        self@.spec_text()
    }

    open spec fn from_ok(p: Primitive) -> bool {
        p matches Primitive::Reference(_)
    }

    open spec fn from_err(p: Primitive) -> ObjectError {
        mismatch(PrimitiveKind::Reference, p.spec_kind())
    }

    open spec fn is_from(p: Primitive, v: Self) -> bool {
        p matches Primitive::Reference(r) && v@ == r
    }

    fn serialize(&self, out: &mut Vec<u8>) -> (r: Result<(), ObjectError>) {
        self.inner.serialize(out)
    }

    fn from_primitive<R: Resolve>(p: Primitive, resolve: &R) -> (r: Result<Self, ObjectError>) {
        match p.as_reference() {
            Ok(pr) => Ok(Ref::new(pr)),
            Err(e) => Err(e),
        }
    }
}

impl<T> Copy for Ref<T> {

}

impl<T> Clone for Ref<T> {
    fn clone(&self) -> (r: Ref<T>)
        ensures
            r == *self,
    {
        *self
    }
}

} // verus!
