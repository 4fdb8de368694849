use crate::err::ObjectError;
use crate::object::{Object, Resolve};
use crate::primitive::{mismatch, Dictionary, Primitive, PrimitiveKind};
use crate::text::{
    bool_text, dec_text, escaped_bytes, int_text, lemma_prefix_append, plain_bytes, push_bool,
    push_dec_i32, push_dec_u64, push_escaped, push_plain,
};
use vstd::prelude::*;
use vstd::utf8::is_ascii_chars;

verus! {

broadcast use
    vstd::std_specs::vec::group_vec_axioms,
    crate::primitive::lemma_dictionary_decreases,
;

/// The word `null`.
pub open spec fn null_text() -> Seq<u8> {
    seq![110u8, 117u8, 108u8, 108u8]
}

/// The line `stream` that opens a stream payload.
pub open spec fn stream_begin_text() -> Seq<u8> {
    seq![115u8, 116u8, 114u8, 101u8, 97u8, 109u8, 10u8]
}

/// The line `endstream` that closes a stream payload.
pub open spec fn stream_end_text() -> Seq<u8> {
    seq![10u8, 101u8, 110u8, 100u8, 115u8, 116u8, 114u8, 101u8, 97u8, 109u8]
}

/// Whether every piece of text inside `p` is seven-bit, so that `p`
/// serializes without an encoding violation.
pub open spec fn prim_ser_ok(p: Primitive) -> bool
    decreases p,
{
    match p {
        Primitive::Null => true,
        Primitive::Integer(_) => true,
        Primitive::Number(s) => is_ascii_chars(s@),
        Primitive::Boolean(_) => true,
        Primitive::Text(s) => is_ascii_chars(s@),
        Primitive::Name(s) => is_ascii_chars(s@),
        Primitive::Array(vs) => forall|i: int|
            0 <= i < vs@.len() ==> prim_ser_ok(#[trigger] vs@[i]),
        Primitive::Dictionary(d) => dict_ser_ok(d),
        Primitive::Reference(_) => true,
        Primitive::Stream(st) => dict_ser_ok(st.info),
    }
}

/// Whether every key is seven-bit and every value serializes.
pub open spec fn dict_ser_ok(d: Dictionary) -> bool
    decreases d,
{
    forall|i: int|
        #![trigger d@[i]]
        0 <= i < d@.len() ==> is_ascii_chars(d@[i].0@) && prim_ser_ok(d@[i].1)
}

/// The textual form of a generic value, per variant.
pub open spec fn prim_text(p: Primitive) -> Seq<u8>
    decreases p,
{
    match p {
        Primitive::Null => null_text(),
        Primitive::Integer(i) => int_text(i as int),
        Primitive::Number(s) => plain_bytes(s@),
        Primitive::Boolean(b) => bool_text(b),
        Primitive::Text(s) => escaped_bytes(s@),
        Primitive::Name(s) => seq![47u8] + plain_bytes(s@),
        Primitive::Array(vs) => seq![91u8] + arr_text_from(vs@, 0) + seq![93u8],
        Primitive::Dictionary(d) => dict_text(d),
        Primitive::Reference(r) => r.spec_text(),
        Primitive::Stream(st) => dict_text(st.info) + stream_begin_text() + st.data@
            + stream_end_text(),
    }
}

/// The space-separated texts of the elements of `s` from position `i` on.
pub open spec fn arr_text_from(s: Seq<Primitive>, i: int) -> Seq<u8>
    decreases s, s.len() - i,
{
    if i < 0 || i >= s.len() {
        Seq::empty()
    } else {
        (if i > 0 {
            seq![32u8]
        } else {
            Seq::<u8>::empty()
        }) + prim_text(s[i]) + arr_text_from(s, i + 1)
    }
}

/// The mapping's textual form: `<<`, each entry as `/key value`, `>>`,
/// entries in stored order.
pub open spec fn dict_text(d: Dictionary) -> Seq<u8>
    decreases d,
{
    seq![60u8, 60u8] + entries_text_from(d@, 0) + seq![62u8, 62u8]
}

/// One entry's text: `/`, the key, a space, the value, a space.
pub open spec fn entry_text(k: String, v: Primitive) -> Seq<u8> {
    seq![47u8] + plain_bytes(k@) + seq![32u8] + prim_text(v) + seq![32u8]
}

/// The texts of the entries of `s` from position `i` on.
pub open spec fn entries_text_from(s: Seq<(String, Primitive)>, i: int) -> Seq<u8>
    decreases s, s.len() - i,
{
    if i < 0 || i >= s.len() {
        Seq::empty()
    } else {
        seq![47u8] + plain_bytes(s[i].0@) + seq![32u8] + prim_text(s[i].1) + seq![32u8]
            + entries_text_from(s, i + 1)
    }
}

/// Two sequences prefix in turn: the first is a prefix of the third.
pub proof fn lemma_prefix_trans(a: Seq<u8>, b: Seq<u8>, c: Seq<u8>)
    requires
        a.is_prefix_of(b),
        b.is_prefix_of(c),
    ensures
        a.is_prefix_of(c),
{
    assert(a =~= c.subrange(0, a.len() as int));
}

/// Writes the textual form of `p`, dispatching on its variant.  Fails,
/// with the buffer holding some prefix of the full form, exactly when a
/// piece of text inside `p` is outside the seven-bit range.
#[verifier::loop_isolation(false)]
#[verifier::rlimit(100)]
pub fn serialize_primitive(p: &Primitive, out: &mut Vec<u8>) -> (r: Result<(), ObjectError>)
    ensures
        old(out)@.is_prefix_of(final(out)@),
        prim_ser_ok(*p) ==> r == Ok::<(), ObjectError>(()) && final(out)@ == old(out)@ + prim_text(
            *p,
        ),
        !prim_ser_ok(*p) ==> r == Err::<(), ObjectError>(ObjectError::EncodingViolation),
    decreases *p,
{
    match p {
        Primitive::Null => {
            out.push(110u8);
            out.push(117u8);
            out.push(108u8);
            out.push(108u8);
            proof {
                assert(out@ =~= old(out)@ + null_text());
                lemma_prefix_append(old(out)@, null_text());
            }
            Ok(())
        },
        Primitive::Integer(x) => {
            push_dec_i32(out, *x);
            proof {
                lemma_prefix_append(old(out)@, int_text(*x as int));
            }
            Ok(())
        },
        Primitive::Number(s) => push_plain(out, s.as_str()),
        Primitive::Boolean(b) => {
            push_bool(out, *b);
            proof {
                lemma_prefix_append(old(out)@, bool_text(*b));
            }
            Ok(())
        },
        Primitive::Text(s) => push_escaped(out, s.as_str()),
        Primitive::Name(s) => {
            out.push(47u8);
            let ghost mid = out@;
            let res = push_plain(out, s.as_str());
            proof {
                lemma_prefix_append(old(out)@, seq![47u8]);
                lemma_prefix_trans(old(out)@, mid, out@);
                if is_ascii_chars(s@) {
                    assert(out@ =~= old(out)@ + (seq![47u8] + plain_bytes(s@)));
                }
            }
            res
        },
        Primitive::Array(vs) => {
            out.push(91u8);
            let mut i: usize = 0;
            proof {
                assert(out@ =~= old(out)@ + seq![91u8]);
                lemma_prefix_append(old(out)@, seq![91u8]);
            }
            while i < vs.len()
                invariant
                    i <= vs@.len(),
                    forall|j: int| 0 <= j < i ==> prim_ser_ok(#[trigger] vs@[j]),
                    out@ + arr_text_from(vs@, i as int) == old(out)@ + seq![91u8] + arr_text_from(
                        vs@,
                        0,
                    ),
                    old(out)@.is_prefix_of(out@),
                decreases vs@.len() - i,
            {
                let ghost pre = out@;
                if i > 0 {
                    out.push(32u8);
                }
                proof {
                    assert(decreases_to!(*p => *vs));
                    assert(decreases_to!(*vs => vs[i as int]));
                }
                let ghost mid = out@;
                match serialize_primitive(&vs[i], out) {
                    Ok(()) => {},
                    Err(e) => {
                        proof {
                            assert(!prim_ser_ok(vs@[i as int]));
                            assert(!prim_ser_ok(*p));
                            lemma_prefix_append(pre, mid.subrange(pre.len() as int, mid.len() as int));
                            assert(pre.is_prefix_of(mid));
                            lemma_prefix_trans(old(out)@, pre, mid);
                            lemma_prefix_trans(old(out)@, mid, out@);
                        }
                        return Err(e);
                    },
                }
                proof {
                    assert(out@ =~= pre + (if i > 0 {
                        seq![32u8]
                    } else {
                        Seq::<u8>::empty()
                    }) + prim_text(vs@[i as int]));
                    assert(arr_text_from(vs@, i as int) == (if i > 0 {
                        seq![32u8]
                    } else {
                        Seq::<u8>::empty()
                    }) + prim_text(vs@[i as int]) + arr_text_from(vs@, i + 1));
                    assert(out@ + arr_text_from(vs@, i + 1) =~= pre + arr_text_from(
                        vs@,
                        i as int,
                    ));
                    assert(old(out)@ =~= out@.subrange(0, old(out)@.len() as int));
                }
                i += 1;
            }
            out.push(93u8);
            proof {
                assert(arr_text_from(vs@, vs@.len() as int) =~= Seq::<u8>::empty());
                assert(out@ =~= old(out)@ + (seq![91u8] + arr_text_from(vs@, 0) + seq![93u8]));
                lemma_prefix_append(old(out)@, seq![91u8] + arr_text_from(vs@, 0) + seq![93u8]);
            }
            Ok(())
        },
        Primitive::Dictionary(d) => {
            proof {
                assert(decreases_to!(*p => *d));
            }
            serialize_dictionary(d, out)
        },
        Primitive::Reference(pr) => {
            let res = pr.serialize(out);
            proof {
                assert(res == Ok::<(), ObjectError>(()));
            }
            res
        },
        Primitive::Stream(st) => {
            proof {
                assert(decreases_to!(*p => *st));
                assert(decreases_to!(*st => st.info));
            }
            match serialize_dictionary(&st.info, out) {
                Ok(()) => {},
                Err(e) => {
                    return Err(e);
                },
            }
            let ghost mid = out@;
            out.push(115u8);
            out.push(116u8);
            out.push(114u8);
            out.push(101u8);
            out.push(97u8);
            out.push(109u8);
            out.push(10u8);
            proof {
                assert(out@ =~= mid + stream_begin_text());
            }
            let ghost mid2 = out@;
            let mut j: usize = 0;
            while j < st.data.len()
                invariant
                    j <= st.data@.len(),
                    out@ == mid2 + st.data@.subrange(0, j as int),
                decreases st.data@.len() - j,
            {
                out.push(st.data[j]);
                proof {
                    assert(out@ =~= mid2 + st.data@.subrange(0, j + 1));
                }
                j += 1;
            }
            proof {
                assert(st.data@.subrange(0, st.data@.len() as int) =~= st.data@);
            }
            out.push(10u8);
            out.push(101u8);
            out.push(110u8);
            out.push(100u8);
            out.push(115u8);
            out.push(116u8);
            out.push(114u8);
            out.push(101u8);
            out.push(97u8);
            out.push(109u8);
            proof {
                if dict_ser_ok(st.info) {
                    assert(out@ =~= old(out)@ + (dict_text(st.info) + stream_begin_text()
                        + st.data@ + stream_end_text()));
                    lemma_prefix_append(
                        old(out)@,
                        dict_text(st.info) + stream_begin_text() + st.data@ + stream_end_text(),
                    );
                }
            }
            Ok(())
        },
    }
}

/// Writes the mapping as `<<`, each entry as `/key value` in stored
/// order, then `>>`.
#[verifier::loop_isolation(false)]
pub fn serialize_dictionary(d: &Dictionary, out: &mut Vec<u8>) -> (r: Result<(), ObjectError>)
    ensures
        old(out)@.is_prefix_of(final(out)@),
        dict_ser_ok(*d) ==> r == Ok::<(), ObjectError>(()) && final(out)@ == old(out)@ + dict_text(
            *d,
        ),
        !dict_ser_ok(*d) ==> r == Err::<(), ObjectError>(ObjectError::EncodingViolation),
    decreases *d,
{
    out.push(60u8);
    out.push(60u8);
    proof {
        assert(out@ =~= old(out)@ + seq![60u8, 60u8]);
        lemma_prefix_append(old(out)@, seq![60u8, 60u8]);
    }
    let n = d.len();
    let mut i: usize = 0;
    while i < n
        invariant
            i <= n,
            n == d@.len(),
            forall|j: int|
                #![trigger d@[j]]
                0 <= j < i ==> is_ascii_chars(d@[j].0@) && prim_ser_ok(d@[j].1),
            out@ + entries_text_from(d@, i as int) == old(out)@ + seq![60u8, 60u8]
                + entries_text_from(d@, 0),
            old(out)@.is_prefix_of(out@),
        decreases n - i,
    {
        let ghost pre = out@;
        let e = d.entry_at(i);
        out.push(47u8);
        let ghost mid = out@;
        match push_plain(out, e.0.as_str()) {
            Ok(()) => {},
            Err(err) => {
                proof {
                    assert(!is_ascii_chars(d@[i as int].0@));
                    assert(!dict_ser_ok(*d));
                    lemma_prefix_append(pre, seq![47u8]);
                    lemma_prefix_trans(old(out)@, pre, mid);
                    lemma_prefix_trans(old(out)@, mid, out@);
                }
                return Err(err);
            },
        }
        out.push(32u8);
        let ghost mid2 = out@;
        proof {
            assert(decreases_to!(*d => d@));
            assert(decreases_to!(d@ => d@[i as int]));
        }
        match serialize_primitive(&e.1, out) {
            Ok(()) => {},
            Err(err) => {
                proof {
                    assert(!prim_ser_ok(d@[i as int].1));
                    assert(!dict_ser_ok(*d));
                    lemma_prefix_append(old(out)@, mid2.subrange(old(out)@.len() as int, mid2.len() as int));
                    assert(old(out)@.is_prefix_of(mid2));
                    lemma_prefix_trans(old(out)@, mid2, out@);
                }
                return Err(err);
            },
        }
        out.push(32u8);
        proof {
            assert(out@ =~= pre + seq![47u8] + plain_bytes(d@[i as int].0@) + seq![32u8]
                + prim_text(d@[i as int].1) + seq![32u8]);
            assert(entries_text_from(d@, i as int) == seq![47u8] + plain_bytes(d@[i as int].0@)
                + seq![32u8] + prim_text(d@[i as int].1) + seq![32u8] + entries_text_from(
                d@,
                i + 1,
            ));
            assert(out@ + entries_text_from(d@, i + 1) =~= pre + entries_text_from(d@, i as int));
            assert(old(out)@ =~= out@.subrange(0, old(out)@.len() as int));
        }
        i += 1;
    }
    out.push(62u8);
    out.push(62u8);
    proof {
        assert(entries_text_from(d@, d@.len() as int) =~= Seq::<u8>::empty());
        assert(out@ =~= old(out)@ + dict_text(*d));
        lemma_prefix_append(old(out)@, dict_text(*d));
    }
    Ok(())
}

impl Object for i32 {
    open spec fn ser_ok(&self) -> bool {
        true
    }

    open spec fn ser_text(&self) -> Seq<u8> {
        int_text(*self as int)
    }

    open spec fn from_ok(p: Primitive) -> bool {
        p matches Primitive::Integer(_)
    }

    open spec fn from_err(p: Primitive) -> ObjectError {
        mismatch(PrimitiveKind::Integer, p.spec_kind())
    }

    open spec fn is_from(p: Primitive, v: Self) -> bool {
        p matches Primitive::Integer(i) && v == i
    }

    fn serialize(&self, out: &mut Vec<u8>) -> (r: Result<(), ObjectError>) {
        push_dec_i32(out, *self);
        proof {
            lemma_prefix_append(old(out)@, int_text(*self as int));
        }
        Ok(())
    }

    fn from_primitive<R: Resolve>(p: Primitive, resolve: &R) -> (r: Result<Self, ObjectError>) {
        p.as_integer()
    }
}

impl Object for usize {
    open spec fn ser_ok(&self) -> bool {
        true
    }

    open spec fn ser_text(&self) -> Seq<u8> {
        dec_text(*self as nat)
    }

    open spec fn from_ok(p: Primitive) -> bool {
        p matches Primitive::Integer(_)
    }

    open spec fn from_err(p: Primitive) -> ObjectError {
        mismatch(PrimitiveKind::Integer, p.spec_kind())
    }

    /// The integer is taken through the signed path and range-cast, as a
    /// plain cast: a negative integer wraps.
    open spec fn is_from(p: Primitive, v: Self) -> bool {
        p matches Primitive::Integer(i) && v == i as usize
    }

    fn serialize(&self, out: &mut Vec<u8>) -> (r: Result<(), ObjectError>) {
        push_dec_u64(out, *self as u64);
        proof {
            lemma_prefix_append(old(out)@, dec_text(*self as nat));
        }
        Ok(())
    }

    fn from_primitive<R: Resolve>(p: Primitive, resolve: &R) -> (r: Result<Self, ObjectError>) {
        match i32::from_primitive(p, resolve) {
            Ok(i) => Ok(#[verifier::truncate] (i as usize)),
            Err(e) => Err(e),
        }
    }
}

impl Object for bool {
    open spec fn ser_ok(&self) -> bool {
        true
    }

    open spec fn ser_text(&self) -> Seq<u8> {
        bool_text(*self)
    }

    open spec fn from_ok(p: Primitive) -> bool {
        p matches Primitive::Boolean(_)
    }

    open spec fn from_err(p: Primitive) -> ObjectError {
        mismatch(PrimitiveKind::Boolean, p.spec_kind())
    }

    open spec fn is_from(p: Primitive, v: Self) -> bool {
        p matches Primitive::Boolean(b) && v == b
    }

    fn serialize(&self, out: &mut Vec<u8>) -> (r: Result<(), ObjectError>) {
        push_bool(out, *self);
        proof {
            lemma_prefix_append(old(out)@, bool_text(*self));
        }
        Ok(())
    }

    fn from_primitive<R: Resolve>(p: Primitive, resolve: &R) -> (r: Result<Self, ObjectError>) {
        p.as_bool()
    }
}

impl Object for String {
    open spec fn ser_ok(&self) -> bool {
        is_ascii_chars(self@)
    }

    open spec fn ser_text(&self) -> Seq<u8> {
        escaped_bytes(self@)
    }

    open spec fn from_ok(p: Primitive) -> bool {
        p matches Primitive::Name(_)
    }

    open spec fn from_err(p: Primitive) -> ObjectError {
        mismatch(PrimitiveKind::Name, p.spec_kind())
    }

    open spec fn is_from(p: Primitive, v: Self) -> bool {
        p matches Primitive::Name(n) && v == n
    }

    fn serialize(&self, out: &mut Vec<u8>) -> (r: Result<(), ObjectError>) {
        push_escaped(out, self.as_str())
    }

    fn from_primitive<R: Resolve>(p: Primitive, resolve: &R) -> (r: Result<Self, ObjectError>) {
        p.as_name()
    }
}

impl Object for Dictionary {
    open spec fn ser_ok(&self) -> bool {
        dict_ser_ok(*self)
    }

    open spec fn ser_text(&self) -> Seq<u8> {
        dict_text(*self)
    }

    open spec fn from_ok(p: Primitive) -> bool {
        p matches Primitive::Dictionary(_)
    }

    open spec fn from_err(p: Primitive) -> ObjectError {
        mismatch(PrimitiveKind::Dictionary, p.spec_kind())
    }

    open spec fn is_from(p: Primitive, v: Self) -> bool {
        p matches Primitive::Dictionary(d) && v == d
    }

    fn serialize(&self, out: &mut Vec<u8>) -> (r: Result<(), ObjectError>) {
        serialize_dictionary(self, out)
    }

    fn from_primitive<R: Resolve>(p: Primitive, resolve: &R) -> (r: Result<Self, ObjectError>) {
        p.as_dictionary()
    }
}

/// The space-separated texts of the elements of `s` from position `i` on.
pub open spec fn seq_text_from<T: Object>(s: Seq<T>, i: int) -> Seq<u8>
    decreases s.len() - i,
{
    if i < 0 || i >= s.len() {
        Seq::empty()
    } else {
        (if i > 0 {
            seq![32u8]
        } else {
            Seq::<u8>::empty()
        }) + s[i].ser_text() + seq_text_from(s, i + 1)
    }
}

/// The index of the first element of `s`, at or after `i`, that does not
/// convert to `T`; the length of `s` when all convert.
pub open spec fn first_fail<T: Object>(s: Seq<Primitive>, i: int) -> int
    decreases s.len() - i,
{
    if i < 0 || i >= s.len() {
        s.len() as int
    } else if !T::from_ok(s[i]) {
        i
    } else {
        first_fail::<T>(s, i + 1)
    }
}

/// The search for a failing element skips over a failure-free range.
pub proof fn lemma_first_fail_skip<T: Object>(s: Seq<Primitive>, a: int, b: int)
    requires
        0 <= a <= b <= s.len(),
        forall|j: int| a <= j < b ==> T::from_ok(#[trigger] s[j]),
    ensures
        first_fail::<T>(s, a) == first_fail::<T>(s, b),
    decreases b - a,
{
    if a < b {
        lemma_first_fail_skip::<T>(s, a + 1, b);
    }
}

impl<T: Object> Object for Vec<T> {
    open spec fn ser_ok(&self) -> bool {
        forall|i: int| 0 <= i < self@.len() ==> (#[trigger] self@[i]).ser_ok()
    }

    open spec fn ser_text(&self) -> Seq<u8> {
        seq![91u8] + seq_text_from(self@, 0) + seq![93u8]
    }

    open spec fn from_ok(p: Primitive) -> bool {
        match p {
            Primitive::Array(vs) => forall|i: int|
                0 <= i < vs@.len() ==> T::from_ok(#[trigger] vs@[i]),
            _ => T::from_ok(p),
        }
    }

    open spec fn from_err(p: Primitive) -> ObjectError {
        match p {
            Primitive::Array(vs) => T::from_err(vs@[first_fail::<T>(vs@, 0)]),
            _ => T::from_err(p),
        }
    }

    /// An array converts element-wise; any other value is coerced to a
    /// one-element sequence when it converts directly.
    open spec fn is_from(p: Primitive, v: Self) -> bool {
        match p {
            Primitive::Array(vs) => v@.len() == vs@.len() && forall|i: int|
                0 <= i < vs@.len() ==> T::is_from(vs@[i], #[trigger] v@[i]),
            _ => v@.len() == 1 && T::is_from(p, v@[0]),
        }
    }

    #[verifier::loop_isolation(false)]
    fn serialize(&self, out: &mut Vec<u8>) -> (r: Result<(), ObjectError>) {
        out.push(91u8);
        proof {
            assert(out@ =~= old(out)@ + seq![91u8]);
            lemma_prefix_append(old(out)@, seq![91u8]);
        }
        let mut i: usize = 0;
        while i < self.len()
            invariant
                i <= self@.len(),
                forall|j: int| 0 <= j < i ==> (#[trigger] self@[j]).ser_ok(),
                out@ + seq_text_from(self@, i as int) == old(out)@ + seq![91u8] + seq_text_from(
                    self@,
                    0,
                ),
                old(out)@.is_prefix_of(out@),
            decreases self@.len() - i,
        {
            let ghost pre = out@;
            if i > 0 {
                out.push(32u8);
            }
            let ghost mid = out@;
            match self[i].serialize(out) {
                Ok(()) => {},
                Err(e) => {
                    proof {
                        assert(!self@[i as int].ser_ok());
                        assert(!self.ser_ok());
                        lemma_prefix_append(pre, mid.subrange(pre.len() as int, mid.len() as int));
                        assert(pre.is_prefix_of(mid));
                        lemma_prefix_trans(old(out)@, pre, mid);
                        lemma_prefix_trans(old(out)@, mid, out@);
                    }
                    return Err(e);
                },
            }
            proof {
                assert(out@ =~= pre + (if i > 0 {
                    seq![32u8]
                } else {
                    Seq::<u8>::empty()
                }) + self@[i as int].ser_text());
                assert(seq_text_from(self@, i as int) == (if i > 0 {
                    seq![32u8]
                } else {
                    Seq::<u8>::empty()
                }) + self@[i as int].ser_text() + seq_text_from(self@, i + 1));
                assert(out@ + seq_text_from(self@, i + 1) =~= pre + seq_text_from(
                    self@,
                    i as int,
                ));
                assert(old(out)@ =~= out@.subrange(0, old(out)@.len() as int));
            }
            i += 1;
        }
        out.push(93u8);
        proof {
            assert(seq_text_from(self@, self@.len() as int) =~= Seq::<u8>::empty());
            assert(out@ =~= old(out)@ + (seq![91u8] + seq_text_from(self@, 0) + seq![93u8]));
            lemma_prefix_append(old(out)@, seq![91u8] + seq_text_from(self@, 0) + seq![93u8]);
        }
        Ok(())
    }

    /// An array is converted element by element, failing fast on the
    /// first element that does not convert; a non-array value is
    /// converted directly and wrapped in a one-element sequence.
    #[verifier::loop_isolation(false)]
    fn from_primitive<R: Resolve>(p: Primitive, resolve: &R) -> (r: Result<Self, ObjectError>) {
        let ghost p0 = p;
        match p {
            Primitive::Array(mut vs) => {
                let ghost varr = vs;
                let ghost orig = vs@;
                let mut res: Vec<T> = Vec::new();
                proof {
                    assert(p0 == Primitive::Array(varr));
                }
                while vs.len() > 0
                    invariant
                        res@.len() + vs@.len() == orig.len(),
                        vs@ == orig.subrange(res@.len() as int, orig.len() as int),
                        forall|j: int|
                            0 <= j < res@.len() ==> T::from_ok(#[trigger] orig[j]) && T::is_from(
                                orig[j],
                                res@[j],
                            ),
                    decreases vs@.len(),
                {
                    let ghost k = res@.len() as int;
                    let q = vs.remove(0);
                    proof {
                        assert(q == orig[k]);
                        assert(vs@ =~= orig.subrange(k + 1, orig.len() as int));
                    }
                    match T::from_primitive(q, resolve) {
                        Ok(v) => {
                            res.push(v);
                        },
                        Err(e) => {
                            proof {
                                assert(!T::from_ok(orig[k]));
                                assert(!Self::from_ok(p0));
                                lemma_first_fail_skip::<T>(orig, 0, k);
                                assert(first_fail::<T>(orig, k) == k);
                                assert(e == T::from_err(orig[k]));
                            }
                            return Err(e);
                        },
                    }
                }
                proof {
                    assert(res@.len() == orig.len());
                    assert(Self::from_ok(p0));
                    assert(Self::is_from(p0, res));
                }
                Ok(res)
            },
            other => {
                proof {
                    assert(p0 == other);
                    assert(!(p0 matches Primitive::Array(_)));
                }
                match T::from_primitive(other, resolve) {
                    Ok(v) => {
                        let mut res: Vec<T> = Vec::new();
                        res.push(v);
                        proof {
                            assert(res@.len() == 1);
                            assert(res@[0] == v);
                        }
                        Ok(res)
                    },
                    Err(e) => Err(e),
                }
            },
        }
    }
}

impl Object for Primitive {
    open spec fn ser_ok(&self) -> bool {
        prim_ser_ok(*self)
    }

    open spec fn ser_text(&self) -> Seq<u8> {
        prim_text(*self)
    }

    /// The identity conversion always succeeds.
    open spec fn from_ok(p: Primitive) -> bool {
        true
    }

    open spec fn from_err(p: Primitive) -> ObjectError {
        arbitrary()
    }

    open spec fn is_from(p: Primitive, v: Self) -> bool {
        v == p
    }

    fn serialize(&self, out: &mut Vec<u8>) -> (r: Result<(), ObjectError>) {
        serialize_primitive(self, out)
    }

    fn from_primitive<R: Resolve>(p: Primitive, resolve: &R) -> (r: Result<Self, ObjectError>) {
        Ok(p)
    }
}

} // verus!
