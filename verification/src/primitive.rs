use crate::err::ObjectError;
use crate::object::PlainRef;
use vstd::prelude::*;

verus! {

broadcast use vstd::std_specs::vec::group_vec_axioms;

/// The variant of a generic value, used to report type mismatches.
#[derive(Clone, Copy, Debug, PartialEq, Eq, Structural)]
pub enum PrimitiveKind {
    Null,
    Integer,
    Number,
    Boolean,
    Text,
    Name,
    Array,
    Dictionary,
    Reference,
    Stream,
}

/// The error reported when a generic value's variant does not match the
/// variant a conversion requires.
pub open spec fn mismatch(expected: PrimitiveKind, found: PrimitiveKind) -> ObjectError {
    ObjectError::TypeMismatch { expected, found }
}

/// A key-ordered mapping from identifiers to generic values.  Insertion
/// order is preserved and keys are unique; a later insertion under an
/// existing key overwrites its value in place.
#[derive(Debug)]
pub struct Dictionary {
    entries: Vec<(String, Primitive)>,
}

/// A binary stream: a header mapping plus a raw payload.
#[derive(Debug)]
pub struct Stream {
    pub info: Dictionary,
    pub data: Vec<u8>,
}

/// The generic tagged-union value every decoded document value takes
/// before it is interpreted as a specific typed value.
///
/// The `Number` variant carries the decimal text of a floating-point
/// number: the verified core holds no floating point, so the numeric
/// interpretation of that text lives with the caller.
#[derive(Debug)]
pub enum Primitive {
    Null,
    Integer(i32),
    Number(String),
    Boolean(bool),
    Text(String),
    Name(String),
    Array(Vec<Primitive>),
    Dictionary(Dictionary),
    Reference(PlainRef),
    Stream(Stream),
}

impl View for Dictionary {
    type V = Seq<(String, Primitive)>;

    closed spec fn view(&self) -> Seq<(String, Primitive)> {
        self.entries@
    }
}

/// The index of the first entry of `s`, at or after `i`, whose key reads
/// `k`; the length of `s` when there is none.
pub open spec fn key_index_from(s: Seq<(String, Primitive)>, k: Seq<char>, i: int) -> int
    decreases s.len() - i,
{
    if i < 0 || i >= s.len() {
        s.len() as int
    } else if s[i].0@ == k {
        i
    } else {
        key_index_from(s, k, i + 1)
    }
}

/// What insertion does to the entries: overwrite in place under an
/// existing key, append under a fresh one.
pub open spec fn spec_insert(
    s: Seq<(String, Primitive)>,
    key: String,
    value: Primitive,
) -> Seq<(String, Primitive)> {
    let i = key_index_from(s, key@, 0);
    if i < s.len() {
        s.update(i, (key, value))
    } else {
        s.push((key, value))
    }
}

impl Dictionary {
    /// Well-formedness: no two entries share a key.
    pub open spec fn wf(&self) -> bool {
        forall|i: int, j: int| 0 <= i < j < self@.len() ==> self@[i].0@ != self@[j].0@
    }

    /// The empty mapping.
    pub fn new() -> (d: Dictionary)
        ensures
            d@ == Seq::<(String, Primitive)>::empty(),
            d.wf(),
    {
        Dictionary { entries: Vec::new() }
    }

    pub fn len(&self) -> (n: usize)
        ensures
            n == self@.len(),
    {
        self.entries.len()
    }

    pub fn entry_at(&self, i: usize) -> (e: &(String, Primitive))
        requires
            i < self@.len(),
        ensures
            *e == self@[i as int],
    {
        &self.entries[i]
    }

    /// Bind `key` to `value`: overwrite the value in place when the key is
    /// already present, append a new entry when it is not.
    #[verifier::loop_isolation(false)]
    pub fn insert(&mut self, key: String, value: Primitive)
        requires
            old(self).wf(),
        ensures
            final(self).wf(),
            final(self)@ == spec_insert(old(self)@, key, value),
    {
        let mut i: usize = 0;
        while i < self.entries.len()
            invariant
                self@ == old(self)@,
                i <= self@.len(),
                forall|j: int| 0 <= j < i ==> self@[j].0@ != key@,
            decreases self@.len() - i,
        {
            if self.entries[i].0 == key {
                proof {
                    lemma_key_index_unfold(self@, key@, 0, i as int);
                    assert(key_index_from(self@, key@, i as int) == i);
                }
                self.entries[i] = (key, value);
                proof {
                    let s = old(self)@;
                    assert(self@ =~= s.update(i as int, (key, value)));
                    assert(spec_insert(s, key, value) == s.update(i as int, (key, value)));
                    assert forall|a: int, b: int|
                        0 <= a < b < self@.len() implies self@[a].0@ != self@[b].0@ by {
                        assert(s[i as int].0@ == key@);
                        if a != i {
                            assert(self@[a] == s[a]);
                        }
                        if b != i {
                            assert(self@[b] == s[b]);
                        }
                    }
                }
                return;
            }
            i += 1;
        }
        proof {
            lemma_key_index_unfold(self@, key@, 0, self@.len() as int);
            assert(key_index_from(self@, key@, 0) == self@.len());
        }
        self.entries.push((key, value));
        proof {
            let s = old(self)@;
            assert forall|a: int, b: int|
                0 <= a < b < self@.len() implies self@[a].0@ != self@[b].0@ by {
                if b < s.len() {
                    assert(self@[a] == s[a] && self@[b] == s[b]);
                } else {
                    assert(self@[b].0@ == key@ && self@[a] == s[a]);
                }
            }
        }
    }
}

/// The key search skips over a match-free range.
proof fn lemma_key_index_unfold(s: Seq<(String, Primitive)>, k: Seq<char>, a: int, b: int)
    requires
        0 <= a <= b <= s.len(),
        forall|j: int| a <= j < b ==> s[j].0@ != k,
    ensures
        key_index_from(s, k, a) == key_index_from(s, k, b),
    decreases b - a,
{
    if a < b {
        lemma_key_index_unfold(s, k, a + 1, b);
    }
}

/// Supports structural `decreases` through a dictionary's entries, the way
/// the corresponding vstd axiom does for a vector and its view.
pub broadcast proof fn lemma_dictionary_decreases(d: Dictionary)
    ensures
        #[trigger] (decreases_to!(d => d@)),
{
    assert(decreases_to!(d => d.entries));
    assert(decreases_to!(d.entries => d.entries@));
}

impl Primitive {
    /// The variant of this value.
    pub open spec fn spec_kind(&self) -> PrimitiveKind {
        match self {
            Primitive::Null => PrimitiveKind::Null,
            Primitive::Integer(_) => PrimitiveKind::Integer,
            Primitive::Number(_) => PrimitiveKind::Number,
            Primitive::Boolean(_) => PrimitiveKind::Boolean,
            Primitive::Text(_) => PrimitiveKind::Text,
            Primitive::Name(_) => PrimitiveKind::Name,
            Primitive::Array(_) => PrimitiveKind::Array,
            Primitive::Dictionary(_) => PrimitiveKind::Dictionary,
            Primitive::Reference(_) => PrimitiveKind::Reference,
            Primitive::Stream(_) => PrimitiveKind::Stream,
        }
    }

    pub fn kind(&self) -> (k: PrimitiveKind)
        ensures
            k == self.spec_kind(),
    {
        match self {
            Primitive::Null => PrimitiveKind::Null,
            Primitive::Integer(_) => PrimitiveKind::Integer,
            Primitive::Number(_) => PrimitiveKind::Number,
            Primitive::Boolean(_) => PrimitiveKind::Boolean,
            Primitive::Text(_) => PrimitiveKind::Text,
            Primitive::Name(_) => PrimitiveKind::Name,
            Primitive::Array(_) => PrimitiveKind::Array,
            Primitive::Dictionary(_) => PrimitiveKind::Dictionary,
            Primitive::Reference(_) => PrimitiveKind::Reference,
            Primitive::Stream(_) => PrimitiveKind::Stream,
        }
    }

    /// The integer this value holds, or a type mismatch.
    pub fn as_integer(self) -> (r: Result<i32, ObjectError>)
        ensures
            self matches Primitive::Integer(i) ==> r == Ok::<i32, ObjectError>(i),
            !(self matches Primitive::Integer(_)) ==> r == Err::<i32, ObjectError>(
                mismatch(PrimitiveKind::Integer, self.spec_kind()),
            ),
    {
        match self {
            Primitive::Integer(i) => Ok(i),
            other => Err(ObjectError::TypeMismatch {
                expected: PrimitiveKind::Integer,
                found: other.kind(),
            }),
        }
    }

    /// The decimal text of the number this value holds, or a type mismatch.
    pub fn as_number(self) -> (r: Result<String, ObjectError>)
        ensures
            self matches Primitive::Number(s) ==> (r matches Ok(t) && t == s),
            !(self matches Primitive::Number(_)) ==> r == Err::<String, ObjectError>(
                mismatch(PrimitiveKind::Number, self.spec_kind()),
            ),
    {
        match self {
            Primitive::Number(s) => Ok(s),
            other => Err(ObjectError::TypeMismatch {
                expected: PrimitiveKind::Number,
                found: other.kind(),
            }),
        }
    }

    /// The boolean this value holds, or a type mismatch.
    pub fn as_bool(self) -> (r: Result<bool, ObjectError>)
        ensures
            self matches Primitive::Boolean(b) ==> r == Ok::<bool, ObjectError>(b),
            !(self matches Primitive::Boolean(_)) ==> r == Err::<bool, ObjectError>(
                mismatch(PrimitiveKind::Boolean, self.spec_kind()),
            ),
    {
        match self {
            Primitive::Boolean(b) => Ok(b),
            other => Err(ObjectError::TypeMismatch {
                expected: PrimitiveKind::Boolean,
                found: other.kind(),
            }),
        }
    }

    /// The identifier this value holds, or a type mismatch.
    pub fn as_name(self) -> (r: Result<String, ObjectError>)
        ensures
            self matches Primitive::Name(n) ==> (r matches Ok(t) && t == n),
            !(self matches Primitive::Name(_)) ==> r == Err::<String, ObjectError>(
                mismatch(PrimitiveKind::Name, self.spec_kind()),
            ),
    {
        match self {
            Primitive::Name(n) => Ok(n),
            other => Err(ObjectError::TypeMismatch {
                expected: PrimitiveKind::Name,
                found: other.kind(),
            }),
        }
    }

    /// The indirect reference this value holds, or a type mismatch.
    pub fn as_reference(self) -> (r: Result<PlainRef, ObjectError>)
        ensures
            self matches Primitive::Reference(pr) ==> r == Ok::<PlainRef, ObjectError>(pr),
            !(self matches Primitive::Reference(_)) ==> r == Err::<PlainRef, ObjectError>(
                mismatch(PrimitiveKind::Reference, self.spec_kind()),
            ),
    {
        match self {
            Primitive::Reference(pr) => Ok(pr),
            other => Err(ObjectError::TypeMismatch {
                expected: PrimitiveKind::Reference,
                found: other.kind(),
            }),
        }
    }

    /// The elements of the array this value holds, or a type mismatch.
    pub fn as_array(self) -> (r: Result<Vec<Primitive>, ObjectError>)
        ensures
            self matches Primitive::Array(vs) ==> (r matches Ok(w) && w == vs),
            !(self matches Primitive::Array(_)) ==> r == Err::<Vec<Primitive>, ObjectError>(
                mismatch(PrimitiveKind::Array, self.spec_kind()),
            ),
    {
        match self {
            Primitive::Array(vs) => Ok(vs),
            other => Err(ObjectError::TypeMismatch {
                expected: PrimitiveKind::Array,
                found: other.kind(),
            }),
        }
    }

    /// The mapping this value holds, or a type mismatch.
    pub fn as_dictionary(self) -> (r: Result<Dictionary, ObjectError>)
        ensures
            self matches Primitive::Dictionary(d) ==> (r matches Ok(e) && e == d),
            !(self matches Primitive::Dictionary(_)) ==> r == Err::<Dictionary, ObjectError>(
                mismatch(PrimitiveKind::Dictionary, self.spec_kind()),
            ),
    {
        match self {
            Primitive::Dictionary(d) => Ok(d),
            other => Err(ObjectError::TypeMismatch {
                expected: PrimitiveKind::Dictionary,
                found: other.kind(),
            }),
        }
    }
}

} // verus!
