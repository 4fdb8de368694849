use pdf_object::err::ObjectError;
use pdf_object::object::{NoResolve, Object, PlainRef, Ref, Resolve};
use pdf_object::primitive::{Dictionary, Primitive, PrimitiveKind};

fn mismatch(expected: PrimitiveKind, found: PrimitiveKind) -> ObjectError {
    ObjectError::TypeMismatch { expected, found }
}

fn ser<T: Object>(x: &T) -> Vec<u8> {
    let mut out = Vec::new();
    x.serialize(&mut out).unwrap();
    out
}

#[test]
fn integer_round_trip() {
    for i in [0i32, 5, -7, i32::MIN, i32::MAX] {
        assert_eq!(i32::from_primitive(Primitive::Integer(i), &NoResolve {}), Ok(i));
    }
}

#[test]
fn boolean_round_trip() {
    assert_eq!(bool::from_primitive(Primitive::Boolean(true), &NoResolve {}), Ok(true));
    assert_eq!(bool::from_primitive(Primitive::Boolean(false), &NoResolve {}), Ok(false));
}

#[test]
fn float_round_trip_through_number_text() {
    for x in [0.5f32, -2.25, 13.37, 1e10, 0.0] {
        let p = Primitive::Number(x.to_string());
        let text = p.as_number().unwrap();
        let back: f32 = text.parse().unwrap();
        assert_eq!(back, x);
    }
}

#[test]
fn number_requires_number_variant() {
    let r = Primitive::Boolean(true).as_number();
    assert_eq!(r, Err(mismatch(PrimitiveKind::Number, PrimitiveKind::Boolean)));
}

#[test]
fn usize_from_integer() {
    assert_eq!(usize::from_primitive(Primitive::Integer(5), &NoResolve {}), Ok(5usize));
}

#[test]
fn usize_range_cast_wraps_negative() {
    let r = usize::from_primitive(Primitive::Integer(-1), &NoResolve {});
    assert_eq!(r, Ok(-1i32 as usize));
}

#[test]
fn string_from_name() {
    let p = Primitive::Name(String::from("Hello"));
    assert_eq!(String::from_primitive(p, &NoResolve {}), Ok(String::from("Hello")));
}

#[test]
fn string_requires_name_variant() {
    let p = Primitive::Text(String::from("Hello"));
    assert_eq!(
        String::from_primitive(p, &NoResolve {}),
        Err(mismatch(PrimitiveKind::Name, PrimitiveKind::Text))
    );
}

#[test]
fn type_mismatch_boolean_to_integer() {
    let r = i32::from_primitive(Primitive::Boolean(true), &NoResolve {});
    assert_eq!(r, Err(mismatch(PrimitiveKind::Integer, PrimitiveKind::Boolean)));
}

#[test]
fn type_mismatch_integer_to_boolean() {
    let r = bool::from_primitive(Primitive::Integer(1), &NoResolve {});
    assert_eq!(r, Err(mismatch(PrimitiveKind::Boolean, PrimitiveKind::Integer)));
}

#[test]
fn reference_from_primitive() {
    let pr = PlainRef { id: 12, gen: 3 };
    assert_eq!(PlainRef::from_primitive(Primitive::Reference(pr), &NoResolve {}), Ok(pr));
    assert_eq!(
        PlainRef::from_primitive(Primitive::Integer(12), &NoResolve {}),
        Err(mismatch(PrimitiveKind::Reference, PrimitiveKind::Integer))
    );
}

#[test]
fn typed_reference_construction() {
    let pr = PlainRef { id: 9, gen: 2 };
    let r: Ref<i32> = Ref::new(pr);
    assert_eq!(r.get_inner(), pr);
    let r2: Ref<bool> = Ref::from_id(7);
    assert_eq!(r2.get_inner(), PlainRef { id: 7, gen: 0 });
    let r3 = r;
    assert_eq!(r3.get_inner(), pr);
}

#[test]
fn typed_reference_from_primitive() {
    let pr = PlainRef { id: 4, gen: 1 };
    let r: Ref<i32> = Ref::from_primitive(Primitive::Reference(pr), &NoResolve {}).unwrap();
    assert_eq!(r.get_inner(), pr);
    let bad: Result<Ref<i32>, _> = Ref::from_primitive(Primitive::Null, &NoResolve {});
    assert!(matches!(
        bad,
        Err(ObjectError::TypeMismatch {
            expected: PrimitiveKind::Reference,
            found: PrimitiveKind::Null,
        })
    ));
}

#[test]
fn singleton_coercion_wraps_single_value() {
    let r: Vec<i32> = Vec::from_primitive(Primitive::Integer(7), &NoResolve {}).unwrap();
    assert_eq!(r, vec![7]);
}

#[test]
fn singleton_coercion_fails_like_element() {
    let r: Result<Vec<i32>, _> = Vec::from_primitive(Primitive::Boolean(true), &NoResolve {});
    assert_eq!(r, Err(mismatch(PrimitiveKind::Integer, PrimitiveKind::Boolean)));
}

#[test]
fn array_converts_elementwise() {
    let p = Primitive::Array(vec![
        Primitive::Integer(1),
        Primitive::Integer(2),
        Primitive::Integer(3),
    ]);
    let r: Vec<i32> = Vec::from_primitive(p, &NoResolve {}).unwrap();
    assert_eq!(r, vec![1, 2, 3]);
}

#[test]
fn array_fail_fast_returns_middle_error() {
    // The failing middle element's error comes back, not the error the
    // later element would give.
    let p = Primitive::Array(vec![
        Primitive::Integer(1),
        Primitive::Boolean(true),
        Primitive::Name(String::from("x")),
    ]);
    let r: Result<Vec<i32>, _> = Vec::from_primitive(p, &NoResolve {});
    assert_eq!(r, Err(mismatch(PrimitiveKind::Integer, PrimitiveKind::Boolean)));
}

#[test]
fn empty_array_converts_to_empty_sequence() {
    let r: Vec<i32> = Vec::from_primitive(Primitive::Array(vec![]), &NoResolve {}).unwrap();
    assert_eq!(r, Vec::<i32>::new());
}

#[test]
fn forbidding_resolver_always_fails() {
    for (id, gen) in [(0u64, 0u16), (1, 0), (u64::MAX, u16::MAX)] {
        let r = NoResolve {}.resolve(PlainRef { id, gen });
        assert!(matches!(r, Err(ObjectError::ReferenceResolutionForbidden)));
    }
}

struct TableResolver;

impl Resolve for TableResolver {
    // The contract members are ghost in the library; after erasure they
    // are ordinary required items, satisfied trivially here.
    fn resolve_req(&self, _r: PlainRef) -> bool {
        true
    }

    fn resolve_ens(&self, _r: PlainRef, _res: Result<Primitive, ObjectError>) -> bool {
        true
    }

    fn resolve(&self, r: PlainRef) -> Result<Primitive, ObjectError> {
        if r.id == 1 {
            Ok(Primitive::Integer(42))
        } else {
            Err(ObjectError::ReferenceResolutionFailed)
        }
    }
}

#[test]
fn custom_resolver_serves_as_capability() {
    let res = TableResolver;
    let v = res.resolve(PlainRef { id: 1, gen: 0 }).unwrap();
    assert_eq!(i32::from_primitive(v, &NoResolve {}), Ok(42));
}

#[test]
fn plain_function_serves_as_resolver() {
    fn table(r: PlainRef) -> Result<Primitive, ObjectError> {
        Ok(Primitive::Integer(r.id as i32))
    }
    let v = table.resolve(PlainRef { id: 5, gen: 0 }).unwrap();
    assert_eq!(i32::from_primitive(v, &NoResolve {}), Ok(5));
}

#[test]
fn resolution_failure_is_reported() {
    let res = TableResolver;
    let r = res.resolve(PlainRef { id: 2, gen: 0 });
    assert!(matches!(r, Err(ObjectError::ReferenceResolutionFailed)));
}

#[test]
fn identity_conversion_returns_input() {
    let p = Primitive::Integer(9);
    let q = Primitive::from_primitive(p, &NoResolve {}).unwrap();
    assert_eq!(ser(&q), b"9".to_vec());
}

#[test]
fn dictionary_from_primitive() {
    let mut d = Dictionary::new();
    d.insert(String::from("a"), Primitive::Integer(1));
    let expected = ser(&d);
    let d2 = Dictionary::from_primitive(Primitive::Dictionary(d), &NoResolve {}).unwrap();
    assert_eq!(ser(&d2), expected);
}

#[test]
fn dictionary_requires_mapping_variant() {
    let r = Dictionary::from_primitive(Primitive::Null, &NoResolve {});
    assert!(matches!(
        r,
        Err(ObjectError::TypeMismatch {
            expected: PrimitiveKind::Dictionary,
            found: PrimitiveKind::Null,
        })
    ));
}
