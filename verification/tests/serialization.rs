use pdf_object::err::ObjectError;
use pdf_object::object::{Object, PlainRef, Ref};
use pdf_object::primitive::{Dictionary, Primitive, Stream};

fn ser<T: Object>(x: &T) -> Vec<u8> {
    let mut out = Vec::new();
    x.serialize(&mut out).unwrap();
    out
}

fn ser_text<T: Object>(x: &T) -> String {
    String::from_utf8(ser(x)).unwrap()
}

#[test]
fn serialize_integers() {
    assert_eq!(ser_text(&0i32), "0");
    assert_eq!(ser_text(&42i32), "42");
    assert_eq!(ser_text(&-123i32), "-123");
    assert_eq!(ser_text(&i32::MIN), "-2147483648");
    assert_eq!(ser_text(&i32::MAX), "2147483647");
}

#[test]
fn serialize_usize() {
    assert_eq!(ser_text(&0usize), "0");
    assert_eq!(ser_text(&9876usize), "9876");
}

#[test]
fn serialize_booleans() {
    assert_eq!(ser_text(&true), "true");
    assert_eq!(ser_text(&false), "false");
}

#[test]
fn serialize_null() {
    assert_eq!(ser_text(&Primitive::Null), "null");
}

#[test]
fn serialize_number_text() {
    assert_eq!(ser_text(&Primitive::Number(String::from("3.14"))), "3.14");
}

#[test]
fn serialize_name() {
    assert_eq!(ser_text(&Primitive::Name(String::from("Type"))), "/Type");
}

#[test]
fn serialize_reference() {
    let pr = PlainRef { id: 12, gen: 3 };
    assert_eq!(ser_text(&pr), "12 3 R");
    assert_eq!(ser_text(&Primitive::Reference(pr)), "12 3 R");
    let r: Ref<i32> = Ref::from_id(7);
    assert_eq!(ser_text(&r), "7 0 R");
}

#[test]
fn reference_text_reparses_to_same_pair() {
    let pr = PlainRef { id: 987654321, gen: 65535 };
    let text = ser_text(&pr);
    let mut parts = text.split_whitespace();
    let id: u64 = parts.next().unwrap().parse().unwrap();
    let gen: u16 = parts.next().unwrap().parse().unwrap();
    assert_eq!(parts.next(), Some("R"));
    assert_eq!(parts.next(), None);
    assert_eq!(PlainRef { id, gen }, pr);
}

#[test]
fn escaping_inserts_backslashes() {
    let s = String::from("a(b)\\c");
    assert_eq!(ser_text(&s), "a\\(b\\)\\\\c");
}

#[test]
fn escaping_leaves_plain_text_alone() {
    let s = String::from("hello world");
    assert_eq!(ser_text(&s), "hello world");
}

#[test]
fn escaping_rejects_non_ascii() {
    let s = String::from("caf\u{e9}");
    let mut out = Vec::new();
    assert_eq!(s.serialize(&mut out), Err(ObjectError::EncodingViolation));
}

#[test]
fn escaping_stops_at_first_wide_character() {
    let mut out = Vec::new();
    let r = pdf_object::text::push_escaped(&mut out, "a(caf\u{e9})x");
    assert_eq!(r, Err(ObjectError::EncodingViolation));
    assert_eq!(out, b"a\\(caf".to_vec());
}

#[test]
fn text_variant_serializes_escaped() {
    let p = Primitive::Text(String::from("a(b)"));
    assert_eq!(ser_text(&p), "a\\(b\\)");
}

#[test]
fn name_rejects_non_ascii() {
    let p = Primitive::Name(String::from("caf\u{e9}"));
    let mut out = Vec::new();
    assert_eq!(p.serialize(&mut out), Err(ObjectError::EncodingViolation));
}

#[test]
fn serialize_array() {
    let p = Primitive::Array(vec![
        Primitive::Integer(1),
        Primitive::Boolean(true),
        Primitive::Name(String::from("x")),
    ]);
    assert_eq!(ser_text(&p), "[1 true /x]");
}

#[test]
fn serialize_empty_array() {
    assert_eq!(ser_text(&Primitive::Array(vec![])), "[]");
}

#[test]
fn serialize_typed_sequence() {
    let v: Vec<i32> = vec![1, 2, 3];
    assert_eq!(ser_text(&v), "[1 2 3]");
}

#[test]
fn mapping_preserves_insertion_order() {
    let mut d = Dictionary::new();
    d.insert(String::from("a"), Primitive::Integer(1));
    d.insert(String::from("b"), Primitive::Integer(2));
    d.insert(String::from("c"), Primitive::Integer(3));
    assert_eq!(ser_text(&d), "<</a 1 /b 2 /c 3 >>");
}

#[test]
fn mapping_overwrites_in_place() {
    let mut d = Dictionary::new();
    d.insert(String::from("a"), Primitive::Integer(1));
    d.insert(String::from("b"), Primitive::Integer(2));
    d.insert(String::from("a"), Primitive::Integer(9));
    assert_eq!(d.len(), 2);
    assert_eq!(ser_text(&d), "<</a 9 /b 2 >>");
}

#[test]
fn serialize_nested_structures() {
    let mut inner = Dictionary::new();
    inner.insert(String::from("n"), Primitive::Integer(5));
    let mut d = Dictionary::new();
    d.insert(String::from("kids"), Primitive::Array(vec![
        Primitive::Reference(PlainRef { id: 3, gen: 0 }),
    ]));
    d.insert(String::from("info"), Primitive::Dictionary(inner));
    assert_eq!(ser_text(&d), "<</kids [3 0 R] /info <</n 5 >> >>");
}

#[test]
fn serialize_stream() {
    let mut info = Dictionary::new();
    info.insert(String::from("Length"), Primitive::Integer(3));
    let st = Stream { info, data: b"abc".to_vec() };
    let p = Primitive::Stream(st);
    assert_eq!(ser_text(&p), "<</Length 3 >>stream\nabc\nendstream");
}

#[test]
fn serialization_appends_to_existing_buffer() {
    let mut out = b"x".to_vec();
    7i32.serialize(&mut out).unwrap();
    assert_eq!(out, b"x7".to_vec());
}
