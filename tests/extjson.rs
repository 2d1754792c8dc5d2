use bson_core::binary::{Binary, Error as BinaryError};
use bson_core::de::{from_reader, variant_payload, BytesOrValue, DeError, Deserializer, DeserializerHint, NewtypeKind, ReadError, VariantShape};
use bson_core::extjson::{from_document, parse_i32_text, parse_i64_text, ExtJsonError, SpecialKey, TextParsers};
use bson_core::ser::SerializerOptions;
use bson_core::spec::BinarySubtype;
use bson_core::types::{ObjectId, OidError};
use bson_core::value::{convert_unsigned_to_signed, Bson, ConversionError, Document};

fn parse_double(s: &str) -> Option<u64> {
    s.parse::<f64>().ok().map(|f| f.to_bits())
}

fn d(entries: Vec<(&str, Bson)>) -> Document {
    Document { entries: entries.into_iter().map(|(k, v)| (k.to_string(), v)).collect() }
}

fn s(t: &str) -> Bson {
    Bson::String(t.to_string())
}

// a stand-in decimal reader: "1" is the decimal one, anything else is refused
fn parse_decimal(s: &str) -> Option<[u8; 16]> {
    if s == "1" {
        let mut b = [0u8; 16];
        b[0] = 1;
        b[15] = 0x30;
        b[14] = 0x40;
        Some(b)
    } else {
        None
    }
}

// a stand-in date reader: "epoch+5" is five milliseconds after the epoch
fn parse_date(s: &str) -> Option<i64> {
    if s == "epoch+5" {
        Some(5)
    } else {
        None
    }
}

fn resolve(doc: Document) -> Result<Bson, ExtJsonError> {
    from_document(doc, &TextParsers { double: parse_double, decimal: parse_decimal, date: parse_date })
}

#[test]
fn unsigned_demotion() {
    assert_eq!(convert_unsigned_to_signed(4294967295), Ok(Bson::Int64(4294967295)));
    assert_eq!(convert_unsigned_to_signed(2147483647), Ok(Bson::Int32(2147483647)));
    assert_eq!(convert_unsigned_to_signed(2147483648), Ok(Bson::Int64(2147483648)));
    assert_eq!(convert_unsigned_to_signed(0), Ok(Bson::Int32(0)));
    assert_eq!(
        convert_unsigned_to_signed(u64::MAX),
        Err(ConversionError::TooLarge { value: u64::MAX })
    );
}

#[test]
fn code_with_scope_pairs() {
    let r = resolve(d(vec![("$code", s("foo")), ("$scope", Bson::Document(Document::new()))]));
    match r {
        Ok(Bson::JavaScriptCodeWithScope(c)) => {
            assert_eq!(c.code, "foo");
            assert!(c.scope.entries.is_empty());
        }
        other => panic!("{:?}", other),
    }
    let r = resolve(d(vec![("$scope", Bson::Document(Document::new())), ("$code", s("foo"))]));
    assert!(matches!(r, Ok(Bson::JavaScriptCodeWithScope(_))));
    assert_eq!(resolve(d(vec![("$code", s("foo"))])), Ok(Bson::JavaScriptCode("foo".to_string())));
}

#[test]
fn code_with_unknown_sibling_is_refused() {
    let r = resolve(d(vec![("$code", s("foo")), ("bar", Bson::Int32(1))]));
    assert_eq!(r, Err(ExtJsonError::UnknownField { key: "bar".to_string() }));
    let r = resolve(d(vec![("$scope", Bson::Document(Document::new()))]));
    assert_eq!(r, Err(ExtJsonError::MissingField { key: SpecialKey::Code }));
}

#[test]
fn near_special_key_is_plain() {
    let r = resolve(d(vec![("$oidish", s("x"))]));
    assert_eq!(r, Ok(Bson::Document(d(vec![("$oidish", s("x"))]))));
    let r = resolve(d(vec![("a", Bson::Int32(1)), ("$oid", s("zz"))]));
    assert_eq!(r, Ok(Bson::Document(d(vec![("a", Bson::Int32(1)), ("$oid", s("zz"))]))));
}

#[test]
fn nested_values_are_resolved() {
    let inner = d(vec![("$numberInt", s("5"))]);
    let r = resolve(d(vec![("a", Bson::Document(inner)), ("b", Bson::Array(vec![Bson::Document(d(vec![("$symbol", s("q"))]))]))]));
    assert_eq!(
        r,
        Ok(Bson::Document(d(vec![("a", Bson::Int32(5)), ("b", Bson::Array(vec![Bson::Symbol("q".to_string())]))])))
    );
}

#[test]
fn number_double_words() {
    let bits = |t: &str| match resolve(d(vec![("$numberDouble", s(t))])) {
        Ok(Bson::Double(b)) => b,
        other => panic!("{:?}", other),
    };
    assert_eq!(bits("Infinity"), f64::INFINITY.to_bits());
    assert_eq!(bits("-Infinity"), f64::NEG_INFINITY.to_bits());
    assert!(f64::from_bits(bits("NaN")).is_nan());
    assert_eq!(bits("1.5"), 1.5f64.to_bits());
    assert_eq!(
        resolve(d(vec![("$numberDouble", s("x1"))])),
        Err(ExtJsonError::InvalidValue { key: SpecialKey::NumberDouble })
    );
}

#[test]
fn number_int_and_long() {
    assert_eq!(resolve(d(vec![("$numberInt", s("-42"))])), Ok(Bson::Int32(-42)));
    assert_eq!(
        resolve(d(vec![("$numberInt", s("2147483648"))])),
        Err(ExtJsonError::InvalidValue { key: SpecialKey::NumberInt })
    );
    assert_eq!(resolve(d(vec![("$numberLong", s("-9223372036854775808"))])), Ok(Bson::Int64(i64::MIN)));
    assert_eq!(
        resolve(d(vec![("$numberLong", s("9223372036854775808"))])),
        Err(ExtJsonError::InvalidValue { key: SpecialKey::NumberLong })
    );
    assert_eq!(parse_i32_text(b"+7"), Some(7));
    assert_eq!(parse_i32_text(b""), None);
    assert_eq!(parse_i32_text(b"-"), None);
    assert_eq!(parse_i64_text(b"12a"), None);
}

#[test]
fn oid_binary_uuid_and_markers() {
    match resolve(d(vec![("$oid", s("56e1fc72e0c917e9c4714161"))])) {
        Ok(Bson::ObjectId(o)) => assert_eq!(hex::encode(o.bytes), "56e1fc72e0c917e9c4714161"),
        other => panic!("{:?}", other),
    }
    assert_eq!(
        resolve(d(vec![("$oid", s("56e1fc72"))])),
        Err(ExtJsonError::InvalidValue { key: SpecialKey::Oid })
    );
    let body = d(vec![("base64", s("aGVsbG8=")), ("subType", s("80"))]);
    match resolve(d(vec![("$binary", Bson::Document(body))])) {
        Ok(Bson::Binary(b)) => {
            assert_eq!(b.bytes, b"hello".to_vec());
            assert_eq!(b.subtype, BinarySubtype::UserDefined(0x80));
        }
        other => panic!("{:?}", other),
    }
    match resolve(d(vec![("$uuid", s("73ffd264-44b3-4c69-90e8-e7d1dfc035d4"))])) {
        Ok(Bson::Binary(b)) => {
            assert_eq!(b.subtype, BinarySubtype::Uuid);
            assert_eq!(hex::encode(&b.bytes), "73ffd26444b34c6990e8e7d1dfc035d4");
        }
        other => panic!("{:?}", other),
    }
    assert_eq!(resolve(d(vec![("$maxKey", Bson::Int32(1))])), Ok(Bson::MaxKey));
    assert_eq!(resolve(d(vec![("$minKey", Bson::Int32(1))])), Ok(Bson::MinKey));
    assert_eq!(resolve(d(vec![("$undefined", Bson::Boolean(true))])), Ok(Bson::Undefined));
    assert_eq!(
        resolve(d(vec![("$maxKey", Bson::Int32(2))])),
        Err(ExtJsonError::InvalidValue { key: SpecialKey::MaxKey })
    );
}

#[test]
fn timestamp_regex_date_pointer() {
    let ts = d(vec![("t", Bson::Int32(123)), ("i", Bson::Int64(42))]);
    match resolve(d(vec![("$timestamp", Bson::Document(ts))])) {
        Ok(Bson::Timestamp(t)) => {
            assert_eq!(t.time, 123);
            assert_eq!(t.increment, 42);
        }
        other => panic!("{:?}", other),
    }
    let re = d(vec![("pattern", s("ab")), ("options", s("xmi"))]);
    match resolve(d(vec![("$regularExpression", Bson::Document(re))])) {
        Ok(Bson::RegularExpression(r)) => {
            assert_eq!(r.pattern, "ab");
            assert_eq!(r.options, "imx");
        }
        other => panic!("{:?}", other),
    }
    let date = d(vec![("$numberLong", s("1356351330001"))]);
    match resolve(d(vec![("$date", Bson::Document(date))])) {
        Ok(Bson::DateTime(t)) => assert_eq!(t.millis, 1356351330001),
        other => panic!("{:?}", other),
    }
    let id = d(vec![("$oid", s("56e1fc72e0c917e9c4714161"))]);
    let p = d(vec![("$ref", s("db.c")), ("$id", Bson::Document(id))]);
    match resolve(d(vec![("$dbPointer", Bson::Document(p))])) {
        Ok(Bson::DbPointer(p)) => assert_eq!(p.namespace, "db.c"),
        other => panic!("{:?}", other),
    }
    let mut dec = vec![0u8; 16];
    dec[15] = 0x30;
    match resolve(d(vec![("$numberDecimalBytes", Bson::Binary(Binary { subtype: BinarySubtype::Generic, bytes: dec.clone() }))])) {
        Ok(Bson::Decimal128(x)) => assert_eq!(x.bytes.to_vec(), dec),
        other => panic!("{:?}", other),
    }
}

#[test]
fn binary_from_base64() {
    let b = Binary::from_base64("aGVsbG8=", None).unwrap();
    assert_eq!(b.bytes, b"hello".to_vec());
    assert_eq!(b.subtype, BinarySubtype::Generic);
    let b = Binary::from_base64("", Some(BinarySubtype::Md5)).unwrap();
    assert!(b.bytes.is_empty());
    assert_eq!(b.subtype, BinarySubtype::Md5);
    assert!(matches!(Binary::from_base64("a", None), Err(BinaryError::DecodingError { .. })));
    let raw = b.as_raw_binary();
    assert_eq!(raw.to_binary(), b);
}

#[test]
fn object_id_from_hex() {
    let o = ObjectId::parse_str("56E1FC72e0c917e9c4714161").unwrap();
    assert_eq!(o.bytes(), [0x56, 0xE1, 0xFC, 0x72, 0xE0, 0xC9, 0x17, 0xE9, 0xC4, 0x71, 0x41, 0x61]);
    assert_eq!(ObjectId::parse_str("56e1"), Err(OidError::InvalidLength));
    assert_eq!(ObjectId::parse_str("zz"), Err(OidError::InvalidHexString));
}

#[test]
fn deserializer_decisions() {
    let mut de = Deserializer::new(Bson::Binary(Binary { subtype: BinarySubtype::Generic, bytes: vec![1] }));
    assert!(matches!(
        de.take_checked(DeserializerHint::BinarySubtype(BinarySubtype::Uuid)),
        Err(DeError::UnexpectedSubtype { expected: BinarySubtype::Uuid, actual: BinarySubtype::Generic })
    ));
    assert_eq!(de.take_checked(DeserializerHint::NoHint), Err(DeError::EndOfStream));
    let mut de = Deserializer::new(Bson::Null);
    assert_eq!(de.take_option(), Ok(None));
    let mut de = Deserializer::new(Bson::Document(d(vec![("V", Bson::Int32(1))])));
    assert_eq!(
        Deserializer::new(Bson::Binary(Binary { subtype: BinarySubtype::Md5, bytes: vec![] }))
            .take_checked(DeserializerHint::BinarySubtype(BinarySubtype::Uuid)),
        Err(DeError::UnexpectedSubtype { expected: BinarySubtype::Uuid, actual: BinarySubtype::Md5 })
    );
    assert_eq!(de.take_enum(), Ok(("V".to_string(), Some(Bson::Int32(1)))));
    let mut de = Deserializer::new(Bson::Document(Document::new()));
    assert_eq!(de.take_enum(), Err(DeError::EmptyEnumDocument));
    let mut de = Deserializer::new(Bson::Document(d(vec![("V", Bson::Int32(1)), ("W", Bson::Null)])));
    assert_eq!(de.take_enum(), Err(DeError::ExtraEnumKey { key: "W".to_string() }));
    let mut de = Deserializer::new(s("Unit"));
    assert_eq!(de.take_enum(), Ok(("Unit".to_string(), None)));
    let mut de = Deserializer::new(Bson::Int32(3));
    assert_eq!(de.take_enum(), Err(DeError::NotAnEnum));
}

#[test]
fn reader_takes_declared_length() {
    let mut stream = hex::decode("0C0000001061000100000000").unwrap();
    stream.extend_from_slice(&[9, 9, 9]);
    let doc = from_reader(&stream).unwrap();
    assert_eq!(doc.entries[0].1, Bson::Int32(1));
    assert_eq!(from_reader(&[1, 0]).err(), Some(ReadError::UnexpectedEof));
    assert_eq!(from_reader(&[4, 0, 0, 0]).err(), Some(ReadError::SizeTooSmall));
    assert_eq!(from_reader(&[12, 0, 0, 0, 0]).err(), Some(ReadError::UnexpectedEof));
}

#[test]
fn serializer_options_builder() {
    let o = SerializerOptions::builder().human_readable(Some(false)).build();
    assert_eq!(o.human_readable, Some(false));
    assert!(!o.is_human_readable());
    assert!(SerializerOptions::builder().build().is_human_readable());
}

#[test]
fn scope_before_code_keeps_the_scope() {
    let scope = d(vec![("x", Bson::Int32(1))]);
    let r = resolve(d(vec![("$scope", Bson::Document(scope)), ("$code", s("f"))]));
    match r {
        Ok(Bson::JavaScriptCodeWithScope(c)) => {
            assert_eq!(c.code, "f");
            assert_eq!(c.scope, d(vec![("x", Bson::Int32(1))]));
        }
        other => panic!("{:?}", other),
    }
    let r = resolve(d(vec![("$scope", Bson::Document(Document::new())), ("k", s("f"))]));
    assert_eq!(r, Err(ExtJsonError::UnknownField { key: "k".to_string() }));
    let r = resolve(d(vec![("$scope", Bson::Document(Document::new())), ("$code", Bson::Int32(1))]));
    assert_eq!(r, Err(ExtJsonError::InvalidValue { key: SpecialKey::Code }));
}

#[test]
fn plain_tree_comes_back_unchanged() {
    let inner = d(vec![("b", Bson::Array(vec![Bson::Int32(1), Bson::Document(d(vec![("c", s("x"))]))]))]);
    let r = resolve(d(vec![("a", Bson::Document(inner)), ("$oidish", s("x"))]));
    let expected = d(vec![
        ("a", Bson::Document(d(vec![("b", Bson::Array(vec![Bson::Int32(1), Bson::Document(d(vec![("c", s("x"))]))]))]))),
        ("$oidish", s("x")),
    ]);
    assert_eq!(r, Ok(Bson::Document(expected)));
}

#[test]
fn newtype_hints() {
    let mut de = Deserializer::new(Bson::Document(Document::new()));
    assert_eq!(de.newtype_hint(NewtypeKind::RawDocument), Ok(DeserializerHint::RawBson));
    assert_eq!(de.newtype_hint(NewtypeKind::RawArray), Err(DeError::ExpectedRawArray));
    assert_eq!(de.newtype_hint(NewtypeKind::Uuid), Ok(DeserializerHint::BinarySubtype(BinarySubtype::Uuid)));
    let mut de = Deserializer::new(Bson::Array(vec![]));
    assert_eq!(de.newtype_hint(NewtypeKind::RawDocument), Err(DeError::ExpectedRawDocument));
    assert_eq!(de.newtype_hint(NewtypeKind::Other), Ok(DeserializerHint::NoHint));
}

#[test]
fn decimal_and_date_text_use_the_readers() {
    match resolve(d(vec![("$numberDecimal", s("1"))])) {
        Ok(Bson::Decimal128(x)) => assert_eq!(x.bytes, parse_decimal("1").unwrap()),
        other => panic!("{:?}", other),
    }
    assert_eq!(
        resolve(d(vec![("$numberDecimal", s("one"))])),
        Err(ExtJsonError::InvalidValue { key: SpecialKey::NumberDecimal })
    );
    match resolve(d(vec![("$date", s("epoch+5"))])) {
        Ok(Bson::DateTime(t)) => assert_eq!(t.millis, 5),
        other => panic!("{:?}", other),
    }
    assert_eq!(
        resolve(d(vec![("$date", s("yesterday"))])),
        Err(ExtJsonError::InvalidValue { key: SpecialKey::Date })
    );
}

#[test]
fn oid_bytes_must_be_generic_binary() {
    let bytes = vec![7u8; 12];
    assert!(matches!(
        resolve(d(vec![("$oid", Bson::Binary(Binary { subtype: BinarySubtype::Generic, bytes: bytes.clone() }))])),
        Ok(Bson::ObjectId(_))
    ));
    assert_eq!(
        resolve(d(vec![("$oid", Bson::Binary(Binary { subtype: BinarySubtype::Md5, bytes }))])),
        Err(ExtJsonError::InvalidValue { key: SpecialKey::Oid })
    );
}

#[test]
fn variant_payload_shapes() {
    assert_eq!(variant_payload(VariantShape::Unit, None), Ok(None));
    assert_eq!(variant_payload(VariantShape::Unit, Some(Bson::Null)), Err(DeError::UnexpectedPayload));
    assert_eq!(variant_payload(VariantShape::Tuple, None), Err(DeError::EndOfStream));
    assert_eq!(variant_payload(VariantShape::Tuple, Some(Bson::Array(vec![]))), Ok(Some(Bson::Array(vec![]))));
    assert_eq!(variant_payload(VariantShape::Tuple, Some(Bson::Null)), Err(DeError::ExpectedTupleVariant));
    assert_eq!(variant_payload(VariantShape::Struct, Some(Bson::Array(vec![]))), Err(DeError::ExpectedStructVariant));
    assert_eq!(variant_payload(VariantShape::Newtype, Some(Bson::Int32(1))), Ok(Some(Bson::Int32(1))));
}

#[test]
fn object_id_as_bytes_when_not_human_readable() {
    let o = ObjectId::from_bytes([1; 12]);
    let mut de = Deserializer::new(Bson::ObjectId(o));
    de.human_readable = false;
    assert_eq!(de.take_bytes(), Ok(BytesOrValue::Bytes([1; 12])));
    let mut de = Deserializer::new(Bson::ObjectId(o));
    assert_eq!(de.take_bytes(), Ok(BytesOrValue::Value(Bson::ObjectId(o))));
    let mut de = Deserializer::new(Bson::ObjectId(o));
    de.human_readable = false;
    assert_eq!(de.newtype_hint(NewtypeKind::HumanReadable), Ok(DeserializerHint::NoHint));
    assert!(de.human_readable);
}
