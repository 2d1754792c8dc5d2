use bson_core::array::ValueAccessErrorKind;
use bson_core::owned::{from_slice, OwnedError};
use bson_core::raw::{RawArray, RawBsonRef, RawDocument, RawError};
use bson_core::spec::{BinarySubtype, ElementType};
use bson_core::value::{Bson, Document};

fn bytes(h: &str) -> Vec<u8> {
    hex::decode(h.replace(' ', "")).unwrap()
}

fn round_trip(h: &str) {
    let b = bytes(h);
    let doc = from_slice(&b).expect(h);
    let out = doc.to_vec().expect(h);
    assert_eq!(hex::encode_upper(&out), hex::encode_upper(&b), "{}", h);
}

#[test]
fn run() {
    // int32, int64, double, string, boolean, null, nested document, array,
    // binary (generic and old), object id, datetime, timestamp, regex,
    // code, code with scope, symbol, decimal128, undefined, min and max keys,
    // db pointer
    let canonical = [
        "0C0000001061000100000000",
        "10000000126100FFFFFFFFFFFFFF7F00",
        "10000000016400000000000000F03F00",
        "0E00000002610002000000620000",
        "090000000862000100",
        "080000000A610000",
        "140000000378000C000000107900010000000000",
        "1B0000000461001300000010300001000000103100020000000000",
        "0F0000000578000200000000FFFF00",
        "13000000057800060000000202000000FFFF00",
        "1400000007610056E1FC72E0C917E9C471416100",
        "10000000096100D1D6D6CC3B01000000",
        "100000001161002A00000015CD5B0700",
        "0F0000000B610061626300696D0000",
        "0E0000000D610002000000620000",
        "170000000F61000F000000020000006200050000000000",
        "0E0000000E610002000000620000",
        "180000001364000000000000000000000000000000403000",
        "0800000006610000",
        "080000007F610000",
        "08000000FF610000",
        "1A0000000C610002000000620056E1FC72E0C917E9C471416100",
    ];
    for h in canonical.iter() {
        round_trip(h);
    }
    let decode_errors = [
        "0C00000010610001000000",
        "090000000862000200",
        "0C0000002061000100000000",
        "0D000000026100FFFFFFFF0000",
        "0E00000002610002000000FF0000",
        "0C0000001061000100000001",
    ];
    for h in decode_errors.iter() {
        assert!(from_slice(&bytes(h)).is_err(), "{}", h);
    }
}

#[test]
fn canonical_int32_document_reads_key() {
    let b = bytes("0C 00 00 00 10 61 00 01 00 00 00 00");
    let d = RawDocument::from_bytes(&b).unwrap();
    match d.get("a").unwrap() {
        Some(RawBsonRef::Int32(1)) => {}
        _ => panic!("expected Int32(1)"),
    }
    assert!(d.get("b").unwrap().is_none());
    round_trip("0C 00 00 00 10 61 00 01 00 00 00 00");
}

#[test]
fn declared_length_must_match() {
    let b = bytes("16 00 00 00 10 61 00 01 00 00 00 00");
    assert_eq!(RawDocument::from_bytes(&b).err(), Some(RawError::LengthMismatch));
    assert_eq!(RawDocument::from_bytes(&[4, 0, 0, 0]).err(), Some(RawError::SizeTooSmall));
    assert_eq!(RawDocument::from_bytes(&[5, 0, 0, 0, 1]).err(), Some(RawError::MissingTerminator));
    assert!(RawDocument::from_bytes(&[5, 0, 0, 0, 0]).unwrap().is_empty());
}

#[test]
fn truncated_document_is_rejected() {
    for h in ["0C0000001061000100000000", "0E00000002610002000000620000", "140000000378000C000000107900010000000000"].iter() {
        let mut b = bytes(h);
        b.pop();
        assert!(RawDocument::from_bytes(&b).is_err());
        assert!(from_slice(&b).is_err());
    }
}

#[test]
fn malformed_element_is_reported_mid_walk() {
    // second element has an unknown tag
    let b = bytes("13000000106100010000002062000100000000");
    let d = RawDocument::from_bytes(&b).unwrap();
    match d.get("a").unwrap() {
        Some(RawBsonRef::Int32(1)) => {}
        _ => panic!("first element"),
    }
    assert_eq!(d.get("b").err(), Some(RawError::MalformedElement { offset: 11 }));
    assert!(matches!(from_slice(&b), Err(OwnedError::Raw(RawError::MalformedElement { offset: 11 }))));
}

#[test]
fn binary_old_layout() {
    let payload = vec![0xFFu8, 0xFF];
    let doc = Document { entries: vec![("x".to_string(), Bson::Binary(bson_core::binary::Binary { subtype: BinarySubtype::BinaryOld, bytes: payload.clone() }))] };
    let out = doc.to_vec().unwrap();
    assert_eq!(hex::encode_upper(&out), "13000000057800060000000202000000FFFF00");
    let back = from_slice(&out).unwrap();
    match &back.entries[0].1 {
        Bson::Binary(b) => {
            assert_eq!(b.bytes, payload);
            assert_eq!(b.subtype, BinarySubtype::BinaryOld);
        }
        _ => panic!("binary"),
    }
    let raw = RawDocument::from_bytes(&out).unwrap();
    match raw.get("x").unwrap() {
        Some(RawBsonRef::Binary(b)) => {
            assert_eq!(b.bytes, &payload[..]);
            assert_eq!(b.len(), 6);
        }
        _ => panic!("raw binary"),
    }
}

#[test]
fn owned_conversion_writes_the_same_bytes() {
    let b = bytes("170000000F61000F000000020000006200050000000000");
    let raw = RawDocument::from_bytes(&b).unwrap();
    let v = raw.get("a").unwrap().unwrap();
    let mut direct = Vec::new();
    v.append_to(&mut direct);
    let owned = bson_core::owned::bson_from_raw(v, 10).unwrap();
    let mut via_owned = Vec::new();
    bson_core::owned::write_payload(&mut via_owned, &owned, 10).unwrap();
    assert_eq!(direct, via_owned);
}

#[test]
fn regex_options_are_sorted_when_owned() {
    let b = bytes("0F0000000B610061626300786D0000");
    let d = from_slice(&b).unwrap();
    match &d.entries[0].1 {
        Bson::RegularExpression(re) => {
            assert_eq!(re.pattern, "abc");
            assert_eq!(re.options, "mx");
        }
        _ => panic!("regex"),
    }
}

#[test]
fn array_getters() {
    let b = bytes("19000000103000010000000231000200000062000832000100");
    let a = RawArray::from_bytes(&b).unwrap();
    assert_eq!(a.get_i32(0).unwrap(), 1);
    assert_eq!(a.get_str(1).unwrap(), "b");
    assert_eq!(a.get_bool(2).unwrap(), true);
    let e = a.get_i64(0).unwrap_err();
    assert_eq!(e.index, 0);
    assert_eq!(e.kind, ValueAccessErrorKind::UnexpectedType { actual: ElementType::Int32, expected: ElementType::Int64 });
    assert_eq!(a.get_i32(3).unwrap_err().kind, ValueAccessErrorKind::NotPresent);
    assert!(!a.is_empty());
    let mut it = a.iter();
    let mut n = 0;
    while let Some(v) = it.next() {
        assert!(v.is_ok());
        n += 1;
    }
    assert_eq!(n, 3);
}

#[test]
fn array_getter_reports_malformed_bytes() {
    let good = bytes("090000000830000200");
    let arr = RawArray::from_bytes(&good).unwrap();
    assert!(matches!(arr.get_bool(0).unwrap_err().kind, ValueAccessErrorKind::InvalidBson(_)));
}

#[test]
fn non_canonical_bytes_are_normalised() {
    let odd = bytes("1B0000000461001300000010350001000000103700020000000000");
    let out = from_slice(&odd).unwrap().to_vec().unwrap();
    assert_eq!(hex::encode_upper(&out), "1B0000000461001300000010300001000000103100020000000000");
    let re = bytes("0F0000000B610061626300786D0000");
    let out = from_slice(&re).unwrap().to_vec().unwrap();
    assert_eq!(hex::encode_upper(&out), "0F0000000B6100616263006D780000");
}

#[test]
fn nested_owned_conversion_writes_the_same_bytes() {
    let b = bytes("1B0000000461001300000010300001000000103100020000000000");
    let raw = RawDocument::from_bytes(&b).unwrap();
    let v = raw.get("a").unwrap().unwrap();
    let mut direct = Vec::new();
    v.append_to(&mut direct);
    let owned = bson_core::owned::bson_from_raw(v, 10).unwrap();
    let mut via_owned = Vec::new();
    bson_core::owned::write_payload(&mut via_owned, &owned, 10).unwrap();
    assert_eq!(direct, via_owned);
}

#[test]
fn key_with_nul_is_refused() {
    let doc = Document { entries: vec![("a\0b".to_string(), Bson::Null)] };
    assert_eq!(doc.to_vec(), Err(OwnedError::KeyHasNul));
}

#[test]
fn repeated_key_keeps_first_place_and_last_value() {
    let b = bytes("1A00000010610001000000106200020000001061000300000000");
    let d = from_slice(&b).unwrap();
    assert_eq!(d.entries.len(), 2);
    assert_eq!(d.entries[0], ("a".to_string(), Bson::Int32(3)));
    assert_eq!(d.entries[1], ("b".to_string(), Bson::Int32(2)));
}

#[test]
fn document_insert_replaces_in_place() {
    let mut d = Document::new();
    d.insert("x".to_string(), Bson::Int32(1));
    d.insert("y".to_string(), Bson::Null);
    d.insert("x".to_string(), Bson::Int32(2));
    assert_eq!(d.entries, vec![("x".to_string(), Bson::Int32(2)), ("y".to_string(), Bson::Null)]);
}
